//! pinki: a promise ledger's vocabulary, its fold, and the rules at its edge.

pub mod a2a;
pub mod cli;
pub mod event;
pub mod id;
pub mod instant;
pub mod laws;
pub mod ledger;
pub mod record;
pub mod state;
pub mod text;
pub mod verbs;
