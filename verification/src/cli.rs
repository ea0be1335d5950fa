//! The argument surface: the verbs and their flags, as plain values.
//!
//! This module only describes a command. Everything it holds is validated by
//! [`crate::verbs`]; parsing the command line into it is the program's job.

use vstd::prelude::*;
use crate::record::MetaShape;

verus! {

/// A parsed command line.
#[derive(Debug)]
pub struct Cli {
    pub command: Command,
}

/// The verbs.
#[derive(Debug)]
pub enum Command {
    /// Speak a promise into existence. With no text, the record comes as JSON on stdin.
    Promise(PromiseArgs),
    /// Move a promise's deadline. The debtor's act; the declaration is never rewritten.
    Amend(AmendArgs),
    /// End a promise: satisfied (with evidence), cancelled (with a reason), or released.
    Resolve(ResolveArgs),
    /// Publish an assessment of a promise. Never terminal.
    Assess(AssessArgs),
    /// List promises, filtered by computed state.
    Ls(LsArgs),
    /// Show one promise: its record, its state, its resolution, every assessment.
    Show(ShowArgs),
    /// Emit an A2A block.
    A2a { command: A2aCommand },
}

/// `promise TEXT --by WHO --to WHO --until ISO [--on ID] [--task ID] [--id ID] [--meta JSON]`.
#[derive(Debug)]
pub struct PromiseArgs {
    /// The thing owed, as free text. Absent: the record comes as JSON on stdin.
    pub text: Option<String>,
    /// The debtor.
    pub by: Option<String>,
    /// The creditor.
    pub to: Option<String>,
    /// Deadline, as an ISO-8601 instant with an offset.
    pub until: Option<String>,
    /// Antecedent: the id of the promise this one waits on.
    pub on: Option<String>,
    /// The A2A Task.id this promise is about.
    pub task: Option<String>,
    /// Use this id instead of minting one.
    pub id: Option<String>,
    /// Opaque provenance for the record, as the JSON given with `--meta` reads.
    pub meta: Option<MetaShape>,
}

/// `amend ID --until ISO [--reason TEXT] [--by WHO] [--meta JSON]`.
#[derive(Debug)]
pub struct AmendArgs {
    /// The promise whose deadline moves.
    pub id: String,
    /// The new deadline, as an ISO-8601 instant with an offset.
    pub until: String,
    /// Why the deadline moved. Encouraged, not required.
    pub reason: Option<String>,
    /// Who is moving it. Defaults to the debtor, the only party who may.
    pub by: Option<String>,
    /// Opaque provenance for the act of amending, as the JSON given with `--meta`
    /// reads.
    pub meta: Option<MetaShape>,
}

/// `resolve ID (--satisfied --evidence REF… | --cancelled --reason TEXT | --released)
/// [--by WHO] [--meta JSON]`.
#[derive(Debug)]
pub struct ResolveArgs {
    /// The promise being resolved.
    pub id: String,
    /// Resolved by the debtor, with evidence.
    pub satisfied: bool,
    /// Resolved by the debtor, with a reason.
    pub cancelled: bool,
    /// The creditor lets the debtor off.
    pub released: bool,
    /// References pointing outward. Required with `--satisfied`.
    pub evidence: Vec<String>,
    /// Why. Required with `--cancelled`, optional with `--released`.
    pub reason: Option<String>,
    /// Who is claiming this. Defaults to the debtor, or the creditor for `--released`.
    pub by: Option<String>,
    /// Opaque provenance for the act of resolving, as the JSON given with `--meta`
    /// reads.
    pub meta: Option<MetaShape>,
}

/// `assess ID --violated --observer WHO [--note TEXT] [--meta JSON]`.
#[derive(Debug)]
pub struct AssessArgs {
    /// The promise being assessed.
    pub id: String,
    /// Assert that this promise was broken.
    pub violated: bool,
    /// Who is making the assessment.
    pub observer: String,
    /// Free text supporting the assessment.
    pub note: Option<String>,
    /// Opaque provenance for the act of assessing, as the JSON given with `--meta`
    /// reads.
    pub meta: Option<MetaShape>,
}

/// `ls [--open|--overdue|--all] [--by WHO] [--to WHO] [--json]`.
#[derive(Debug)]
pub struct LsArgs {
    /// Everything not in a terminal state. The default.
    pub open: bool,
    /// The overdue subset alone.
    pub overdue: bool,
    /// Every promise, terminal states included.
    pub all: bool,
    /// Only promises owed by this identity.
    pub by: Option<String>,
    /// Only promises owed to this identity.
    pub to: Option<String>,
    /// Emit a JSON array instead of a table.
    pub json: bool,
}

/// The state filter `ls` applies.
#[derive(Debug, Clone, Copy, PartialEq, Eq, Structural)]
pub enum Scope {
    /// conditional + detached + overdue.
    Open,
    /// overdue alone.
    Overdue,
    /// Everything, terminal states included.
    All,
}

impl LsArgs {
    /// Which computed states to show: `--all` over `--overdue`, and `--open` when
    /// nothing is asked for.
    pub fn scope(&self) -> (s: Scope)
        ensures
            s == (if self.all {
                Scope::All
            } else if self.overdue {
                Scope::Overdue
            } else {
                Scope::Open
            }),
    {
        if self.all {
            Scope::All
        } else if self.overdue {
            Scope::Overdue
        } else {
            Scope::Open
        }
    }
}

/// `show ID [--json]`.
#[derive(Debug)]
pub struct ShowArgs {
    /// The promise to show.
    pub id: String,
    /// Emit one JSON object instead of a human-readable block.
    pub json: bool,
}

/// `a2a card` and `a2a task ID`.
#[derive(Debug)]
pub enum A2aCommand {
    /// Emit the AgentCard extension block.
    Card,
    /// Emit the Task metadata block carrying one promise record.
    Task { id: String },
}

} // verus!
