//! The log's event types: `promise`, `amend`, `resolve`, `assess`, and the events a
//! reader does not know.
//!
//! State is a fold over these (see [`crate::state`]); nothing here stores a state.
//! In an `amend`, `resolve` or `assess` event, `promise` is the id being pointed at;
//! in a `promise` event the body is the record itself.

use vstd::prelude::*;
use crate::record::{Meta, Promise};
use crate::text::owned;

verus! {

/// The one assessment word published today. Assessments are speech acts, so the
/// `state` of an `assess` event stays free text.
pub const VIOLATED: &'static str = "violated";

/// The characters of [`VIOLATED`].
pub open spec fn violated_word() -> Seq<char> {
    seq!['v', 'i', 'o', 'l', 'a', 't', 'e', 'd']
}

/// One line of the ledger: a timestamp, kept as the text it arrived as, and a body.
#[derive(Debug, Clone)]
pub struct Event {
    pub ts: String,
    pub body: EventBody,
}

/// The body of an event.
#[derive(Debug, Clone)]
pub enum EventBody {
    /// Speaks a promise into existence. The body is the record.
    Promise(Promise),
    /// Moves a promise's horizon without rewriting its declaration.
    Amend {
        /// The id whose horizon is moving.
        promise: String,
        /// Who is moving it.
        by: String,
        /// The new deadline, ISO-8601.
        until: String,
        /// Why the deadline moved.
        reason: Option<String>,
        /// Opaque provenance for the act of amending.
        meta: Option<Meta>,
    },
    /// Ends a promise.
    Resolve {
        /// The id being resolved.
        promise: String,
        resolution: Resolution,
        /// Opaque provenance for the act of resolving.
        meta: Option<Meta>,
    },
    /// Publishes an assessment. Never terminal.
    Assess {
        /// The id being assessed.
        promise: String,
        state: String,
        observer: String,
        note: Option<String>,
        /// Opaque provenance for the act of assessing.
        meta: Option<Meta>,
    },
    /// An event whose `type` this library does not know. Its body was not kept.
    Unknown,
}

/// How a promise ended.
#[derive(Debug, Clone)]
#[allow(inconsistent_fields)]
pub enum Resolution {
    /// Resolved by the debtor, with evidence: outward-pointing references.
    Satisfied { by: String, evidence: Vec<String> },
    /// Resolved by the debtor, with a reason.
    Cancelled { by: String, reason: String },
    /// Resolved by the creditor letting the debtor off.
    Released { by: String, reason: Option<String> },
}

/// The promise id an event is about: the record's id for a `promise` event, the
/// referenced id otherwise, and no id at all for an unknown event.
pub open spec fn subject_of(body: EventBody) -> Seq<char> {
    match body {
        EventBody::Promise(p) => p.id@,
        EventBody::Amend { promise, .. } => promise@,
        EventBody::Resolve { promise, .. } => promise@,
        EventBody::Assess { promise, .. } => promise@,
        EventBody::Unknown => Seq::empty(),
    }
}

/// The opaque provenance an event body carries.
pub open spec fn meta_of(body: EventBody) -> Option<Meta> {
    match body {
        EventBody::Promise(p) => p.meta,
        EventBody::Amend { meta, .. } => meta,
        EventBody::Resolve { meta, .. } => meta,
        EventBody::Assess { meta, .. } => meta,
        EventBody::Unknown => None,
    }
}

/// The `by` of a resolution: who issued it.
pub open spec fn issuer_of(r: Resolution) -> Seq<char> {
    match r {
        Resolution::Satisfied { by, .. } => by@,
        Resolution::Cancelled { by, .. } => by@,
        Resolution::Released { by, .. } => by@,
    }
}

/// The `as` word of a resolution, as it appears on the wire.
pub open spec fn outcome_word(r: Resolution) -> Seq<char> {
    match r {
        Resolution::Satisfied { .. } => seq!['s', 'a', 't', 'i', 's', 'f', 'i', 'e', 'd'],
        Resolution::Cancelled { .. } => seq!['c', 'a', 'n', 'c', 'e', 'l', 'l', 'e', 'd'],
        Resolution::Released { .. } => seq!['r', 'e', 'l', 'e', 'a', 's', 'e', 'd'],
    }
}

impl Event {
    /// An event with an explicit timestamp.
    pub fn new(ts: String, body: EventBody) -> (e: Event)
        ensures
            e.ts == ts,
            e.body == body,
    {
        Event { ts, body }
    }

    /// The promise id this event is about; empty for an unknown event.
    pub fn subject(&self) -> (s: &str)
        ensures
            s@ == subject_of(self.body),
    {
        match &self.body {
            EventBody::Promise(p) => p.id.as_str(),
            EventBody::Amend { promise, .. } => promise.as_str(),
            EventBody::Resolve { promise, .. } => promise.as_str(),
            EventBody::Assess { promise, .. } => promise.as_str(),
            EventBody::Unknown => {
                proof {
                    reveal_strlit("");
                }
                ""
            },
        }
    }

    /// The resolution carried by a `resolve` event, if this is one.
    pub fn resolution(&self) -> (r: Option<&Resolution>)
        ensures
            match self.body {
                EventBody::Resolve { resolution, .. } => r == Some(&resolution),
                _ => r is None,
            },
    {
        match &self.body {
            EventBody::Resolve { resolution, .. } => Some(resolution),
            _ => None,
        }
    }

    /// The opaque provenance this event carries, if any.
    pub fn meta(&self) -> (m: Option<&Meta>)
        ensures
            match m {
                Some(x) => meta_of(self.body) == Some(*x),
                None => meta_of(self.body) is None,
            },
    {
        match &self.body {
            EventBody::Promise(p) => p.meta.as_ref(),
            EventBody::Amend { meta, .. } => meta.as_ref(),
            EventBody::Resolve { meta, .. } => meta.as_ref(),
            EventBody::Assess { meta, .. } => meta.as_ref(),
            EventBody::Unknown => None,
        }
    }
}

impl EventBody {
    /// Attach opaque provenance: the one way `meta` gets onto any event. An unknown
    /// body is returned as it is.
    pub fn with_meta(self, meta: Option<Meta>) -> (b: EventBody)
        ensures
            match self {
                EventBody::Promise(p) => b == EventBody::Promise(Promise { meta, ..p }),
                EventBody::Amend { promise, by, until, reason, .. } => b == (EventBody::Amend {
                    promise,
                    by,
                    until,
                    reason,
                    meta,
                }),
                EventBody::Resolve { promise, resolution, .. } => b == (EventBody::Resolve {
                    promise,
                    resolution,
                    meta,
                }),
                EventBody::Assess { promise, state, observer, note, .. } => b == (
                EventBody::Assess { promise, state, observer, note, meta }),
                EventBody::Unknown => b == EventBody::Unknown,
            },
    {
        match self {
            EventBody::Promise(p) => EventBody::Promise(Promise { meta, ..p }),
            EventBody::Amend { promise, by, until, reason, .. } => EventBody::Amend {
                promise,
                by,
                until,
                reason,
                meta,
            },
            EventBody::Resolve { promise, resolution, .. } => EventBody::Resolve {
                promise,
                resolution,
                meta,
            },
            EventBody::Assess { promise, state, observer, note, .. } => EventBody::Assess {
                promise,
                state,
                observer,
                note,
                meta,
            },
            EventBody::Unknown => EventBody::Unknown,
        }
    }

    /// A `promise` event body.
    pub fn promise(record: Promise) -> (b: EventBody)
        ensures
            b == EventBody::Promise(record),
    {
        EventBody::Promise(record)
    }

    /// An `amend` event body: the same promise, a new horizon.
    pub fn amend(promise: &str, by: &str, until: &str, reason: Option<String>) -> (b: EventBody)
        ensures
            b matches EventBody::Amend { promise: p, by: w, until: u, reason: r, meta: m } && p@
                == promise@ && w@ == by@ && u@ == until@ && r == reason && m is None,
    {
        EventBody::Amend {
            promise: owned(promise),
            by: owned(by),
            until: owned(until),
            reason,
            meta: None,
        }
    }

    /// `resolve … --satisfied`: issued by the debtor, with evidence.
    pub fn satisfied(promise: &str, by: &str, evidence: Vec<String>) -> (b: EventBody)
        ensures
            b matches EventBody::Resolve {
                promise: p,
                resolution: Resolution::Satisfied { by: w, evidence: e },
                meta: m,
            } && p@ == promise@ && w@ == by@ && e == evidence && m is None,
    {
        EventBody::Resolve {
            promise: owned(promise),
            resolution: Resolution::Satisfied { by: owned(by), evidence },
            meta: None,
        }
    }

    /// `resolve … --cancelled`: issued by the debtor, with a reason.
    pub fn cancelled(promise: &str, by: &str, reason: &str) -> (b: EventBody)
        ensures
            b matches EventBody::Resolve {
                promise: p,
                resolution: Resolution::Cancelled { by: w, reason: r },
                meta: m,
            } && p@ == promise@ && w@ == by@ && r@ == reason@ && m is None,
    {
        EventBody::Resolve {
            promise: owned(promise),
            resolution: Resolution::Cancelled { by: owned(by), reason: owned(reason) },
            meta: None,
        }
    }

    /// `resolve … --released`: issued by the creditor; a reason is optional.
    pub fn released(promise: &str, by: &str, reason: Option<String>) -> (b: EventBody)
        ensures
            b matches EventBody::Resolve {
                promise: p,
                resolution: Resolution::Released { by: w, reason: r },
                meta: m,
            } && p@ == promise@ && w@ == by@ && r == reason && m is None,
    {
        EventBody::Resolve {
            promise: owned(promise),
            resolution: Resolution::Released { by: owned(by), reason },
            meta: None,
        }
    }

    /// An `assess` event publishing [`VIOLATED`].
    pub fn violated(promise: &str, observer: &str, note: Option<String>) -> (b: EventBody)
        ensures
            b matches EventBody::Assess { promise: p, state: s, observer: o, note: n, meta: m }
                && p@ == promise@ && s@ == violated_word() && o@ == observer@ && n == note
                && m is None,
    {
        proof {
            reveal_strlit("violated");
        }
        EventBody::Assess {
            promise: owned(promise),
            state: owned(VIOLATED),
            observer: owned(observer),
            note,
            meta: None,
        }
    }
}

impl Resolution {
    /// The `as` word, as it appears on the wire.
    pub fn as_str(&self) -> (s: &'static str)
        ensures
            s@ == outcome_word(*self),
    {
        proof {
            reveal_strlit("satisfied");
            reveal_strlit("cancelled");
            reveal_strlit("released");
        }
        match self {
            Resolution::Satisfied { .. } => "satisfied",
            Resolution::Cancelled { .. } => "cancelled",
            Resolution::Released { .. } => "released",
        }
    }

    /// Who issued the resolve. Recorded as claimed, never checked.
    pub fn by(&self) -> (s: &str)
        ensures
            s@ == issuer_of(*self),
    {
        match self {
            Resolution::Satisfied { by, .. } => by.as_str(),
            Resolution::Cancelled { by, .. } => by.as_str(),
            Resolution::Released { by, .. } => by.as_str(),
        }
    }
}

} // verus!
