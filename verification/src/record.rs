//! The promise record: who owes what to whom, by when.
//!
//! One record type, with no status field: state is computed from the log, never
//! stored. `meta` is opaque provenance; this library carries it as the compact JSON
//! text of an object and never reads what is inside it.

use vstd::prelude::*;
use crate::text::char_vec;

verus! {

/// Opaque caller-supplied provenance: the compact JSON text of one object, carried
/// verbatim and never interpreted.
pub type Meta = String;

/// The most bytes a `meta` object may take, written compactly.
pub const META_CAP: usize = 8192;

/// What a `meta` value given at the edge turned out to be, as a JSON reader saw it:
/// not JSON at all (with the reader's account of why), a value of some other kind,
/// or an object with its member count and its compact text, keys sorted.
#[derive(Debug)]
pub enum MetaShape {
    NotJson(String),
    Null,
    Bool,
    Number,
    Text,
    Array,
    Object { members: usize, compact: String },
}

/// How many bytes UTF-8 takes for the character `c`.
pub open spec fn utf8_width(c: char) -> nat {
    if (c as u32) < 0x80 {
        1
    } else if (c as u32) < 0x800 {
        2
    } else if (c as u32) < 0x10000 {
        3
    } else {
        4
    }
}

/// How many bytes UTF-8 takes for the characters `s`: what `str::len` counts.
pub open spec fn utf8_len(s: Seq<char>) -> nat
    decreases s.len(),
{
    if s.len() == 0 {
        0
    } else {
        utf8_len(s.drop_last()) + utf8_width(s.last())
    }
}

/// Does `s` take more than `cap` bytes as UTF-8?
pub fn bytes_exceed(s: &str, cap: usize) -> (r: bool)
    ensures
        r == (utf8_len(s@) > cap),
{
    let cs = char_vec(s);
    let mut total: usize = 0;
    let mut i: usize = 0;
    while i < cs.len()
        invariant
            cs@ == s@,
            i <= cs@.len(),
            total == utf8_len(s@.take(i as int)),
            total <= cap,
        decreases cs@.len() - i,
    {
        let c = cs[i];
        let w: usize = if (c as u32) < 0x80 {
            1
        } else if (c as u32) < 0x800 {
            2
        } else if (c as u32) < 0x10000 {
            3
        } else {
            4
        };
        proof {
            assert(s@.take(i + 1).drop_last() =~= s@.take(i as int));
            assert(s@.take(i + 1).last() == c);
        }
        if w > cap - total {
            proof {
                lemma_utf8_len_grows(s@, i + 1);
            }
            return true;
        }
        total = total + w;
        i = i + 1;
    }
    proof {
        assert(s@.take(cs@.len() as int) =~= s@);
    }
    false
}

/// A longer prefix takes at least as many bytes.
proof fn lemma_utf8_len_grows(s: Seq<char>, k: int)
    requires
        0 <= k <= s.len(),
    ensures
        utf8_len(s.take(k)) <= utf8_len(s),
    decreases s.len() - k,
{
    if k < s.len() {
        lemma_utf8_len_grows(s, k + 1);
        assert(s.take(k + 1).drop_last() =~= s.take(k));
    } else {
        assert(s.take(k) =~= s);
    }
}

/// A promise: a debtor (`by`) owes a creditor (`to`) a thing (`promise`) by a
/// deadline (`until`), possibly only once another promise (`on`) is satisfied.
#[derive(Debug, Clone)]
pub struct Promise {
    /// Stable identifier. Opaque.
    pub id: String,
    /// Free text. The thing owed.
    pub promise: String,
    /// The debtor: who owes.
    pub by: String,
    /// The creditor: who is owed.
    pub to: String,
    /// Antecedent: the `id` of another promise. Absent means born owed.
    pub on: Option<String>,
    /// Deadline, ISO-8601. Required: a promise without one is a wish.
    pub until: String,
    /// The A2A `Task.id` this promise is about, when there is one.
    pub task: Option<String>,
    /// Opaque provenance, when somebody supplied any.
    pub meta: Option<Meta>,
}

} // verus!
