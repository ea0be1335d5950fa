//! The ledger file: append-only JSON lines at `PINKI_LEDGER`, by default
//! `./.pinki/ledger.jsonl`.
//!
//! Reading and appending the file is the program's work. What is decided about it
//! is here: which path the environment names, which lines of the file count and
//! under which 1-based line number, and what is said when a line is not an event
//! or is an event of a type this library does not know.

use vstd::prelude::*;
use crate::event::Event;
use crate::text::{append, char_vec, decimal, decimal_text, is_blank, owned, text_of, trimmed};

verus! {

/// The environment variable that relocates the ledger.
pub const ENV_VAR: &'static str = "PINKI_LEDGER";

/// Where the ledger lives when `PINKI_LEDGER` says nothing.
pub const DEFAULT_PATH: &'static str = "./.pinki/ledger.jsonl";

/// A ledger as read: its events in file order, and the warnings reading it raised.
#[derive(Debug)]
pub struct Ledger {
    pub events: Vec<Event>,
    pub warnings: Vec<String>,
}

/// The ledger path, given what `PINKI_LEDGER` holds: its value when it is set and
/// not empty, [`DEFAULT_PATH`] otherwise.
pub fn resolve_path(from_env: Option<String>) -> (p: String)
    ensures
        p@ == (match from_env {
            Some(v) => if v@.len() > 0 {
                v@
            } else {
                DEFAULT_PATH@
            },
            None => DEFAULT_PATH@,
        }),
{
    match from_env {
        Some(v) => if v.as_str().is_empty() {
            owned(DEFAULT_PATH)
        } else {
            v
        },
        None => owned(DEFAULT_PATH),
    }
}

/// The warning for a line holding an event of a type this library does not know.
pub open spec fn unknown_type_text(path: Seq<char>, line: nat) -> Seq<char> {
    "pinki: warning: "@ + path + " line "@ + decimal(line)
        + ": unknown event type, skipped — written by a newer pinki? The fold ignores it (§4); nothing was lost from the file"@
}

/// Warn of a line, numbered from 1, that holds an event of an unknown type: kept,
/// said so, and ignored by the fold.
pub fn unknown_type_warning(path: &str, line: u64) -> (s: String)
    ensures
        s@ == unknown_type_text(path@, line as nat),
{
    let mut s = owned("pinki: warning: ");
    append(&mut s, path);
    append(&mut s, " line ");
    let n = decimal_text(line);
    append(&mut s, n.as_str());
    append(
        &mut s,
        ": unknown event type, skipped — written by a newer pinki? The fold ignores it (§4); nothing was lost from the file",
    );
    s
}

/// What is said of a line, numbered from 1, that is not a pinki event, given the
/// parser's own account of it.
pub fn malformed_text(path: &str, line: u64, source: &str) -> (s: String)
    ensures
        s@ == "ledger "@ + path@ + ": line "@ + decimal(line as nat)
            + " is not a valid pinki event: "@ + source@,
{
    let mut s = owned("ledger ");
    append(&mut s, path);
    append(&mut s, ": line ");
    let n = decimal_text(line);
    append(&mut s, n.as_str());
    append(&mut s, " is not a valid pinki event: ");
    append(&mut s, source);
    s
}

/// What is said when the file at `path` could not be read or written.
pub fn io_text(path: &str, source: &str) -> (s: String)
    ensures
        s@ == "ledger "@ + path@ + ": "@ + source@,
{
    let mut s = owned("ledger ");
    append(&mut s, path);
    append(&mut s, ": ");
    append(&mut s, source);
    s
}

/// What is said when an event could not be turned into JSON.
pub fn encode_text(source: &str) -> (s: String)
    ensures
        s@ == "could not encode event as JSON: "@ + source@,
{
    let mut s = owned("could not encode event as JSON: ");
    append(&mut s, source);
    s
}

/// The pieces `str::split_inclusive('\n')` cuts `s` into: each ends with, and
/// keeps, its newline, but the last may end without one.
pub open spec fn pieces(s: Seq<char>) -> Seq<Seq<char>>
    decreases s.len(),
{
    if s.len() == 0 {
        Seq::empty()
    } else {
        let prev = pieces(s.drop_last());
        if prev.len() == 0 || prev.last().last() == '\n' {
            prev.push(seq![s.last()])
        } else {
            prev.update(prev.len() - 1, prev.last().push(s.last()))
        }
    }
}

/// A piece without its line ending, as `str::lines` gives it: a final newline goes,
/// and then a carriage return just before it.
pub open spec fn line_of(piece: Seq<char>) -> Seq<char> {
    if piece.len() > 0 && piece.last() == '\n' {
        let t = piece.drop_last();
        if t.len() > 0 && t.last() == '\r' {
            t.drop_last()
        } else {
            t
        }
    } else {
        piece
    }
}

/// The lines of the pieces `ps` that are not blank, each with its 1-based number.
pub open spec fn numbered(ps: Seq<Seq<char>>) -> Seq<(nat, Seq<char>)>
    decreases ps.len(),
{
    if ps.len() == 0 {
        Seq::empty()
    } else {
        let prev = numbered(ps.drop_last());
        let line = line_of(ps.last());
        if trimmed(line).len() == 0 {
            prev
        } else {
            prev.push((ps.len(), line))
        }
    }
}

/// The lines of a ledger file that hold something, each with its 1-based number in
/// the file: blank and all-white-space lines are skipped without shifting the
/// numbers of the lines after them.
pub open spec fn significant_lines(text: Seq<char>) -> Seq<(nat, Seq<char>)> {
    numbered(pieces(text))
}

/// One line of a ledger file, numbered from 1.
#[derive(Debug)]
pub struct Line {
    pub number: usize,
    pub text: String,
}

/// The characters of each piece.
pub open spec fn piece_views(v: Seq<Vec<char>>) -> Seq<Seq<char>> {
    v.map_values(|p: Vec<char>| p@)
}

/// The pieces of `text`, as [`pieces`] cuts it.
fn cut(text: &str) -> (ps: Vec<Vec<char>>)
    ensures
        piece_views(ps@) == pieces(text@),
        ps@.len() <= text@.len(),
{
    let cs = char_vec(text);
    let mut done: Vec<Vec<char>> = Vec::new();
    let mut cur: Vec<char> = Vec::new();
    let mut i: usize = 0;
    while i < cs.len()
        invariant
            cs@ == text@,
            i <= cs@.len(),
            forall|k: int| 0 <= k < done@.len() ==> #[trigger] done@[k]@.len() > 0 && done@[k]@.last() == '\n',
            cur@.len() > 0 ==> cur@.last() != '\n',
            pieces(text@.take(i as int)) == if cur@.len() == 0 {
                piece_views(done@)
            } else {
                piece_views(done@).push(cur@)
            },
            done@.len() + (if cur@.len() == 0 { 0int } else { 1int }) <= i,
        decreases cs@.len() - i,
    {
        let c = cs[i];
        let ghost t = text@.take(i as int);
        let ghost prev = pieces(t);
        proof {
            assert(text@.take(i + 1).drop_last() =~= t);
            assert(text@.take(i + 1).last() == c);
        }
        let ghost d0 = done@;
        let ghost c0 = cur@;
        cur.push(c);
        if c == '\n' {
            let piece = cur;
            cur = Vec::new();
            done.push(piece);
            proof {
                assert(piece_views(done@) =~= piece_views(d0).push(c0.push(c)));
                if c0.len() == 0 {
                    assert(c0.push(c) =~= seq![c]);
                } else {
                    assert(prev.last() == c0);
                    assert(piece_views(d0).push(c0).update(prev.len() - 1, c0.push(c)) =~= piece_views(d0).push(c0.push(c)));
                }
            }
        } else {
            proof {
                if c0.len() == 0 {
                    assert(cur@ =~= seq![c]);
                } else {
                    assert(prev.last() == c0);
                    assert(piece_views(d0).push(c0).update(prev.len() - 1, c0.push(c)) =~= piece_views(d0).push(cur@));
                }
            }
        }
        i = i + 1;
    }
    proof {
        assert(text@.take(cs@.len() as int) =~= text@);
    }
    if cur.len() > 0 {
        let ghost d0 = done@;
        done.push(cur);
        proof {
            assert(piece_views(done@) =~= piece_views(d0).push(cur@));
        }
    }
    done
}

/// A piece without its line ending.
fn strip_ending(piece: &Vec<char>) -> (line: String)
    ensures
        line@ == line_of(piece@),
{
    let n = piece.len();
    if n > 0 && piece[n - 1] == '\n' {
        if n > 1 && piece[n - 2] == '\r' {
            let s = crate::text::text_of_range(piece, 0, n - 2);
            proof {
                assert(piece@.drop_last().drop_last() =~= piece@.subrange(0, n - 2));
            }
            s
        } else {
            let s = crate::text::text_of_range(piece, 0, n - 1);
            proof {
                assert(piece@.drop_last() =~= piece@.subrange(0, n - 1));
            }
            s
        }
    } else {
        text_of(piece)
    }
}

/// The lines of a ledger file that hold something, with their 1-based numbers.
pub fn significant(text: &str) -> (lines: Vec<Line>)
    ensures
        lines@.len() == significant_lines(text@).len(),
        forall|j: int|
            0 <= j < lines@.len() ==> (#[trigger] lines@[j]).number == significant_lines(text@)[j].0
                && lines@[j].text@ == significant_lines(text@)[j].1,
{
    let ps = cut(text);
    let ghost pv = piece_views(ps@);
    let mut lines: Vec<Line> = Vec::new();
    let mut i: usize = 0;
    while i < ps.len()
        invariant
            pv == piece_views(ps@),
            i <= ps@.len(),
            lines@.len() == numbered(pv.take(i as int)).len(),
            forall|j: int|
                0 <= j < lines@.len() ==> (#[trigger] lines@[j]).number == numbered(pv.take(i as int))[j].0
                    && lines@[j].text@ == numbered(pv.take(i as int))[j].1,
        decreases ps@.len() - i,
    {
        proof {
            assert(pv.take(i + 1).drop_last() =~= pv.take(i as int));
            assert(pv.take(i + 1).last() == ps@[i as int]@);
        }
        let line = strip_ending(&ps[i]);
        if !is_blank(line.as_str()) {
            lines.push(Line { number: i + 1, text: line });
        }
        i = i + 1;
    }
    proof {
        assert(pv.take(ps@.len() as int) =~= pv);
    }
    lines
}

} // verus!
