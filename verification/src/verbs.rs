//! The verbs' decisions: what each command appends or prints, given the ledger's
//! events and `now`.
//!
//! Reading the ledger, reading stdin, appending, and printing are the program's
//! work; everything between is here. The strictness the ledger format asks for is
//! enforced at this edge, never in the fold, which must be able to read a ledger
//! somebody else wrote: `--evidence` present and non-blank for `--satisfied`, a
//! reason for `--cancelled`, an `--until` that parses as an instant, an id that is
//! acceptable and not already declared, a `meta` that is a non-empty object within
//! its cap, an amend only by the debtor and only of an unresolved promise.
//!
//! Each verb's decision is stated as a spec predicate over the command, the ledger
//! as read (or the failure to read it), `now`, the ledger's path, the outcome, and
//! the notes for stderr before and after; [`run`] dispatches and is stated by
//! [`ran`]. A malformed command is refused before the ledger is consulted, and then
//! nothing the ledger said — not even its own warnings — reaches stderr.
//!
//! Failures come in two kinds: [`Fail::Usage`] (malformed input, exit 2) and
//! [`Fail::Op`] (well formed but could not be carried out, exit 1).

use vstd::prelude::*;
use vstd::hash_set::StringHashSet;
use crate::cli::{
    A2aCommand, AmendArgs, AssessArgs, Command, LsArgs, PromiseArgs, ResolveArgs, Scope,
    ShowArgs,
};
use crate::event::{
    Event, EventBody, Resolution, issuer_of, outcome_word, subject_of, violated_word,
};
use crate::id::{
    check_supplied, holds_a_minted_id, mint, minted_form, prefix_chars, supplied_error_message, supplied_verdict,
    MAX_ATTEMPTS, SuppliedIdError,
};
use crate::instant::{Instant, instant_text, parsed_instant};
use crate::ledger::Ledger;
use crate::record::{MetaShape, Promise, META_CAP, bytes_exceed, utf8_len};
use crate::state::{
    assessment_indices, declared_ids, fold, lemma_declared_ids_match_records_pub, record_of,
    resolution_index,
    horizon, state_of, state_word, terminal, view_describes, Fold, PromiseView, State,
};
use crate::text::{
    append, char_is_control, char_vec, concat, decimal, decimal_text, is_control_char, owned,
    push_char, same_text, text_of, trim, trimmed,
};

verus! {

/// A command that did not succeed.
#[derive(Debug)]
pub enum Fail {
    /// Malformed input or a usage error. Exit code 2.
    Usage(String),
    /// The command was well formed but could not be carried out. Exit code 1.
    Op(String),
}

/// A usage failure saying exactly `text`.
pub open spec fn usage_says(f: Fail, text: Seq<char>) -> bool {
    f matches Fail::Usage(m) && m@ == text
}

/// An operational failure saying exactly `text`.
pub open spec fn op_says(f: Fail, text: Seq<char>) -> bool {
    f matches Fail::Op(m) && m@ == text
}

impl Fail {
    /// The process exit code for this failure.
    pub fn code(&self) -> (c: i32)
        ensures
            c == (match self {
                Fail::Usage(_) => 2i32,
                Fail::Op(_) => 1i32,
            }),
    {
        match self {
            Fail::Usage(_) => 2,
            Fail::Op(_) => 1,
        }
    }

    /// What went wrong, in words.
    pub fn message(&self) -> (m: &str)
        ensures
            m@ == (match self {
                Fail::Usage(s) => s@,
                Fail::Op(s) => s@,
            }),
    {
        match self {
            Fail::Usage(message) => message.as_str(),
            Fail::Op(message) => message.as_str(),
        }
    }
}

/// Trim, and refuse the empty string. Whitespace is not a value.
pub fn non_blank(value: &str, what: &str) -> (r: Result<String, Fail>)
    ensures
        match r {
            Ok(s) => trimmed(value@).len() > 0 && s@ == trimmed(value@),
            Err(f) => trimmed(value@).len() == 0 && usage_says(f, what@ + " is empty"@),
        },
{
    let t = trim(value);
    if t.as_str().is_empty() {
        return Err(Fail::Usage(concat(what, " is empty")));
    }
    Ok(t)
}

/// A flag the flag form of `promise` cannot do without.
pub fn required_flag(value: Option<String>, flag: &str) -> (r: Result<String, Fail>)
    ensures
        match value {
            Some(v) => r == Ok::<String, Fail>(v),
            None => r matches Err(f) && usage_says(
                f,
                flag@ + " is required: pinki promise TEXT --by WHO --to WHO --until ISO"@,
            ),
        },
{
    match value {
        Some(v) => Ok(v),
        None => Err(
            Fail::Usage(concat(flag, " is required: pinki promise TEXT --by WHO --to WHO --until ISO")),
        ),
    }
}

/// The refusal of an `--until` that does not parse.
pub open spec fn until_refusal(trimmed_until: Seq<char>) -> Seq<char> {
    "--until `"@ + trimmed_until + "` is not an ISO-8601 instant: "@
        + crate::instant::refusal_text(trimmed_until)
        + "\na deadline must name an unambiguous moment, so it needs an offset — try `2026-09-01T17:00Z`, `2026-09-01T17:00:00Z`, or `2026-09-01T10:00:00-07:00`"@
}

/// Parse `--until` as an instant, and give it back normalized as jiff prints it.
pub fn parse_until(until: &str) -> (r: Result<String, Fail>)
    ensures
        match crate::instant::parsed_instant(trimmed(until@)) {
            Some(n) => r matches Ok(s) && s@ == crate::instant::instant_text(n),
            None => r matches Err(f) && usage_says(f, until_refusal(trimmed(until@))),
        },
{
    let t = trim(until);
    match crate::instant::parse_instant_or_refusal(t.as_str()) {
        Ok(n) => {
            let instant = crate::instant::Instant::from_nanosecond(n);
            match instant {
                Some(i) => Ok(i.to_text()),
                None => Ok(String::new()),
            }
        },
        Err(e) => {
            let m = concat("--until `", t.as_str());
            let m = concat(m.as_str(), "` is not an ISO-8601 instant: ");
            let m = concat(m.as_str(), e.as_str());
            let m = concat(
                m.as_str(),
                "\na deadline must name an unambiguous moment, so it needs an offset — try `2026-09-01T17:00Z`, `2026-09-01T17:00:00Z`, or `2026-09-01T10:00:00-07:00`",
            );
            Err(Fail::Usage(m))
        },
    }
}

/// `s` with every control character replaced by a space.
pub open spec fn flattened(s: Seq<char>) -> Seq<char> {
    Seq::new(s.len(), |i: int| if is_control_char(s[i]) { ' ' } else { s[i] })
}

/// Free text cut to at most `max` characters for a table: control characters become
/// spaces, and text that does not fit keeps `max - 3` characters and an ASCII `...`.
pub open spec fn ellipsized(s: Seq<char>, max: nat) -> Seq<char> {
    let f = flattened(s);
    if f.len() <= max {
        f
    } else {
        f.take(if max >= 3 { max - 3 } else { 0 }) + seq!['.', '.', '.']
    }
}

/// Truncate free text for the table, with an ASCII ellipsis. Counts characters,
/// not bytes.
pub fn ellipsize(text: &str, max: usize) -> (r: String)
    ensures
        r@ == ellipsized(text@, max as nat),
{
    let cs = char_vec(text);
    let mut flat: Vec<char> = Vec::new();
    let mut i: usize = 0;
    while i < cs.len()
        invariant
            cs@ == text@,
            i <= cs@.len(),
            flat@ == flattened(text@).take(i as int),
        decreases cs@.len() - i,
    {
        let c = cs[i];
        let d = if char_is_control(c) { ' ' } else { c };
        flat.push(d);
        proof {
            assert(flattened(text@).take(i + 1) == flattened(text@).take(i as int).push(d));
        }
        i = i + 1;
    }
    proof {
        assert(flat@ == flattened(text@));
    }
    if flat.len() <= max {
        return text_of(&flat);
    }
    let keep: usize = if max >= 3 { max - 3 } else { 0 };
    let mut head = crate::text::text_of_range(&flat, 0, keep);
    push_char(&mut head, '.');
    push_char(&mut head, '.');
    push_char(&mut head, '.');
    proof {
        assert(flat@.subrange(0, keep as int) == flat@.take(keep as int));
        assert(head@ == flattened(text@).take(keep as int) + seq!['.', '.', '.']);
    }
    head
}

/// The widest of a column's cells, in characters; 0 for no cells.
pub open spec fn widest(cells: Seq<Seq<char>>) -> nat
    decreases cells.len(),
{
    if cells.len() == 0 {
        0
    } else {
        let rest = widest(cells.drop_last());
        if cells.last().len() > rest {
            cells.last().len()
        } else {
            rest
        }
    }
}

/// The widest of a column's cells, in characters.
pub fn width(cells: &Vec<String>) -> (w: usize)
    ensures
        w == widest(views_of(cells@)),
{
    let ghost views = views_of(cells@);
    let mut w: usize = 0;
    let mut i: usize = 0;
    while i < cells.len()
        invariant
            views == views_of(cells@),
            i <= cells@.len(),
            w == widest(views.take(i as int)),
        decreases cells@.len() - i,
    {
        let n = char_vec(cells[i].as_str()).len();
        proof {
            assert(views.take(i + 1).drop_last() == views.take(i as int));
            assert(views.take(i + 1).last() == cells@[i as int]@);
        }
        if n > w {
            w = n;
        }
        i = i + 1;
    }
    proof {
        assert(views.take(cells@.len() as int) == views);
    }
    w
}

/// `n` spaces.
pub open spec fn spaces(n: nat) -> Seq<char> {
    Seq::new(n, |i: int| ' ')
}

/// `s` padded with spaces on the right to `width` characters; as it is when it is
/// already that wide.
pub open spec fn padded(s: Seq<char>, width: nat) -> Seq<char> {
    if s.len() >= width {
        s
    } else {
        s + spaces((width - s.len()) as nat)
    }
}

/// `s` padded with spaces on the right to `width` characters, as `{:<width$}` pads.
pub fn pad_right(s: &str, width: usize) -> (r: String)
    ensures
        r@ == padded(s@, width as nat),
{
    let mut r = owned(s);
    let n = char_vec(s).len();
    if n >= width {
        return r;
    }
    let mut k: usize = n;
    while k < width
        invariant
            n <= k <= width,
            n == s@.len(),
            r@ == s@ + spaces((k - n) as nat),
        decreases width - k,
    {
        push_char(&mut r, ' ');
        proof {
            assert(s@ + spaces((k + 1 - n) as nat) == (s@ + spaces((k - n) as nat)).push(' '));
        }
        k = k + 1;
    }
    r
}

} // verus!

verus! {

// ---------------------------------------------------------------- shared

/// The remark an unknown id earns when it wears the reserved prefix without being
/// an id pinki could have minted: no route could ever have declared it.
pub open spec fn reserved_hint(id: Seq<char>) -> Seq<char> {
    if id.len() >= 4 && id.take(4) == prefix_chars() && !minted_form(id) {
        " (and `"@ + id
            + "` could never have been declared: `pnk_` is reserved for minted ids, which are the prefix plus exactly six lowercase hex digits)"@
    } else {
        Seq::empty()
    }
}

/// What `verb` says of an id nothing in the ledger at `ledger` declares.
pub open spec fn unknown_id_text(id: Seq<char>, verb: Seq<char>, ledger: Seq<char>) -> Seq<char> {
    "cannot "@ + verb + " `"@ + id + "`: nothing in "@ + ledger + " declares it"@ + reserved_hint(
        id,
    )
}

/// An id nothing in the ledger declares: an operational failure, with a hint when
/// the id could never have been declared by any route.
pub fn unknown_id(id: &str, verb: &str, ledger: &str) -> (f: Fail)
    ensures
        op_says(f, unknown_id_text(id@, verb@, ledger@)),
{
    let mut m = owned("cannot ");
    append(&mut m, verb);
    append(&mut m, " `");
    append(&mut m, id);
    append(&mut m, "`: nothing in ");
    append(&mut m, ledger);
    append(&mut m, " declares it");
    proof {
        reveal_strlit("pnk_");
        assert("pnk_"@ == prefix_chars());
    }
    let ghost head = m@;
    if crate::text::starts_with(id, "pnk_") && !crate::id::is_well_formed(id) {
        append(&mut m, " (and `");
        append(&mut m, id);
        append(
            &mut m,
            "` could never have been declared: `pnk_` is reserved for minted ids, which are the prefix plus exactly six lowercase hex digits)",
        );
        proof {
            assert(m@ =~= head + reserved_hint(id@));
        }
    } else {
        proof {
            assert(m@ + reserved_hint(id@) =~= m@);
        }
    }
    Fail::Op(m)
}

/// The line every mutating verb prints: the id, a tab, and the state the ledger
/// folds it to at `now` — `unknown` for an id it does not declare.
pub open spec fn report_text(evs: Seq<Event>, now: int, id: Seq<char>) -> Seq<char> {
    id + "\t"@ + match record_of(evs, id) {
        Some(_) => state_word(state_of(evs, now, id)),
        None => "unknown"@,
    }
}

/// Look `id` up in a fold of `evs` at `now`.
fn lookup<'a, 'b>(folded: &'b Fold<'a>, id: &str, Ghost(evs): Ghost<Seq<Event>>, Ghost(now): Ghost<int>) -> (r: Option<&'b PromiseView<'a>>)
    requires
        folded.describes(evs, now),
    ensures
        match r {
            Some(v) => view_describes(*v, evs, now, id@),
            None => record_of(evs, id@) is None,
        },
{
    let r = folded.get(id);
    proof {
        lemma_declared_ids_match_records_pub(evs);
        match r {
            Some(v) => {
                let i = choose|i: int|
                    0 <= i < folded.spec_views().len() && folded.spec_views()[i] == *v
                        && v.record.id@ == id@;
                assert(view_describes(folded.spec_views()[i], evs, now, declared_ids(evs)[i]));
            },
            None => {
                assert forall|i: int| 0 <= i < declared_ids(evs).len() implies declared_ids(evs)[i]
                    != id@ by {
                    assert(view_describes(folded.spec_views()[i], evs, now, declared_ids(evs)[i]));
                }
                assert(!declared_ids(evs).contains(id@));
            },
        }
    }
    r
}

/// What every mutating verb prints once its event is in the ledger: the id, a tab,
/// and the state the ledger now folds it to.
pub fn report(events: &[Event], now: Instant, id: &str) -> (r: String)
    ensures
        r@ == report_text(events@, now.spec_nanos(), id@),
{
    let folded = fold(events, now);
    let mut r = owned(id);
    append(&mut r, "\t");
    match lookup(&folded, id, Ghost(events@), Ghost(now.spec_nanos())) {
        Some(v) => append(&mut r, v.state.as_str()),
        None => {
            proof {
                reveal_strlit("unknown");
            }
            append(&mut r, "unknown")
        },
    }
    r
}

} // verus!

verus! {

// ---------------------------------------------------------------- meta

/// Refusal: an empty `meta` object.
pub const EMPTY_META: &'static str = "`meta` is an empty object: provenance offered and left blank (§1). Omit it and no key is written at all. Nothing was appended";

/// Refusal: a `meta` object over [`META_CAP`] bytes.
pub const META_TOO_BIG: &'static str = "`meta` is over the cap of 8192 bytes written compactly (§1): a ledger line is a line, not a payload. Nothing was appended";

/// Refusal: `--meta` beside a record piped on stdin.
pub const META_WITH_STDIN: &'static str = "--meta is not accepted with a record on stdin: give `meta` inside the record itself (§1). Nothing was appended";

/// What kind of JSON value a `meta` that is not an object is, in words.
pub open spec fn meta_kind_word(m: MetaShape) -> Seq<char> {
    match m {
        MetaShape::Null => "null"@,
        MetaShape::Bool => "a boolean"@,
        MetaShape::Number => "a number"@,
        MetaShape::Text => "a string"@,
        MetaShape::Array => "an array"@,
        _ => Seq::empty(),
    }
}

/// The verdict on a `meta` given at the edge: the compact text of a non-empty
/// object within [`META_CAP`] bytes, or why not. Nothing inside it is checked.
pub open spec fn meta_verdict(m: MetaShape) -> Result<Seq<char>, Seq<char>> {
    match m {
        MetaShape::NotJson(e) => Err(
            "`meta` must be a JSON object (§1) and this is not JSON: "@ + e@
                + ". Nothing was appended"@,
        ),
        MetaShape::Object { members, compact } => if members == 0 {
            Err(EMPTY_META@)
        } else if utf8_len(compact@) > META_CAP {
            Err(META_TOO_BIG@)
        } else {
            Ok(compact@)
        },
        _ => Err(
            "`meta` must be a JSON object (§1) and this is "@ + meta_kind_word(m)
                + ": a consumer has to be able to read the one key it knows and ignore the rest. Nothing was appended"@,
        ),
    }
}

/// Why a `meta` given at the edge is refused; `None` when it is absent or will do.
pub open spec fn meta_refusal(m: Option<MetaShape>) -> Option<Seq<char>> {
    match m {
        Some(s) => match meta_verdict(s) {
            Err(e) => Some(e),
            Ok(_) => None,
        },
        None => None,
    }
}

/// `out` is the `meta` given, as it is recorded: absent when none was given.
pub open spec fn meta_fits(out: Option<String>, given: Option<MetaShape>) -> bool {
    match given {
        None => out is None,
        Some(s) => out matches Some(o) && meta_verdict(s) == Ok::<Seq<char>, Seq<char>>(o@),
    }
}

/// Check a `meta` given at the edge: it must be a non-empty JSON object within
/// [`META_CAP`] bytes written compactly.
pub fn check_meta(m: &Option<MetaShape>) -> (r: Result<Option<String>, Fail>)
    ensures
        match meta_refusal(*m) {
            Some(t) => refused_with(r, t),
            None => r matches Ok(o) && meta_fits(o, *m),
        },
{
    match m {
        None => Ok(None),
        Some(MetaShape::NotJson(e)) => {
            let mut t = owned("`meta` must be a JSON object (§1) and this is not JSON: ");
            append(&mut t, e.as_str());
            append(&mut t, ". Nothing was appended");
            Err(Fail::Usage(t))
        },
        Some(MetaShape::Object { members, compact }) => {
            if *members == 0 {
                Err(Fail::Usage(owned(EMPTY_META)))
            } else if bytes_exceed(compact.as_str(), META_CAP) {
                Err(Fail::Usage(owned(META_TOO_BIG)))
            } else {
                Ok(Some(owned(compact.as_str())))
            }
        },
        Some(other) => {
            proof {
                reveal_strlit("null");
                reveal_strlit("a boolean");
                reveal_strlit("a number");
                reveal_strlit("a string");
                reveal_strlit("an array");
            }
            let kind = match other {
                MetaShape::Null => "null",
                MetaShape::Bool => "a boolean",
                MetaShape::Number => "a number",
                MetaShape::Text => "a string",
                _ => "an array",
            };
            let mut t = owned("`meta` must be a JSON object (§1) and this is ");
            append(&mut t, kind);
            append(
                &mut t,
                ": a consumer has to be able to read the one key it knows and ignore the rest. Nothing was appended",
            );
            Err(Fail::Usage(t))
        },
    }
}

} // verus!

verus! {

// ---------------------------------------------------------------- what a resolve asks for

/// Refusal: `--reason` given with `--satisfied`.
pub const REASON_WITH_SATISFIED: &'static str = "--reason is not accepted with --satisfied: satisfaction is claimed with --evidence, a reference pointing outward at something another party could go and look at. A prose summary is welcome in a note; it is not evidence (§4)";

/// Refusal: `--satisfied` with no `--evidence`.
pub const NO_EVIDENCE: &'static str = "--satisfied requires at least one --evidence REF, and pinki will not append a resolve without one: a resolve event with an empty evidence list is malformed (§4). A reference is a URL, a file path, a commit SHA, or an A2A Artifact.artifact_id — pinki never fetches it, it only insists that it points somewhere";

/// Refusal: an `--evidence` value that is blank.
pub const BLANK_EVIDENCE: &'static str = "an --evidence value is empty: evidence must point at something another party could go and look at, so a blank reference is malformed (§4). Nothing was appended";

/// Refusal: `--evidence` given with `--cancelled`.
pub const EVIDENCE_WITH_CANCELLED: &'static str = "--evidence is not accepted with --cancelled: a cancelled promise was not done, so there is nothing to point at. Say why with --reason (§4)";

/// Refusal: `--cancelled` with no `--reason`.
pub const NO_REASON: &'static str = "--cancelled requires --reason TEXT: abandoning an obligation without saying why is the thing pinki exists to make visible (§4)";

/// Refusal: `--evidence` given with `--released`.
pub const EVIDENCE_WITH_RELEASED: &'static str = "--evidence is not accepted with --released: releasing is the creditor letting the debtor off, not a claim that the work was done (§4)";

/// The three ways a resolve can end a promise, once the command has been checked.
#[derive(Debug)]
pub enum Outcome {
    /// By the debtor, with trimmed, non-blank evidence.
    Satisfied(Vec<String>),
    /// By the debtor, with a trimmed, non-blank reason.
    Cancelled(String),
    /// By the creditor, with an optional trimmed, non-blank reason.
    Released(Option<String>),
}

/// `r` is the usage failure saying exactly `text`.
pub open spec fn refused_with<T>(r: Result<T, Fail>, text: Seq<char>) -> bool {
    r matches Err(f) && usage_says(f, text)
}

/// The characters of each string, trimmed.
pub open spec fn trimmed_each(v: Seq<String>) -> Seq<Seq<char>> {
    v.map_values(|s: String| trimmed(s@))
}

/// The characters of each string.
pub open spec fn views_of(v: Seq<String>) -> Seq<Seq<char>> {
    v.map_values(|s: String| s@)
}

/// Why a resolve command is malformed, checked in order: for `--satisfied`, no
/// `--reason` and at least one non-blank `--evidence`; for `--cancelled`, no
/// `--evidence` and a non-blank `--reason`; otherwise (`--released`) no
/// `--evidence` and, if given, a non-blank `--reason`. `None` when it is well formed.
pub open spec fn resolve_refusal(args: ResolveArgs) -> Option<Seq<char>> {
    if args.satisfied {
        if args.reason is Some {
            Some(REASON_WITH_SATISFIED@)
        } else if args.evidence@.len() == 0 {
            Some(NO_EVIDENCE@)
        } else if exists|i: int|
            0 <= i < args.evidence@.len() && #[trigger] trimmed(args.evidence@[i]@).len() == 0 {
            Some(BLANK_EVIDENCE@)
        } else {
            None
        }
    } else if args.cancelled {
        if args.evidence@.len() > 0 {
            Some(EVIDENCE_WITH_CANCELLED@)
        } else {
            match args.reason {
                None => Some(NO_REASON@),
                Some(t) => if trimmed(t@).len() == 0 {
                    Some("--reason"@ + " is empty"@)
                } else {
                    None
                },
            }
        }
    } else if args.evidence@.len() > 0 {
        Some(EVIDENCE_WITH_RELEASED@)
    } else {
        match args.reason {
            Some(t) => if trimmed(t@).len() == 0 {
                Some("--reason"@ + " is empty"@)
            } else {
                None
            },
            None => None,
        }
    }
}

/// `out` is `given` trimmed: absent when it is absent.
pub open spec fn trimmed_opt(out: Option<String>, given: Option<String>) -> bool {
    match given {
        None => out is None,
        Some(t) => out matches Some(o) && o@ == trimmed(t@),
    }
}

/// The outcome a well-formed resolve command asks for.
pub open spec fn outcome_fits(args: ResolveArgs, o: Outcome) -> bool {
    if args.satisfied {
        o matches Outcome::Satisfied(v) && views_of(v@) == trimmed_each(args.evidence@)
    } else if args.cancelled {
        o matches Outcome::Cancelled(s) && s@ == trimmed(args.reason.unwrap()@)
    } else {
        o matches Outcome::Released(reason) && trimmed_opt(reason, args.reason)
    }
}

/// What [`resolution_from`] gives for `args`.
pub open spec fn judged(args: ResolveArgs, r: Result<Outcome, Fail>) -> bool {
    match resolve_refusal(args) {
        Some(m) => refused_with(r, m),
        None => r matches Ok(o) && outcome_fits(args, o),
    }
}

/// Check what a resolve command asks for, before the ledger is consulted: a
/// malformed resolve is malformed whether or not the id exists.
pub fn resolution_from(args: &ResolveArgs) -> (r: Result<Outcome, Fail>)
    ensures
        judged(*args, r),
{
    if args.satisfied {
        if args.reason.is_some() {
            return Err(Fail::Usage(owned(REASON_WITH_SATISFIED)));
        }
        if args.evidence.len() == 0 {
            return Err(Fail::Usage(owned(NO_EVIDENCE)));
        }
        let mut evidence: Vec<String> = Vec::new();
        let mut i: usize = 0;
        while i < args.evidence.len()
            invariant
                args.satisfied,
                args.reason is None,
                args.evidence@.len() > 0,
                i <= args.evidence@.len(),
                views_of(evidence@) == trimmed_each(args.evidence@).take(i as int),
                forall|j: int| 0 <= j < i ==> #[trigger] trimmed(args.evidence@[j]@).len() > 0,
            decreases args.evidence@.len() - i,
        {
            let reference = trim(args.evidence[i].as_str());
            if reference.as_str().is_empty() {
                assert(trimmed(args.evidence@[i as int]@).len() == 0);
                return Err(Fail::Usage(owned(BLANK_EVIDENCE)));
            }
            let ghost before = evidence@;
            evidence.push(reference);
            proof {
                assert(evidence@ == before.push(reference));
                assert(views_of(evidence@) =~= views_of(before).push(reference@));
                assert(trimmed_each(args.evidence@)[i as int] == trimmed(args.evidence@[i as int]@));
                assert(trimmed_each(args.evidence@).take(i + 1) =~= trimmed_each(args.evidence@).take(
                    i as int,
                ).push(trimmed(args.evidence@[i as int]@)));
            }
            i = i + 1;
        }
        proof {
            assert(trimmed_each(args.evidence@).take(args.evidence@.len() as int) =~= trimmed_each(
                args.evidence@,
            ));
        }
        return Ok(Outcome::Satisfied(evidence));
    }
    if args.cancelled {
        if args.evidence.len() > 0 {
            return Err(Fail::Usage(owned(EVIDENCE_WITH_CANCELLED)));
        }
        return match &args.reason {
            None => Err(Fail::Usage(owned(NO_REASON))),
            Some(reason) => match non_blank(reason.as_str(), "--reason") {
                Ok(t) => Ok(Outcome::Cancelled(t)),
                Err(f) => Err(f),
            },
        };
    }
    if args.evidence.len() > 0 {
        return Err(Fail::Usage(owned(EVIDENCE_WITH_RELEASED)));
    }
    match &args.reason {
        None => Ok(Outcome::Released(None)),
        Some(reason) => match non_blank(reason.as_str(), "--reason") {
            Ok(t) => Ok(Outcome::Released(Some(t))),
            Err(f) => Err(f),
        },
    }
}

} // verus!

verus! {

// ---------------------------------------------------------------- effects

/// One `ls --json` row: a record, its computed state, and its current horizon.
#[derive(Debug)]
pub struct Row<'a> {
    pub record: &'a Promise,
    pub state: State,
    pub until: &'a str,
}

/// What `show --json` prints of one promise: the record, its computed state, its
/// current horizon, the `resolve` event that ended it, and every assessment of it in
/// log order.
#[derive(Debug)]
pub struct Detail<'a> {
    pub record: &'a Promise,
    pub state: State,
    pub until: &'a str,
    pub resolution: Option<&'a Event>,
    pub assessments: Vec<&'a Event>,
}

/// What a verb asks of the program once it has decided.
#[derive(Debug)]
pub enum Effect<'a> {
    /// Append `event` to the ledger, then print what [`report`] says of `id` in the
    /// ledger with the event at its end.
    Append { event: Event, id: String },
    /// Print these lines on stdout.
    Print(Vec<String>),
    /// Print these rows as a JSON array.
    Rows(Vec<Row<'a>>),
    /// Print this promise as one JSON object.
    Detail(Detail<'a>),
    /// Print the AgentCard extension block.
    Card,
    /// Print the Task metadata block carrying this record, with its current horizon
    /// as its `until`.
    TaskBlock { record: &'a Promise, until: &'a str },
}

/// `after` is `before` with the texts `added` at its end.
pub open spec fn noted(before: Seq<String>, after: Seq<String>, added: Seq<Seq<char>>) -> bool {
    views_of(after) == views_of(before) + added
}

/// Copy each of `more` onto the end of `notes`.
fn note_all(notes: &mut Vec<String>, more: &Vec<String>)
    ensures
        noted(old(notes)@, final(notes)@, views_of(more@)),
{
    let ghost start = notes@;
    let mut i: usize = 0;
    while i < more.len()
        invariant
            i <= more@.len(),
            noted(start, notes@, views_of(more@).take(i as int)),
        decreases more@.len() - i,
    {
        let w = owned(more[i].as_str());
        let ghost before = notes@;
        notes.push(w);
        proof {
            assert(views_of(notes@) =~= views_of(before).push(w@));
            assert(views_of(more@).take(i + 1) =~= views_of(more@).take(i as int).push(more@[i as int]@));
            assert(views_of(notes@) =~= views_of(start) + views_of(more@).take(i + 1));
        }
        i = i + 1;
    }
    proof {
        assert(views_of(more@).take(more@.len() as int) =~= views_of(more@));
    }
}

/// Push one note.
fn note(notes: &mut Vec<String>, text: String)
    ensures
        noted(old(notes)@, final(notes)@, seq![text@]),
{
    let ghost before = notes@;
    notes.push(text);
    proof {
        assert(views_of(notes@) =~= views_of(before) + seq![text@]);
    }
}

// ---------------------------------------------------------------- assess

/// Why an assess command is malformed: a blank `--observer`, a blank `--note`, or a
/// `--meta` that will not do.
pub open spec fn assess_refusal(args: AssessArgs) -> Option<Seq<char>> {
    if trimmed(args.observer@).len() == 0 {
        Some("--observer"@ + " is empty"@)
    } else if args.note matches Some(n) && trimmed(n@).len() == 0 {
        Some("--note"@ + " is empty"@)
    } else {
        meta_refusal(args.meta)
    }
}

/// What `assess` decides, given the ledger as read (or the failure to read it), at
/// `now`, with `before` and `after` the notes for stderr.
pub open spec fn assessed<'a>(
    args: AssessArgs,
    ledger: Result<&'a Ledger, Fail>,
    now: int,
    path: Seq<char>,
    r: Result<Effect<'a>, Fail>,
    before: Seq<String>,
    after: Seq<String>,
) -> bool {
    match assess_refusal(args) {
        Some(m) => refused_with(r, m) && noted(before, after, Seq::empty()),
        None => match ledger {
            Err(f) => r == Err::<Effect<'a>, Fail>(f) && noted(before, after, Seq::empty()),
            Ok(l) => noted(before, after, views_of(l.warnings@)) && if record_of(
                l.events@,
                args.id@,
            ) is None {
                r matches Err(f) && op_says(f, unknown_id_text(args.id@, "assess"@, path))
            } else {
                &&& r matches Ok(Effect::Append { event, id })
                &&& id@ == args.id@
                &&& event.ts@ == instant_text(now)
                &&& event.body matches EventBody::Assess { promise, state, observer, note, meta }
                &&& promise@ == args.id@
                &&& state@ == violated_word()
                &&& observer@ == trimmed(args.observer@)
                &&& trimmed_opt(note, args.note)
                &&& meta_fits(meta, args.meta)
            },
        },
    }
}

/// `assess ID --violated --observer WHO [--note TEXT]`: publish a `violated`
/// assessment of a declared promise. An already-resolved promise may still be
/// assessed: an assessment is never terminal.
pub fn assess<'a>(
    args: &AssessArgs,
    ledger: Result<&'a Ledger, Fail>,
    now: Instant,
    path: &str,
    notes: &mut Vec<String>,
) -> (r: Result<Effect<'a>, Fail>)
    ensures
        assessed(*args, ledger, now.spec_nanos(), path@, r, old(notes)@, final(notes)@),
{
    let observer = match non_blank(args.observer.as_str(), "--observer") {
        Ok(o) => o,
        Err(f) => {
            proof { assert(views_of(notes@) =~= views_of(notes@) + Seq::<Seq<char>>::empty()); }
            return Err(f);
        },
    };
    let note = match &args.note {
        Some(n) => match non_blank(n.as_str(), "--note") {
            Ok(t) => Some(t),
            Err(f) => {
                proof { assert(views_of(notes@) =~= views_of(notes@) + Seq::<Seq<char>>::empty()); }
                return Err(f);
            },
        },
        None => None,
    };
    let meta = match check_meta(&args.meta) {
        Ok(m) => m,
        Err(f) => {
            proof { assert(views_of(notes@) =~= views_of(notes@) + Seq::<Seq<char>>::empty()); }
            return Err(f);
        },
    };
    let l = match ledger {
        Ok(l) => l,
        Err(f) => {
            proof { assert(views_of(notes@) =~= views_of(notes@) + Seq::<Seq<char>>::empty()); }
            return Err(f);
        },
    };
    note_all(notes, &l.warnings);
    let events = l.events.as_slice();
    let folded = fold(events, now);
    if lookup(&folded, args.id.as_str(), Ghost(events@), Ghost(now.spec_nanos())).is_none() {
        proof {
            reveal_strlit("assess");
        }
        return Err(unknown_id(args.id.as_str(), "assess", path));
    }
    let body = EventBody::violated(args.id.as_str(), observer.as_str(), note).with_meta(meta);
    let event = Event::new(now.to_text(), body);
    Ok(Effect::Append { event, id: owned(args.id.as_str()) })
}

} // verus!

verus! {

// ---------------------------------------------------------------- resolve

/// The `as` word of the `resolve` event `e`; `resolved` for any other event.
pub open spec fn kind_of(e: Event) -> Seq<char> {
    match e.body {
        EventBody::Resolve { resolution, .. } => outcome_word(resolution),
        _ => "resolved"@,
    }
}

/// What is said of a resolve naming a promise that already ended.
pub open spec fn already_resolved_text(id: Seq<char>, kind: Seq<char>, ts: Seq<char>) -> Seq<char> {
    "`"@ + id + "` is already resolved: "@ + kind + " at "@ + ts
        + ". The first resolve wins (§4), so nothing was appended — `pinki show "@ + id
        + "` for the record"@
}

/// Who a resolve is recorded as issued by: `--by` when given, else the debtor for
/// `--satisfied` and `--cancelled` and the creditor for `--released`.
pub open spec fn claimant(args: ResolveArgs, record: Promise) -> Seq<char> {
    match args.by {
        Some(b) => trimmed(b@),
        None => if !args.satisfied && !args.cancelled {
            record.to@
        } else {
            record.by@
        },
    }
}

/// The resolution a well-formed resolve command records, issued by `by`.
pub open spec fn resolution_fits(args: ResolveArgs, res: Resolution, by: Seq<char>) -> bool {
    if args.satisfied {
        res matches Resolution::Satisfied { by: w, evidence } && w@ == by && views_of(evidence@)
            == trimmed_each(args.evidence@)
    } else if args.cancelled {
        res matches Resolution::Cancelled { by: w, reason } && w@ == by && reason@ == trimmed(
            args.reason.unwrap()@,
        )
    } else {
        res matches Resolution::Released { by: w, reason } && w@ == by && trimmed_opt(
            reason,
            args.reason,
        )
    }
}

/// What `resolve` decides, given the ledger as read (or the failure to read it), at
/// `now`, with `before` and `after` the notes for stderr.
pub open spec fn resolved<'a>(
    args: ResolveArgs,
    ledger: Result<&'a Ledger, Fail>,
    now: int,
    path: Seq<char>,
    r: Result<Effect<'a>, Fail>,
    before: Seq<String>,
    after: Seq<String>,
) -> bool {
    match resolve_refusal(args) {
        Some(m) => refused_with(r, m) && noted(before, after, Seq::empty()),
        None => match meta_refusal(args.meta) {
        Some(m) => refused_with(r, m) && noted(before, after, Seq::empty()),
        None => match ledger {
            Err(f) => r == Err::<Effect<'a>, Fail>(f) && noted(before, after, Seq::empty()),
            Ok(l) => noted(before, after, views_of(l.warnings@)) && {
                let evs = l.events@;
                if record_of(evs, args.id@) is None {
                    r matches Err(f) && op_says(f, unknown_id_text(args.id@, "resolve"@, path))
                } else {
                    match resolution_index(evs, args.id@) {
                        Some(k) => r matches Err(f) && op_says(
                            f,
                            already_resolved_text(args.id@, kind_of(evs[k]), evs[k].ts@),
                        ),
                        None => if args.by matches Some(b) && trimmed(b@).len() == 0 {
                            refused_with(r, "`by`"@ + " is empty"@)
                        } else {
                            &&& r matches Ok(Effect::Append { event, id })
                            &&& id@ == args.id@
                            &&& event.ts@ == instant_text(now)
                            &&& event.body matches EventBody::Resolve { promise, resolution, meta }
                            &&& promise@ == args.id@
                            &&& meta_fits(meta, args.meta)
                            &&& resolution_fits(
                                args,
                                resolution,
                                claimant(args, record_of(evs, args.id@).unwrap()),
                            )
                        },
                    }
                }
            },
        },
        },
    }
}

/// `resolve ID (--satisfied --evidence REF… | --cancelled --reason TEXT |
/// --released)`: end a declared, unresolved promise. The first resolve wins; a
/// second is refused and nothing is appended.
pub fn resolve<'a>(
    args: &ResolveArgs,
    ledger: Result<&'a Ledger, Fail>,
    now: Instant,
    path: &str,
    notes: &mut Vec<String>,
) -> (r: Result<Effect<'a>, Fail>)
    ensures
        resolved(*args, ledger, now.spec_nanos(), path@, r, old(notes)@, final(notes)@),
{
    proof {
        assert(views_of(notes@) =~= views_of(notes@) + Seq::<Seq<char>>::empty());
    }
    let outcome = match resolution_from(args) {
        Ok(o) => o,
        Err(f) => return Err(f),
    };
    let meta = match check_meta(&args.meta) {
        Ok(m) => m,
        Err(f) => return Err(f),
    };
    let l = match ledger {
        Ok(l) => l,
        Err(f) => return Err(f),
    };
    note_all(notes, &l.warnings);
    let events = l.events.as_slice();
    let ghost evs = events@;
    let folded = fold(events, now);
    let view = match lookup(&folded, args.id.as_str(), Ghost(evs), Ghost(now.spec_nanos())) {
        Some(v) => v,
        None => {
            proof {
                reveal_strlit("resolve");
            }
            return Err(unknown_id(args.id.as_str(), "resolve", path));
        },
    };
    if let Some(event) = view.resolution {
        let kind = match event.resolution() {
            Some(res) => res.as_str(),
            None => {
                proof {
                    reveal_strlit("resolved");
                }
                "resolved"
            },
        };
        let mut m = owned("`");
        append(&mut m, args.id.as_str());
        append(&mut m, "` is already resolved: ");
        append(&mut m, kind);
        append(&mut m, " at ");
        append(&mut m, event.ts.as_str());
        append(&mut m, ". The first resolve wins (§4), so nothing was appended — `pinki show ");
        append(&mut m, args.id.as_str());
        append(&mut m, "` for the record");
        return Err(Fail::Op(m));
    }
    let released = !args.satisfied && !args.cancelled;
    let by = match &args.by {
        Some(b) => match non_blank(b.as_str(), "`by`") {
            Ok(t) => t,
            Err(f) => return Err(f),
        },
        None => if released {
            owned(view.record.to.as_str())
        } else {
            owned(view.record.by.as_str())
        },
    };
    let body = match outcome {
        Outcome::Satisfied(evidence) => EventBody::satisfied(args.id.as_str(), by.as_str(), evidence),
        Outcome::Cancelled(reason) => EventBody::cancelled(args.id.as_str(), by.as_str(), reason.as_str()),
        Outcome::Released(reason) => EventBody::released(args.id.as_str(), by.as_str(), reason),
    };
    let body = body.with_meta(meta);
    let event = Event::new(now.to_text(), body);
    Ok(Effect::Append { event, id: owned(args.id.as_str()) })
}

} // verus!

verus! {

// ---------------------------------------------------------------- promise

/// A promise as it arrives, on stdin as one JSON record or from the flags: the
/// record's fields, with `id` optional (pinki mints one when it is absent).
#[derive(Debug)]
pub struct Incoming {
    pub id: Option<String>,
    pub promise: String,
    pub by: String,
    pub to: String,
    pub on: Option<String>,
    pub until: String,
    pub task: Option<String>,
    pub meta: Option<MetaShape>,
}

/// The two ways to give `promise` a record.
pub const FORMS: &'static str = "give the promise text as an argument (pinki promise TEXT --by WHO --to WHO --until ISO), or pipe one record as JSON on stdin";

/// What is said of a supplied id that will not do.
pub open spec fn id_refusal(given: Seq<char>, e: SuppliedIdError) -> Seq<char> {
    "`"@ + given + "` will not do as an id: "@ + supplied_error_message(e)
}

/// Why an incoming record is malformed, checked in order: blank text, `by`, `to`;
/// an `until` that is not an instant; a supplied id (trimmed) that will not do; a
/// `meta` that will not do.
pub open spec fn intake_refusal(inc: Incoming) -> Option<Seq<char>> {
    if trimmed(inc.promise@).len() == 0 {
        Some("the promise text"@ + " is empty"@)
    } else if trimmed(inc.by@).len() == 0 {
        Some("`by`"@ + " is empty"@)
    } else if trimmed(inc.to@).len() == 0 {
        Some("`to`"@ + " is empty"@)
    } else if parsed_instant(trimmed(inc.until@)) is None {
        Some(until_refusal(trimmed(inc.until@)))
    } else {
        match inc.id {
            Some(g) => match supplied_verdict(trimmed(g@)) {
                Err(e) => Some(id_refusal(trimmed(g@), e)),
                Ok(_) => meta_refusal(inc.meta),
            },
            None => meta_refusal(inc.meta),
        }
    }
}

/// What is said of a supplied id the ledger already declares.
pub open spec fn already_declared_text(id: Seq<char>, path: Seq<char>) -> Seq<char> {
    "`"@ + id + "` is already declared in "@ + path
        + " — ids are stable, so pinki will not redeclare one (§4: the first declaration wins)"@
}

/// The warning for an antecedent the ledger does not declare.
pub open spec fn on_warning_text(path: Seq<char>, on: Seq<char>) -> Seq<char> {
    "pinki: warning: nothing in "@ + path + " declares `"@ + on
        + "`; recording the promise as conditional on it anyway"@
}

/// What is said when no free id could be minted, with `taken` ids spoken for.
pub open spec fn mint_failure_text(taken: nat) -> Seq<char> {
    "could not mint a free promise id in "@ + decimal(MAX_ATTEMPTS as nat) + " attempts ("@
        + decimal(taken)
        + " ids already in the ledger); the 6-hex-digit id space is crowded — the ledger may need splitting"@
}

/// Every id the log names: the subject of each event, the empty id of an unknown
/// event among them.
pub open spec fn spoken_for(evs: Seq<Event>) -> Set<Seq<char>> {
    Set::new(|s: Seq<char>| exists|i: int| 0 <= i < evs.len() && #[trigger] subject_of(evs[i].body) == s)
}

/// The record a well-formed incoming promise is declared as, under `id`.
pub open spec fn record_fits(p: Promise, inc: Incoming, id: Seq<char>) -> bool {
    &&& p.id@ == id
    &&& p.promise@ == trimmed(inc.promise@)
    &&& p.by@ == trimmed(inc.by@)
    &&& p.to@ == trimmed(inc.to@)
    &&& trimmed_opt(p.on, inc.on)
    &&& p.until@ == instant_text(parsed_instant(trimmed(inc.until@)).unwrap())
    &&& trimmed_opt(p.task, inc.task)
    &&& meta_fits(p.meta, inc.meta)
}

/// What declaring `inc` under `id` gives, once the id is settled: `on` and `task`
/// are checked, an antecedent the log does not declare is warned of (and kept), and
/// the `promise` event is stamped `now`.
pub open spec fn declared_as<'a>(
    inc: Incoming,
    evs: Seq<Event>,
    now: int,
    path: Seq<char>,
    id: Seq<char>,
    r: Result<Effect<'a>, Fail>,
    base: Seq<Seq<char>>,
    after: Seq<String>,
) -> bool {
    if inc.on matches Some(a) && trimmed(a@).len() == 0 {
        refused_with(r, "`on`"@ + " is empty"@) && views_of(after) == base
    } else {
        &&& views_of(after) == match inc.on {
            Some(a) => if record_of(evs, trimmed(a@)) is Some {
                base
            } else {
                base.push(on_warning_text(path, trimmed(a@)))
            },
            None => base,
        }
        &&& if inc.task matches Some(t) && trimmed(t@).len() == 0 {
            refused_with(r, "`task`"@ + " is empty"@)
        } else {
            &&& r matches Ok(Effect::Append { event, id: rid })
            &&& rid@ == id
            &&& event.ts@ == instant_text(now)
            &&& event.body matches EventBody::Promise(p)
            &&& record_fits(p, inc, id)
        }
    }
}

/// What `promise` decides for the incoming record `inc`, given the ledger as read
/// (or the failure to read it), at `now`. A supplied id is used as given (trimmed)
/// unless the log declares it; with none, a minted one that no event names is
/// used, unless minting failed, which it can only where some id of the minted form
/// is already spoken for.
pub open spec fn declared<'a>(
    inc: Incoming,
    ledger: Result<&'a Ledger, Fail>,
    now: int,
    path: Seq<char>,
    r: Result<Effect<'a>, Fail>,
    before: Seq<String>,
    after: Seq<String>,
) -> bool {
    match intake_refusal(inc) {
        Some(m) => refused_with(r, m) && noted(before, after, Seq::empty()),
        None => match ledger {
            Err(f) => r == Err::<Effect<'a>, Fail>(f) && noted(before, after, Seq::empty()),
            Ok(l) => {
                let evs = l.events@;
                let base = views_of(before) + views_of(l.warnings@);
                match inc.id {
                    Some(g) => if record_of(evs, trimmed(g@)) is Some {
                        r matches Err(f) && op_says(f, already_declared_text(trimmed(g@), path))
                            && views_of(after) == base
                    } else {
                        declared_as(inc, evs, now, path, trimmed(g@), r, base, after)
                    },
                    None => {
                        ||| holds_a_minted_id(spoken_for(evs)) && (r matches Err(f)
                            && op_says(f, mint_failure_text(spoken_for(evs).len()))
                            && views_of(after) == base)
                        ||| exists|id: Seq<char>|
                            minted_form(id) && !spoken_for(evs).contains(id) && #[trigger] declared_as(
                                inc,
                                evs,
                                now,
                                path,
                                id,
                                r,
                                base,
                                after,
                            )
                    },
                }
            },
        },
    }
}

/// Every id the log names, as a set.
fn spoken_for_set(events: &[Event]) -> (t: StringHashSet)
    ensures
        t@ == spoken_for(events@),
{
    let mut t = StringHashSet::new();
    let mut i: usize = 0;
    while i < events.len()
        invariant
            i <= events@.len(),
            t@ == Set::new(
                |s: Seq<char>|
                    exists|j: int| 0 <= j < i && #[trigger] subject_of(events@[j].body) == s,
            ),
        decreases events@.len() - i,
    {
        let subject = owned(events[i].subject());
        let ghost before = t@;
        t.insert(subject);
        proof {
            assert(t@ =~= Set::new(
                |s: Seq<char>|
                    exists|j: int| 0 <= j < i + 1 && #[trigger] subject_of(events@[j].body) == s,
            )) by {
                assert forall|s: Seq<char>| t@.contains(s) implies exists|j: int|
                    0 <= j < i + 1 && #[trigger] subject_of(events@[j].body) == s by {
                    if s == subject@ {
                        assert(subject_of(events@[i as int].body) == s);
                    }
                }
            }
        }
        i = i + 1;
    }
    proof {
        assert(t@ =~= spoken_for(events@));
    }
    t
}

} // verus!

verus! {

/// Settle `inc` under `id` once the id is known: check `on` and `task`, warn of an
/// antecedent the log does not declare, and stamp the `promise` event `now`.
fn declare_as<'a, 'b>(
    inc: &Incoming,
    checked: (String, String, String, String, Option<String>),
    id: String,
    folded: &'b Fold<'a>,
    Ghost(evs): Ghost<Seq<Event>>,
    now: Instant,
    path: &str,
    notes: &mut Vec<String>,
) -> (r: Result<Effect<'a>, Fail>)
    requires
        folded.describes(evs, now.spec_nanos()),
        intake_refusal(*inc) is None,
        checked.0@ == trimmed(inc.promise@),
        checked.1@ == trimmed(inc.by@),
        checked.2@ == trimmed(inc.to@),
        checked.3@ == instant_text(parsed_instant(trimmed(inc.until@)).unwrap()),
        meta_fits(checked.4, inc.meta),
    ensures
        declared_as(*inc, evs, now.spec_nanos(), path@, id@, r, views_of(old(notes)@), final(notes)@),
{
    let (text, by, to, until, meta) = checked;
    let ghost base = views_of(notes@);
    let on = match &inc.on {
        Some(a) => {
            let a = match non_blank(a.as_str(), "`on`") {
                Ok(t) => t,
                Err(f) => return Err(f),
            };
            if lookup(folded, a.as_str(), Ghost(evs), Ghost(now.spec_nanos())).is_none() {
                let mut w = owned("pinki: warning: nothing in ");
                append(&mut w, path);
                append(&mut w, " declares `");
                append(&mut w, a.as_str());
                append(&mut w, "`; recording the promise as conditional on it anyway");
                note(notes, w);
                proof {
                    assert(views_of(notes@) =~= base.push(on_warning_text(path@, a@)));
                }
            } else {
                proof {
                    assert(views_of(notes@) =~= base);
                }
            }
            Some(a)
        },
        None => None,
    };
    let task = match &inc.task {
        Some(t) => match non_blank(t.as_str(), "`task`") {
            Ok(t) => Some(t),
            Err(f) => return Err(f),
        },
        None => None,
    };
    let record = Promise {
        id: owned(id.as_str()),
        promise: text,
        by,
        to,
        on,
        until,
        task,
        meta,
    };
    let event = Event::new(now.to_text(), EventBody::promise(record));
    Ok(Effect::Append { event, id })
}

/// Decide what `promise` appends for the incoming record `inc`: check it, then ask
/// the ledger whether a supplied id is free, or mint one no event names.
pub fn declare<'a>(
    inc: &Incoming,
    ledger: Result<&'a Ledger, Fail>,
    now: Instant,
    path: &str,
    notes: &mut Vec<String>,
) -> (r: Result<Effect<'a>, Fail>)
    ensures
        declared(*inc, ledger, now.spec_nanos(), path@, r, old(notes)@, final(notes)@),
{
    proof {
        assert(views_of(notes@) =~= views_of(notes@) + Seq::<Seq<char>>::empty());
    }
    let text = match non_blank(inc.promise.as_str(), "the promise text") {
        Ok(t) => t,
        Err(f) => return Err(f),
    };
    let by = match non_blank(inc.by.as_str(), "`by`") {
        Ok(t) => t,
        Err(f) => return Err(f),
    };
    let to = match non_blank(inc.to.as_str(), "`to`") {
        Ok(t) => t,
        Err(f) => return Err(f),
    };
    let until = match parse_until(inc.until.as_str()) {
        Ok(t) => t,
        Err(f) => return Err(f),
    };
    let supplied = match &inc.id {
        Some(given) => {
            let g = trim(given.as_str());
            match check_supplied(g.as_str()) {
                Ok(()) => Some(g),
                Err(e) => {
                    let mut m = owned("`");
                    append(&mut m, g.as_str());
                    append(&mut m, "` will not do as an id: ");
                    let why = e.message();
                    append(&mut m, why.as_str());
                    return Err(Fail::Usage(m));
                },
            }
        },
        None => None,
    };
    let meta = match check_meta(&inc.meta) {
        Ok(m) => m,
        Err(f) => return Err(f),
    };
    let l = match ledger {
        Ok(l) => l,
        Err(f) => return Err(f),
    };
    note_all(notes, &l.warnings);
    let events = l.events.as_slice();
    let ghost evs = events@;
    let ghost base = views_of(notes@);
    let folded = fold(events, now);
    match supplied {
        Some(g) => {
            if lookup(&folded, g.as_str(), Ghost(evs), Ghost(now.spec_nanos())).is_some() {
                let mut m = owned("`");
                append(&mut m, g.as_str());
                append(&mut m, "` is already declared in ");
                append(&mut m, path);
                append(
                    &mut m,
                    " — ids are stable, so pinki will not redeclare one (§4: the first declaration wins)",
                );
                return Err(Fail::Op(m));
            }
            declare_as(inc, (text, by, to, until, meta), g, &folded, Ghost(evs), now, path, notes)
        },
        None => {
            let taken = spoken_for_set(events);
            match mint(&taken) {
                Ok(id) => {
                    let ghost minted = id@;
                    let r = declare_as(inc, (text, by, to, until, meta), id, &folded, Ghost(evs), now, path, notes);
                    proof {
                        assert(declared_as(*inc, evs, now.spec_nanos(), path@, minted, r, base, notes@));
                    }
                    r
                },
                Err(e) => {
                    proof {
                        assert(spoken_for(evs).len() == e.taken);
                        assert(holds_a_minted_id(spoken_for(evs)));
                    }
                    Err(Fail::Op(e.message()))
                },
            }
        },
    }
}

} // verus!

verus! {

// ---------------------------------------------------------------- ls

/// The state filter `ls` applies: `--all` over `--overdue`, and `--open` when
/// nothing is asked for.
pub open spec fn scope_of(args: LsArgs) -> Scope {
    if args.all {
        Scope::All
    } else if args.overdue {
        Scope::Overdue
    } else {
        Scope::Open
    }
}

/// Does `ls` list a promise in state `s` with record `p`? Its state passes the
/// scope, and `--by` and `--to`, where given, match the record exactly.
pub open spec fn listed(args: LsArgs, s: State, p: Promise) -> bool {
    &&& match scope_of(args) {
        Scope::Open => !terminal(s),
        Scope::Overdue => s == State::Overdue,
        Scope::All => true,
    }
    &&& (args.by matches Some(b) ==> p.by@ == b@)
    &&& (args.to matches Some(t) ==> p.to@ == t@)
}

/// The record the log declares `id` with.
pub open spec fn rec_of(evs: Seq<Event>, id: Seq<char>) -> Promise {
    record_of(evs, id).unwrap()
}

/// Of the ids `ids`, in order, those `ls` lists.
pub open spec fn listed_ids(evs: Seq<Event>, now: int, args: LsArgs, ids: Seq<Seq<char>>) -> Seq<
    Seq<char>,
>
    decreases ids.len(),
{
    if ids.len() == 0 {
        ids
    } else {
        let prev = listed_ids(evs, now, args, ids.drop_last());
        if listed(args, state_of(evs, now, ids.last()), rec_of(evs, ids.last())) {
            prev.push(ids.last())
        } else {
            prev
        }
    }
}

/// The promises `ls` lists, in declaration order.
pub open spec fn selection(evs: Seq<Event>, now: int, args: LsArgs) -> Seq<Seq<char>> {
    listed_ids(evs, now, args, declared_ids(evs))
}

/// The parties column: `by -> to`.
pub open spec fn party_of(p: Promise) -> Seq<char> {
    p.by@ + " -> "@ + p.to@
}

/// The state column of the listed ids.
pub open spec fn state_col(evs: Seq<Event>, now: int, sel: Seq<Seq<char>>) -> Seq<Seq<char>> {
    sel.map_values(|id: Seq<char>| state_word(state_of(evs, now, id)))
}

/// The deadline column of the listed ids: each one's current horizon, the latest
/// amend's `until` or the declared one.
pub open spec fn until_col(evs: Seq<Event>, sel: Seq<Seq<char>>) -> Seq<Seq<char>> {
    sel.map_values(|id: Seq<char>| horizon(evs, id))
}

/// The parties column of the listed ids.
pub open spec fn party_col(evs: Seq<Event>, sel: Seq<Seq<char>>) -> Seq<Seq<char>> {
    sel.map_values(|id: Seq<char>| party_of(rec_of(evs, id)))
}

/// One line of the `ls` table: id, state, current deadline and parties, each padded to its
/// column's width and separated by two spaces, then the promise text cut to 56
/// characters.
pub open spec fn table_line(evs: Seq<Event>, now: int, sel: Seq<Seq<char>>, id: Seq<char>) -> Seq<
    char,
> {
    padded(id, widest(sel)) + "  "@ + padded(
        state_word(state_of(evs, now, id)),
        widest(state_col(evs, now, sel)),
    ) + "  "@ + padded(horizon(evs, id), widest(until_col(evs, sel))) + "  "@ + padded(
        party_of(rec_of(evs, id)),
        widest(party_col(evs, sel)),
    ) + "  "@ + ellipsized(rec_of(evs, id).promise@, 56)
}

/// The `ls` table for the listed ids.
pub open spec fn table(evs: Seq<Event>, now: int, sel: Seq<Seq<char>>) -> Seq<Seq<char>> {
    sel.map_values(|id: Seq<char>| table_line(evs, now, sel, id))
}

/// The note for an empty table over a ledger that declares nothing.
pub open spec fn empty_ledger_text(path: Seq<char>) -> Seq<char> {
    "pinki: the ledger at "@ + path + " holds no promises"@
}

/// The note for an empty table over a ledger declaring `n` promises.
pub open spec fn no_match_text(n: nat) -> Seq<char> {
    "pinki: no promises match; the ledger holds "@ + decimal(n)
        + " — `pinki ls --all` shows every state"@
}

/// What `ls` decides, given the ledger as read (or the failure to read it), at `now`.
pub open spec fn listing<'a>(
    args: LsArgs,
    ledger: Result<&'a Ledger, Fail>,
    now: int,
    path: Seq<char>,
    r: Result<Effect<'a>, Fail>,
    before: Seq<String>,
    after: Seq<String>,
) -> bool {
    match ledger {
        Err(f) => r == Err::<Effect<'a>, Fail>(f) && noted(before, after, Seq::empty()),
        Ok(l) => {
            let evs = l.events@;
            let sel = selection(evs, now, args);
            let base = views_of(before) + views_of(l.warnings@);
            if args.json {
                &&& r matches Ok(Effect::Rows(rows))
                &&& rows@.len() == sel.len()
                &&& forall|j: int|
                    0 <= j < sel.len() ==> *(#[trigger] rows@[j]).record == rec_of(evs, sel[j])
                        && rows@[j].state == state_of(evs, now, sel[j]) && rows@[j].until@
                        == horizon(evs, sel[j])
                &&& views_of(after) == base
            } else if sel.len() == 0 {
                &&& r matches Ok(Effect::Print(lines))
                &&& lines@.len() == 0
                &&& views_of(after) == base.push(
                    if declared_ids(evs).len() == 0 {
                        empty_ledger_text(path)
                    } else {
                        no_match_text(declared_ids(evs).len())
                    },
                )
            } else {
                &&& r matches Ok(Effect::Print(lines))
                &&& views_of(lines@) == table(evs, now, sel)
                &&& views_of(after) == base
            }
        },
    }
}

} // verus!

verus! {

/// The views `ls` lists, from a fold of `evs` at `now`, in declaration order.
fn select<'a, 'b>(
    folded: &'b Fold<'a>,
    args: &LsArgs,
    Ghost(evs): Ghost<Seq<Event>>,
    Ghost(now): Ghost<int>,
) -> (rows: Vec<&'b PromiseView<'a>>)
    requires
        folded.describes(evs, now),
    ensures
        rows@.len() == selection(evs, now, *args).len(),
        forall|j: int|
            0 <= j < rows@.len() ==> view_describes(
                *#[trigger] rows@[j],
                evs,
                now,
                selection(evs, now, *args)[j],
            ),
{
    let views = folded.iter();
    let ghost ids = declared_ids(evs);
    let scope = args.scope();
    let mut rows: Vec<&'b PromiseView<'a>> = Vec::new();
    let mut r: usize = 0;
    while r < views.len()
        invariant
            views@ == folded.spec_views(),
            folded.describes(evs, now),
            ids == declared_ids(evs),
            views@.len() == ids.len(),
            r <= views@.len(),
            scope == scope_of(*args),
            rows@.len() == listed_ids(evs, now, *args, ids.take(r as int)).len(),
            forall|j: int|
                0 <= j < rows@.len() ==> view_describes(
                    *#[trigger] rows@[j],
                    evs,
                    now,
                    listed_ids(evs, now, *args, ids.take(r as int))[j],
                ),
        decreases views@.len() - r,
    {
        let v = &views[r];
        proof {
            assert(view_describes(folded.spec_views()[r as int], evs, now, ids[r as int]));
            assert(ids.take(r + 1).drop_last() =~= ids.take(r as int));
            assert(ids.take(r + 1).last() == ids[r as int]);
        }
        let in_scope = match scope {
            Scope::Open => v.state.is_open(),
            Scope::Overdue => v.state == State::Overdue,
            Scope::All => true,
        };
        let by_ok = match &args.by {
            Some(b) => same_text(v.record.by.as_str(), b.as_str()),
            None => true,
        };
        let to_ok = match &args.to {
            Some(t) => same_text(v.record.to.as_str(), t.as_str()),
            None => true,
        };
        if in_scope && by_ok && to_ok {
            rows.push(v);
        }
        r = r + 1;
    }
    proof {
        assert(ids.take(ids.len() as int) =~= ids);
    }
    rows
}

/// The `ls` table for views describing the listed ids `sel`, in order.
fn table_lines(
    rows: &Vec<&PromiseView>,
    Ghost(evs): Ghost<Seq<Event>>,
    Ghost(now): Ghost<int>,
    Ghost(sel): Ghost<Seq<Seq<char>>>,
) -> (lines: Vec<String>)
    requires
        rows@.len() == sel.len(),
        forall|j: int| 0 <= j < rows@.len() ==> view_describes(*#[trigger] rows@[j], evs, now, sel[j]),
    ensures
        views_of(lines@) == table(evs, now, sel),
{
    let mut ids: Vec<String> = Vec::new();
    let mut states: Vec<String> = Vec::new();
    let mut untils: Vec<String> = Vec::new();
    let mut parties: Vec<String> = Vec::new();
    let mut j: usize = 0;
    while j < rows.len()
        invariant
            rows@.len() == sel.len(),
            forall|k: int| 0 <= k < rows@.len() ==> view_describes(*#[trigger] rows@[k], evs, now, sel[k]),
            j <= rows@.len(),
            views_of(ids@) == sel.take(j as int),
            views_of(states@) == state_col(evs, now, sel).take(j as int),
            views_of(untils@) == until_col(evs, sel).take(j as int),
            views_of(parties@) == party_col(evs, sel).take(j as int),
        decreases rows@.len() - j,
    {
        let v = rows[j];
        proof {
            assert(view_describes(*rows@[j as int], evs, now, sel[j as int]));
            assert(rec_of(evs, sel[j as int]) == *v.record);
        }
        let ghost (i0, s0, u0, p0) = (ids@, states@, untils@, parties@);
        let id = owned(v.record.id.as_str());
        let st = owned(v.state.as_str());
        let un = owned(v.until);
        let mut party = owned(v.record.by.as_str());
        append(&mut party, " -> ");
        append(&mut party, v.record.to.as_str());
        proof {
            assert(views_of(i0.push(id)) =~= views_of(i0).push(id@));
            assert(views_of(s0.push(st)) =~= views_of(s0).push(st@));
            assert(views_of(u0.push(un)) =~= views_of(u0).push(un@));
            assert(views_of(p0.push(party)) =~= views_of(p0).push(party@));
        }
        ids.push(id);
        states.push(st);
        untils.push(un);
        parties.push(party);
        proof {
            assert(views_of(ids@) =~= sel.take(j + 1));
            assert(views_of(states@) =~= state_col(evs, now, sel).take(j + 1));
            assert(views_of(untils@) =~= until_col(evs, sel).take(j + 1));
            assert(views_of(parties@) =~= party_col(evs, sel).take(j + 1));
        }
        j = j + 1;
    }
    proof {
        assert(sel.take(sel.len() as int) =~= sel);
        assert(state_col(evs, now, sel).take(sel.len() as int) =~= state_col(evs, now, sel));
        assert(until_col(evs, sel).take(sel.len() as int) =~= until_col(evs, sel));
        assert(party_col(evs, sel).take(sel.len() as int) =~= party_col(evs, sel));
    }
    let wi = width(&ids);
    let ws = width(&states);
    let wu = width(&untils);
    let wp = width(&parties);
    let mut lines: Vec<String> = Vec::new();
    let mut j: usize = 0;
    while j < rows.len()
        invariant
            rows@.len() == sel.len(),
            forall|k: int| 0 <= k < rows@.len() ==> view_describes(*#[trigger] rows@[k], evs, now, sel[k]),
            j <= rows@.len(),
            views_of(ids@) == sel,
            views_of(states@) == state_col(evs, now, sel),
            views_of(untils@) == until_col(evs, sel),
            views_of(parties@) == party_col(evs, sel),
            wi == widest(sel),
            ws == widest(state_col(evs, now, sel)),
            wu == widest(until_col(evs, sel)),
            wp == widest(party_col(evs, sel)),
            views_of(lines@) == table(evs, now, sel).take(j as int),
        decreases rows@.len() - j,
    {
        let v = rows[j];
        proof {
            assert(view_describes(*rows@[j as int], evs, now, sel[j as int]));
            assert(rec_of(evs, sel[j as int]) == *v.record);
            assert(ids@[j as int]@ == views_of(ids@)[j as int]);
            assert(states@[j as int]@ == views_of(states@)[j as int]);
            assert(untils@[j as int]@ == views_of(untils@)[j as int]);
            assert(parties@[j as int]@ == views_of(parties@)[j as int]);
        }
        let mut line = pad_right(ids[j].as_str(), wi);
        append(&mut line, "  ");
        let cell = pad_right(states[j].as_str(), ws);
        append(&mut line, cell.as_str());
        append(&mut line, "  ");
        let cell = pad_right(untils[j].as_str(), wu);
        append(&mut line, cell.as_str());
        append(&mut line, "  ");
        let cell = pad_right(parties[j].as_str(), wp);
        append(&mut line, cell.as_str());
        append(&mut line, "  ");
        let cell = ellipsize(v.record.promise.as_str(), 56);
        append(&mut line, cell.as_str());
        let ghost l0 = lines@;
        proof {
            assert(line@ == table_line(evs, now, sel, sel[j as int]));
            assert(views_of(l0.push(line)) =~= views_of(l0).push(line@));
        }
        lines.push(line);
        proof {
            assert(views_of(lines@) =~= table(evs, now, sel).take(j + 1));
        }
        j = j + 1;
    }
    proof {
        assert(table(evs, now, sel).take(sel.len() as int) =~= table(evs, now, sel));
    }
    lines
}

/// `ls [--open|--overdue|--all] [--by WHO] [--to WHO] [--json]`: the promises
/// whose computed state passes the filter, as JSON rows or as a table. An empty
/// table says why on stderr: an empty ledger, or a filter that hid everything.
pub fn ls<'a>(
    args: &LsArgs,
    ledger: Result<&'a Ledger, Fail>,
    now: Instant,
    path: &str,
    notes: &mut Vec<String>,
) -> (r: Result<Effect<'a>, Fail>)
    ensures
        listing(*args, ledger, now.spec_nanos(), path@, r, old(notes)@, final(notes)@),
{
    let l = match ledger {
        Ok(l) => l,
        Err(f) => {
            proof {
                assert(views_of(notes@) =~= views_of(notes@) + Seq::<Seq<char>>::empty());
            }
            return Err(f);
        },
    };
    note_all(notes, &l.warnings);
    let events = l.events.as_slice();
    let ghost evs = events@;
    let ghost nw = now.spec_nanos();
    let ghost sel = selection(evs, nw, *args);
    let folded = fold(events, now);
    let rows = select(&folded, args, Ghost(evs), Ghost(nw));
    if args.json {
        let mut out: Vec<Row<'a>> = Vec::new();
        let mut j: usize = 0;
        while j < rows.len()
            invariant
                rows@.len() == sel.len(),
                forall|k: int| 0 <= k < rows@.len() ==> view_describes(*#[trigger] rows@[k], evs, nw, sel[k]),
                j <= rows@.len(),
                out@.len() == j,
                forall|k: int|
                    0 <= k < j ==> *(#[trigger] out@[k]).record == rec_of(evs, sel[k])
                        && out@[k].state == state_of(evs, nw, sel[k]) && out@[k].until@
                        == horizon(evs, sel[k]),
            decreases rows@.len() - j,
        {
            let v = rows[j];
            proof {
                assert(view_describes(*rows@[j as int], evs, nw, sel[j as int]));
            }
            out.push(Row { record: v.record, state: v.state, until: v.until });
            j = j + 1;
        }
        return Ok(Effect::Rows(out));
    }
    if rows.len() == 0 {
        let text = if folded.is_empty() {
            let mut t = owned("pinki: the ledger at ");
            append(&mut t, path);
            append(&mut t, " holds no promises");
            t
        } else {
            let mut t = owned("pinki: no promises match; the ledger holds ");
            let n = decimal_text(folded.len() as u64);
            append(&mut t, n.as_str());
            append(&mut t, " — `pinki ls --all` shows every state");
            t
        };
        let ghost n0 = notes@;
        note(notes, text);
        proof {
            assert(views_of(notes@) =~= views_of(n0).push(text@));
        }
        return Ok(Effect::Print(Vec::new()));
    }
    let lines = table_lines(&rows, Ghost(evs), Ghost(nw), Ghost(sel));
    Ok(Effect::Print(lines))
}

} // verus!

verus! {

// ---------------------------------------------------------------- show

/// One labelled line for an optional field; nothing when it is absent.
pub open spec fn opt_line(label: Seq<char>, v: Option<String>) -> Seq<Seq<char>> {
    match v {
        Some(x) => seq![label + x@],
        None => Seq::empty(),
    }
}

/// One line per reference of evidence.
pub open spec fn evidence_lines(evidence: Seq<String>) -> Seq<Seq<char>> {
    evidence.map_values(|r: String| "    evidence   "@ + r@)
}

/// The line `show` prints for a promise nothing resolved.
pub open spec fn unresolved_line() -> Seq<char> {
    "  resolution   (unresolved)"@
}

/// What `show` prints of the event `e` that resolved a promise: how, when and by
/// whom, then the evidence or the reason.
pub open spec fn resolution_block(e: Event) -> Seq<Seq<char>> {
    match e.body {
        EventBody::Resolve { resolution, meta, .. } => seq![
            "  resolution   "@ + outcome_word(resolution) + " at "@ + e.ts@ + " by "@ + issuer_of(
                resolution,
            ),
        ] + match resolution {
            Resolution::Satisfied { evidence, .. } => evidence_lines(evidence@),
            Resolution::Cancelled { reason, .. } => seq!["    reason     "@ + reason@],
            Resolution::Released { reason, .. } => opt_line("    reason     "@, reason),
        } + opt_line("    meta       "@, meta),
        _ => seq![unresolved_line()],
    }
}

/// What `show` prints of how `id` ended.
pub open spec fn resolution_part(evs: Seq<Event>, id: Seq<char>) -> Seq<Seq<char>> {
    match resolution_index(evs, id) {
        Some(k) => resolution_block(evs[k]),
        None => seq![unresolved_line()],
    }
}

/// The line `show` prints for one assessment: when, what, who, and the note.
pub open spec fn assessment_line(e: Event) -> Seq<char> {
    match e.body {
        EventBody::Assess { state, observer, note, .. } => "    "@ + e.ts@ + "  "@ + state@ + "  "@
            + observer@ + match note {
            Some(n) => "  "@ + n@,
            None => Seq::empty(),
        },
        _ => Seq::empty(),
    }
}

/// What `show` prints of one assessment: its line, then its `meta` when it has one.
pub open spec fn assessment_block(e: Event) -> Seq<Seq<char>> {
    seq![assessment_line(e)] + match e.body {
        EventBody::Assess { meta, .. } => opt_line("      meta     "@, meta),
        _ => Seq::empty(),
    }
}

/// What `show` prints of the assessments at the positions `ix` of `evs`, in order.
pub open spec fn assessment_blocks(evs: Seq<Event>, ix: Seq<int>) -> Seq<Seq<char>>
    decreases ix.len(),
{
    if ix.len() == 0 {
        Seq::empty()
    } else {
        assessment_blocks(evs, ix.drop_last()) + assessment_block(evs[ix.last()])
    }
}

/// What `show` prints of the assessments of `id`, in log order.
pub open spec fn assessment_part(evs: Seq<Event>, id: Seq<char>) -> Seq<Seq<char>> {
    let ix = assessment_indices(evs, id);
    if ix.len() == 0 {
        seq!["  assessments  (none)"@]
    } else {
        seq!["  assessments"@] + assessment_blocks(evs, ix)
    }
}

/// The positions of every `amend` event naming `id`, in log order.
pub open spec fn amend_indices(evs: Seq<Event>, id: Seq<char>) -> Seq<int>
    decreases evs.len(),
{
    if evs.len() == 0 {
        Seq::empty()
    } else {
        let prev = amend_indices(evs.drop_last(), id);
        match evs.last().body {
            EventBody::Amend { promise, .. } => if promise@ == id {
                prev.push(evs.len() - 1)
            } else {
                prev
            },
            _ => prev,
        }
    }
}

/// The line `show` prints for one amend: the horizon it set, when, by whom, why.
pub open spec fn amend_line(e: Event) -> Seq<char> {
    match e.body {
        EventBody::Amend { until, by, reason, .. } => "    horizon    "@ + until@ + "  amended at "@
            + e.ts@ + " by "@ + by@ + match reason {
            Some(t) => ": "@ + t@,
            None => Seq::empty(),
        },
        _ => Seq::empty(),
    }
}

/// Every horizon `id` has had, declaration first — printed only once there is more
/// than one.
pub open spec fn horizon_part(evs: Seq<Event>, id: Seq<char>) -> Seq<Seq<char>> {
    let ix = amend_indices(evs, id);
    if ix.len() == 0 {
        Seq::empty()
    } else {
        seq!["    horizon    "@ + rec_of(evs, id).until@ + "  declared"@] + ix.map_values(
            |k: int| amend_line(evs[k]),
        )
    }
}

/// The human-readable block `show` prints for the declared promise `id`.
pub open spec fn show_lines(evs: Seq<Event>, now: int, id: Seq<char>) -> Seq<Seq<char>> {
    let p = rec_of(evs, id);
    seq![
        id + "  "@ + state_word(state_of(evs, now, id)),
        "  promise      "@ + p.promise@,
        "  by           "@ + p.by@,
        "  to           "@ + p.to@,
    ] + opt_line("  on           "@, p.on) + seq!["  until        "@ + horizon(evs, id)]
        + horizon_part(evs, id) + opt_line(
        "  task         "@,
        p.task,
    ) + opt_line("  meta         "@, p.meta) + resolution_part(evs, id) + assessment_part(evs, id)
}

/// What `show --json` carries for the declared promise `id`.
pub open spec fn detail_fits(d: Detail, evs: Seq<Event>, now: int, id: Seq<char>) -> bool {
    &&& *d.record == rec_of(evs, id)
    &&& d.state == state_of(evs, now, id)
    &&& d.until@ == horizon(evs, id)
    &&& match resolution_index(evs, id) {
        Some(k) => d.resolution matches Some(e) && *e == evs[k],
        None => d.resolution is None,
    }
    &&& d.assessments@.len() == assessment_indices(evs, id).len()
    &&& forall|j: int|
        0 <= j < d.assessments@.len() ==> *#[trigger] d.assessments@[j] == evs[assessment_indices(
            evs,
            id,
        )[j]]
}

/// What `show` decides, given the ledger as read (or the failure to read it), at
/// `now`.
pub open spec fn shown<'a>(
    args: ShowArgs,
    ledger: Result<&'a Ledger, Fail>,
    now: int,
    path: Seq<char>,
    r: Result<Effect<'a>, Fail>,
    before: Seq<String>,
    after: Seq<String>,
) -> bool {
    match ledger {
        Err(f) => r == Err::<Effect<'a>, Fail>(f) && noted(before, after, Seq::empty()),
        Ok(l) => noted(before, after, views_of(l.warnings@)) && if record_of(
            l.events@,
            args.id@,
        ) is None {
            r matches Err(f) && op_says(f, unknown_id_text(args.id@, "show"@, path))
        } else if args.json {
            r matches Ok(Effect::Detail(d)) && detail_fits(d, l.events@, now, args.id@)
        } else {
            r matches Ok(Effect::Print(lines)) && views_of(lines@) == show_lines(
                l.events@,
                now,
                args.id@,
            )
        },
    }
}

/// Every assessment of `id` the log holds is an `assess` event.
proof fn lemma_assessments_are_assess(evs: Seq<Event>, id: Seq<char>)
    ensures
        forall|j: int|
            0 <= j < assessment_indices(evs, id).len() ==> 0 <= #[trigger] assessment_indices(
                evs,
                id,
            )[j] < evs.len() && evs[assessment_indices(evs, id)[j]].body is Assess,
    decreases evs.len(),
{
    if evs.len() > 0 {
        lemma_assessments_are_assess(evs.drop_last(), id);
        let prev = assessment_indices(evs.drop_last(), id);
        assert forall|j: int| 0 <= j < assessment_indices(evs, id).len() implies 0
            <= #[trigger] assessment_indices(evs, id)[j] < evs.len() && evs[assessment_indices(
            evs,
            id,
        )[j]].body is Assess by {
            if j < prev.len() {
                assert(assessment_indices(evs, id)[j] == prev[j]);
                assert(evs.drop_last()[prev[j]] == evs[prev[j]]);
            }
        }
    }
}

/// Push one line.
fn push_line(lines: &mut Vec<String>, text: String)
    ensures
        views_of(final(lines)@) == views_of(old(lines)@).push(text@),
{
    let ghost before = lines@;
    lines.push(text);
    proof {
        assert(views_of(lines@) =~= views_of(before).push(text@));
    }
}

/// `label` followed by `value`.
fn labelled(label: &str, value: &str) -> (s: String)
    ensures
        s@ == label@ + value@,
{
    concat(label, value)
}

/// The lines `show` prints of the resolve event `e`.
fn resolution_block_lines(lines: &mut Vec<String>, e: &Event)
    ensures
        views_of(final(lines)@) == views_of(old(lines)@) + resolution_block(*e),
{
    let ghost start = views_of(lines@);
    match &e.body {
        EventBody::Resolve { resolution, meta, .. } => {
            let mut head = owned("  resolution   ");
            append(&mut head, resolution.as_str());
            append(&mut head, " at ");
            append(&mut head, e.ts.as_str());
            append(&mut head, " by ");
            append(&mut head, resolution.by());
            push_line(lines, head);
            let ghost mid = views_of(lines@);
            match resolution {
                Resolution::Satisfied { evidence, .. } => {
                    let mut i: usize = 0;
                    while i < evidence.len()
                        invariant
                            i <= evidence@.len(),
                            views_of(lines@) == mid + evidence_lines(evidence@).take(i as int),
                        decreases evidence@.len() - i,
                    {
                        push_line(lines, labelled("    evidence   ", evidence[i].as_str()));
                        proof {
                            assert(evidence_lines(evidence@).take(i + 1) =~= evidence_lines(
                                evidence@,
                            ).take(i as int).push("    evidence   "@ + evidence@[i as int]@));
                        }
                        i = i + 1;
                    }
                    proof {
                        assert(evidence_lines(evidence@).take(evidence@.len() as int)
                            =~= evidence_lines(evidence@));
                    }
                },
                Resolution::Cancelled { reason, .. } => {
                    push_line(lines, labelled("    reason     ", reason.as_str()));
                },
                Resolution::Released { reason, .. } => {
                    match reason {
                        Some(t) => push_line(lines, labelled("    reason     ", t.as_str())),
                        None => {},
                    }
                },
            }
            let ghost pre_meta = views_of(lines@);
            match meta {
                Some(m) => push_line(lines, labelled("    meta       ", m.as_str())),
                None => {},
            }
            proof {
                assert(views_of(lines@) =~= pre_meta + opt_line("    meta       "@, *meta));
                assert(views_of(lines@) =~= start + resolution_block(*e));
            }
        },
        _ => {
            proof {
                reveal_strlit("  resolution   (unresolved)");
            }
            push_line(lines, owned("  resolution   (unresolved)"));
            proof {
                assert(views_of(lines@) =~= start + resolution_block(*e));
            }
        },
    }
}

} // verus!

verus! {

/// The lines `show` prints of the assessments `assessed`, the events at the
/// positions `ix` of `evs`.
fn assessment_lines(lines: &mut Vec<String>, assessed: &Vec<&Event>, Ghost(evs): Ghost<Seq<Event>>, Ghost(id): Ghost<Seq<char>>)
    requires
        assessed@.len() == assessment_indices(evs, id).len(),
        forall|j: int|
            0 <= j < assessed@.len() ==> *#[trigger] assessed@[j] == evs[assessment_indices(evs, id)[j]],
    ensures
        views_of(final(lines)@) == views_of(old(lines)@) + assessment_part(evs, id),
{
    let ghost ix = assessment_indices(evs, id);
    let ghost start = views_of(lines@);
    proof {
        lemma_assessments_are_assess(evs, id);
    }
    if assessed.len() == 0 {
        push_line(lines, owned("  assessments  (none)"));
        return;
    }
    push_line(lines, owned("  assessments"));
    let ghost mid = views_of(lines@);
    let mut j: usize = 0;
    while j < assessed.len()
        invariant
            assessed@.len() == ix.len(),
            forall|k: int| 0 <= k < assessed@.len() ==> *#[trigger] assessed@[k] == evs[ix[k]],
            forall|k: int| 0 <= k < ix.len() ==> 0 <= #[trigger] ix[k] < evs.len() && evs[ix[k]].body is Assess,
            j <= assessed@.len(),
            views_of(lines@) == mid + assessment_blocks(evs, ix.take(j as int)),
        decreases assessed@.len() - j,
    {
        let e = assessed[j];
        proof {
            assert(*assessed@[j as int] == evs[ix[j as int]]);
            assert(ix.take(j + 1).drop_last() =~= ix.take(j as int));
            assert(ix.take(j + 1).last() == ix[j as int]);
        }
        let ghost pre = views_of(lines@);
        match &e.body {
            EventBody::Assess { state, observer, note, meta, .. } => {
                let mut line = owned("    ");
                append(&mut line, e.ts.as_str());
                append(&mut line, "  ");
                append(&mut line, state.as_str());
                append(&mut line, "  ");
                append(&mut line, observer.as_str());
                match note {
                    Some(n) => {
                        append(&mut line, "  ");
                        append(&mut line, n.as_str());
                    },
                    None => {
                        proof {
                            assert(line@ + Seq::<char>::empty() =~= line@);
                        }
                    },
                }
                proof {
                    assert(line@ == assessment_line(*e));
                }
                push_line(lines, line);
                match meta {
                    Some(m) => push_line(lines, labelled("      meta     ", m.as_str())),
                    None => {},
                }
                proof {
                    assert(views_of(lines@) =~= pre + assessment_block(*e));
                }
            },
            _ => {
                proof {
                    assert(false);
                }
            },
        }
        j = j + 1;
    }
    proof {
        assert(ix.take(ix.len() as int) =~= ix);
        assert(views_of(lines@) =~= start + assessment_part(evs, id));
    }
}

/// The lines `show` prints of every horizon `id` has had, declaration first, once
/// there is more than one.
fn horizon_lines(lines: &mut Vec<String>, events: &[Event], id: &str, declared: &str)
    ensures
        views_of(final(lines)@) == views_of(old(lines)@) + (if amend_indices(events@, id@).len() == 0 {
            Seq::<Seq<char>>::empty()
        } else {
            seq!["    horizon    "@ + declared@ + "  declared"@] + amend_indices(events@, id@).map_values(
                |k: int| amend_line(events@[k]),
            )
        }),
{
    let ghost evs = events@;
    let mut amends: Vec<String> = Vec::new();
    let mut i: usize = 0;
    while i < events.len()
        invariant
            evs == events@,
            i <= evs.len(),
            views_of(amends@) == amend_indices(evs.take(i as int), id@).map_values(
                |k: int| amend_line(evs.take(i as int)[k]),
            ),
            forall|j: int| 0 <= j < amend_indices(evs.take(i as int), id@).len() ==> 0 <= #[trigger] amend_indices(evs.take(i as int), id@)[j] < i,
        decreases evs.len() - i,
    {
        let ghost pre = evs.take(i as int);
        let ghost post = evs.take(i + 1);
        proof {
            assert(post.drop_last() =~= pre);
            assert(post.last() == evs[i as int]);
        }
        let ghost a0 = amends@;
        let ghost ix0 = amend_indices(pre, id@);
        let ghost ix1 = amend_indices(post, id@);
        proof {
            assert forall|j: int| 0 <= j < ix0.len() implies #[trigger] pre[ix0[j]] == post[ix0[j]] by {}
            assert(ix0.map_values(|k: int| amend_line(pre[k])) =~= ix0.map_values(|k: int| amend_line(post[k])));
        }
        match &events[i].body {
            EventBody::Amend { promise, until, by, reason, .. } => {
                if same_text(promise.as_str(), id) {
                    let mut line = owned("    horizon    ");
                    append(&mut line, until.as_str());
                    append(&mut line, "  amended at ");
                    append(&mut line, events[i].ts.as_str());
                    append(&mut line, " by ");
                    append(&mut line, by.as_str());
                    match reason {
                        Some(t) => {
                            append(&mut line, ": ");
                            append(&mut line, t.as_str());
                        },
                        None => {
                            proof {
                                assert(line@ + Seq::<char>::empty() =~= line@);
                            }
                        },
                    }
                    proof {
                        assert(line@ == amend_line(evs[i as int]));
                    }
                    amends.push(line);
                    proof {
                        assert(ix1 == ix0.push(i as int));
                        assert(views_of(amends@) =~= views_of(a0).push(line@));
                        assert(ix1.map_values(|k: int| amend_line(post[k])) =~= ix0.map_values(
                            |k: int| amend_line(post[k]),
                        ).push(amend_line(post[i as int])));
                    }
                } else {
                    proof {
                        assert(ix1 == ix0);
                    }
                }
            },
            _ => {
                proof {
                    assert(ix1 == ix0);
                }
            },
        }
        proof {
            assert(views_of(amends@) =~= ix1.map_values(|k: int| amend_line(post[k])));
        }
        i = i + 1;
    }
    proof {
        assert(evs.take(evs.len() as int) =~= evs);
    }
    let ghost start = views_of(lines@);
    if amends.len() > 0 {
        let mut head = labelled("    horizon    ", declared);
        append(&mut head, "  declared");
        push_line(lines, head);
        let ghost mid = views_of(lines@);
        let mut j: usize = 0;
        while j < amends.len()
            invariant
                j <= amends@.len(),
                views_of(lines@) == mid + views_of(amends@).take(j as int),
            decreases amends@.len() - j,
        {
            push_line(lines, owned(amends[j].as_str()));
            proof {
                assert(views_of(amends@).take(j + 1) =~= views_of(amends@).take(j as int).push(
                    amends@[j as int]@,
                ));
            }
            j = j + 1;
        }
        proof {
            assert(views_of(amends@).take(amends@.len() as int) =~= views_of(amends@));
            assert(views_of(lines@) =~= start + (seq!["    horizon    "@ + declared@ + "  declared"@]
                + views_of(amends@)));
        }
    } else {
        proof {
            assert(views_of(lines@) =~= start + Seq::<Seq<char>>::empty());
        }
    }
}

/// The human-readable block `show` prints for the promise `view` describes.
#[verifier::rlimit(40)]
fn show_text(view: &PromiseView, events: &[Event], id: &str, Ghost(nw): Ghost<int>) -> (lines: Vec<
    String,
>)
    requires
        view_describes(*view, events@, nw, id@),
    ensures
        views_of(lines@) == show_lines(events@, nw, id@),
{
    let ghost evs = events@;
    let ghost id = id@;
    let p = view.record;
    let mut lines: Vec<String> = Vec::new();
    let mut head = owned(p.id.as_str());
    append(&mut head, "  ");
    append(&mut head, view.state.as_str());
    push_line(&mut lines, head);
    push_line(&mut lines, labelled("  promise      ", p.promise.as_str()));
    push_line(&mut lines, labelled("  by           ", p.by.as_str()));
    push_line(&mut lines, labelled("  to           ", p.to.as_str()));
    let ghost top = views_of(lines@);
    match &p.on {
        Some(on) => push_line(&mut lines, labelled("  on           ", on.as_str())),
        None => {},
    }
    proof {
        assert(views_of(lines@) =~= top + opt_line("  on           "@, p.on));
    }
    push_line(&mut lines, labelled("  until        ", view.until));
    horizon_lines(&mut lines, events, view.record.id.as_str(), p.until.as_str());
    proof {
        assert(rec_of(evs, id) == *p);
    }
    let ghost mid = views_of(lines@);
    match &p.task {
        Some(task) => push_line(&mut lines, labelled("  task         ", task.as_str())),
        None => {},
    }
    proof {
        assert(views_of(lines@) =~= mid + opt_line("  task         "@, p.task));
    }
    let ghost pre_meta = views_of(lines@);
    match &p.meta {
        Some(m) => push_line(&mut lines, labelled("  meta         ", m.as_str())),
        None => {},
    }
    proof {
        assert(views_of(lines@) =~= pre_meta + opt_line("  meta         "@, p.meta));
    }
    let ghost before_resolution = views_of(lines@);
    match view.resolution {
        Some(e) => resolution_block_lines(&mut lines, e),
        None => {
            proof {
                reveal_strlit("  resolution   (unresolved)");
            }
            push_line(&mut lines, owned("  resolution   (unresolved)"));
        },
    }
    proof {
        assert(views_of(lines@) =~= before_resolution + resolution_part(evs, id));
    }
    assessment_lines(&mut lines, &view.assessments, Ghost(evs), Ghost(id));
    proof {
        assert(views_of(lines@) =~= show_lines(evs, nw, id));
    }
    lines
}

/// `show ID [--json]`: one promise, with its record, computed state, how it ended,
/// and every assessment of it — as one JSON object or as a human-readable block.
pub fn show<'a>(
    args: &ShowArgs,
    ledger: Result<&'a Ledger, Fail>,
    now: Instant,
    path: &str,
    notes: &mut Vec<String>,
) -> (r: Result<Effect<'a>, Fail>)
    ensures
        shown(*args, ledger, now.spec_nanos(), path@, r, old(notes)@, final(notes)@),
{
    let l = match ledger {
        Ok(l) => l,
        Err(f) => {
            proof {
                assert(views_of(notes@) =~= views_of(notes@) + Seq::<Seq<char>>::empty());
            }
            return Err(f);
        },
    };
    note_all(notes, &l.warnings);
    let events = l.events.as_slice();
    let ghost evs = events@;
    let ghost nw = now.spec_nanos();
    let ghost id = args.id@;
    let folded = fold(events, now);
    let view = match lookup(&folded, args.id.as_str(), Ghost(evs), Ghost(nw)) {
        Some(v) => v,
        None => {
            proof {
                reveal_strlit("show");
            }
            return Err(unknown_id(args.id.as_str(), "show", path));
        },
    };
    if args.json {
        let mut assessments: Vec<&'a Event> = Vec::new();
        let mut j: usize = 0;
        while j < view.assessments.len()
            invariant
                j <= view.assessments@.len(),
                assessments@ == view.assessments@.take(j as int),
            decreases view.assessments@.len() - j,
        {
            assessments.push(view.assessments[j]);
            proof {
                assert(assessments@ =~= view.assessments@.take(j + 1));
            }
            j = j + 1;
        }
        proof {
            assert(view.assessments@.take(view.assessments@.len() as int) =~= view.assessments@);
        }
        return Ok(
            Effect::Detail(
                Detail {
                    record: view.record,
                    state: view.state,
                    until: view.until,
                    resolution: view.resolution,
                    assessments,
                },
            ),
        );
    }
    let lines = show_text(view, events, args.id.as_str(), Ghost(nw));
    Ok(Effect::Print(lines))
}

} // verus!

verus! {

// ---------------------------------------------------------------- a2a

/// What `a2a task ID` decides: the record of a declared promise, to be carried in
/// the Task metadata block. No computed state rides the block.
pub open spec fn tasked<'a>(
    id: Seq<char>,
    ledger: Result<&'a Ledger, Fail>,
    path: Seq<char>,
    r: Result<Effect<'a>, Fail>,
    before: Seq<String>,
    after: Seq<String>,
) -> bool {
    match ledger {
        Err(f) => r == Err::<Effect<'a>, Fail>(f) && noted(before, after, Seq::empty()),
        Ok(l) => noted(before, after, views_of(l.warnings@)) && if record_of(l.events@, id) is None {
            r matches Err(f) && op_says(f, unknown_id_text(id, "a2a task"@, path))
        } else {
            r matches Ok(Effect::TaskBlock { record, until }) && *record == rec_of(l.events@, id)
                && until@ == horizon(l.events@, id)
        },
    }
}

/// `a2a task ID`: the record of a declared promise, for the Task metadata block.
pub fn a2a_task<'a>(
    id: &str,
    ledger: Result<&'a Ledger, Fail>,
    now: Instant,
    path: &str,
    notes: &mut Vec<String>,
) -> (r: Result<Effect<'a>, Fail>)
    ensures
        tasked(id@, ledger, path@, r, old(notes)@, final(notes)@),
{
    let l = match ledger {
        Ok(l) => l,
        Err(f) => {
            proof {
                assert(views_of(notes@) =~= views_of(notes@) + Seq::<Seq<char>>::empty());
            }
            return Err(f);
        },
    };
    note_all(notes, &l.warnings);
    let events = l.events.as_slice();
    let folded = fold(events, now);
    match lookup(&folded, id, Ghost(events@), Ghost(now.spec_nanos())) {
        Some(v) => Ok(Effect::TaskBlock { record: v.record, until: v.until }),
        None => {
            proof {
                reveal_strlit("a2a task");
            }
            Err(unknown_id(id, "a2a task", path))
        },
    }
}

// ---------------------------------------------------------------- dispatch

/// The tail of the refusal of a flag the flag form of `promise` needs.
pub open spec fn required_text(flag: Seq<char>) -> Seq<char> {
    flag + " is required: pinki promise TEXT --by WHO --to WHO --until ISO"@
}

/// Why the flag form of `promise` is incomplete: `--by`, `--to` and `--until`,
/// checked in that order.
pub open spec fn flag_refusal(a: PromiseArgs) -> Option<Seq<char>> {
    if a.by is None {
        Some(required_text("--by"@))
    } else if a.to is None {
        Some(required_text("--to"@))
    } else if a.until is None {
        Some(required_text("--until"@))
    } else {
        None
    }
}

/// The record the flag form of `promise` gives.
pub open spec fn flag_incoming(a: PromiseArgs) -> Incoming {
    Incoming {
        id: a.id,
        promise: a.text.unwrap(),
        by: a.by.unwrap(),
        to: a.to.unwrap(),
        on: a.on,
        until: a.until.unwrap(),
        task: a.task,
        meta: a.meta,
    }
}

/// What `promise` decides: from the flags when the text is given (stdin is never
/// read then), else from the record piped on stdin (`piped`, `None` when nothing
/// was piped). `--meta` goes with the flags; beside a piped record it is refused.
pub open spec fn promised<'a>(
    a: PromiseArgs,
    piped: Option<Result<Incoming, Fail>>,
    ledger: Result<&'a Ledger, Fail>,
    now: int,
    path: Seq<char>,
    r: Result<Effect<'a>, Fail>,
    before: Seq<String>,
    after: Seq<String>,
) -> bool {
    match a.text {
        Some(_) => match flag_refusal(a) {
            Some(m) => refused_with(r, m) && noted(before, after, Seq::empty()),
            None => declared(flag_incoming(a), ledger, now, path, r, before, after),
        },
        None => match piped {
            None => refused_with(r, "no promise given: "@ + FORMS@) && noted(
                before,
                after,
                Seq::empty(),
            ),
            Some(_) if a.meta is Some => refused_with(r, META_WITH_STDIN@) && noted(
                before,
                after,
                Seq::empty(),
            ),
            Some(Err(f)) => r == Err::<Effect<'a>, Fail>(f) && noted(before, after, Seq::empty()),
            Some(Ok(inc)) => declared(inc, ledger, now, path, r, before, after),
        },
    }
}

/// `promise TEXT --by WHO --to WHO --until ISO [--on ID] [--task ID] [--id ID]`, or
/// `promise` with one record piped on stdin.
pub fn promise<'a>(
    a: PromiseArgs,
    piped: Option<Result<Incoming, Fail>>,
    ledger: Result<&'a Ledger, Fail>,
    now: Instant,
    path: &str,
    notes: &mut Vec<String>,
) -> (r: Result<Effect<'a>, Fail>)
    ensures
        promised(a, piped, ledger, now.spec_nanos(), path@, r, old(notes)@, final(notes)@),
{
    proof {
        assert(views_of(notes@) =~= views_of(notes@) + Seq::<Seq<char>>::empty());
    }
    let inc = match a.text {
        Some(text) => {
            let by = match required_flag(a.by, "--by") {
                Ok(v) => v,
                Err(f) => return Err(f),
            };
            let to = match required_flag(a.to, "--to") {
                Ok(v) => v,
                Err(f) => return Err(f),
            };
            let until = match required_flag(a.until, "--until") {
                Ok(v) => v,
                Err(f) => return Err(f),
            };
            Incoming { id: a.id, promise: text, by, to, on: a.on, until, task: a.task, meta: a.meta }
        },
        None => match piped {
            None => return Err(Fail::Usage(concat("no promise given: ", FORMS))),
            Some(_) if a.meta.is_some() => return Err(Fail::Usage(owned(META_WITH_STDIN))),
            Some(Err(f)) => return Err(f),
            Some(Ok(inc)) => inc,
        },
    };
    declare(&inc, ledger, now, path, notes)
}

/// What one command decides, given the record piped on stdin (for `promise` with
/// no text; `None` when nothing was piped), the ledger as read or the failure to
/// read it, `now`, and the ledger's path. `notes` collects, in order, what goes to
/// stderr before the outcome: the ledger's own warnings and the verb's.
pub open spec fn ran<'a>(
    command: Command,
    piped: Option<Result<Incoming, Fail>>,
    ledger: Result<&'a Ledger, Fail>,
    now: int,
    path: Seq<char>,
    r: Result<Effect<'a>, Fail>,
    before: Seq<String>,
    after: Seq<String>,
) -> bool {
    match command {
        Command::Promise(a) => promised(a, piped, ledger, now, path, r, before, after),
        Command::Amend(a) => amended(a, ledger, now, path, r, before, after),
        Command::Resolve(a) => resolved(a, ledger, now, path, r, before, after),
        Command::Assess(a) => assessed(a, ledger, now, path, r, before, after),
        Command::Ls(a) => listing(a, ledger, now, path, r, before, after),
        Command::Show(a) => shown(a, ledger, now, path, r, before, after),
        Command::A2a { command: A2aCommand::Card } => r matches Ok(Effect::Card) && noted(
            before,
            after,
            Seq::empty(),
        ),
        Command::A2a { command: A2aCommand::Task { id } } => tasked(
            id@,
            ledger,
            path,
            r,
            before,
            after,
        ),
    }
}

/// Dispatch one parsed command: decide what it appends or prints.
pub fn run<'a>(
    command: Command,
    piped: Option<Result<Incoming, Fail>>,
    ledger: Result<&'a Ledger, Fail>,
    now: Instant,
    path: &str,
    notes: &mut Vec<String>,
) -> (r: Result<Effect<'a>, Fail>)
    ensures
        ran(command, piped, ledger, now.spec_nanos(), path@, r, old(notes)@, final(notes)@),
{
    match command {
        Command::Promise(a) => promise(a, piped, ledger, now, path, notes),
        Command::Amend(a) => amend(&a, ledger, now, path, notes),
        Command::Resolve(a) => resolve(&a, ledger, now, path, notes),
        Command::Assess(a) => assess(&a, ledger, now, path, notes),
        Command::Ls(a) => ls(&a, ledger, now, path, notes),
        Command::Show(a) => show(&a, ledger, now, path, notes),
        Command::A2a { command } => match command {
            A2aCommand::Card => {
                proof {
                    assert(views_of(notes@) =~= views_of(notes@) + Seq::<Seq<char>>::empty());
                }
                Ok(Effect::Card)
            },
            A2aCommand::Task { id } => a2a_task(id.as_str(), ledger, now, path, notes),
        },
    }
}

} // verus!

verus! {

// ---------------------------------------------------------------- amend

/// Why an amend command is malformed, checked in order: an `--until` that is not an
/// instant, a blank `--reason`, a blank `--by`, a `--meta` that will not do.
pub open spec fn amend_refusal(args: AmendArgs) -> Option<Seq<char>> {
    if parsed_instant(trimmed(args.until@)) is None {
        Some(until_refusal(trimmed(args.until@)))
    } else if args.reason matches Some(t) && trimmed(t@).len() == 0 {
        Some("--reason"@ + " is empty"@)
    } else if args.by matches Some(b) && trimmed(b@).len() == 0 {
        Some("`by`"@ + " is empty"@)
    } else {
        meta_refusal(args.meta)
    }
}

/// What is said of an amend naming a promise that already ended.
pub open spec fn amend_resolved_text(id: Seq<char>, kind: Seq<char>, ts: Seq<char>) -> Seq<char> {
    "`"@ + id + "` is already resolved: "@ + kind + " at "@ + ts
        + ". A resolved promise cannot be amended: the resolution ended it and there is no horizon left to move (§4). Nothing was appended"@
}

/// What is said of an amend claimed by someone other than the debtor.
pub open spec fn not_the_debtor_text(id: Seq<char>, debtor: Seq<char>, by: Seq<char>) -> Seq<char> {
    "only the debtor may amend `"@ + id + "`: it is owed by "@ + debtor + ", not "@ + by
        + ". Moving a deadline is the debtor's own act; anyone else's view of it is an assessment (§8.2). Nothing was appended"@
}

/// What `amend` decides, given the ledger as read (or the failure to read it), at
/// `now`.
pub open spec fn amended<'a>(
    args: AmendArgs,
    ledger: Result<&'a Ledger, Fail>,
    now: int,
    path: Seq<char>,
    r: Result<Effect<'a>, Fail>,
    before: Seq<String>,
    after: Seq<String>,
) -> bool {
    match amend_refusal(args) {
        Some(m) => refused_with(r, m) && noted(before, after, Seq::empty()),
        None => match ledger {
            Err(f) => r == Err::<Effect<'a>, Fail>(f) && noted(before, after, Seq::empty()),
            Ok(l) => noted(before, after, views_of(l.warnings@)) && {
                let evs = l.events@;
                if record_of(evs, args.id@) is None {
                    r matches Err(f) && op_says(f, unknown_id_text(args.id@, "amend"@, path))
                } else {
                    let debtor = rec_of(evs, args.id@).by@;
                    match resolution_index(evs, args.id@) {
                        Some(k) => r matches Err(f) && op_says(
                            f,
                            amend_resolved_text(args.id@, kind_of(evs[k]), evs[k].ts@),
                        ),
                        None => if args.by matches Some(b) && trimmed(b@) != debtor {
                            r matches Err(f) && op_says(
                                f,
                                not_the_debtor_text(args.id@, debtor, trimmed(args.by.unwrap()@)),
                            )
                        } else {
                            &&& r matches Ok(Effect::Append { event, id })
                            &&& id@ == args.id@
                            &&& event.ts@ == instant_text(now)
                            &&& event.body matches EventBody::Amend { promise, by, until, reason, meta }
                            &&& promise@ == args.id@
                            &&& by@ == debtor
                            &&& until@ == instant_text(parsed_instant(trimmed(args.until@)).unwrap())
                            &&& trimmed_opt(reason, args.reason)
                            &&& meta_fits(meta, args.meta)
                        },
                    }
                }
            },
        },
    }
}

/// `amend ID --until ISO [--reason TEXT] [--by WHO] [--meta JSON]`: move the
/// deadline of a declared, unresolved promise. Only the debtor may; `--by` defaults
/// to the debtor and an explicit one that disagrees is refused. The declaration is
/// never rewritten: the amend is a new line beside it.
pub fn amend<'a>(
    args: &AmendArgs,
    ledger: Result<&'a Ledger, Fail>,
    now: Instant,
    path: &str,
    notes: &mut Vec<String>,
) -> (r: Result<Effect<'a>, Fail>)
    ensures
        amended(*args, ledger, now.spec_nanos(), path@, r, old(notes)@, final(notes)@),
{
    proof {
        assert(views_of(notes@) =~= views_of(notes@) + Seq::<Seq<char>>::empty());
    }
    let until = match parse_until(args.until.as_str()) {
        Ok(u) => u,
        Err(f) => return Err(f),
    };
    let reason = match &args.reason {
        Some(t) => match non_blank(t.as_str(), "--reason") {
            Ok(t) => Some(t),
            Err(f) => return Err(f),
        },
        None => None,
    };
    let claimed = match &args.by {
        Some(b) => match non_blank(b.as_str(), "`by`") {
            Ok(t) => Some(t),
            Err(f) => return Err(f),
        },
        None => None,
    };
    let meta = match check_meta(&args.meta) {
        Ok(m) => m,
        Err(f) => return Err(f),
    };
    let l = match ledger {
        Ok(l) => l,
        Err(f) => return Err(f),
    };
    note_all(notes, &l.warnings);
    let events = l.events.as_slice();
    let ghost evs = events@;
    let folded = fold(events, now);
    let view = match lookup(&folded, args.id.as_str(), Ghost(evs), Ghost(now.spec_nanos())) {
        Some(v) => v,
        None => {
            proof {
                reveal_strlit("amend");
            }
            return Err(unknown_id(args.id.as_str(), "amend", path));
        },
    };
    if let Some(event) = view.resolution {
        let kind = match event.resolution() {
            Some(res) => res.as_str(),
            None => {
                proof {
                    reveal_strlit("resolved");
                }
                "resolved"
            },
        };
        let mut m = owned("`");
        append(&mut m, args.id.as_str());
        append(&mut m, "` is already resolved: ");
        append(&mut m, kind);
        append(&mut m, " at ");
        append(&mut m, event.ts.as_str());
        append(
            &mut m,
            ". A resolved promise cannot be amended: the resolution ended it and there is no horizon left to move (§4). Nothing was appended",
        );
        return Err(Fail::Op(m));
    }
    let debtor = view.record.by.as_str();
    if let Some(b) = &claimed {
        if !same_text(b.as_str(), debtor) {
            let mut m = owned("only the debtor may amend `");
            append(&mut m, args.id.as_str());
            append(&mut m, "`: it is owed by ");
            append(&mut m, debtor);
            append(&mut m, ", not ");
            append(&mut m, b.as_str());
            append(
                &mut m,
                ". Moving a deadline is the debtor's own act; anyone else's view of it is an assessment (§8.2). Nothing was appended",
            );
            return Err(Fail::Op(m));
        }
    }
    let body = EventBody::amend(args.id.as_str(), debtor, until.as_str(), reason).with_meta(meta);
    let event = Event::new(now.to_text(), body);
    Ok(Effect::Append { event, id: owned(args.id.as_str()) })
}

} // verus!
