//! Promise ids: the ones pinki mints, and the ones a caller brings.
//!
//! Ids are opaque — nothing reads structure out of one. Two spaces, one field:
//!
//! - **Minted**, when no id is supplied: `pnk_` plus exactly six lowercase hex
//!   digits. Minting asks the ledger which ids are spoken for and retries until it
//!   finds a free one.
//! - **Supplied**: any non-blank string with no whitespace, no control characters
//!   and no invisible characters, up to [`MAX_SUPPLIED_LEN`] characters — see
//!   [`check_supplied`].
//!
//! The one thing a supplied id may not be is a malformed minted id: `pnk_` is
//! reserved for the space this module mints.

use vstd::prelude::*;
use vstd::hash_set::StringHashSet;
use crate::text::{
    char_is_control, char_is_whitespace, char_vec, concat, decimal, decimal_text,
    is_control_char, is_white_space, push_char, starts_with,
};

verus! {

/// Every minted promise id starts with this.
pub const PREFIX: &'static str = "pnk_";

/// The characters of [`PREFIX`].
pub open spec fn prefix_chars() -> Seq<char> {
    seq!['p', 'n', 'k', '_']
}

/// How many free-id attempts before giving up.
pub const MAX_ATTEMPTS: u32 = 64;

/// The longest id a caller may supply, in characters.
pub const MAX_SUPPLIED_LEN: usize = 128;

/// A lowercase hex digit.
pub open spec fn is_lower_hex(c: char) -> bool {
    ('0' <= c && c <= '9') || ('a' <= c && c <= 'f')
}

/// An id from the space [`mint`] draws from: `pnk_` plus six lowercase hex digits.
pub open spec fn minted_form(s: Seq<char>) -> bool {
    &&& s.len() == 10
    &&& s.take(4) == prefix_chars()
    &&& forall|i: int| 4 <= i < 10 ==> is_lower_hex(#[trigger] s[i])
}

/// Is this an id from the space [`mint`] draws from — `pnk_` plus six lowercase hex
/// digits?
pub fn is_well_formed(id: &str) -> (r: bool)
    ensures
        r == minted_form(id@),
{
    proof {
        reveal_strlit("pnk_");
        assert("pnk_"@ == prefix_chars());
    }
    if !starts_with(id, "pnk_") {
        return false;
    }
    let cs = char_vec(id);
    if cs.len() != 10 {
        return false;
    }
    let mut i: usize = 4;
    while i < 10
        invariant
            cs@ == id@,
            cs@.len() == 10,
            4 <= i <= 10,
            forall|j: int| 4 <= j < i ==> is_lower_hex(#[trigger] cs@[j]),
        decreases 10 - i,
    {
        let c = cs[i];
        if !(('0' <= c && c <= '9') || ('a' <= c && c <= 'f')) {
            return false;
        }
        i = i + 1;
    }
    true
}

/// Why a caller-supplied id was refused.
#[derive(Debug, Clone, PartialEq, Eq, Structural)]
pub enum SuppliedIdError {
    /// Empty.
    Blank,
    /// Holds a whitespace character somewhere inside it.
    Whitespace,
    /// Holds a control character.
    Control,
    /// Holds an invisible character: one with the Unicode `Default_Ignorable_Code_Point`
    /// property.
    Invisible,
    /// Longer than [`MAX_SUPPLIED_LEN`] characters. Carries the length it had.
    TooLong(usize),
    /// Wears the `pnk_` prefix without being an id this module could have minted.
    ReservedPrefix,
}

/// Whether `c` has the Unicode `Default_Ignorable_Code_Point` property (Unicode
/// 16.0.0): zero-width spaces and joiners, the bidi controls, variation selectors,
/// tag characters, the soft hyphen, the Hangul fillers, and the code points reserved
/// for more of them — seventeen ranges.
pub open spec fn is_invisible(c: char) -> bool {
    let u = c as u32;
    ||| u == 0xad
    ||| u == 0x34f
    ||| u == 0x61c
    ||| 0x115f <= u <= 0x1160
    ||| 0x17b4 <= u <= 0x17b5
    ||| 0x180b <= u <= 0x180f
    ||| 0x200b <= u <= 0x200f
    ||| 0x202a <= u <= 0x202e
    ||| 0x2060 <= u <= 0x206f
    ||| u == 0x3164
    ||| 0xfe00 <= u <= 0xfe0f
    ||| u == 0xfeff
    ||| u == 0xffa0
    ||| 0xfff0 <= u <= 0xfff8
    ||| 0x1bca0 <= u <= 0x1bca3
    ||| 0x1d173 <= u <= 0x1d17a
    ||| 0xe0000 <= u <= 0xe0fff
}

/// Is `c` an invisible character?
pub fn char_is_invisible(c: char) -> (r: bool)
    ensures
        r == is_invisible(c),
{
    let u = c as u32;
    u == 0xad || u == 0x34f || u == 0x61c || (0x115f <= u && u <= 0x1160) || (0x17b4 <= u && u
        <= 0x17b5) || (0x180b <= u && u <= 0x180f) || (0x200b <= u && u <= 0x200f) || (0x202a
        <= u && u <= 0x202e) || (0x2060 <= u && u <= 0x206f) || u == 0x3164 || (0xfe00 <= u && u
        <= 0xfe0f) || u == 0xfeff || u == 0xffa0 || (0xfff0 <= u && u <= 0xfff8) || (0x1bca0 <= u
        && u <= 0x1bca3) || (0x1d173 <= u && u <= 0x1d17a) || (0xe0000 <= u && u <= 0xe0fff)
}

/// The first white-space, control or invisible character of `s`, by which rule it
/// fails.
pub open spec fn first_flaw(s: Seq<char>) -> Option<SuppliedIdError>
    decreases s.len(),
{
    if s.len() == 0 {
        None
    } else if is_white_space(s[0]) {
        Some(SuppliedIdError::Whitespace)
    } else if is_control_char(s[0]) {
        Some(SuppliedIdError::Control)
    } else if is_invisible(s[0]) {
        Some(SuppliedIdError::Invisible)
    } else {
        first_flaw(s.drop_first())
    }
}

/// The verdict on a supplied id, rule by rule in order: blank, then the first
/// white-space, control or invisible character, then length, then the reserved
/// prefix.
pub open spec fn supplied_verdict(s: Seq<char>) -> Result<(), SuppliedIdError> {
    if s.len() == 0 {
        Err(SuppliedIdError::Blank)
    } else if first_flaw(s) is Some {
        Err(first_flaw(s).unwrap())
    } else if s.len() > MAX_SUPPLIED_LEN {
        Err(SuppliedIdError::TooLong(s.len() as usize))
    } else if s.len() >= 4 && s.take(4) == prefix_chars() && !minted_form(s) {
        Err(SuppliedIdError::ReservedPrefix)
    } else {
        Ok(())
    }
}

/// Check an id a caller brought with them. Call it on the trimmed value.
pub fn check_supplied(id: &str) -> (r: Result<(), SuppliedIdError>)
    ensures
        r == supplied_verdict(id@),
{
    let cs = char_vec(id);
    if cs.len() == 0 {
        return Err(SuppliedIdError::Blank);
    }
    let mut i: usize = 0;
    proof {
        assert(id@.skip(0) == id@);
    }
    while i < cs.len()
        invariant
            cs@ == id@,
            i <= cs@.len(),
            first_flaw(id@) == first_flaw(id@.skip(i as int)),
        decreases cs@.len() - i,
    {
        proof {
            assert(id@.skip(i as int).drop_first() == id@.skip(i + 1));
        }
        if char_is_whitespace(cs[i]) {
            return Err(SuppliedIdError::Whitespace);
        }
        if char_is_control(cs[i]) {
            return Err(SuppliedIdError::Control);
        }
        if char_is_invisible(cs[i]) {
            return Err(SuppliedIdError::Invisible);
        }
        i = i + 1;
    }
    proof {
        assert(id@.skip(i as int).len() == 0);
    }
    let length = cs.len();
    if length > MAX_SUPPLIED_LEN {
        return Err(SuppliedIdError::TooLong(length));
    }
    proof {
        reveal_strlit("pnk_");
        assert("pnk_"@ == prefix_chars());
    }
    if starts_with(id, "pnk_") && !is_well_formed(id) {
        return Err(SuppliedIdError::ReservedPrefix);
    }
    Ok(())
}

/// Minting failed: every attempt collided with an id already in the ledger.
#[derive(Debug, Clone, PartialEq, Eq, Structural)]
pub struct MintError {
    pub attempts: u32,
    pub taken: usize,
}

impl MintError {
    /// What went wrong, in words.
    pub fn message(&self) -> (s: String)
        ensures
            s@ == "could not mint a free promise id in "@ + decimal(self.attempts as nat)
                + " attempts ("@ + decimal(self.taken as nat)
                + " ids already in the ledger); the 6-hex-digit id space is crowded — the ledger may need splitting"@,
    {
        let a = decimal_text(self.attempts as u64);
        let t = decimal_text(self.taken as u64);
        let s = concat("could not mint a free promise id in ", a.as_str());
        let s = concat(s.as_str(), " attempts (");
        let s = concat(s.as_str(), t.as_str());
        concat(
            s.as_str(),
            " ids already in the ledger); the 6-hex-digit id space is crowded — the ledger may need splitting",
        )
    }
}

/// The wording of each refusal of a supplied id.
pub open spec fn supplied_error_message(e: SuppliedIdError) -> Seq<char> {
    match e {
        SuppliedIdError::Blank => "an id has to be something: whitespace is not a value, and a record whose `id` is blank cannot be shown, resolved, or joined on (§1). Nothing was appended"@,
        SuppliedIdError::Whitespace => "an id may not contain whitespace: it is a column in `pinki ls`, the first field of the tab-separated line every mutating verb prints, and the key two ledgers are joined on (§1, §7). Nothing was appended"@,
        SuppliedIdError::Control => "an id may not contain control characters: §1's id is a handle meant to be read and typed, and one that can move a terminal's cursor is not that. Nothing was appended"@,
        SuppliedIdError::Invisible => "an id may not contain invisible characters (Unicode Default_Ignorable_Code_Point, such as a zero-width space): two ids that differ only by one look identical in `pinki ls`, in a terminal, and to whoever checks the join (§1, §7). Nothing was appended"@,
        SuppliedIdError::TooLong(length) => "an id may be at most 128 characters and this one is "@
            + decimal(length as nat) + ": §1's id is a handle, not a payload. Nothing was appended"@,
        SuppliedIdError::ReservedPrefix => "`pnk_` is reserved for the ids pinki mints, which are `pnk_` followed by exactly six lowercase hex digits, e.g. `pnk_4f3a91` (§1). Any other id is welcome — bring one that does not wear this prefix, or drop `--id` and let pinki mint one. Nothing was appended"@,
    }
}

impl SuppliedIdError {
    /// What was wrong with the id, in words.
    pub fn message(&self) -> (s: String)
        ensures
            s@ == supplied_error_message(*self),
    {
        match self {
            SuppliedIdError::Blank => crate::text::owned(
                "an id has to be something: whitespace is not a value, and a record whose `id` is blank cannot be shown, resolved, or joined on (§1). Nothing was appended",
            ),
            SuppliedIdError::Whitespace => crate::text::owned(
                "an id may not contain whitespace: it is a column in `pinki ls`, the first field of the tab-separated line every mutating verb prints, and the key two ledgers are joined on (§1, §7). Nothing was appended",
            ),
            SuppliedIdError::Control => crate::text::owned(
                "an id may not contain control characters: §1's id is a handle meant to be read and typed, and one that can move a terminal's cursor is not that. Nothing was appended",
            ),
            SuppliedIdError::Invisible => crate::text::owned(
                "an id may not contain invisible characters (Unicode Default_Ignorable_Code_Point, such as a zero-width space): two ids that differ only by one look identical in `pinki ls`, in a terminal, and to whoever checks the join (§1, §7). Nothing was appended",
            ),
            SuppliedIdError::TooLong(length) => {
                let n = decimal_text(*length as u64);
                let s = concat("an id may be at most 128 characters and this one is ", n.as_str());
                concat(s.as_str(), ": §1's id is a handle, not a payload. Nothing was appended")
            },
            SuppliedIdError::ReservedPrefix => crate::text::owned(
                "`pnk_` is reserved for the ids pinki mints, which are `pnk_` followed by exactly six lowercase hex digits, e.g. `pnk_4f3a91` (§1). Any other id is welcome — bring one that does not wear this prefix, or drop `--id` and let pinki mint one. Nothing was appended",
            ),
        }
    }
}

/// Attempt `a` drew a candidate that is already taken.
pub open spec fn attempt_collided<F: Fn(u32) -> String>(
    generate: F,
    taken: Set<Seq<char>>,
    a: u32,
) -> bool {
    exists|s: String| #[trigger] generate.ensures((a,), s) && taken.contains(s@)
}

/// Mint an id that is not already `taken`, drawing candidates from `generate`, one
/// attempt number at a time, until one is free or [`MAX_ATTEMPTS`] have collided.
pub fn mint_with<F: Fn(u32) -> String>(taken: &StringHashSet, generate: F) -> (r: Result<
    String,
    MintError,
>)
    requires
        forall|a: u32| a < MAX_ATTEMPTS ==> generate.requires((a,)),
    ensures
        match r {
            Ok(id) => !taken@.contains(id@) && exists|a: u32|
                a < MAX_ATTEMPTS && #[trigger] generate.ensures((a,), id),
            Err(e) => e.attempts == MAX_ATTEMPTS && e.taken == taken@.len() && forall|a: u32|
                a < MAX_ATTEMPTS ==> #[trigger] attempt_collided(generate, taken@, a),
        },
{
    let mut attempt: u32 = 0;
    let ghost mut seen: Seq<String> = Seq::empty();
    while attempt < MAX_ATTEMPTS
        invariant
            attempt <= MAX_ATTEMPTS,
            seen.len() == attempt,
            forall|a: u32| a < MAX_ATTEMPTS ==> generate.requires((a,)),
            forall|a: int|
                0 <= a < attempt ==> generate.ensures((a as u32,), #[trigger] seen[a])
                    && taken@.contains(seen[a]@),
        decreases MAX_ATTEMPTS - attempt,
    {
        let candidate = generate(attempt);
        if !taken.contains(candidate.as_str()) {
            proof {
                assert(generate.ensures((attempt,), candidate));
                assert(!taken@.contains(candidate@));
                assert(exists|a: u32| a < MAX_ATTEMPTS && #[trigger] generate.ensures((a,), candidate));
            }
            return Ok(candidate);
        }
        proof {
            seen = seen.push(candidate);
        }
        attempt = attempt + 1;
    }
    proof {
        assert forall|a: u32| a < MAX_ATTEMPTS implies #[trigger] attempt_collided(
            generate,
            taken@,
            a,
        ) by {
            assert(generate.ensures((a,), seen[a as int]));
        }
    }
    Err(MintError { attempts: MAX_ATTEMPTS, taken: taken.len() })
}

/// Nanoseconds since the Unix epoch on the system clock, or 0 where the clock reads
/// before the epoch (`SystemTime::now().duration_since(UNIX_EPOCH)`). Nothing is
/// claimed of the value: it is the time.
#[verifier::external_body]
fn clock_nanos() -> u128 {
    std::time::SystemTime::now().duration_since(std::time::UNIX_EPOCH).map(|d| d.as_nanos()).unwrap_or(0)
}

/// `BuildHasher::hash_one` of `(nanos, attempt)` under a freshly, randomly keyed
/// `std::collections::hash_map::RandomState`. Nothing is claimed of the value: it
/// depends on keys std draws at random.
#[verifier::external_body]
fn keyed_hash(nanos: u128, attempt: u32) -> u64 {
    std::hash::BuildHasher::hash_one(&std::collections::hash_map::RandomState::new(), (nanos, attempt))
}

/// The lowercase hex digit for `d` (`d < 16`).
pub open spec fn hex_digit(d: nat) -> char {
    if d < 10 {
        crate::text::digit_char(d)
    } else if d == 10 {
        'a'
    } else if d == 11 {
        'b'
    } else if d == 12 {
        'c'
    } else if d == 13 {
        'd'
    } else if d == 14 {
        'e'
    } else {
        'f'
    }
}

fn exec_hex_digit(d: u32) -> (c: char)
    requires
        d < 16,
    ensures
        c == hex_digit(d as nat),
        is_lower_hex(c),
{
    if d == 0 { '0' }
    else if d == 1 { '1' }
    else if d == 2 { '2' }
    else if d == 3 { '3' }
    else if d == 4 { '4' }
    else if d == 5 { '5' }
    else if d == 6 { '6' }
    else if d == 7 { '7' }
    else if d == 8 { '8' }
    else if d == 9 { '9' }
    else if d == 10 { 'a' }
    else if d == 11 { 'b' }
    else if d == 12 { 'c' }
    else if d == 13 { 'd' }
    else if d == 14 { 'e' }
    else { 'f' }
}

/// `pnk_` followed by `bits` as six lowercase hex digits, most significant first.
pub fn minted_id(bits: u32) -> (s: String)
    requires
        bits < 0x100_0000,
    ensures
        minted_form(s@),
        forall|k: int|
            0 <= k < 6 ==> s@[4 + k] == hex_digit(
                #[trigger] nibble(bits, (20 - 4 * k) as u32),
            ),
{
    proof {
        reveal_strlit("pnk_");
        assert("pnk_"@ == prefix_chars());
    }
    let mut s = crate::text::owned("pnk_");
    let mut shift: u32 = 24;
    let ghost mut digits: Seq<char> = Seq::empty();
    while shift > 0
        invariant
            shift % 4 == 0,
            shift <= 24,
            digits.len() == (24 - shift) / 4,
            s@ == prefix_chars() + digits,
            forall|k: int| 0 <= k < digits.len() ==> is_lower_hex(#[trigger] digits[k]),
            forall|k: int|
                0 <= k < digits.len() ==> digits[k] == hex_digit(
                    #[trigger] nibble(bits, (20 - 4 * k) as u32),
                ),
        decreases shift,
    {
        shift = shift - 4;
        let d = (bits >> shift) & 0xf;
        proof {
            lemma_nibble_small(bits, shift);
        }
        let c = exec_hex_digit(d);
        push_char(&mut s, c);
        proof {
            assert(shift == 20 - 4 * digits.len());
            digits = digits.push(c);
        }
    }
    proof {
        assert forall|i: int| 4 <= i < 10 implies is_lower_hex(#[trigger] s@[i]) by {
            assert(s@[i] == digits[i - 4]);
        }
        assert(s@.take(4) == prefix_chars());
        assert forall|k: int| 0 <= k < 6 implies s@[4 + k] == hex_digit(
            #[trigger] nibble(bits, (20 - 4 * k) as u32),
        ) by {
            assert(s@[4 + k] == digits[k]);
        }
    }
    s
}

/// The four bits of `bits` starting `shift` bits up.
pub open spec fn nibble(bits: u32, shift: u32) -> nat {
    ((bits >> shift) & 0xf) as nat
}

proof fn lemma_nibble_small(bits: u32, shift: u32)
    ensures
        (bits >> shift) & 0xf < 16,
{
    assert((bits >> shift) & 0xf < 16) by (bit_vector);
}

/// One candidate id, drawn from the clock and a randomly keyed hasher.
pub fn candidate(attempt: u32) -> (s: String)
    ensures
        minted_form(s@),
{
    let h = keyed_hash(clock_nanos(), attempt);
    let bits: u32 = (h & 0xff_ffff) as u32;
    assert(h & 0xff_ffff < 0x100_0000) by (bit_vector);
    minted_id(bits)
}

/// The set of the ids `ids`, to hand to [`mint`] as the ids already taken.
pub fn id_set(ids: &[String]) -> (t: StringHashSet)
    ensures
        t@ == Set::new(|s: Seq<char>| exists|i: int| 0 <= i < ids@.len() && #[trigger] ids@[i]@ == s),
{
    let mut t = StringHashSet::new();
    let mut i: usize = 0;
    while i < ids.len()
        invariant
            i <= ids@.len(),
            t@ == Set::new(|s: Seq<char>| exists|j: int| 0 <= j < i && #[trigger] ids@[j]@ == s),
        decreases ids@.len() - i,
    {
        let id = crate::text::owned(ids[i].as_str());
        t.insert(id);
        proof {
            assert(t@ =~= Set::new(|s: Seq<char>| exists|j: int| 0 <= j < i + 1 && #[trigger] ids@[j]@ == s)) by {
                assert forall|s: Seq<char>| t@.contains(s) implies exists|j: int| 0 <= j < i + 1 && #[trigger] ids@[j]@ == s by {
                    if s == id@ {
                        assert(ids@[i as int]@ == s);
                    }
                }
            }
        }
        i = i + 1;
    }
    t
}

/// Some id of the minted form is among `taken`.
pub open spec fn holds_a_minted_id(taken: Set<Seq<char>>) -> bool {
    exists|s: Seq<char>| #[trigger] taken.contains(s) && minted_form(s)
}

/// Mint an id that is not already `taken`: `pnk_` plus six lowercase hex digits
/// drawn at random, retried until free or [`MAX_ATTEMPTS`] have collided. Failure
/// needs every attempt to have drawn a taken id, so it needs a taken id of the
/// minted form: with none taken, minting succeeds.
pub fn mint(taken: &StringHashSet) -> (r: Result<String, MintError>)
    ensures
        match r {
            Ok(id) => minted_form(id@) && !taken@.contains(id@),
            Err(e) => {
                &&& e.attempts == MAX_ATTEMPTS
                &&& e.taken == taken@.len()
                &&& forall|a: u32| a < MAX_ATTEMPTS ==> #[trigger] attempt_collided(candidate, taken@, a)
                &&& holds_a_minted_id(taken@)
            },
        },
        !holds_a_minted_id(taken@) ==> r is Ok,
{
    let r = mint_with(taken, candidate);
    proof {
        if r is Ok {
            let id = r->Ok_0;
            let a = choose|a: u32| a < MAX_ATTEMPTS && call_ensures(candidate, (a,), id);
        } else {
            assert(attempt_collided(candidate, taken@, 0));
            let s = choose|s: String| #[trigger] call_ensures(candidate, (0u32,), s) && taken@.contains(s@);
            assert(minted_form(s@));
            assert(taken@.contains(s@));
        }
    }
    r
}

} // verus!
