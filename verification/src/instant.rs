//! Instants: the deadlines the fold compares, and the `now` it compares them to.
//!
//! An instant is held as a count of nanoseconds since the Unix epoch, within the
//! range jiff represents. Parsing and printing ISO-8601 text is `jiff`'s work; what
//! it makes of a text, and the text it prints, are named below and the library
//! reasons about them only through those names.

use vstd::prelude::*;

verus! {

/// What `jiff::Timestamp::from_str` makes of `text`, in nanoseconds since the Unix
/// epoch (`Timestamp::as_nanosecond`), or `None` where it refuses the text.
pub uninterp spec fn parsed_instant(text: Seq<char>) -> Option<int>;

/// The earliest instant jiff represents, `Timestamp::MIN` (-9999-01-02T01:59:59Z), in
/// nanoseconds since the epoch.
pub const MIN_NANOS: i128 = -377_705_023_201_000_000_000;

/// The latest instant jiff represents, `Timestamp::MAX`
/// (9999-12-30T22:00:00.999999999Z), in nanoseconds since the epoch.
pub const MAX_NANOS: i128 = 253_402_207_200_999_999_999;

/// Whether `jiff::Timestamp::from_nanosecond(nanos)` accepts `nanos`: whether it lies
/// between `Timestamp::MIN` and `Timestamp::MAX`.
pub open spec fn instant_in_range(nanos: int) -> bool {
    MIN_NANOS <= nanos <= MAX_NANOS
}

/// The ISO-8601 text `jiff` prints for the timestamp at `nanos` (its `Display`).
pub uninterp spec fn instant_text(nanos: int) -> Seq<char>;

/// The message `jiff` gives (its error's `Display`) when `Timestamp::from_str`
/// refuses `text`.
pub uninterp spec fn refusal_text(text: Seq<char>) -> Seq<char>;

/// `jiff::Timestamp::from_str`, read back as nanoseconds with `as_nanosecond`, or the
/// text of jiff's error.
///
/// Claims: on success the result is the named `parsed_instant(text)`, and it lies
/// between `Timestamp::MIN` and `Timestamp::MAX`, as every jiff timestamp does (and
/// jiff documents `as_nanosecond` as giving back what `Timestamp::from_nanosecond`
/// accepts to "create an identical timestamp"); on refusal `parsed_instant(text)` is `None` and the message
/// is the named `refusal_text(text)`. Nanosecond order is jiff's `Timestamp` order:
/// its `Ord` compares seconds and then the same-signed sub-second part.
#[verifier::external_body]
pub(crate) fn parse_instant_or_refusal(text: &str) -> (r: Result<i128, String>)
    ensures
        match r {
            Ok(n) => parsed_instant(text@) == Some(n as int) && instant_in_range(n as int),
            Err(m) => parsed_instant(text@) is None && m@ == refusal_text(text@),
        },
{
    match <jiff::Timestamp as core::str::FromStr>::from_str(text) {
        Ok(t) => Ok(t.as_nanosecond()),
        Err(e) => Err(e.to_string()),
    }
}

/// Parse ISO-8601 text as jiff does, in nanoseconds since the epoch.
pub fn parse_instant(text: &str) -> (r: Option<i128>)
    ensures
        match r {
            Some(n) => parsed_instant(text@) == Some(n as int) && instant_in_range(n as int),
            None => parsed_instant(text@) is None,
        },
{
    match parse_instant_or_refusal(text) {
        Ok(n) => Some(n),
        Err(_) => None,
    }
}

/// Does jiff represent the instant `nanos` nanoseconds after the epoch?
fn nanos_in_range(nanos: i128) -> (r: bool)
    ensures
        r == instant_in_range(nanos as int),
{
    MIN_NANOS <= nanos && nanos <= MAX_NANOS
}

/// `jiff::Timestamp`'s `Display` for the timestamp at `nanos`. Its text is named
/// `instant_text(nanos)`; nothing else is claimed of its shape.
#[verifier::external_body]
fn format_nanos(nanos: i128) -> (s: String)
    requires
        instant_in_range(nanos as int),
    ensures
        s@ == instant_text(nanos as int),
{
    match jiff::Timestamp::from_nanosecond(nanos) {
        Ok(t) => t.to_string(),
        Err(_) => String::new(),
    }
}

/// An instant jiff can represent, in nanoseconds since the Unix epoch.
#[derive(Clone, Copy, Debug)]
pub struct Instant {
    nanos: i128,
}

impl Instant {
    #[verifier::type_invariant]
    spec fn representable(self) -> bool {
        instant_in_range(self.nanos as int)
    }

    /// Nanoseconds since the Unix epoch.
    pub closed spec fn spec_nanos(self) -> int {
        self.nanos as int
    }

    /// Nanoseconds since the Unix epoch.
    pub fn nanos(&self) -> (n: i128)
        ensures
            n as int == self.spec_nanos(),
            instant_in_range(n as int),
    {
        proof {
            use_type_invariant(self);
        }
        self.nanos
    }

    /// The instant `nanos` nanoseconds after the epoch, where jiff can represent it.
    pub fn from_nanosecond(nanos: i128) -> (r: Option<Instant>)
        ensures
            r is Some <==> instant_in_range(nanos as int),
            r matches Some(i) ==> i.spec_nanos() == nanos,
    {
        if nanos_in_range(nanos) {
            Some(Instant { nanos })
        } else {
            None
        }
    }

    /// Parse ISO-8601 text as jiff does.
    pub fn parse(text: &str) -> (r: Option<Instant>)
        ensures
            match r {
                Some(i) => parsed_instant(text@) == Some(i.spec_nanos()),
                None => parsed_instant(text@) is None,
            },
    {
        match parse_instant(text) {
            Some(nanos) => Some(Instant { nanos }),
            None => None,
        }
    }

    /// The ISO-8601 text jiff prints for this instant.
    pub fn to_text(&self) -> (s: String)
        ensures
            s@ == instant_text(self.spec_nanos()),
    {
        proof {
            use_type_invariant(self);
        }
        format_nanos(self.nanos)
    }

    /// This instant with its fraction of a second dropped, rounding toward the epoch
    /// as `Timestamp::as_second` does.
    pub fn to_the_second(&self) -> (r: Instant)
        ensures
            r.spec_nanos() == whole_seconds(self.spec_nanos()),
    {
        proof {
            use_type_invariant(self);
        }
        let n = self.nanos;
        let whole: i128 = if n >= 0 {
            n - n % 1_000_000_000
        } else {
            let m1: i128 = -(n + 1);
            let r: i128 = (m1 % 1_000_000_000 + 1) % 1_000_000_000;
            proof {
                lemma_mod_of_successor(m1 as int);
            }
            n + r
        };
        proof {
            assert(whole == whole_seconds(n as int));
            assert(0 <= (n as int) % 1_000_000_000 < 1_000_000_000);
            assert(0 <= (-(n as int)) % 1_000_000_000 < 1_000_000_000);
            assert(MIN_NANOS % 1_000_000_000 == 0);
            if n < 0 && whole < MIN_NANOS {
                vstd::arithmetic::div_mod::lemma_fundamental_div_mod(-(n as int), 1_000_000_000);
                vstd::arithmetic::div_mod::lemma_fundamental_div_mod(-(MIN_NANOS as int), 1_000_000_000);
                assert(false);
            }
        }
        Instant { nanos: whole }
    }
}

/// `nanos` with its fraction of a second dropped, rounding toward zero.
pub open spec fn whole_seconds(nanos: int) -> int {
    if nanos >= 0 {
        nanos - nanos % 1_000_000_000
    } else {
        nanos + (-nanos) % 1_000_000_000
    }
}

proof fn lemma_mod_of_successor(m: int)
    requires
        m >= 0,
    ensures
        (m % 1_000_000_000 + 1) % 1_000_000_000 == (m + 1) % 1_000_000_000,
{
    vstd::arithmetic::div_mod::lemma_add_mod_noop(m, 1, 1_000_000_000);
    vstd::arithmetic::div_mod::lemma_small_mod(1, 1_000_000_000);
}

} // verus!
