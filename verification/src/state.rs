//! The fold: computed state, from the log and an injected `now`.
//!
//! State is computed from the log, never stored. Given the same events and the same
//! `now`, the fold gives the same answer; `now` is a parameter, never read from a
//! clock. Assessments are collected onto each promise and have no effect on the
//! computed state.
//!
//! Three tolerances, because two ledgers may be concatenated into a joined view: a
//! second `promise` event for a declared id is ignored (the first declaration
//! stands); a second `resolve` for a promise is ignored (the first resolution
//! stands); and a `resolve`, `amend` or `assess` naming an id no `promise` event
//! declares is ignored. An `amend` moves the horizon: the last amend in the log
//! naming a promise sets the deadline `overdue` is computed against.

use vstd::prelude::*;
use vstd::hash_map::StringHashMap;
use crate::event::{Event, EventBody, Resolution};
use crate::instant::{Instant, parsed_instant, parse_instant};
use crate::record::Promise;

verus! {

/// A computed state.
#[derive(Debug, Clone, Copy, PartialEq, Eq, Structural, Hash)]
pub enum State {
    /// `on` is set and the antecedent is not yet satisfied.
    Conditional,
    /// Owed now. Either no `on`, or the antecedent is satisfied.
    Detached,
    /// `detached`, unresolved, and `now > until`.
    Overdue,
    /// Resolved by the debtor, with evidence.
    Satisfied,
    /// Resolved by the debtor, with a reason.
    Cancelled,
    /// Resolved by the creditor letting the debtor off.
    Released,
    /// The antecedent ended without being satisfied: never became owed.
    Expired,
}

/// The state's name, as it is printed.
pub open spec fn state_word(s: State) -> Seq<char> {
    match s {
        State::Conditional => seq!['c', 'o', 'n', 'd', 'i', 't', 'i', 'o', 'n', 'a', 'l'],
        State::Detached => seq!['d', 'e', 't', 'a', 'c', 'h', 'e', 'd'],
        State::Overdue => seq!['o', 'v', 'e', 'r', 'd', 'u', 'e'],
        State::Satisfied => seq!['s', 'a', 't', 'i', 's', 'f', 'i', 'e', 'd'],
        State::Cancelled => seq!['c', 'a', 'n', 'c', 'e', 'l', 'l', 'e', 'd'],
        State::Released => seq!['r', 'e', 'l', 'e', 'a', 's', 'e', 'd'],
        State::Expired => seq!['e', 'x', 'p', 'i', 'r', 'e', 'd'],
    }
}

/// Terminal states are the ones a promise cannot leave.
pub open spec fn terminal(s: State) -> bool {
    s == State::Satisfied || s == State::Cancelled || s == State::Released || s == State::Expired
}

impl State {
    /// The state's name, as `ls --json` and `show` print it.
    pub fn as_str(self) -> (r: &'static str)
        ensures
            r@ == state_word(self),
    {
        proof {
            reveal_strlit("conditional");
            reveal_strlit("detached");
            reveal_strlit("overdue");
            reveal_strlit("satisfied");
            reveal_strlit("cancelled");
            reveal_strlit("released");
            reveal_strlit("expired");
        }
        match self {
            State::Conditional => "conditional",
            State::Detached => "detached",
            State::Overdue => "overdue",
            State::Satisfied => "satisfied",
            State::Cancelled => "cancelled",
            State::Released => "released",
            State::Expired => "expired",
        }
    }

    /// The state as a string: the word it prints as.
    pub fn display(self) -> (r: String)
        ensures
            r@ == state_word(self),
    {
        crate::text::owned(self.as_str())
    }

    /// Terminal states are the ones the promise cannot leave: it ended, one way or
    /// another.
    pub fn is_terminal(self) -> (r: bool)
        ensures
            r == terminal(self),
    {
        match self {
            State::Satisfied | State::Cancelled | State::Released | State::Expired => true,
            _ => false,
        }
    }

    /// The complement of [`State::is_terminal`]: conditional, detached, overdue.
    pub fn is_open(self) -> (r: bool)
        ensures
            r == !terminal(self),
            r == (self == State::Conditional || self == State::Detached || self
                == State::Overdue),
    {
        !self.is_terminal()
    }
}

// ------------------------------------------------------------------ the log, read

/// The ids the log declares, in the order of their first `promise` event.
pub open spec fn declared_ids(evs: Seq<Event>) -> Seq<Seq<char>>
    decreases evs.len(),
{
    if evs.len() == 0 {
        Seq::empty()
    } else {
        let prev = declared_ids(evs.drop_last());
        match evs.last().body {
            EventBody::Promise(p) => if prev.contains(p.id@) {
                prev
            } else {
                prev.push(p.id@)
            },
            _ => prev,
        }
    }
}

/// The record of the first `promise` event declaring `id`.
pub open spec fn record_of(evs: Seq<Event>, id: Seq<char>) -> Option<Promise>
    decreases evs.len(),
{
    if evs.len() == 0 {
        None
    } else {
        match record_of(evs.drop_last(), id) {
            Some(p) => Some(p),
            None => match evs.last().body {
                EventBody::Promise(p) => if p.id@ == id {
                    Some(p)
                } else {
                    None
                },
                _ => None,
            },
        }
    }
}

/// The position of the first `resolve` event naming `id`.
pub open spec fn resolution_index(evs: Seq<Event>, id: Seq<char>) -> Option<int>
    decreases evs.len(),
{
    if evs.len() == 0 {
        None
    } else {
        match resolution_index(evs.drop_last(), id) {
            Some(i) => Some(i),
            None => match evs.last().body {
                EventBody::Resolve { promise, .. } => if promise@ == id {
                    Some(evs.len() - 1)
                } else {
                    None
                },
                _ => None,
            },
        }
    }
}

/// The position of the last `amend` event naming `id`.
pub open spec fn amend_index(evs: Seq<Event>, id: Seq<char>) -> Option<int>
    decreases evs.len(),
{
    if evs.len() == 0 {
        None
    } else {
        match evs.last().body {
            EventBody::Amend { promise, .. } => if promise@ == id {
                Some(evs.len() - 1)
            } else {
                amend_index(evs.drop_last(), id)
            },
            _ => amend_index(evs.drop_last(), id),
        }
    }
}

/// The positions of every `assess` event naming `id`, in log order.
pub open spec fn assessment_indices(evs: Seq<Event>, id: Seq<char>) -> Seq<int>
    decreases evs.len(),
{
    if evs.len() == 0 {
        Seq::empty()
    } else {
        let prev = assessment_indices(evs.drop_last(), id);
        match evs.last().body {
            EventBody::Assess { promise, .. } => if promise@ == id {
                prev.push(evs.len() - 1)
            } else {
                prev
            },
            _ => prev,
        }
    }
}

/// The resolution that ended `id`: the first one in the log.
pub open spec fn resolution_of(evs: Seq<Event>, id: Seq<char>) -> Option<Resolution> {
    match resolution_index(evs, id) {
        Some(i) => match evs[i].body {
            EventBody::Resolve { resolution, .. } => Some(resolution),
            _ => None,
        },
        None => None,
    }
}

/// The current horizon of `id`: the `until` of the last amend naming it, or the
/// declared `until` when nothing amended it.
pub open spec fn horizon(evs: Seq<Event>, id: Seq<char>) -> Seq<char> {
    match amend_index(evs, id) {
        Some(i) => match evs[i].body {
            EventBody::Amend { until, .. } => until@,
            _ => record_of(evs, id).unwrap().until@,
        },
        None => record_of(evs, id).unwrap().until@,
    }
}

/// The antecedent of `id`, as the record declares it.
pub open spec fn antecedent(evs: Seq<Event>, id: Seq<char>) -> Option<Seq<char>> {
    match record_of(evs, id) {
        Some(p) => match p.on {
            Some(a) => Some(a@),
            None => None,
        },
        None => None,
    }
}

// ------------------------------------------------------------------ the rules

/// Owed and unresolved: `detached` until `now` passes the horizon, then `overdue`.
/// The comparison is strict, and a horizon that does not parse is never passed.
pub open spec fn owed_state(now: int, until: Seq<char>) -> State {
    match parsed_instant(until) {
        Some(u) => if now > u {
            State::Overdue
        } else {
            State::Detached
        },
        None => State::Detached,
    }
}

/// The terminal state a resolution ends a promise in.
pub open spec fn resolved_state(r: Resolution) -> State {
    match r {
        Resolution::Satisfied { .. } => State::Satisfied,
        Resolution::Cancelled { .. } => State::Cancelled,
        Resolution::Released { .. } => State::Released,
    }
}

/// The state of an unresolved promise whose antecedent is in state `ante`: owed
/// once the antecedent satisfied, expired once it ended any other way, and
/// conditional while it is still open.
pub open spec fn after_antecedent(ante: State, owed: State) -> State {
    match ante {
        State::Satisfied => owed,
        State::Cancelled | State::Released | State::Expired => State::Expired,
        _ => State::Conditional,
    }
}

/// A promise whose state needs nothing further along the `on` chain: one that is
/// resolved, has no antecedent, or waits on an id the log never declared.
pub open spec fn is_settled(evs: Seq<Event>, id: Seq<char>) -> bool {
    ||| resolution_of(evs, id) is Some
    ||| antecedent(evs, id) is None
    ||| record_of(evs, antecedent(evs, id).unwrap()) is None
}

/// The state of a settled promise: its resolution, its owed state when it waits on
/// nothing, and conditional when it waits on an id nobody declared.
pub open spec fn settled_state(evs: Seq<Event>, now: int, id: Seq<char>) -> State {
    match resolution_of(evs, id) {
        Some(r) => resolved_state(r),
        None => match antecedent(evs, id) {
            None => owed_state(now, horizon(evs, id)),
            Some(_) => State::Conditional,
        },
    }
}

/// The promise `k` steps along the `on` chain from `id`.
pub open spec fn chain(evs: Seq<Event>, id: Seq<char>, k: nat) -> Seq<char>
    decreases k,
{
    if k == 0 {
        id
    } else {
        antecedent(evs, chain(evs, id, (k - 1) as nat)).unwrap()
    }
}

/// The `on` chain from `id` reaches its first settled promise after `k` steps.
pub open spec fn settles_at(evs: Seq<Event>, id: Seq<char>, k: nat) -> bool {
    &&& forall|t: nat| t < k ==> !is_settled(evs, #[trigger] chain(evs, id, t))
    &&& is_settled(evs, chain(evs, id, k))
}

/// The state of `id` computed back along `k` steps of its chain.
pub open spec fn state_along(evs: Seq<Event>, now: int, id: Seq<char>, k: nat) -> State
    decreases k,
{
    if k == 0 {
        settled_state(evs, now, id)
    } else {
        after_antecedent(
            state_along(evs, now, antecedent(evs, id).unwrap(), (k - 1) as nat),
            owed_state(now, horizon(evs, id)),
        )
    }
}

/// The computed state of the declared promise `id` at `now`: follow `on` to the
/// first settled promise and work back; where the chain never settles — it runs
/// into a cycle — the promise is conditional.
pub open spec fn state_of(evs: Seq<Event>, now: int, id: Seq<char>) -> State {
    if exists|k: nat| settles_at(evs, id, k) {
        state_along(evs, now, id, choose|k: nat| settles_at(evs, id, k))
    } else {
        State::Conditional
    }
}

// ------------------------------------------------------------------ lemmas

proof fn lemma_chain_shift(evs: Seq<Event>, id: Seq<char>, k: nat)
    ensures
        chain(evs, id, k + 1) == chain(evs, antecedent(evs, id).unwrap(), k),
    decreases k,
{
    if k > 0 {
        lemma_chain_shift(evs, id, (k - 1) as nat);
        assert(chain(evs, id, k + 1) == antecedent(evs, chain(evs, id, k)).unwrap());
    } else {
        assert(chain(evs, id, 0) == id);
        assert(chain(evs, id, 1) == antecedent(evs, chain(evs, id, 0)).unwrap());
    }
}

proof fn lemma_settles_unique(evs: Seq<Event>, id: Seq<char>, k1: nat, k2: nat)
    requires
        settles_at(evs, id, k1),
        settles_at(evs, id, k2),
    ensures
        k1 == k2,
{
    if k1 < k2 {
        assert(!is_settled(evs, chain(evs, id, k1)));
    }
    if k2 < k1 {
        assert(!is_settled(evs, chain(evs, id, k2)));
    }
}

/// A settled promise's state is its settled state.
pub proof fn lemma_state_of_settled(evs: Seq<Event>, now: int, id: Seq<char>)
    requires
        is_settled(evs, id),
    ensures
        state_of(evs, now, id) == settled_state(evs, now, id),
{
    assert(settles_at(evs, id, 0));
    let k = choose|k: nat| settles_at(evs, id, k);
    lemma_settles_unique(evs, id, k, 0);
}

/// An unsettled promise's state follows from its antecedent's.
pub proof fn lemma_state_of_unsettled(evs: Seq<Event>, now: int, id: Seq<char>)
    requires
        !is_settled(evs, id),
    ensures
        state_of(evs, now, id) == after_antecedent(
            state_of(evs, now, antecedent(evs, id).unwrap()),
            owed_state(now, horizon(evs, id)),
        ),
{
    let a = antecedent(evs, id).unwrap();
    assert forall|k: nat| settles_at(evs, id, k + 1) <==> settles_at(evs, a, k) by {
        lemma_chain_shift(evs, id, k);
        if settles_at(evs, id, k + 1) {
            assert forall|t: nat| t < k implies !is_settled(evs, #[trigger] chain(evs, a, t)) by {
                lemma_chain_shift(evs, id, t);
                assert(!is_settled(evs, chain(evs, id, t + 1)));
            }
        }
        if settles_at(evs, a, k) {
            assert forall|t: nat| t < k + 1 implies !is_settled(evs, #[trigger] chain(evs, id, t)) by {
                if t > 0 {
                    lemma_chain_shift(evs, id, (t - 1) as nat);
                    assert(!is_settled(evs, chain(evs, a, (t - 1) as nat)));
                }
            }
        }
    }
    if exists|k: nat| settles_at(evs, id, k) {
        let k = choose|k: nat| settles_at(evs, id, k);
        assert(k > 0);
        let j = (k - 1) as nat;
        assert(settles_at(evs, a, j));
        let j2 = choose|k: nat| settles_at(evs, a, k);
        lemma_settles_unique(evs, a, j, j2);
    } else {
        assert forall|k: nat| !settles_at(evs, a, k) by {
            if settles_at(evs, a, k) {
                assert(settles_at(evs, id, k + 1));
            }
        }
    }
}

/// A cycle of `on` edges never settles: where `path` is a run of unsettled promises,
/// each waiting on the next, and the last waits on one of them again, every promise
/// on the run is `conditional` — those on the cycle and those that lead into it from
/// outside — whatever `now` is and however long the cycle.
pub proof fn law_a_cycle_is_conditional(
    evs: Seq<Event>,
    now: int,
    path: Seq<Seq<char>>,
    l: int,
)
    requires
        0 <= l < path.len(),
        forall|t: int| 0 <= t < path.len() ==> !is_settled(evs, #[trigger] path[t]),
        forall|t: int|
            0 <= t < path.len() - 1 ==> antecedent(evs, #[trigger] path[t]).unwrap() == path[t
                + 1],
        antecedent(evs, path.last()).unwrap() == path[l],
    ensures
        state_of(evs, now, path.last()) == State::Conditional,
        forall|t: int| 0 <= t < path.len() ==> state_of(evs, now, #[trigger] path[t]) == State::Conditional,
{
    assert forall|t: int| 0 <= t < path.len() implies state_of(evs, now, #[trigger] path[t])
        == State::Conditional by {
        assert forall|k: nat| !settles_at(evs, path[t], k) by {
            lemma_chain_on_path(evs, path, l, t, k);
            let x = choose|x: int| 0 <= x < path.len() && chain(evs, path[t], k) == path[x];
            assert(!is_settled(evs, path[x]));
        }
    }
    assert(path.last() == path[path.len() - 1]);
}

proof fn lemma_chain_on_path(evs: Seq<Event>, path: Seq<Seq<char>>, l: int, t: int, k: nat)
    requires
        0 <= l < path.len(),
        0 <= t < path.len(),
        forall|t: int|
            0 <= t < path.len() - 1 ==> antecedent(evs, #[trigger] path[t]).unwrap() == path[t
                + 1],
        antecedent(evs, path.last()).unwrap() == path[l],
    ensures
        exists|x: int| 0 <= x < path.len() && chain(evs, path[t], k) == path[x],
    decreases k,
{
    if k == 0 {
        assert(chain(evs, path[t], 0) == path[t]);
    } else {
        lemma_chain_on_path(evs, path, l, t, (k - 1) as nat);
        let x = choose|x: int| 0 <= x < path.len() && chain(evs, path[t], (k - 1) as nat) == path[x];
        if x < path.len() - 1 {
            assert(chain(evs, path[t], k) == path[x + 1]);
        } else {
            assert(chain(evs, path[t], k) == path[l]);
        }
    }
}

/// A promise whose `on` chain comes back to a promise it already passed, with no
/// settled promise before that, is `conditional`: the chain runs into a cycle,
/// whether `id` itself is on the cycle or only leads into it.
pub proof fn law_a_chain_into_a_cycle_is_conditional(
    evs: Seq<Event>,
    now: int,
    id: Seq<char>,
    i: nat,
    j: nat,
)
    requires
        i < j,
        chain(evs, id, i) == chain(evs, id, j),
        forall|t: nat| t < j ==> !is_settled(evs, #[trigger] chain(evs, id, t)),
    ensures
        state_of(evs, now, id) == State::Conditional,
{
    assert forall|k: nat| !settles_at(evs, id, k) by {
        lemma_chain_repeats(evs, id, i, j, k);
        let s = choose|s: nat| s < j && chain(evs, id, k) == chain(evs, id, s);
        assert(!is_settled(evs, chain(evs, id, s)));
    }
}

proof fn lemma_chain_repeats(evs: Seq<Event>, id: Seq<char>, i: nat, j: nat, k: nat)
    requires
        i < j,
        chain(evs, id, i) == chain(evs, id, j),
    ensures
        exists|s: nat| s < j && chain(evs, id, k) == chain(evs, id, s),
    decreases k,
{
    if k < j {
        assert(chain(evs, id, k) == chain(evs, id, k));
    } else {
        let p = (k - 1) as nat;
        lemma_chain_repeats(evs, id, i, j, p);
        let s = choose|s: nat| s < j && chain(evs, id, p) == chain(evs, id, s);
        assert(chain(evs, id, k) == antecedent(evs, chain(evs, id, p)).unwrap());
        assert(chain(evs, id, s + 1) == antecedent(evs, chain(evs, id, s)).unwrap());
        if s + 1 < j {
            assert(chain(evs, id, k) == chain(evs, id, s + 1));
        } else {
            assert(chain(evs, id, k) == chain(evs, id, i));
        }
    }
}

} // verus!

verus! {

// ------------------------------------------------------------------ the fold

/// Everything the fold knows about one promise.
#[derive(Debug)]
pub struct PromiseView<'a> {
    /// The record, from its first `promise` event.
    pub record: &'a Promise,
    /// The computed state at the `now` the fold was given.
    pub state: State,
    /// The `resolve` event that ended it, if any: the first one in the log.
    pub resolution: Option<&'a Event>,
    /// Every `assess` event naming this promise, in log order.
    pub assessments: Vec<&'a Event>,
    /// The current horizon: the last amend's `until`, or the declared one.
    pub until: &'a str,
}

impl<'a> PromiseView<'a> {
    /// The promise id.
    pub fn id(&self) -> (s: &'a str)
        ensures
            s@ == self.record.id@,
    {
        self.record.id.as_str()
    }

    /// How it ended, if it did.
    pub fn resolution_kind(&self) -> (r: Option<&'a Resolution>)
        ensures
            match self.resolution {
                Some(e) => match e.body {
                    EventBody::Resolve { resolution, .. } => r == Some(&resolution),
                    _ => r is None,
                },
                None => r is None,
            },
    {
        match self.resolution {
            Some(event) => event.resolution(),
            None => None,
        }
    }
}

/// What the fold says of one declared promise `id` of the log `evs` at `now`.
pub open spec fn view_describes(v: PromiseView, evs: Seq<Event>, now: int, id: Seq<char>) -> bool {
    &&& record_of(evs, id) == Some(*v.record)
    &&& v.record.id@ == id
    &&& v.state == state_of(evs, now, id)
    &&& match resolution_index(evs, id) {
        Some(k) => v.resolution matches Some(e) && *e == evs[k],
        None => v.resolution is None,
    }
    &&& v.assessments@.len() == assessment_indices(evs, id).len()
    &&& forall|j: int|
        0 <= j < v.assessments@.len() ==> *#[trigger] v.assessments@[j] == evs[assessment_indices(
            evs,
            id,
        )[j]]
    &&& v.until@ == horizon(evs, id)
}

/// The result of folding a ledger: every promise it declared, in declaration order,
/// with its state.
pub struct Fold<'a> {
    views: Vec<PromiseView<'a>>,
    index: StringHashMap<usize>,
}

impl<'a> Fold<'a> {
    #[verifier::type_invariant]
    spec fn indexed(self) -> bool {
        &&& forall|id: Seq<char>|
            #[trigger] self.index@.contains_key(id) ==> self.index@[id] < self.views@.len()
                && self.views@[self.index@[id] as int].record.id@ == id
        &&& forall|r: int|
            0 <= r < self.views@.len() ==> self.index@.contains_key(
                #[trigger] self.views@[r].record.id@,
            ) && self.index@[self.views@[r].record.id@] == r
    }

    /// The views, in declaration order.
    pub closed spec fn spec_views(&self) -> Seq<PromiseView<'a>> {
        self.views@
    }

    /// This fold is the fold of `evs` at `now`: one view per declared id, in the
    /// order of first declaration, each describing that promise.
    pub open spec fn describes(&self, evs: Seq<Event>, now: int) -> bool {
        &&& self.spec_views().len() == declared_ids(evs).len()
        &&& forall|r: int|
            0 <= r < declared_ids(evs).len() ==> view_describes(
                #[trigger] self.spec_views()[r],
                evs,
                now,
                declared_ids(evs)[r],
            )
    }

    /// One promise by id, or `None` if the ledger never declared it.
    pub fn get(&self, id: &str) -> (r: Option<&PromiseView<'a>>)
        ensures
            match r {
                Some(v) => exists|i: int|
                    0 <= i < self.spec_views().len() && self.spec_views()[i] == *v
                        && v.record.id@ == id@,
                None => forall|i: int|
                    0 <= i < self.spec_views().len() ==> (#[trigger] self.spec_views()[i]).record.id@
                        != id@,
            },
    {
        proof {
            use_type_invariant(self);
        }
        match self.index.get(id) {
            Some(i) => Some(&self.views[*i]),
            None => {
                proof {
                    assert forall|i: int| 0 <= i < self.spec_views().len() implies (
                    #[trigger] self.spec_views()[i]).record.id@ != id@ by {
                        assert(self.index@.contains_key(self.views@[i].record.id@));
                    }
                }
                None
            },
        }
    }

    /// Every promise, in the order the log first declared it.
    pub fn iter(&self) -> (r: &[PromiseView<'a>])
        ensures
            r@ == self.spec_views(),
    {
        self.views.as_slice()
    }

    /// How many promises the ledger declared.
    pub fn len(&self) -> (n: usize)
        ensures
            n == self.spec_views().len(),
    {
        self.views.len()
    }

    /// Did the ledger declare no promises at all?
    pub fn is_empty(&self) -> (b: bool)
        ensures
            b == (self.spec_views().len() == 0),
    {
        self.views.len() == 0
    }

    /// The state of one promise, or `None` if it was never declared.
    pub fn state(&self, id: &str) -> (r: Option<State>)
        ensures
            match r {
                Some(s) => exists|i: int|
                    0 <= i < self.spec_views().len() && (#[trigger] self.spec_views()[i]).state == s
                        && self.spec_views()[i].record.id@ == id@,
                None => forall|i: int|
                    0 <= i < self.spec_views().len() ==> (#[trigger] self.spec_views()[i]).record.id@
                        != id@,
            },
    {
        match self.get(id) {
            Some(view) => Some(view.state),
            None => None,
        }
    }
}

} // verus!

verus! {

/// What one pass over the log collects: the first record of each declared id, the
/// first resolve and last amend naming each id, and every assessment.
struct Tables<'a> {
    records: Vec<&'a Promise>,
    index: StringHashMap<usize>,
    resolves: StringHashMap<usize>,
    amends: StringHashMap<usize>,
    slots: StringHashMap<usize>,
    buckets: Vec<Vec<usize>>,
}

/// `t` is what one pass over `evs` collects.
spec fn tables_match(t: Tables, evs: Seq<Event>) -> bool {
    let ids = declared_ids(evs);
    &&& t.records@.len() == ids.len()
    &&& forall|r: int|
        0 <= r < ids.len() ==> record_of(evs, #[trigger] ids[r]) == Some(*t.records@[r])
            && t.records@[r].id@ == ids[r] && t.index@.contains_key(ids[r]) && t.index@[ids[r]]
            == r
    &&& forall|id: Seq<char>| #[trigger]
        t.index@.contains_key(id) <==> record_of(evs, id) is Some
    &&& forall|id: Seq<char>| #[trigger] t.index@.contains_key(id) ==> t.index@[id] < ids.len()
        && ids[t.index@[id] as int] == id
    &&& resolves_match(t.resolves@, evs)
    &&& amends_match(t.amends@, evs)
    &&& forall|id: Seq<char>|
        #[trigger] t.slots@.contains_key(id) ==> t.slots@[id] < t.buckets@.len() && bucket_is(
            t.buckets@[t.slots@[id] as int]@,
            assessment_indices(evs, id),
        )
    &&& forall|id: Seq<char>|
        !#[trigger] t.slots@.contains_key(id) ==> assessment_indices(evs, id).len() == 0
    &&& forall|a: Seq<char>, b: Seq<char>|
        #[trigger] t.slots@.contains_key(a) && #[trigger] t.slots@.contains_key(b) && a != b
            ==> t.slots@[a] != t.slots@[b]
}

spec fn resolves_match(m: Map<Seq<char>, usize>, evs: Seq<Event>) -> bool {
    forall|id: Seq<char>|
        #![trigger m.contains_key(id)]
        #![trigger resolution_index(evs, id)]
        (m.contains_key(id) <==> resolution_index(evs, id) is Some) && (m.contains_key(id)
            ==> resolution_index(evs, id) == Some(m[id] as int))
}

spec fn amends_match(m: Map<Seq<char>, usize>, evs: Seq<Event>) -> bool {
    forall|id: Seq<char>|
        #![trigger m.contains_key(id)]
        #![trigger amend_index(evs, id)]
        (m.contains_key(id) <==> amend_index(evs, id) is Some) && (m.contains_key(id)
            ==> amend_index(evs, id) == Some(m[id] as int))
}

spec fn bucket_is(b: Seq<usize>, ix: Seq<int>) -> bool {
    &&& b.len() == ix.len()
    &&& forall|j: int| 0 <= j < b.len() ==> b[j] as int == #[trigger] ix[j]
}

proof fn lemma_step(evs: Seq<Event>, i: int)
    requires
        0 <= i < evs.len(),
    ensures
        evs.take(i + 1).drop_last() == evs.take(i),
        evs.take(i + 1).last() == evs[i],
        evs.take(i + 1).len() == i + 1,
{
    assert(evs.take(i + 1).drop_last() == evs.take(i));
}

proof fn lemma_declared_ids_match_records(evs: Seq<Event>)
    ensures
        forall|id: Seq<char>| declared_ids(evs).contains(id) <==> record_of(evs, id) is Some,
        forall|a: int, b: int|
            0 <= a < b < declared_ids(evs).len() ==> declared_ids(evs)[a] != declared_ids(evs)[b],
    decreases evs.len(),
{
    if evs.len() > 0 {
        lemma_declared_ids_match_records(evs.drop_last());
        let prev = declared_ids(evs.drop_last());
        match evs.last().body {
            EventBody::Promise(p) => {
                if !prev.contains(p.id@) {
                    assert forall|id: Seq<char>| declared_ids(evs).contains(id) <==> record_of(evs, id) is Some by {
                        if id == p.id@ {
                            assert(declared_ids(evs)[prev.len() as int] == id);
                        } else if prev.contains(id) {
                            let k = choose|k: int| 0 <= k < prev.len() && prev[k] == id;
                            assert(declared_ids(evs)[k] == id);
                        } else if declared_ids(evs).contains(id) {
                            let k = choose|k: int| 0 <= k < declared_ids(evs).len() && declared_ids(evs)[k] == id;
                            assert(prev[k] == id);
                        }
                    }
                }
            },
            _ => {},
        }
    }
}

/// One pass over the log.
fn read_tables<'a>(events: &'a [Event]) -> (t: Tables<'a>)
    ensures
        tables_match(t, events@),
{
    let mut t = Tables {
        records: Vec::new(),
        index: StringHashMap::new(),
        resolves: StringHashMap::new(),
        amends: StringHashMap::new(),
        slots: StringHashMap::new(),
        buckets: Vec::new(),
    };
    let mut i: usize = 0;
    proof {
        assert(events@.take(0) == Seq::<Event>::empty());
    }
    while i < events.len()
        invariant
            0 <= i <= events@.len(),
            tables_match(t, events@.take(i as int)),
        decreases events@.len() - i,
    {
        let ghost pre = events@.take(i as int);
        let ghost post = events@.take(i + 1);
        let ghost t0 = t;
        proof {
            lemma_step(events@, i as int);
            lemma_declared_ids_match_records(pre);
            lemma_declared_ids_match_records(post);
        }
        match &events[i].body {
            EventBody::Promise(p) => {
                if !t.index.contains_key(p.id.as_str()) {
                    proof {
                        assert(!declared_ids(pre).contains(p.id@));
                    }
                    t.index.insert(p.id.clone(), t.records.len());
                    t.records.push(p);
                }
                proof {
                    assert forall|id: Seq<char>| #![auto] resolution_index(post, id) == resolution_index(pre, id) by {}
                    assert(resolves_match(t.resolves@, post));
                    assert forall|id: Seq<char>| #![auto] amend_index(post, id) == amend_index(pre, id) by {}
                    assert(amends_match(t.amends@, post));
                    assert forall|id: Seq<char>| #[trigger] t.slots@.contains_key(id) implies
                        t.slots@[id] < t.buckets@.len() && bucket_is(
                            t.buckets@[t.slots@[id] as int]@,
                            assessment_indices(post, id),
                        ) by {
                        assert(assessment_indices(post, id) == assessment_indices(pre, id));
                    }
                    assert forall|id: Seq<char>| !#[trigger] t.slots@.contains_key(id) implies
                        assessment_indices(post, id).len() == 0 by {
                        assert(assessment_indices(post, id) == assessment_indices(pre, id));
                    }
                }
            },
            EventBody::Resolve { promise, .. } => {
                if !t.resolves.contains_key(promise.as_str()) {
                    t.resolves.insert(promise.clone(), i);
                }
                proof {
                    assert(declared_ids(post) == declared_ids(pre));
                    assert forall|id: Seq<char>| #![auto] record_of(post, id) == record_of(pre, id) by {}
                    assert forall|id: Seq<char>| #![auto]
                        (t.resolves@.contains_key(id) <==> resolution_index(post, id) is Some)
                        && (t.resolves@.contains_key(id) ==> resolution_index(post, id) == Some(
                        t.resolves@[id] as int)) by {
                        assert(t0.resolves@.contains_key(id) <==> resolution_index(pre, id) is Some);
                    }
                    assert(resolves_match(t.resolves@, post));
                    assert forall|id: Seq<char>| #![auto] amend_index(post, id) == amend_index(pre, id) by {}
                    assert(amends_match(t.amends@, post));
                    assert forall|id: Seq<char>| #[trigger] t.slots@.contains_key(id) implies
                        t.slots@[id] < t.buckets@.len() && bucket_is(
                            t.buckets@[t.slots@[id] as int]@,
                            assessment_indices(post, id),
                        ) by {
                        assert(assessment_indices(post, id) == assessment_indices(pre, id));
                    }
                    assert forall|id: Seq<char>| !#[trigger] t.slots@.contains_key(id) implies
                        assessment_indices(post, id).len() == 0 by {
                        assert(assessment_indices(post, id) == assessment_indices(pre, id));
                    }
                }
            },
            EventBody::Amend { promise, .. } => {
                t.amends.insert(promise.clone(), i);
                proof {
                    assert(declared_ids(post) == declared_ids(pre));
                    assert forall|id: Seq<char>| #![auto] record_of(post, id) == record_of(pre, id) by {}
                    assert forall|id: Seq<char>| #![auto] resolution_index(post, id) == resolution_index(pre, id) by {}
                    assert(resolves_match(t.resolves@, post));
                    assert forall|id: Seq<char>| #![auto]
                        (t.amends@.contains_key(id) <==> amend_index(post, id) is Some)
                        && (t.amends@.contains_key(id) ==> amend_index(post, id) == Some(
                        t.amends@[id] as int)) by {
                        assert(t0.amends@.contains_key(id) <==> amend_index(pre, id) is Some);
                    }
                    assert(amends_match(t.amends@, post));
                    assert forall|id: Seq<char>| #[trigger] t.slots@.contains_key(id) implies
                        t.slots@[id] < t.buckets@.len() && bucket_is(
                            t.buckets@[t.slots@[id] as int]@,
                            assessment_indices(post, id),
                        ) by {
                        assert(assessment_indices(post, id) == assessment_indices(pre, id));
                    }
                    assert forall|id: Seq<char>| !#[trigger] t.slots@.contains_key(id) implies
                        assessment_indices(post, id).len() == 0 by {
                        assert(assessment_indices(post, id) == assessment_indices(pre, id));
                    }
                }
            },
            EventBody::Assess { promise, .. } => {
                let slot: usize = match t.slots.get(promise.as_str()) {
                    Some(s) => *s,
                    None => {
                        let s = t.buckets.len();
                        t.buckets.push(Vec::new());
                        t.slots.insert(promise.clone(), s);
                        s
                    },
                };
                let ghost mid = t;
                t.buckets[slot].push(i);
                proof {
                    assert(declared_ids(post) == declared_ids(pre));
                    assert forall|id: Seq<char>| #![auto] record_of(post, id) == record_of(pre, id) by {}
                    assert forall|id: Seq<char>| #![auto] resolution_index(post, id) == resolution_index(pre, id) by {}
                    assert(resolves_match(t.resolves@, post));
                    assert forall|id: Seq<char>| #![auto] amend_index(post, id) == amend_index(pre, id) by {}
                    assert(amends_match(t.amends@, post));
                    assert forall|id: Seq<char>| #[trigger] t.slots@.contains_key(id) implies
                        t.slots@[id] < t.buckets@.len() && bucket_is(
                            t.buckets@[t.slots@[id] as int]@,
                            assessment_indices(post, id),
                        ) by {
                        if id == promise@ {
                            assert(assessment_indices(post, id) == assessment_indices(pre, id).push(
                                i as int,
                            ));
                        } else {
                            assert(assessment_indices(post, id) == assessment_indices(pre, id));
                            assert(mid.slots@.contains_key(id));
                        }
                    }
                    assert forall|id: Seq<char>| !#[trigger] t.slots@.contains_key(id) implies
                        assessment_indices(post, id).len() == 0 by {
                        assert(assessment_indices(post, id) == assessment_indices(pre, id));
                    }
                }
            },
            EventBody::Unknown => {
                proof {
                    assert(declared_ids(post) == declared_ids(pre));
                    assert forall|id: Seq<char>| #![auto] record_of(post, id) == record_of(pre, id) by {}
                    assert forall|id: Seq<char>| #![auto] resolution_index(post, id) == resolution_index(pre, id) by {}
                    assert(resolves_match(t.resolves@, post));
                    assert forall|id: Seq<char>| #![auto] amend_index(post, id) == amend_index(pre, id) by {}
                    assert(amends_match(t.amends@, post));
                    assert forall|id: Seq<char>| #[trigger] t.slots@.contains_key(id) implies
                        t.slots@[id] < t.buckets@.len() && bucket_is(
                            t.buckets@[t.slots@[id] as int]@,
                            assessment_indices(post, id),
                        ) by {
                        assert(assessment_indices(post, id) == assessment_indices(pre, id));
                    }
                    assert forall|id: Seq<char>| !#[trigger] t.slots@.contains_key(id) implies
                        assessment_indices(post, id).len() == 0 by {
                        assert(assessment_indices(post, id) == assessment_indices(pre, id));
                    }
                }
            },
        }
        i = i + 1;
    }
    proof {
        assert(events@.take(events@.len() as int) == events@);
    }
    t
}

} // verus!

verus! {

/// The current horizon of the promise at position `r`.
fn horizon_at<'a>(t: &Tables<'a>, events: &'a [Event], r: usize) -> (h: &'a str)
    requires
        tables_match(*t, events@),
        r < t.records@.len(),
    ensures
        h@ == horizon(events@, declared_ids(events@)[r as int]),
{
    let ghost ids = declared_ids(events@);
    let record = t.records[r];
    proof {
        assert(record_of(events@, ids[r as int]) == Some(*record));
        assert(t.amends@.contains_key(ids[r as int]) <==> amend_index(events@, ids[r as int]) is Some);
    }
    match t.amends.get(record.id.as_str()) {
        Some(k) => {
            proof {
                assert(amend_index(events@, ids[r as int]) == Some(*k as int));
                lemma_amend_index_in_bounds(events@, ids[r as int]);
            }
            match &events[*k].body {
                EventBody::Amend { until, .. } => until.as_str(),
                _ => record.until.as_str(),
            }
        },
        None => record.until.as_str(),
    }
}

proof fn lemma_amend_index_in_bounds(evs: Seq<Event>, id: Seq<char>)
    ensures
        amend_index(evs, id) matches Some(k) ==> 0 <= k < evs.len(),
    decreases evs.len(),
{
    if evs.len() > 0 {
        lemma_amend_index_in_bounds(evs.drop_last(), id);
    }
}

proof fn lemma_resolution_index_in_bounds(evs: Seq<Event>, id: Seq<char>)
    ensures
        resolution_index(evs, id) matches Some(k) ==> 0 <= k < evs.len() && evs[k].body is Resolve,
    decreases evs.len(),
{
    if evs.len() > 0 {
        lemma_resolution_index_in_bounds(evs.drop_last(), id);
    }
}

proof fn lemma_assessment_indices_in_bounds(evs: Seq<Event>, id: Seq<char>)
    ensures
        forall|j: int|
            0 <= j < assessment_indices(evs, id).len() ==> 0 <= #[trigger] assessment_indices(
                evs,
                id,
            )[j] < evs.len(),
    decreases evs.len(),
{
    if evs.len() > 0 {
        lemma_assessment_indices_in_bounds(evs.drop_last(), id);
        let prev = assessment_indices(evs.drop_last(), id);
        assert forall|j: int| 0 <= j < assessment_indices(evs, id).len() implies 0
            <= #[trigger] assessment_indices(evs, id)[j] < evs.len() by {
            if j < prev.len() {
                assert(assessment_indices(evs, id)[j] == prev[j]);
            }
        }
    }
}

/// Owed and unresolved: the state `now` against the horizon `until`.
fn owed(now: &Instant, until: &str) -> (s: State)
    ensures
        s == owed_state(now.spec_nanos(), until@),
{
    match parse_instant(until) {
        Some(u) => if now.nanos() > u {
            State::Overdue
        } else {
            State::Detached
        },
        None => State::Detached,
    }
}

/// The settled state of the promise at position `r`, or the position of its
/// antecedent when it is not settled.
fn settle<'a>(t: &Tables<'a>, events: &'a [Event], now: &Instant, r: usize) -> (res: Result<
    State,
    usize,
>)
    requires
        tables_match(*t, events@),
        r < t.records@.len(),
    ensures
        match res {
            Ok(s) => is_settled(events@, declared_ids(events@)[r as int]) && s == settled_state(
                events@,
                now.spec_nanos(),
                declared_ids(events@)[r as int],
            ),
            Err(j) => !is_settled(events@, declared_ids(events@)[r as int]) && j < t.records@.len()
                && declared_ids(events@)[j as int] == antecedent(
                events@,
                declared_ids(events@)[r as int],
            ).unwrap(),
        },
{
    let ghost ids = declared_ids(events@);
    let ghost id = ids[r as int];
    let record = t.records[r];
    proof {
        assert(record_of(events@, id) == Some(*record));
        assert(t.resolves@.contains_key(id) <==> resolution_index(events@, id) is Some);
        lemma_resolution_index_in_bounds(events@, id);
    }
    if let Some(k) = t.resolves.get(record.id.as_str()) {
        return match &events[*k].body {
            EventBody::Resolve { resolution, .. } => match resolution {
                Resolution::Satisfied { .. } => Ok(State::Satisfied),
                Resolution::Cancelled { .. } => Ok(State::Cancelled),
                Resolution::Released { .. } => Ok(State::Released),
            },
            _ => Ok(State::Detached),
        };
    }
    match &record.on {
        None => {
            let until = horizon_at(t, events, r);
            Ok(owed(now, until))
        },
        Some(a) => {
            proof {
                assert(t.index@.contains_key(a@) <==> record_of(events@, a@) is Some);
            }
            match t.index.get(a.as_str()) {
                None => Ok(State::Conditional),
                Some(j) => Err(*j),
            }
        },
    }
}

/// `xs` holds distinct positions below `n`, so there are at most `n` of them.
proof fn lemma_distinct_positions(xs: Seq<usize>, n: nat)
    requires
        xs.no_duplicates(),
        forall|k: int| 0 <= k < xs.len() ==> xs[k] < n,
    ensures
        xs.len() <= n,
{
    let s = xs.to_set();
    xs.unique_seq_to_set();
    let range = Set::new(|x: usize| x < n);
    assert(s.subset_of(range));
    lemma_usize_range_len(n);
    vstd::set_lib::lemma_len_subset(s, range);
}

proof fn lemma_usize_range_len(n: nat)
    ensures
        Set::new(|x: usize| x < n).finite(),
        Set::new(|x: usize| x < n).len() <= n,
    decreases n,
{
    let s = Set::new(|x: usize| x < n);
    if n == 0 {
        assert(s == Set::<usize>::empty());
    } else {
        lemma_usize_range_len((n - 1) as nat);
        let p = Set::new(|x: usize| x < (n - 1) as nat);
        if n - 1 <= usize::MAX {
            assert(s == p.insert((n - 1) as usize));
        } else {
            assert(s == p);
        }
    }
}

} // verus!

verus! {

fn exec_after_antecedent(ante: State, owed: State) -> (s: State)
    ensures
        s == after_antecedent(ante, owed),
{
    match ante {
        State::Satisfied => owed,
        State::Cancelled | State::Released | State::Expired => State::Expired,
        _ => State::Conditional,
    }
}

/// Every position marked done holds its computed state.
spec fn solved(states: Seq<State>, marks: Seq<u8>, evs: Seq<Event>, now: int) -> bool {
    forall|q: int|
        0 <= q < marks.len() && #[trigger] marks[q] == 2 ==> states[q] == state_of(
            evs,
            now,
            declared_ids(evs)[q],
        )
}

/// `path` follows `on` edges between unsettled promises.
spec fn walks_on(path: Seq<usize>, evs: Seq<Event>, upto: int) -> bool {
    let ids = declared_ids(evs);
    &&& forall|k: int| 0 <= k < upto ==> !is_settled(evs, ids[#[trigger] path[k] as int])
    &&& forall|k: int|
        0 <= k < upto ==> antecedent(evs, ids[#[trigger] path[k] as int]).unwrap() == ids[path[k
            + 1] as int]
}

/// The computed state of every declared promise, in declaration order.
#[verifier::rlimit(40)]
fn solve_all<'a>(t: &Tables<'a>, events: &'a [Event], now: &Instant) -> (states: Vec<State>)
    requires
        tables_match(*t, events@),
    ensures
        states@.len() == t.records@.len(),
        forall|q: int|
            0 <= q < states@.len() ==> #[trigger] states@[q] == state_of(
                events@,
                now.spec_nanos(),
                declared_ids(events@)[q],
            ),
{
    let ghost evs = events@;
    let ghost nw = now.spec_nanos();
    let ghost ids = declared_ids(evs);
    let n = t.records.len();
    let mut marks: Vec<u8> = Vec::new();
    let mut states: Vec<State> = Vec::new();
    let mut q: usize = 0;
    while q < n
        invariant
            q <= n,
            n == t.records@.len(),
            marks@.len() == q,
            states@.len() == q,
            forall|x: int| 0 <= x < q ==> #[trigger] marks@[x] == 0,
        decreases n - q,
    {
        marks.push(0);
        states.push(State::Conditional);
        q = q + 1;
    }
    let mut start: usize = 0;
    while start < n
        invariant
            tables_match(*t, evs),
            evs == events@,
            nw == now.spec_nanos(),
            ids == declared_ids(evs),
            n == t.records@.len(),
            n == ids.len(),
            start <= n,
            marks@.len() == n,
            states@.len() == n,
            forall|x: int| 0 <= x < n ==> #[trigger] marks@[x] == 0 || marks@[x] == 2,
            forall|x: int| 0 <= x < start ==> #[trigger] marks@[x] == 2,
            solved(states@, marks@, evs, nw),
        decreases n - start,
    {
        if marks[start] == 0 {
            let mut path: Vec<usize> = Vec::new();
            let mut cur: usize = start;
            let mut val: State = State::Conditional;
            loop
                invariant_except_break
                    cur < n,
                    marks@[cur as int] == 0,
                    path@.len() > 0 ==> antecedent(evs, ids[path@.last() as int]).unwrap()
                        == ids[cur as int],
                    path@.len() == 0 ==> cur == start,
                    walks_on(path@, evs, path@.len() - 1),
                    path@.len() > 0 ==> !is_settled(evs, ids[path@.last() as int]),
                invariant
                    tables_match(*t, evs),
                    evs == events@,
                    nw == now.spec_nanos(),
                    ids == declared_ids(evs),
                    n == t.records@.len(),
                    n == ids.len(),
                    start < n,
                    marks@.len() == n,
                    states@.len() == n,
                    path@.no_duplicates(),
                    path@.len() <= n,
                    forall|k: int| 0 <= k < path@.len() ==> #[trigger] path@[k] < n,
                    forall|k: int| 0 <= k < path@.len() ==> marks@[#[trigger] path@[k] as int] == 1,
                    forall|x: int|
                        0 <= x < n ==> (#[trigger] marks@[x] == 1 ==> path@.contains(x as usize)),
                    forall|x: int|
                        0 <= x < n ==> #[trigger] marks@[x] == 0 || marks@[x] == 1 || marks@[x]
                            == 2,
                    forall|x: int| 0 <= x < start ==> #[trigger] marks@[x] == 2,
                    path@.len() > 0 ==> path@[0] == start,
                    solved(states@, marks@, evs, nw),
                ensures
                    path@.len() > 0,
                    walks_on(path@, evs, path@.len() - 1),
                    val == state_of(evs, nw, ids[path@.last() as int]),
                decreases n - path@.len(),
            {
                proof {
                    assert(!path@.contains(cur));
                    lemma_distinct_positions(path@.push(cur), n as nat);
                }
                let ghost old_path = path@;
                marks.set(cur, 1);
                path.push(cur);
                proof {
                    assert(path@.no_duplicates());
                    assert forall|x: int| 0 <= x < n && #[trigger] marks@[x] == 1 implies path@.contains(
                        x as usize,
                    ) by {
                        if x == cur {
                            assert(path@[path@.len() - 1] == cur);
                        } else {
                            assert(old_path.contains(x as usize));
                            let k = choose|k: int| 0 <= k < old_path.len() && old_path[k] == x;
                            assert(path@[k] == x);
                        }
                    }
                }
                match settle(t, events, now, cur) {
                    Ok(s) => {
                        proof {
                            lemma_state_of_settled(evs, nw, ids[cur as int]);
                        }
                        val = s;
                        break ;
                    },
                    Err(j) => {
                        if marks[j] == 2 {
                            let h = horizon_at(t, events, cur);
                            let o = owed(now, h);
                            proof {
                                lemma_state_of_unsettled(evs, nw, ids[cur as int]);
                            }
                            val = exec_after_antecedent(states[j], o);
                            break ;
                        } else if marks[j] == 1 {
                            proof {
                                assert(marks@[j as int] == 1);
                                assert(path@.contains(j));
                                let l = choose|l: int| 0 <= l < path@.len() && path@[l] == j;
                                let ipath = path@.map_values(|p: usize| ids[p as int]);
                                assert forall|k: int| 0 <= k < ipath.len() implies !is_settled(
                                    evs,
                                    #[trigger] ipath[k],
                                ) by {
                                    if k < ipath.len() - 1 {
                                        assert(!is_settled(evs, ids[path@[k] as int]));
                                    }
                                }
                                assert forall|k: int| 0 <= k < ipath.len() - 1 implies antecedent(
                                    evs,
                                    #[trigger] ipath[k],
                                ).unwrap() == ipath[k + 1] by {
                                    assert(antecedent(evs, ids[path@[k] as int]).unwrap()
                                        == ids[path@[k + 1] as int]);
                                }
                                law_a_cycle_is_conditional(evs, nw, ipath, l);
                            }
                            val = State::Conditional;
                            break ;
                        } else {
                            cur = j;
                        }
                    },
                }
            }
            let mut p: usize = path.len();
            let last = path[p - 1];
            states.set(last, val);
            marks.set(last, 2);
            while p > 1
                invariant
                    tables_match(*t, evs),
                    evs == events@,
                    nw == now.spec_nanos(),
                    ids == declared_ids(evs),
                    n == t.records@.len(),
                    n == ids.len(),
                    start < n,
                    marks@.len() == n,
                    states@.len() == n,
                    1 <= p <= path@.len(),
                    path@.no_duplicates(),
                    path@[0] == start,
                    walks_on(path@, evs, path@.len() - 1),
                    forall|k: int| 0 <= k < path@.len() ==> #[trigger] path@[k] < n,
                    forall|k: int| p - 1 <= k < path@.len() ==> marks@[#[trigger] path@[k] as int] == 2,
                    forall|k: int| 0 <= k < p - 1 ==> marks@[#[trigger] path@[k] as int] == 1,
                    forall|x: int|
                        0 <= x < n ==> (#[trigger] marks@[x] == 1 ==> path@.contains(x as usize)),
                    forall|x: int|
                        0 <= x < n ==> #[trigger] marks@[x] == 0 || marks@[x] == 1 || marks@[x]
                            == 2,
                    forall|x: int| 0 <= x < start ==> #[trigger] marks@[x] == 2,
                    solved(states@, marks@, evs, nw),
                decreases p,
            {
                let node = path[p - 2];
                let next = path[p - 1];
                let h = horizon_at(t, events, node);
                let o = owed(now, h);
                proof {
                    assert(!is_settled(evs, ids[path@[p - 2] as int]));
                    lemma_state_of_unsettled(evs, nw, ids[node as int]);
                    assert(marks@[next as int] == 2);
                }
                let s = exec_after_antecedent(states[next], o);
                states.set(node, s);
                marks.set(node, 2);
                proof {
                    assert forall|k: int| 0 <= k < p - 2 implies marks@[#[trigger] path@[k] as int] == 1 by {
                        assert(path@[k] != path@[p - 2]);
                    }
                }
                p = p - 1;
            }
            proof {
                assert forall|x: int| 0 <= x < n implies #[trigger] marks@[x] == 0 || marks@[x] == 2 by {
                    if marks@[x] == 1 {
                        let k = choose|k: int| 0 <= k < path@.len() && path@[k] == x;
                    }
                }
            }
        }
        start = start + 1;
    }
    proof {
        assert forall|q: int| 0 <= q < states@.len() implies #[trigger] states@[q] == state_of(
            evs,
            nw,
            ids[q],
        ) by {
            assert(marks@[q] == 2);
        }
    }
    states
}

} // verus!

verus! {

/// The events at the positions `positions`, which are the assessments of `id`.
fn events_at<'a>(events: &'a [Event], positions: &Vec<usize>, id: Ghost<Seq<char>>) -> (out: Vec<
    &'a Event,
>)
    requires
        bucket_is(positions@, assessment_indices(events@, id@)),
    ensures
        out@.len() == assessment_indices(events@, id@).len(),
        forall|j: int|
            0 <= j < out@.len() ==> *#[trigger] out@[j] == events@[assessment_indices(
                events@,
                id@,
            )[j]],
{
    proof {
        lemma_assessment_indices_in_bounds(events@, id@);
    }
    let mut out: Vec<&'a Event> = Vec::new();
    let mut j: usize = 0;
    while j < positions.len()
        invariant
            bucket_is(positions@, assessment_indices(events@, id@)),
            forall|x: int|
                0 <= x < assessment_indices(events@, id@).len() ==> 0
                    <= #[trigger] assessment_indices(events@, id@)[x] < events@.len(),
            j <= positions@.len(),
            out@.len() == j,
            forall|x: int|
                0 <= x < j ==> *#[trigger] out@[x] == events@[assessment_indices(events@, id@)[x]],
        decreases positions@.len() - j,
    {
        let k = positions[j];
        proof {
            assert(k as int == assessment_indices(events@, id@)[j as int]);
        }
        out.push(&events[k]);
        j = j + 1;
    }
    out
}

/// Fold a ledger into states, as of `now`.
///
/// `now` is injected, never read from a clock. The result holds one view per id the
/// log declares, in the order of first declaration: its first record, its computed
/// state, its first resolution, every assessment of it in log order, and its current
/// horizon.
pub fn fold<'a>(events: &'a [Event], now: Instant) -> (f: Fold<'a>)
    ensures
        f.describes(events@, now.spec_nanos()),
{
    let ghost evs = events@;
    let ghost nw = now.spec_nanos();
    let ghost ids = declared_ids(evs);
    let t = read_tables(events);
    let states = solve_all(&t, events, &now);
    let n = t.records.len();
    let mut views: Vec<PromiseView<'a>> = Vec::new();
    let mut r: usize = 0;
    while r < n
        invariant
            tables_match(t, evs),
            evs == events@,
            nw == now.spec_nanos(),
            ids == declared_ids(evs),
            n == t.records@.len(),
            n == ids.len(),
            r <= n,
            states@.len() == n,
            forall|q: int| 0 <= q < n ==> #[trigger] states@[q] == state_of(evs, nw, ids[q]),
            views@.len() == r,
            forall|k: int| 0 <= k < r ==> view_describes(#[trigger] views@[k], evs, nw, ids[k]),
        decreases n - r,
    {
        let record = t.records[r];
        let ghost id = ids[r as int];
        proof {
            assert(record_of(evs, id) == Some(*record));
            assert(t.resolves@.contains_key(id) <==> resolution_index(evs, id) is Some);
            lemma_resolution_index_in_bounds(evs, id);
        }
        let resolution: Option<&'a Event> = match t.resolves.get(record.id.as_str()) {
            Some(k) => Some(&events[*k]),
            None => None,
        };
        let assessments: Vec<&'a Event> = match t.slots.get(record.id.as_str()) {
            Some(s) => events_at(events, &t.buckets[*s], Ghost(id)),
            None => Vec::new(),
        };
        let until = horizon_at(&t, events, r);
        let view = PromiseView { record, state: states[r], resolution, assessments, until };
        views.push(view);
        r = r + 1;
    }
    Fold { views, index: t.index }
}

} // verus!

verus! {

/// Every declared id has a record, every id with a record is declared, and no id is
/// declared twice.
pub proof fn lemma_declared_ids_match_records_pub(evs: Seq<Event>)
    ensures
        forall|id: Seq<char>| declared_ids(evs).contains(id) <==> record_of(evs, id) is Some,
        forall|a: int, b: int|
            0 <= a < b < declared_ids(evs).len() ==> declared_ids(evs)[a] != declared_ids(evs)[b],
{
    lemma_declared_ids_match_records(evs);
}

} // verus!
