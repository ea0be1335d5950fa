//! What holds of the fold across calls: the laws the ledger format promises.

use vstd::prelude::*;
use crate::cli::{AmendArgs, AssessArgs, LsArgs, ResolveArgs, ShowArgs};
use crate::event::{Event, EventBody, Resolution, issuer_of, outcome_word, subject_of};
use crate::text::trimmed;
use crate::ledger::Ledger;
use crate::state::{
    after_antecedent, amend_index, antecedent, chain, declared_ids, horizon, is_settled,
    lemma_state_of_settled, lemma_state_of_unsettled, owed_state, record_of, resolution_index,
    resolution_of, resolved_state, settles_at, state_along, state_of, terminal, State,
};
use crate::verbs::{
    listed, listed_ids, listing, rec_of, selection, shown, table_line, views_of,
    amended, already_declared_text, already_resolved_text, assessed, declared, intake_refusal,
    kind_of,
    meta_refusal, op_says, resolve_refusal, resolved, spoken_for, Effect, Fail, Incoming,
};

verus! {

/// Two logs read the same way when they declare the same ids with the same
/// antecedents, resolve them the same way, and give them the same horizons.
spec fn same_reading(e1: Seq<Event>, e2: Seq<Event>) -> bool {
    &&& forall|id: Seq<char>| #[trigger]
        record_of(e1, id) is Some == record_of(e2, id) is Some
    &&& forall|id: Seq<char>| #[trigger] antecedent(e1, id) == antecedent(e2, id)
    &&& forall|id: Seq<char>| #[trigger] resolution_of(e1, id) == resolution_of(e2, id)
    &&& forall|id: Seq<char>| #[trigger] horizon(e1, id) == horizon(e2, id)
}

proof fn lemma_chain_same(e1: Seq<Event>, e2: Seq<Event>, id: Seq<char>, k: nat)
    requires
        same_reading(e1, e2),
    ensures
        chain(e1, id, k) == chain(e2, id, k),
    decreases k,
{
    if k > 0 {
        lemma_chain_same(e1, e2, id, (k - 1) as nat);
        assert(antecedent(e1, chain(e1, id, (k - 1) as nat)) == antecedent(
            e2,
            chain(e2, id, (k - 1) as nat),
        ));
    }
}

proof fn lemma_settles_same(e1: Seq<Event>, e2: Seq<Event>, id: Seq<char>, k: nat)
    requires
        same_reading(e1, e2),
    ensures
        settles_at(e1, id, k) == settles_at(e2, id, k),
{
    assert forall|t: nat| #![auto] is_settled(e1, chain(e1, id, t)) == is_settled(e2, chain(e2, id, t)) by {
        lemma_chain_same(e1, e2, id, t);
        let c = chain(e1, id, t);
        assert(record_of(e1, antecedent(e1, c).unwrap()) is Some == record_of(
            e2,
            antecedent(e2, c).unwrap(),
        ) is Some);
    }
    if settles_at(e1, id, k) {
        assert forall|t: nat| t < k implies !is_settled(e2, #[trigger] chain(e2, id, t)) by {
            assert(!is_settled(e1, chain(e1, id, t)));
        }
    }
    if settles_at(e2, id, k) {
        assert forall|t: nat| t < k implies !is_settled(e1, #[trigger] chain(e1, id, t)) by {
            assert(!is_settled(e2, chain(e2, id, t)));
        }
    }
}

proof fn lemma_along_same(e1: Seq<Event>, e2: Seq<Event>, now: int, id: Seq<char>, k: nat)
    requires
        same_reading(e1, e2),
    ensures
        state_along(e1, now, id, k) == state_along(e2, now, id, k),
    decreases k,
{
    assert(antecedent(e1, id) == antecedent(e2, id));
    assert(horizon(e1, id) == horizon(e2, id));
    assert(resolution_of(e1, id) == resolution_of(e2, id));
    if k > 0 {
        lemma_along_same(e1, e2, now, antecedent(e1, id).unwrap(), (k - 1) as nat);
    }
}

/// Logs that read the same way fold to the same states.
proof fn lemma_same_states(e1: Seq<Event>, e2: Seq<Event>, now: int, id: Seq<char>)
    requires
        same_reading(e1, e2),
    ensures
        state_of(e1, now, id) == state_of(e2, now, id),
{
    if exists|k: nat| settles_at(e1, id, k) {
        let k1 = choose|k: nat| settles_at(e1, id, k);
        lemma_settles_same(e1, e2, id, k1);
        let k2 = choose|k: nat| settles_at(e2, id, k);
        lemma_settles_same(e1, e2, id, k2);
        lemma_settles_unique_pub(e1, id, k1, k2);
        lemma_along_same(e1, e2, now, id, k1);
    } else {
        assert forall|k: nat| !settles_at(e2, id, k) by {
            lemma_settles_same(e1, e2, id, k);
        }
    }
}

proof fn lemma_settles_unique_pub(evs: Seq<Event>, id: Seq<char>, k1: nat, k2: nat)
    requires
        settles_at(evs, id, k1),
        settles_at(evs, id, k2),
    ensures
        k1 == k2,
{
    if k1 < k2 {
        assert(!is_settled(evs, chain(evs, id, k1)));
    }
    if k2 < k1 {
        assert(!is_settled(evs, chain(evs, id, k2)));
    }
}

/// An event that is neither a `promise`, a `resolve` nor an `amend` leaves every
/// reading of the log as it was.
proof fn lemma_push_inert(evs: Seq<Event>, e: Event)
    requires
        e.body is Assess || e.body is Unknown,
    ensures
        same_reading(evs, evs.push(e)),
        declared_ids(evs.push(e)) == declared_ids(evs),
{
    let post = evs.push(e);
    assert(post.drop_last() == evs);
    assert forall|id: Seq<char>| #![auto] record_of(post, id) == record_of(evs, id) by {}
    assert forall|id: Seq<char>| #![auto] resolution_of(evs, id) == resolution_of(post, id) by {
        assert(resolution_index(post, id) == resolution_index(evs, id));
        lemma_resolution_in_log(evs, id);
    }
    assert forall|id: Seq<char>| #![auto] horizon(evs, id) == horizon(post, id) by {
        assert(amend_index(post, id) == amend_index(evs, id));
        lemma_amend_in_log(evs, id);
    }
}

proof fn lemma_resolution_in_log(evs: Seq<Event>, id: Seq<char>)
    ensures
        resolution_index(evs, id) matches Some(k) ==> 0 <= k < evs.len(),
    decreases evs.len(),
{
    if evs.len() > 0 {
        lemma_resolution_in_log(evs.drop_last(), id);
    }
}

proof fn lemma_amend_in_log(evs: Seq<Event>, id: Seq<char>)
    ensures
        amend_index(evs, id) matches Some(k) ==> 0 <= k < evs.len(),
    decreases evs.len(),
{
    if evs.len() > 0 {
        lemma_amend_in_log(evs.drop_last(), id);
    }
}

/// An assessment is never terminal and never consulted: appending one — or an event
/// of a type this library does not know — to a log changes no declared promise and
/// no computed state.
pub proof fn law_assessments_change_no_state(evs: Seq<Event>, e: Event, now: int, id: Seq<char>)
    requires
        e.body is Assess || e.body is Unknown,
    ensures
        declared_ids(evs.push(e)) == declared_ids(evs),
        state_of(evs.push(e), now, id) == state_of(evs, now, id),
{
    lemma_push_inert(evs, e);
    lemma_same_states(evs.push(e), evs, now, id);
    assert(same_reading(evs.push(e), evs));
}

/// The log with every `assess` event, and every event of a type this library does
/// not know, taken out: the `promise`, `amend` and `resolve` events, in log order.
pub open spec fn binding_events(evs: Seq<Event>) -> Seq<Event>
    decreases evs.len(),
{
    if evs.len() == 0 {
        Seq::empty()
    } else {
        let prev = binding_events(evs.drop_last());
        if evs.last().body is Assess || evs.last().body is Unknown {
            prev
        } else {
            prev.push(evs.last())
        }
    }
}

spec fn amends(body: EventBody, id: Seq<char>) -> bool {
    match body {
        EventBody::Amend { promise, .. } => promise@ == id,
        _ => false,
    }
}

spec fn amended_until(body: EventBody) -> Seq<char> {
    match body {
        EventBody::Amend { until, .. } => until@,
        _ => Seq::empty(),
    }
}

spec fn resolution_in(body: EventBody, id: Seq<char>) -> Option<crate::event::Resolution> {
    match body {
        EventBody::Resolve { promise, resolution, .. } => if promise@ == id {
            Some(resolution)
        } else {
            None
        },
        _ => None,
    }
}

proof fn lemma_indices_point_home(evs: Seq<Event>, id: Seq<char>)
    ensures
        resolution_index(evs, id) matches Some(k) ==> 0 <= k < evs.len() && evs[k].body is Resolve,
        amend_index(evs, id) matches Some(k) ==> 0 <= k < evs.len() && amends(evs[k].body, id),
    decreases evs.len(),
{
    if evs.len() > 0 {
        let d = evs.drop_last();
        lemma_indices_point_home(d, id);
        assert forall|k: int| 0 <= k < d.len() implies #[trigger] d[k] == evs[k] by {}
    }
}

/// How each reading of a log changes when one event is appended.
proof fn lemma_push_reads(evs: Seq<Event>, e: Event, id: Seq<char>)
    ensures
        resolution_of(evs.push(e), id) == match resolution_of(evs, id) {
            Some(r) => Some(r),
            None => resolution_in(e.body, id),
        },
        amend_index(evs.push(e), id) is Some == (amend_index(evs, id) is Some || amends(e.body, id)),
        amends(e.body, id) ==> horizon(evs.push(e), id) == amended_until(e.body),
        !amends(e.body, id) && amend_index(evs, id) is Some ==> horizon(evs.push(e), id) == horizon(evs, id),
        !amends(e.body, id) && amend_index(evs, id) is None ==> horizon(evs.push(e), id) == record_of(
            evs.push(e),
            id,
        ).unwrap().until@,
{
    let post = evs.push(e);
    assert(post.drop_last() == evs);
    lemma_indices_point_home(evs, id);
    if let Some(k) = resolution_index(evs, id) {
        assert(post[k] == evs[k]);
    }
    if let Some(k) = amend_index(evs, id) {
        assert(post[k] == evs[k]);
    }
}

/// Taking the assessments out, one event at a time, leaves every reading as it was.
proof fn lemma_binding_reads(evs: Seq<Event>, id: Seq<char>)
    ensures
        record_of(binding_events(evs), id) == record_of(evs, id),
        resolution_of(binding_events(evs), id) == resolution_of(evs, id),
        amend_index(binding_events(evs), id) is Some == amend_index(evs, id) is Some,
        horizon(binding_events(evs), id) == horizon(evs, id),
        declared_ids(binding_events(evs)) == declared_ids(evs),
    decreases evs.len(),
{
    if evs.len() > 0 {
        let d = evs.drop_last();
        let e = evs.last();
        let fd = binding_events(d);
        assert(d.push(e) =~= evs);
        lemma_binding_reads(d, id);
        lemma_push_reads(d, e, id);
        if e.body is Assess || e.body is Unknown {
            assert(binding_events(evs) == fd);
        } else {
            assert(binding_events(evs) == fd.push(e));
            lemma_push_reads(fd, e, id);
            assert(fd.push(e).drop_last() == fd);
        }
    }
}

/// Assessments change no state wherever they stand: taking every `assess` event —
/// and every event of a type this library does not know — out of a log, from
/// anywhere in it, leaves the same promises declared, with the same records, and
/// every one of them in the same computed state.
pub proof fn law_assessments_anywhere_change_no_state(evs: Seq<Event>, now: int, id: Seq<char>)
    ensures
        declared_ids(binding_events(evs)) == declared_ids(evs),
        record_of(binding_events(evs), id) == record_of(evs, id),
        state_of(binding_events(evs), now, id) == state_of(evs, now, id),
{
    let b = binding_events(evs);
    lemma_binding_reads(evs, id);
    assert forall|x: Seq<char>| #[trigger] record_of(b, x) is Some == record_of(evs, x) is Some by {
        lemma_binding_reads(evs, x);
    }
    assert forall|x: Seq<char>| #[trigger] antecedent(b, x) == antecedent(evs, x) by {
        lemma_binding_reads(evs, x);
    }
    assert forall|x: Seq<char>| #[trigger] resolution_of(b, x) == resolution_of(evs, x) by {
        lemma_binding_reads(evs, x);
    }
    assert forall|x: Seq<char>| #[trigger] horizon(b, x) == horizon(evs, x) by {
        lemma_binding_reads(evs, x);
    }
    assert(same_reading(b, evs));
    lemma_same_states(b, evs, now, id);
}

/// The first declaration wins: a second `promise` event for an id the log already
/// declares changes no declared promise, no record and no computed state.
pub proof fn law_first_declaration_wins(evs: Seq<Event>, e: Event, now: int, id: Seq<char>)
    requires
        e.body matches EventBody::Promise(p) && record_of(evs, p.id@) is Some,
    ensures
        declared_ids(evs.push(e)) == declared_ids(evs),
        record_of(evs.push(e), id) == record_of(evs, id),
        state_of(evs.push(e), now, id) == state_of(evs, now, id),
{
    let post = evs.push(e);
    assert(post.drop_last() == evs);
    let p = e.body->Promise_0;
    crate::state::lemma_declared_ids_match_records_pub(evs);
    assert(declared_ids(evs).contains(p.id@));
    assert forall|x: Seq<char>| #![auto] record_of(post, x) == record_of(evs, x) by {}
    assert forall|x: Seq<char>| #![auto] resolution_of(evs, x) == resolution_of(post, x) by {
        assert(resolution_index(post, x) == resolution_index(evs, x));
        lemma_resolution_in_log(evs, x);
    }
    assert forall|x: Seq<char>| #![auto] horizon(evs, x) == horizon(post, x) by {
        assert(amend_index(post, x) == amend_index(evs, x));
        lemma_amend_in_log(evs, x);
    }
    assert(same_reading(post, evs));
    lemma_same_states(post, evs, now, id);
}

/// A resolution is final: once the log resolves a declared promise, no event
/// appended after it — a second resolve, an amend, an assessment, anything — changes
/// that promise's state. The first resolve wins.
pub proof fn law_resolution_is_final(evs: Seq<Event>, e: Event, now: int, id: Seq<char>)
    requires
        record_of(evs, id) is Some,
        resolution_of(evs, id) is Some,
    ensures
        resolution_of(evs.push(e), id) == resolution_of(evs, id),
        state_of(evs.push(e), now, id) == state_of(evs, now, id),
        state_of(evs, now, id) == resolved_state(resolution_of(evs, id).unwrap()),
        terminal(state_of(evs, now, id)),
{
    let post = evs.push(e);
    assert(post.drop_last() == evs);
    lemma_resolution_in_log(evs, id);
    assert(resolution_index(post, id) == resolution_index(evs, id));
    assert(resolution_of(post, id) == resolution_of(evs, id));
    assert(is_settled(evs, id));
    assert(is_settled(post, id));
    lemma_state_of_settled(evs, now, id);
    lemma_state_of_settled(post, now, id);
}

} // verus!

verus! {

/// Two event bodies that differ at most in their `meta`.
pub open spec fn same_but_meta(b1: EventBody, b2: EventBody) -> bool {
    match (b1, b2) {
        (EventBody::Promise(p1), EventBody::Promise(p2)) => {
            &&& p1.id@ == p2.id@
            &&& p1.on == p2.on
            &&& p1.until@ == p2.until@
        },
        (
            EventBody::Amend { promise: a1, until: u1, .. },
            EventBody::Amend { promise: a2, until: u2, .. },
        ) => a1@ == a2@ && u1@ == u2@,
        (
            EventBody::Resolve { promise: a1, resolution: r1, .. },
            EventBody::Resolve { promise: a2, resolution: r2, .. },
        ) => a1@ == a2@ && r1 == r2,
        (EventBody::Assess { promise: a1, .. }, EventBody::Assess { promise: a2, .. }) => a1@
            == a2@,
        (EventBody::Unknown, EventBody::Unknown) => true,
        _ => false,
    }
}

proof fn lemma_meta_prefix(e1: Seq<Event>, e2: Seq<Event>)
    requires
        e1.len() == e2.len(),
        forall|i: int| 0 <= i < e1.len() ==> same_but_meta(#[trigger] e1[i].body, e2[i].body),
    ensures
        forall|id: Seq<char>| #[trigger] resolution_index(e1, id) == resolution_index(e2, id),
        forall|id: Seq<char>| #[trigger] amend_index(e1, id) == amend_index(e2, id),
        forall|id: Seq<char>|
            match (#[trigger] record_of(e1, id), record_of(e2, id)) {
                (Some(p1), Some(p2)) => p1.on == p2.on && p1.until@ == p2.until@,
                (None, None) => true,
                _ => false,
            },
        declared_ids(e1) == declared_ids(e2),
    decreases e1.len(),
{
    if e1.len() > 0 {
        let d1 = e1.drop_last();
        let d2 = e2.drop_last();
        assert forall|i: int| 0 <= i < d1.len() implies same_but_meta(#[trigger] d1[i].body, d2[i].body) by {
            assert(same_but_meta(e1[i].body, e2[i].body));
        }
        lemma_meta_prefix(d1, d2);
        assert(same_but_meta(e1.last().body, e2.last().body));
        assert forall|id: Seq<char>| #[trigger] resolution_index(e1, id) == resolution_index(e2, id) by {
            assert(resolution_index(d1, id) == resolution_index(d2, id));
        }
        assert forall|id: Seq<char>| #[trigger] amend_index(e1, id) == amend_index(e2, id) by {
            assert(amend_index(d1, id) == amend_index(d2, id));
        }
        assert forall|id: Seq<char>|
            match (#[trigger] record_of(e1, id), record_of(e2, id)) {
                (Some(p1), Some(p2)) => p1.on == p2.on && p1.until@ == p2.until@,
                (None, None) => true,
                _ => false,
            } by {
            assert(match (record_of(d1, id), record_of(d2, id)) {
                (Some(p1), Some(p2)) => p1.on == p2.on && p1.until@ == p2.until@,
                (None, None) => true,
                _ => false,
            });
        }
    }
}

/// `meta` is never read: two logs that differ only in the `meta` of their events —
/// on promise, amend, resolve and assess lines alike — declare the same promises and
/// fold every one of them to the same state.
pub proof fn law_meta_is_never_read(e1: Seq<Event>, e2: Seq<Event>, now: int, id: Seq<char>)
    requires
        e1.len() == e2.len(),
        forall|i: int| 0 <= i < e1.len() ==> same_but_meta(#[trigger] e1[i].body, e2[i].body),
    ensures
        declared_ids(e1) == declared_ids(e2),
        state_of(e1, now, id) == state_of(e2, now, id),
{
    lemma_meta_prefix(e1, e2);
    assert forall|x: Seq<char>| #[trigger] record_of(e1, x) is Some == record_of(e2, x) is Some by {
        assert(match (record_of(e1, x), record_of(e2, x)) {
            (Some(p1), Some(p2)) => p1.on == p2.on && p1.until@ == p2.until@,
            (None, None) => true,
            _ => false,
        });
    }
    assert forall|x: Seq<char>| #[trigger] antecedent(e1, x) == antecedent(e2, x) by {
        assert(match (record_of(e1, x), record_of(e2, x)) {
            (Some(p1), Some(p2)) => p1.on == p2.on && p1.until@ == p2.until@,
            (None, None) => true,
            _ => false,
        });
    }
    assert forall|x: Seq<char>| #[trigger] resolution_of(e1, x) == resolution_of(e2, x) by {
        assert(resolution_index(e1, x) == resolution_index(e2, x));
        lemma_resolution_in_log(e1, x);
        if let Some(k) = resolution_index(e1, x) {
            assert(same_but_meta(e1[k].body, e2[k].body));
        }
    }
    assert forall|x: Seq<char>| #[trigger] horizon(e1, x) == horizon(e2, x) by {
        assert(amend_index(e1, x) == amend_index(e2, x));
        lemma_amend_in_log(e1, x);
        assert(match (record_of(e1, x), record_of(e2, x)) {
            (Some(p1), Some(p2)) => p1.on == p2.on && p1.until@ == p2.until@,
            (None, None) => true,
            _ => false,
        });
        if let Some(k) = amend_index(e1, x) {
            assert(same_but_meta(e1[k].body, e2[k].body));
        }
    }
    lemma_same_states(e1, e2, now, id);
}

} // verus!

verus! {

/// Every id the log declares is named by one of its events.
proof fn lemma_declared_is_spoken_for(evs: Seq<Event>, id: Seq<char>)
    ensures
        record_of(evs, id) is Some ==> spoken_for(evs).contains(id),
    decreases evs.len(),
{
    if evs.len() > 0 {
        let prev = evs.drop_last();
        lemma_declared_is_spoken_for(prev, id);
        if record_of(prev, id) is Some {
            let i = choose|i: int| 0 <= i < prev.len() && #[trigger] subject_of(prev[i].body) == id;
            assert(evs[i] == prev[i]);
            assert(subject_of(evs[i].body) == id);
        } else if record_of(evs, id) is Some {
            assert(subject_of(evs[evs.len() - 1].body) == id);
        }
    }
}

/// What `promise` appends declares the promise it describes: an id the log did not
/// declare before, now declared last, with exactly the appended record.
pub proof fn law_promise_is_declared<'a>(
    inc: Incoming,
    l: &'a Ledger,
    now: int,
    path: Seq<char>,
    event: Event,
    id: String,
    before: Seq<String>,
    after: Seq<String>,
)
    requires
        declared(
            inc,
            Ok::<&'a Ledger, Fail>(l),
            now,
            path,
            Ok::<Effect<'a>, Fail>(Effect::Append { event, id }),
            before,
            after,
        ),
    ensures
        event.body matches EventBody::Promise(p) && p.id@ == id@ && record_of(
            l.events@.push(event),
            id@,
        ) == Some(p),
        record_of(l.events@, id@) is None,
        declared_ids(l.events@.push(event)) == declared_ids(l.events@).push(id@),
{
    let evs = l.events@;
    let post = evs.push(event);
    assert(post.drop_last() == evs);
    lemma_declared_is_spoken_for(evs, id@);
    crate::state::lemma_declared_ids_match_records_pub(evs);
}

/// A resolve ends the promise in the state it names: once what `resolve` appends
/// is in the log, the promise is `satisfied`, `cancelled` or `released`, as asked.
pub proof fn law_resolve_ends_the_promise<'a>(
    args: ResolveArgs,
    l: &'a Ledger,
    now: int,
    path: Seq<char>,
    event: Event,
    id: String,
    before: Seq<String>,
    after: Seq<String>,
)
    requires
        resolved(
            args,
            Ok::<&'a Ledger, Fail>(l),
            now,
            path,
            Ok::<Effect<'a>, Fail>(Effect::Append { event, id }),
            before,
            after,
        ),
    ensures
        record_of(l.events@, args.id@) is Some,
        resolution_of(l.events@, args.id@) is None,
        state_of(l.events@.push(event), now, args.id@) == (if args.satisfied {
            State::Satisfied
        } else if args.cancelled {
            State::Cancelled
        } else {
            State::Released
        }),
{
    let evs = l.events@;
    let post = evs.push(event);
    assert(post.drop_last() == evs);
    assert(resolution_index(post, args.id@) == Some(evs.len() as int));
    assert(is_settled(post, args.id@));
    lemma_state_of_settled(post, now, args.id@);
}

/// An assessed promise stays exactly as open as it was: what `assess` appends
/// changes no declared promise and no computed state.
pub proof fn law_assess_changes_no_state<'a>(
    args: AssessArgs,
    l: &'a Ledger,
    now: int,
    path: Seq<char>,
    event: Event,
    id: String,
    before: Seq<String>,
    after: Seq<String>,
    x: Seq<char>,
)
    requires
        assessed(
            args,
            Ok::<&'a Ledger, Fail>(l),
            now,
            path,
            Ok::<Effect<'a>, Fail>(Effect::Append { event, id }),
            before,
            after,
        ),
    ensures
        declared_ids(l.events@.push(event)) == declared_ids(l.events@),
        state_of(l.events@.push(event), now, x) == state_of(l.events@, now, x),
{
    law_assessments_change_no_state(l.events@, event, now, x);
}

} // verus!

verus! {

/// An amend moves a promise's deadline and nothing else: appending one declares
/// nothing new, rewrites no record, resolves nothing, and leaves every other
/// promise's horizon as it was; the amended promise's horizon is the amend's
/// `until` — the latest amend in the log wins.
pub proof fn law_amend_moves_only_the_horizon(evs: Seq<Event>, e: Event, y: Seq<char>)
    requires
        e.body is Amend,
    ensures
        declared_ids(evs.push(e)) == declared_ids(evs),
        record_of(evs.push(e), y) == record_of(evs, y),
        resolution_of(evs.push(e), y) == resolution_of(evs, y),
        e.body matches EventBody::Amend { promise, until, .. } && horizon(evs.push(e), promise@)
            == until@,
        e.body matches EventBody::Amend { promise, .. } && promise@ != y ==> horizon(evs.push(e), y)
            == horizon(evs, y),
{
    let post = evs.push(e);
    assert(post.drop_last() == evs);
    assert(resolution_index(post, y) == resolution_index(evs, y));
    lemma_resolution_in_log(evs, y);
    lemma_amend_in_log(evs, y);
}

} // verus!

verus! {

/// The fold is the table of computed states, read one promise at a time: a resolved
/// promise is in the state its first resolution names; an unresolved one with no
/// antecedent is `overdue` once `now` is strictly past its horizon and `detached`
/// before; one waiting on an id the log never declared is `conditional`; and one
/// waiting on a declared promise is owed once that one is satisfied, `expired` once
/// it ended any other way, and `conditional` while it is still open.
pub proof fn law_the_fold_follows_the_table(evs: Seq<Event>, now: int, id: Seq<char>)
    requires
        record_of(evs, id) is Some,
    ensures
        state_of(evs, now, id) == match resolution_of(evs, id) {
            Some(r) => resolved_state(r),
            None => match antecedent(evs, id) {
                None => owed_state(now, horizon(evs, id)),
                Some(a) => if record_of(evs, a) is None {
                    State::Conditional
                } else {
                    after_antecedent(state_of(evs, now, a), owed_state(now, horizon(evs, id)))
                },
            },
        },
{
    if is_settled(evs, id) {
        lemma_state_of_settled(evs, now, id);
    } else {
        lemma_state_of_unsettled(evs, now, id);
    }
}

} // verus!

verus! {

/// The first resolve wins, and a later one is answered: once what `resolve` appends
/// is in the log, any later well-formed resolve of the same promise is refused as an
/// operational failure naming the outcome that stands and when it was recorded.
pub proof fn law_a_second_resolve_is_refused<'a>(
    args: ResolveArgs,
    l: &'a Ledger,
    now: int,
    path: Seq<char>,
    event: Event,
    id: String,
    before: Seq<String>,
    after: Seq<String>,
    again: ResolveArgs,
    l2: &'a Ledger,
    later: int,
    r2: Result<Effect<'a>, Fail>,
    before2: Seq<String>,
    after2: Seq<String>,
)
    requires
        resolved(
            args,
            Ok::<&'a Ledger, Fail>(l),
            now,
            path,
            Ok::<Effect<'a>, Fail>(Effect::Append { event, id }),
            before,
            after,
        ),
        l2.events@ == l.events@.push(event),
        again.id@ == args.id@,
        resolve_refusal(again) is None,
        meta_refusal(again.meta) is None,
        resolved(again, Ok::<&'a Ledger, Fail>(l2), later, path, r2, before2, after2),
    ensures
        r2 matches Err(f) && op_says(f, already_resolved_text(args.id@, kind_of(event), event.ts@)),
{
    let evs = l.events@;
    let post = l2.events@;
    assert(post.drop_last() == evs);
    assert(resolution_index(post, args.id@) == Some(evs.len() as int));
    assert(record_of(post, args.id@) == record_of(evs, args.id@));
}

/// Ids are stable: once what `promise` appends is in the log, a later well-formed
/// promise that brings the same id is refused as an operational failure, and the
/// first declaration stands.
pub proof fn law_a_declared_id_is_not_declared_again<'a>(
    inc: Incoming,
    l: &'a Ledger,
    now: int,
    path: Seq<char>,
    event: Event,
    id: String,
    before: Seq<String>,
    after: Seq<String>,
    again: Incoming,
    l2: &'a Ledger,
    later: int,
    r2: Result<Effect<'a>, Fail>,
    before2: Seq<String>,
    after2: Seq<String>,
)
    requires
        declared(
            inc,
            Ok::<&'a Ledger, Fail>(l),
            now,
            path,
            Ok::<Effect<'a>, Fail>(Effect::Append { event, id }),
            before,
            after,
        ),
        l2.events@ == l.events@.push(event),
        again.id matches Some(g) && crate::text::trimmed(g@) == id@,
        intake_refusal(again) is None,
        declared(again, Ok::<&'a Ledger, Fail>(l2), later, path, r2, before2, after2),
    ensures
        r2 matches Err(f) && op_says(f, already_declared_text(id@, path)),
{
    law_promise_is_declared(inc, l, now, path, event, id, before, after);
}

} // verus!

verus! {

/// What `amend` appends moves the promise's horizon to the new deadline, as
/// normalized, and nothing else: the declaration is not rewritten and the promise
/// stays unresolved.
pub proof fn law_amend_sets_the_horizon<'a>(
    args: AmendArgs,
    l: &'a Ledger,
    now: int,
    path: Seq<char>,
    event: Event,
    id: String,
    before: Seq<String>,
    after: Seq<String>,
    x: Seq<char>,
)
    requires
        amended(
            args,
            Ok::<&'a Ledger, Fail>(l),
            now,
            path,
            Ok::<Effect<'a>, Fail>(Effect::Append { event, id }),
            before,
            after,
        ),
    ensures
        horizon(l.events@.push(event), args.id@) == crate::instant::instant_text(
            crate::instant::parsed_instant(crate::text::trimmed(args.until@)).unwrap(),
        ),
        record_of(l.events@.push(event), x) == record_of(l.events@, x),
        declared_ids(l.events@.push(event)) == declared_ids(l.events@),
        resolution_of(l.events@.push(event), args.id@) is None,
{
    law_amend_moves_only_the_horizon(l.events@, event, x);
    law_amend_moves_only_the_horizon(l.events@, event, args.id@);
}

} // verus!

verus! {

/// A promise the log satisfied is satisfied at every `now`: the state names the
/// resolution, which time does not touch.
proof fn lemma_satisfied_is_timeless(evs: Seq<Event>, now: int, later: int, id: Seq<char>, k: nat)
    requires
        state_along(evs, now, id, k) == State::Satisfied,
    ensures
        state_along(evs, later, id, k) == State::Satisfied,
    decreases k,
{
    if k > 0 {
        let owed = owed_state(now, horizon(evs, id));
        assert(owed == State::Detached || owed == State::Overdue);
    }
}

/// Along the same chain, `overdue` at `now` stays `overdue` at every later `now`.
proof fn lemma_overdue_along(evs: Seq<Event>, now: int, later: int, id: Seq<char>, k: nat)
    requires
        now <= later,
        state_along(evs, now, id, k) == State::Overdue,
    ensures
        state_along(evs, later, id, k) == State::Overdue,
    decreases k,
{
    if k > 0 {
        let a = antecedent(evs, id).unwrap();
        let ante = state_along(evs, now, a, (k - 1) as nat);
        assert(ante == State::Satisfied);
        lemma_satisfied_is_timeless(evs, now, later, a, (k - 1) as nat);
    }
}

/// `overdue` is a fact that only time confirms: over the same log, a promise that
/// is overdue at `now` is overdue at every later `now`.
pub proof fn law_overdue_stays_overdue(evs: Seq<Event>, now: int, later: int, id: Seq<char>)
    requires
        now <= later,
        state_of(evs, now, id) == State::Overdue,
    ensures
        state_of(evs, later, id) == State::Overdue,
{
    if exists|k: nat| settles_at(evs, id, k) {
        let k = choose|k: nat| settles_at(evs, id, k);
        lemma_overdue_along(evs, now, later, id, k);
    }
}

} // verus!

verus! {

// ------------------------------------------------------------ what each verb records

/// A resolve records what was asked, issued by whom the design says: `--by` when it
/// is given, and otherwise the debtor for `--satisfied` and `--cancelled` and the
/// creditor for `--released`. Evidence and reasons are kept as given, trimmed; a
/// release keeps its reason when it has one.
pub proof fn law_resolve_records_what_was_asked<'a>(
    args: ResolveArgs,
    l: &'a Ledger,
    now: int,
    path: Seq<char>,
    event: Event,
    id: String,
    before: Seq<String>,
    after: Seq<String>,
)
    requires
        resolved(
            args,
            Ok::<&'a Ledger, Fail>(l),
            now,
            path,
            Ok::<Effect<'a>, Fail>(Effect::Append { event, id }),
            before,
            after,
        ),
    ensures
        ({
            let evs = l.events@;
            let debtor = record_of(evs, args.id@).unwrap().by@;
            let creditor = record_of(evs, args.id@).unwrap().to@;
            let res = resolution_of(evs.push(event), args.id@).unwrap();
            &&& record_of(evs, args.id@) is Some
            &&& resolution_of(evs, args.id@) is None
            &&& resolution_of(evs.push(event), args.id@) is Some
            &&& args.by matches Some(b) ==> issuer_of(res) == trimmed(b@)
            &&& args.by is None && (args.satisfied || args.cancelled) ==> issuer_of(res) == debtor
            &&& args.by is None && !args.satisfied && !args.cancelled ==> issuer_of(res)
                == creditor
            &&& args.satisfied ==> (res matches Resolution::Satisfied { evidence, .. }
                && evidence@.len() == args.evidence@.len() && forall|i: int|
                0 <= i < evidence@.len() ==> #[trigger] evidence@[i]@ == trimmed(
                    args.evidence@[i]@,
                ))
            &&& !args.satisfied && args.cancelled ==> (res matches Resolution::Cancelled {
                reason,
                ..
            } && args.reason matches Some(t) && reason@ == trimmed(t@))
            &&& !args.satisfied && !args.cancelled ==> (res matches Resolution::Released {
                reason,
                ..
            } && match args.reason {
                Some(t) => reason matches Some(x) && x@ == trimmed(t@),
                None => reason is None,
            })
        }),
{
    let evs = l.events@;
    let post = evs.push(event);
    assert(post.drop_last() == evs);
    lemma_indices_point_home(evs, args.id@);
    assert(resolution_index(post, args.id@) == Some(evs.len() as int));
    let res = event.body->resolution;
    assert(post[evs.len() as int] == event);
    assert(resolution_of(post, args.id@) == Some(res));
    assert(crate::verbs::resolution_fits(
        args,
        res,
        crate::verbs::claimant(args, record_of(evs, args.id@).unwrap()),
    ));
    if args.satisfied {
        let ev = res->Satisfied_evidence;
        assert(crate::verbs::views_of(ev@) == crate::verbs::trimmed_each(args.evidence@));
        assert(crate::verbs::views_of(ev@).len() == ev@.len());
        assert(crate::verbs::trimmed_each(args.evidence@).len() == args.evidence@.len());
        assert forall|i: int| 0 <= i < ev@.len() implies #[trigger] ev@[i]@ == trimmed(
            args.evidence@[i]@,
        ) by {
            assert(crate::verbs::views_of(ev@)[i] == ev@[i]@);
            assert(crate::verbs::trimmed_each(args.evidence@)[i] == trimmed(args.evidence@[i]@));
        }
    }
}

/// A well-formed resolve of a declared, unresolved promise is appended: for
/// `--satisfied`, no reason and evidence none of which is blank; for `--cancelled`,
/// no evidence and a reason that is not blank; for `--released`, no evidence and a
/// reason, if any, that is not blank — with no `--meta` and no blank `--by`.
pub proof fn law_a_well_formed_resolve_is_appended<'a>(
    args: ResolveArgs,
    l: &'a Ledger,
    now: int,
    path: Seq<char>,
    r: Result<Effect<'a>, Fail>,
    before: Seq<String>,
    after: Seq<String>,
)
    requires
        resolved(args, Ok::<&'a Ledger, Fail>(l), now, path, r, before, after),
        record_of(l.events@, args.id@) is Some,
        resolution_of(l.events@, args.id@) is None,
        args.meta is None,
        args.by matches Some(b) ==> trimmed(b@).len() > 0,
        ({
            ||| args.satisfied && args.reason is None && args.evidence@.len() > 0 && forall|i: int|
                0 <= i < args.evidence@.len() ==> #[trigger] trimmed(args.evidence@[i]@).len() > 0
            ||| !args.satisfied && args.cancelled && args.evidence@.len() == 0 && (
            args.reason matches Some(t) && trimmed(t@).len() > 0)
            ||| !args.satisfied && !args.cancelled && args.evidence@.len() == 0 && (
            args.reason matches Some(t) ==> trimmed(t@).len() > 0)
        }),
    ensures
        r matches Ok(Effect::Append { event, id }) && id@ == args.id@ && (
        event.body matches EventBody::Resolve { promise, .. } && promise@ == args.id@),
{
    lemma_indices_point_home(l.events@, args.id@);
}

/// The ids `ls` picks out of `ids` are those of `ids` it lists.
proof fn lemma_listed_ids_contains(
    evs: Seq<Event>,
    now: int,
    args: LsArgs,
    ids: Seq<Seq<char>>,
    x: Seq<char>,
)
    ensures
        listed_ids(evs, now, args, ids).contains(x) <==> ids.contains(x) && listed(
            args,
            state_of(evs, now, x),
            rec_of(evs, x),
        ),
    decreases ids.len(),
{
    if ids.len() > 0 {
        let d = ids.drop_last();
        let last = ids.last();
        let prev = listed_ids(evs, now, args, d);
        let out = listed_ids(evs, now, args, ids);
        lemma_listed_ids_contains(evs, now, args, d, x);
        assert(ids == d.push(last));
        // membership in `ids` is membership in `d` or being the last
        assert(ids.contains(x) <==> d.contains(x) || x == last) by {
            if d.contains(x) {
                let i = choose|i: int| 0 <= i < d.len() && d[i] == x;
                assert(ids[i] == x);
            }
            if x == last {
                assert(ids[ids.len() - 1] == x);
            }
            if ids.contains(x) {
                let i = choose|i: int| 0 <= i < ids.len() && ids[i] == x;
                if i < d.len() {
                    assert(d[i] == x);
                }
            }
        }
        if listed(args, state_of(evs, now, last), rec_of(evs, last)) {
            assert(out == prev.push(last));
            assert(out.contains(x) <==> prev.contains(x) || x == last) by {
                if prev.contains(x) {
                    let i = choose|i: int| 0 <= i < prev.len() && prev[i] == x;
                    assert(out[i] == x);
                }
                if x == last {
                    assert(out[out.len() - 1] == x);
                }
                if out.contains(x) {
                    let i = choose|i: int| 0 <= i < out.len() && out[i] == x;
                    if i < prev.len() {
                        assert(prev[i] == x);
                    }
                }
            }
        } else {
            assert(out == prev);
        }
    }
}

/// `ls` lists exactly the declared promises whose state its scope takes in —
/// every state with `--all`; `overdue` alone with `--overdue`; otherwise (the default,
/// `--open`) those that have not ended: `conditional`, `detached` or `overdue` —
/// and whose debtor and creditor match `--by` and `--to` where those are given. Each
/// one it lists appears as a row carrying its record and state, or as a line of the
/// table.
pub proof fn law_ls_lists_exactly_what_its_scope_takes_in<'a>(
    args: LsArgs,
    l: &'a Ledger,
    now: int,
    path: Seq<char>,
    r: Result<Effect<'a>, Fail>,
    before: Seq<String>,
    after: Seq<String>,
    x: Seq<char>,
)
    requires
        listing(args, Ok::<&'a Ledger, Fail>(l), now, path, r, before, after),
    ensures
        ({
            let evs = l.events@;
            let s = state_of(evs, now, x);
            let p = record_of(evs, x).unwrap();
            selection(evs, now, args).contains(x) <==> {
                &&& declared_ids(evs).contains(x)
                &&& if args.all {
                    true
                } else if args.overdue {
                    s == State::Overdue
                } else {
                    s == State::Conditional || s == State::Detached || s == State::Overdue
                }
                &&& args.by matches Some(b) ==> p.by@ == b@
                &&& args.to matches Some(t) ==> p.to@ == t@
            }
        }),
        selection(l.events@, now, args).contains(x) && args.json ==> (r matches Ok(
            Effect::Rows(rows),
        ) && exists|j: int|
            0 <= j < rows@.len() && *(#[trigger] rows@[j]).record == record_of(l.events@, x).unwrap()
                && rows@[j].state == state_of(l.events@, now, x)),
        selection(l.events@, now, args).contains(x) && !args.json ==> (r matches Ok(
            Effect::Print(lines),
        ) && exists|j: int|
            0 <= j < lines@.len() && (#[trigger] lines@[j])@ == table_line(
                l.events@,
                now,
                selection(l.events@, now, args),
                x,
            )),
{
    let evs = l.events@;
    let sel = selection(evs, now, args);
    lemma_listed_ids_contains(evs, now, args, declared_ids(evs), x);
    if sel.contains(x) {
        let j = choose|j: int| 0 <= j < sel.len() && sel[j] == x;
        if args.json {
            let rows = r->Ok_0->Rows_0;
            assert(*rows@[j].record == rec_of(evs, sel[j]));
        } else {
            assert(sel.len() > 0);
            let lines = r->Ok_0->Print_0;
            assert(views_of(lines@) == crate::verbs::table(evs, now, sel));
            assert(views_of(lines@).len() == lines@.len());
            assert(views_of(lines@)[j] == lines@[j]@);
            assert(crate::verbs::table(evs, now, sel)[j] == table_line(evs, now, sel, x));
        }
    }
}

/// The reason a resolution gives for itself, if it gives one: a cancellation
/// always does, a release may.
pub open spec fn stated_reason(res: Resolution) -> Option<Seq<char>> {
    match res {
        Resolution::Cancelled { reason, .. } => Some(reason@),
        Resolution::Released { reason: Some(t), .. } => Some(t@),
        _ => None,
    }
}

/// `show` prints how a resolved promise ended: a line saying how, when and by whom,
/// followed at once by the reason when the resolution gives one — a cancellation's,
/// or a release's when it has one — or by one line per reference of evidence.
pub proof fn law_show_prints_how_a_promise_ended<'a>(
    args: ShowArgs,
    l: &'a Ledger,
    now: int,
    path: Seq<char>,
    r: Result<Effect<'a>, Fail>,
    before: Seq<String>,
    after: Seq<String>,
)
    requires
        shown(args, Ok::<&'a Ledger, Fail>(l), now, path, r, before, after),
        !args.json,
        record_of(l.events@, args.id@) is Some,
        resolution_of(l.events@, args.id@) is Some,
    ensures
        ({
            let evs = l.events@;
            let res = resolution_of(evs, args.id@).unwrap();
            let ts = evs[resolution_index(evs, args.id@).unwrap()].ts@;
            r matches Ok(Effect::Print(lines)) && exists|i: int| {
                &&& 0 <= i < lines@.len()
                &&& #[trigger] lines@[i]@ == "  resolution   "@ + outcome_word(res) + " at "@ + ts
                    + " by "@ + issuer_of(res)
                &&& stated_reason(res) matches Some(why) ==> i + 1 < lines@.len() && lines@[i
                    + 1]@ == "    reason     "@ + why
                &&& res matches Resolution::Satisfied { evidence, .. } ==> i + evidence@.len()
                    < lines@.len() && forall|m: int|
                    0 <= m < evidence@.len() ==> lines@[i + 1 + m]@ == "    evidence   "@
                        + (#[trigger] evidence@[m])@
            }
        }),
{
    let evs = l.events@;
    let id = args.id@;
    let k = resolution_index(evs, id).unwrap();
    lemma_indices_point_home(evs, id);
    let e = evs[k];
    let res = resolution_of(evs, id).unwrap();
    let p = rec_of(evs, id);
    let lines = r->Ok_0->Print_0;
    let head = seq![
        id + "  "@ + crate::state::state_word(state_of(evs, now, id)),
        "  promise      "@ + p.promise@,
        "  by           "@ + p.by@,
        "  to           "@ + p.to@,
    ] + crate::verbs::opt_line("  on           "@, p.on) + seq!["  until        "@ + horizon(evs, id)]
        + crate::verbs::horizon_part(evs, id) + crate::verbs::opt_line("  task         "@, p.task)
        + crate::verbs::opt_line("  meta         "@, p.meta);
    let block = crate::verbs::resolution_block(e);
    let tail = crate::verbs::assessment_part(evs, id);
    assert(crate::verbs::resolution_part(evs, id) == block);
    assert(crate::verbs::show_lines(evs, now, id) == head + block + tail);
    let v = views_of(lines@);
    assert(v == head + block + tail);
    assert(v.len() == lines@.len());
    let i = head.len() as int;
    let rest = match res {
        Resolution::Satisfied { evidence, .. } => crate::verbs::evidence_lines(evidence@),
        Resolution::Cancelled { reason, .. } => seq!["    reason     "@ + reason@],
        Resolution::Released { reason, .. } => crate::verbs::opt_line("    reason     "@, reason),
    };
    let first = "  resolution   "@ + outcome_word(res) + " at "@ + e.ts@ + " by "@ + issuer_of(res);
    let meta_part = crate::verbs::opt_line("    meta       "@, e.body->Resolve_meta);
    assert(block == seq![first] + rest + meta_part);
    assert(v[i] == first) by {
        assert((head + block + tail)[i] == block[0]);
        assert((seq![first] + rest + meta_part)[0] == first);
    }
    assert(v[i] == lines@[i]@);
    if let Some(why) = stated_reason(res) {
        assert(rest.len() == 1 && rest[0] == "    reason     "@ + why);
        assert(v[i + 1] == lines@[i + 1]@);
        assert((head + block + tail)[i + 1] == block[1]);
        assert((seq![first] + rest + meta_part)[1] == rest[0]);
    }
    if let Resolution::Satisfied { evidence, .. } = res {
        assert(rest.len() == evidence@.len());
        assert forall|m: int| 0 <= m < evidence@.len() implies lines@[i + 1 + m]@ == "    evidence   "@
            + (#[trigger] evidence@[m])@ by {
            assert(v[i + 1 + m] == lines@[i + 1 + m]@);
            assert((head + block + tail)[i + 1 + m] == block[1 + m]);
            assert((seq![first] + rest + meta_part)[1 + m] == rest[m]);
        }
    }
}

/// A blank `--note` is refused as malformed input, and nothing is appended: an
/// assessment is never recorded with an empty note.
pub proof fn law_a_blank_note_is_refused<'a>(
    args: AssessArgs,
    ledger: Result<&'a Ledger, Fail>,
    now: int,
    path: Seq<char>,
    r: Result<Effect<'a>, Fail>,
    before: Seq<String>,
    after: Seq<String>,
)
    requires
        assessed(args, ledger, now, path, r, before, after),
        args.note matches Some(n) && trimmed(n@).len() == 0,
    ensures
        r matches Err(Fail::Usage(_)),
        views_of(after) == views_of(before),
{
    assert(views_of(before) + Seq::<Seq<char>>::empty() == views_of(before));
}

/// What `assess` appends is a `violated` assessment of the promise named, by the
/// observer given, carrying the note given — trimmed, and never empty — or none.
pub proof fn law_assess_records_what_was_given<'a>(
    args: AssessArgs,
    ledger: Result<&'a Ledger, Fail>,
    now: int,
    path: Seq<char>,
    event: Event,
    id: String,
    before: Seq<String>,
    after: Seq<String>,
)
    requires
        assessed(
            args,
            ledger,
            now,
            path,
            Ok::<Effect<'a>, Fail>(Effect::Append { event, id }),
            before,
            after,
        ),
    ensures
        event.body matches EventBody::Assess { promise, observer, note, .. } && promise@ == args.id@
            && observer@ == trimmed(args.observer@) && trimmed(args.observer@).len() > 0 && match args.note {
            Some(n) => note matches Some(x) && x@ == trimmed(n@) && x@.len() > 0,
            None => note is None,
        },
{
}

} // verus!
