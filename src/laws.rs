//! Guarantees of the delivery engine that relate several operations.
use vstd::prelude::*;

use crate::notification::{visible_at, NotificationView};
use crate::store::{create_result, fresh_and_visible, poll_view, CreateError, StoreView};

verus! {

broadcast use vstd::seq_lib::group_filter_ensures;

/// Ids strictly increase along `s`.
pub open spec fn ascending_ids(s: Seq<NotificationView>) -> bool {
    forall|i: int, j: int| 0 <= i < j < s.len() ==> #[trigger] s[i].id < #[trigger] s[j].id
}

proof fn lemma_filter_ascending(s: Seq<NotificationView>, pred: spec_fn(NotificationView) -> bool)
    requires
        ascending_ids(s),
    ensures
        ascending_ids(s.filter(pred)),
    decreases s.len(),
{
    reveal_with_fuel(Seq::filter, 1);
    if s.len() > 0 {
        let rest = s.drop_last();
        assert(ascending_ids(rest));
        lemma_filter_ascending(rest, pred);
        let f = rest.filter(pred);
        assert forall|i: int| 0 <= i < f.len() implies #[trigger] f[i].id < s.last().id by {
            rest.lemma_filter_contains_rev(pred, f[i]);
            let j = choose|j: int| 0 <= j < rest.len() && rest[j] == f[i];
            assert(s[j] == rest[j]);
        }
        if pred(s.last()) {
            let g = f.push(s.last());
            assert forall|i: int, j: int| 0 <= i < j < g.len() implies #[trigger] g[i].id
                < #[trigger] g[j].id by {
                if j < f.len() {
                    assert(g[i] == f[i] && g[j] == f[j]);
                } else {
                    assert(g[i] == f[i]);
                }
            }
        }
    }
}

proof fn lemma_next_id_grows(
    states: Seq<StoreView>,
    titles: Seq<Seq<char>>,
    messages: Seq<Seq<char>>,
    schedules: Seq<Option<Seq<u8>>>,
    nows: Seq<int>,
    results: Seq<Result<NotificationView, CreateError>>,
    i: int,
    j: int,
)
    requires
        states.len() == results.len() + 1,
        titles.len() == results.len(),
        messages.len() == results.len(),
        schedules.len() == results.len(),
        nows.len() == results.len(),
        forall|k: int|
            0 <= k < results.len() ==> (#[trigger] states[k + 1], results[k]) == create_result(
                states[k],
                titles[k],
                messages[k],
                schedules[k],
                nows[k],
            ),
        0 <= i <= j < states.len(),
    ensures
        states[i].next_id <= states[j].next_id,
    decreases j - i,
{
    if i < j {
        lemma_next_id_grows(states, titles, messages, schedules, nows, results, i, j - 1);
        let k = j - 1;
        assert((states[k + 1], results[k]) == create_result(
            states[k],
            titles[k],
            messages[k],
            schedules[k],
            nows[k],
        ));
    }
}

/// Over any run of create requests, accepted or refused, made one after
/// another on a store, the ids handed back by the accepted ones strictly
/// increase: no id is handed out twice.
pub proof fn lemma_created_ids_increase(
    states: Seq<StoreView>,
    titles: Seq<Seq<char>>,
    messages: Seq<Seq<char>>,
    schedules: Seq<Option<Seq<u8>>>,
    nows: Seq<int>,
    results: Seq<Result<NotificationView, CreateError>>,
)
    requires
        states.len() == results.len() + 1,
        titles.len() == results.len(),
        messages.len() == results.len(),
        schedules.len() == results.len(),
        nows.len() == results.len(),
        forall|k: int|
            0 <= k < results.len() ==> (#[trigger] states[k + 1], results[k]) == create_result(
                states[k],
                titles[k],
                messages[k],
                schedules[k],
                nows[k],
            ),
    ensures
        forall|i: int, j: int|
            0 <= i < j < results.len() && #[trigger] results[i] is Ok && #[trigger] results[j] is Ok
                ==> results[i]->Ok_0.id < results[j]->Ok_0.id,
{
    assert forall|i: int, j: int|
        0 <= i < j < results.len() && #[trigger] results[i] is Ok && #[trigger] results[j] is Ok
            implies results[i]->Ok_0.id < results[j]->Ok_0.id by {
        assert((states[i + 1], results[i]) == create_result(
            states[i],
            titles[i],
            messages[i],
            schedules[i],
            nows[i],
        ));
        assert((states[j + 1], results[j]) == create_result(
            states[j],
            titles[j],
            messages[j],
            schedules[j],
            nows[j],
        ));
        lemma_next_id_grows(states, titles, messages, schedules, nows, results, i + 1, j);
    }
}

/// A poll from watermark `w` at time `now` returns exactly the stored
/// records (as the unfiltered dump lists them) whose id lies above `w` and
/// that are visible at `now`, in ascending id order. In particular the dump
/// holds every record that a poll can return.
pub proof fn lemma_poll_matches_dump(s: StoreView, w: int, now: int)
    requires
        s.well_formed(),
    ensures
        forall|n: NotificationView|
            #[trigger] poll_view(s.records, w, now).contains(n) <==> (s.records.contains(n) && n.id
                > w && visible_at(n, now)),
        ascending_ids(poll_view(s.records, w, now)),
{
    let pred = fresh_and_visible(w, now);
    let p = poll_view(s.records, w, now);
    assert forall|n: NotificationView| #[trigger] p.contains(n) <==> (s.records.contains(n) && n.id
        > w && visible_at(n, now)) by {
        if p.contains(n) {
            s.records.lemma_filter_contains_rev(pred, n);
            let i = choose|i: int| 0 <= i < p.len() && p[i] == n;
            s.records.lemma_filter_pred(pred, i);
        }
        if s.records.contains(n) && n.id > w && visible_at(n, now) {
            let i = choose|i: int| 0 <= i < s.records.len() && s.records[i] == n;
            s.records.lemma_filter_contains(pred, i);
        }
    }
    lemma_filter_ascending(s.records, pred);
}

/// Once a poll has returned records up to id `m`, a poll from watermark `m`
/// at the same or a later time, on the store as it is then, returns none of
/// them again: every record it returns has an id above `m`.
pub proof fn lemma_no_redelivery(
    s: StoreView,
    w: int,
    now: int,
    later: StoreView,
    later_now: int,
)
    requires
        s.well_formed(),
        poll_view(s.records, w, now).len() > 0,
        now <= later_now,
    ensures
        ({
            let first = poll_view(s.records, w, now);
            let m = first.last().id;
            &&& forall|i: int| 0 <= i < first.len() ==> #[trigger] first[i].id <= m
            &&& forall|i: int|
                0 <= i < poll_view(later.records, m, later_now).len() ==> #[trigger] poll_view(
                    later.records,
                    m,
                    later_now,
                )[i].id > m
        }),
{
    let first = poll_view(s.records, w, now);
    let m = first.last().id;
    lemma_poll_matches_dump(s, w, now);
    assert forall|i: int| 0 <= i < first.len() implies #[trigger] first[i].id <= m by {
        if i < first.len() - 1 {
            assert(first[i].id < first[first.len() - 1].id);
        }
    }
    let second = poll_view(later.records, m, later_now);
    assert forall|i: int| 0 <= i < second.len() implies #[trigger] second[i].id > m by {
        later.records.lemma_filter_pred(fresh_and_visible(m, later_now), i);
    }
}

} // verus!
