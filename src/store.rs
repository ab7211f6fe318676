//! The record store and the delivery engine over it: create, poll from a
//! watermark, and the unfiltered dump.
use vstd::prelude::*;
use vstd::string::StringSliceAdditionalSpecFns;

use crate::notification::{is_visible, visible_at, Notification, NotificationView};
use crate::timestamp::{as_int_option, parse_timestamp, timestamp_of};

verus! {

/// Watermark for a consumer that has seen nothing yet: below every id.
pub const NONE_SEEN: i64 = -1;

/// Why a create request was turned down.
#[derive(Debug, Clone, Copy, PartialEq, Eq, Structural)]
pub enum CreateError {
    EmptyTitle,
    EmptyMessage,
    MalformedSchedule,
    /// The store cannot take another record.
    StoreUnavailable,
}

/// What a create request asks to store, once checked: the schedule it
/// carries, or the reason it is refused.
pub open spec fn validation(title: Seq<char>, message: Seq<char>, schedule: Option<Seq<u8>>) -> Result<
    Option<int>,
    CreateError,
> {
    if title.len() == 0 {
        Err(CreateError::EmptyTitle)
    } else if message.len() == 0 {
        Err(CreateError::EmptyMessage)
    } else {
        match schedule {
            None => Ok(None),
            Some(b) => match timestamp_of(b) {
                Some(t) => Ok(Some(t)),
                None => Err(CreateError::MalformedSchedule),
            },
        }
    }
}

pub open spec fn schedule_bytes(s: Option<&str>) -> Option<Seq<u8>> {
    match s {
        Some(t) => Some(t.spec_bytes()),
        None => None,
    }
}

/// Checks a create request before anything is stored.
pub fn validate_request(title: &str, message: &str, scheduled_for: Option<&str>) -> (r: Result<
    Option<i64>,
    CreateError,
>)
    ensures
        match r {
            Ok(sf) => validation(title@, message@, schedule_bytes(scheduled_for)) == Ok::<
                Option<int>,
                CreateError,
            >(as_int_option(sf)),
            Err(e) => validation(title@, message@, schedule_bytes(scheduled_for)) == Err::<
                Option<int>,
                CreateError,
            >(e),
        },
{
    if title.is_empty() {
        return Err(CreateError::EmptyTitle);
    }
    if message.is_empty() {
        return Err(CreateError::EmptyMessage);
    }
    match scheduled_for {
        None => Ok(None),
        Some(s) => match parse_timestamp(s) {
            Some(t) => Ok(Some(t)),
            None => Err(CreateError::MalformedSchedule),
        },
    }
}

pub open spec fn views(s: Seq<Notification>) -> Seq<NotificationView> {
    s.map_values(|n: Notification| n@)
}

/// The records that a poll from watermark `w` at time `now` selects.
pub open spec fn fresh_and_visible(w: int, now: int) -> spec_fn(NotificationView) -> bool {
    |n: NotificationView| n.id > w && visible_at(n, now)
}

/// What a poll returns: the records above the watermark that are visible,
/// in the order in which they are stored.
pub open spec fn poll_view(records: Seq<NotificationView>, w: int, now: int) -> Seq<
    NotificationView,
> {
    records.filter(fresh_and_visible(w, now))
}

/// Keeps, in order, the records with an id above `watermark` that are
/// visible at `now`.
pub fn select_visible(records: &Vec<Notification>, watermark: i64, now: i64) -> (r: Vec<
    Notification,
>)
    ensures
        views(r@) == poll_view(views(records@), watermark as int, now as int),
{
    let ghost pred = fresh_and_visible(watermark as int, now as int);
    let mut out: Vec<Notification> = Vec::new();
    let mut i: usize = 0;
    while i < records.len()
        invariant
            i <= records@.len(),
            pred == fresh_and_visible(watermark as int, now as int),
            views(out@) == views(records@.take(i as int)).filter(pred),
        decreases records@.len() - i,
    {
        let n = &records[i];
        let ghost before = out@;
        let ghost next = views(records@.take(i + 1));
        assert(next.drop_last() =~= views(records@.take(i as int)));
        assert(next.last() == n@);
        assert(next.len() == i + 1);
        assert(next.drop_last().filter(pred) == views(before));
        proof {
            reveal_with_fuel(Seq::filter, 2);
        }
        assert(next.filter(pred) == if pred(n@) {
            views(before).push(n@)
        } else {
            views(before)
        });
        let keep = n.id > watermark && is_visible(n, now);
        assert(keep == pred(n@));
        if keep {
            out.push(n.duplicate());
            assert(views(out@) =~= views(before).push(n@));
        }
        assert(views(out@) == next.filter(pred));
        i = i + 1;
    }
    assert(records@.take(i as int) =~= records@);
    out
}

/// An in-memory record store: ids are handed out in increasing order and
/// records are kept in the order of their ids.
pub struct NotificationStore {
    records: Vec<Notification>,
    next_id: i64,
}

pub ghost struct StoreView {
    pub records: Seq<NotificationView>,
    /// The id that the next record will receive.
    pub next_id: int,
}

impl StoreView {
    /// Ids are positive, strictly increasing along the records, and below
    /// the next id to hand out.
    pub open spec fn well_formed(self) -> bool {
        &&& 1 <= self.next_id <= i64::MAX
        &&& forall|i: int| 0 <= i < self.records.len() ==> 1 <= #[trigger] self.records[i].id < self.next_id
        &&& forall|i: int, j: int| 0 <= i < j < self.records.len() ==> #[trigger] self.records[i].id < #[trigger] self.records[j].id
    }
}

impl View for NotificationStore {
    type V = StoreView;

    closed spec fn view(&self) -> StoreView {
        StoreView { records: views(self.records@), next_id: self.next_id as int }
    }
}

/// The store and outcome that a create request leads to.
pub open spec fn create_result(
    pre: StoreView,
    title: Seq<char>,
    message: Seq<char>,
    schedule: Option<Seq<u8>>,
    now: int,
) -> (StoreView, Result<NotificationView, CreateError>) {
    match validation(title, message, schedule) {
        Err(e) => (pre, Err(e)),
        Ok(sf) => if pre.next_id >= i64::MAX {
            (pre, Err(CreateError::StoreUnavailable))
        } else {
            let n = NotificationView {
                id: pre.next_id,
                title,
                message,
                created_at: now,
                scheduled_for: sf,
            };
            (StoreView { records: pre.records.push(n), next_id: pre.next_id + 1 }, Ok(n))
        },
    }
}

pub open spec fn outcome_view(r: Result<Notification, CreateError>) -> Result<
    NotificationView,
    CreateError,
> {
    match r {
        Ok(n) => Ok(n@),
        Err(e) => Err(e),
    }
}

impl NotificationStore {
    /// An empty store; the first record will receive id 1.
    pub fn new() -> (r: NotificationStore)
        ensures
            r@.records == Seq::<NotificationView>::empty(),
            r@.next_id == 1,
            r@.well_formed(),
    {
        NotificationStore { records: Vec::new(), next_id: 1 }
    }
}

/// Checks and stores a new notification created at time `now`, and returns
/// the stored record. A refused request leaves the store as it was.
pub fn add_notification(
    store: &mut NotificationStore,
    title: &str,
    message: &str,
    scheduled_for: Option<&str>,
    now: i64,
) -> (r: Result<Notification, CreateError>)
    requires
        old(store)@.well_formed(),
    ensures
        final(store)@.well_formed(),
        (final(store)@, outcome_view(r)) == create_result(
            old(store)@,
            title@,
            message@,
            schedule_bytes(scheduled_for),
            now as int,
        ),
{
    let sf = match validate_request(title, message, scheduled_for) {
        Ok(sf) => sf,
        Err(e) => return Err(e),
    };
    if store.next_id == i64::MAX {
        return Err(CreateError::StoreUnavailable);
    }
    let n = Notification {
        id: store.next_id,
        title: title.to_owned(),
        message: message.to_owned(),
        created_at: now,
        scheduled_for: sf,
    };
    let ghost before = store.records@;
    let r = n.duplicate();
    store.records.push(n);
    store.next_id = store.next_id + 1;
    assert(views(store.records@) =~= views(before).push(r@));
    Ok(r)
}

/// Every record above watermark `id` that is visible at `now`, in
/// ascending id order.
pub fn get_latest_notifications(store: &NotificationStore, id: i64, now: i64) -> (r: Vec<
    Notification,
>)
    ensures
        views(r@) == poll_view(store@.records, id as int, now as int),
{
    select_visible(&store.records, id, now)
}

/// Every stored record, visible or not, in ascending id order.
pub fn get_all_notifications(store: &NotificationStore) -> (r: Vec<Notification>)
    ensures
        views(r@) == store@.records,
{
    let mut out: Vec<Notification> = Vec::new();
    let mut i: usize = 0;
    while i < store.records.len()
        invariant
            i <= store.records@.len(),
            views(out@) == views(store.records@.take(i as int)),
        decreases store.records@.len() - i,
    {
        let ghost before = out@;
        let d = store.records[i].duplicate();
        out.push(d);
        assert(views(out@) =~= views(before).push(d@));
        assert(views(store.records@.take(i + 1)) =~= views(store.records@.take(i as int)).push(
            d@,
        ));
        i = i + 1;
    }
    assert(store.records@.take(i as int) =~= store.records@);
    out
}

} // verus!
