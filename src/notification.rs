use vstd::prelude::*;

verus! {

/// A stored notification. Timestamps are whole seconds since
/// 1970-01-01 00:00:00 UTC.
#[derive(Debug)]
pub struct Notification {
    pub id: i64,
    pub title: String,
    pub message: String,
    pub created_at: i64,
    /// `None`: visible at once. `Some(t)`: hidden from polling until time `t`.
    pub scheduled_for: Option<i64>,
}

/// The mathematical value of a notification.
pub ghost struct NotificationView {
    pub id: int,
    pub title: Seq<char>,
    pub message: Seq<char>,
    pub created_at: int,
    pub scheduled_for: Option<int>,
}

impl View for Notification {
    type V = NotificationView;

    open spec fn view(&self) -> NotificationView {
        NotificationView {
            id: self.id as int,
            title: self.title@,
            message: self.message@,
            created_at: self.created_at as int,
            scheduled_for: match self.scheduled_for {
                Some(t) => Some(t as int),
                None => None,
            },
        }
    }
}

/// A notification is visible at `now` when it has no schedule or its
/// schedule has been reached (the boundary itself is visible).
pub open spec fn visible_at(n: NotificationView, now: int) -> bool {
    match n.scheduled_for {
        None => true,
        Some(t) => t <= now,
    }
}

impl Notification {
    /// A copy with the same fields.
    pub fn duplicate(&self) -> (r: Notification)
        ensures
            r@ == self@,
    {
        Notification {
            id: self.id,
            title: self.title.clone(),
            message: self.message.clone(),
            created_at: self.created_at,
            scheduled_for: self.scheduled_for,
        }
    }
}

/// Decides whether `n` may be returned by a poll made at time `now`.
pub fn is_visible(n: &Notification, now: i64) -> (r: bool)
    ensures
        r == visible_at(n@, now as int),
        n.scheduled_for is None ==> r,
        n.scheduled_for is Some ==> (r <==> now >= n.scheduled_for->Some_0),
{
    match n.scheduled_for {
        None => true,
        Some(t) => t <= now,
    }
}

/// Visibility only ever turns on: once visible, a notification stays
/// visible at every later time.
pub proof fn lemma_visibility_monotonic(n: NotificationView, now: int, later: int)
    requires
        visible_at(n, now),
        now <= later,
    ensures
        visible_at(n, later),
{
}

} // verus!
