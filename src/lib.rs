//! A notification store with watermark-based incremental delivery.
//!
//! Producers create notifications, optionally scheduled for later
//! visibility; consumers poll for every visible notification whose id lies
//! above the last id they have seen.
pub mod laws;
pub mod notification;
pub mod store;
pub mod timestamp;

pub use notification::{is_visible, Notification};
pub use store::{
    add_notification, get_all_notifications, get_latest_notifications, select_visible,
    validate_request, CreateError, NotificationStore, NONE_SEEN,
};
pub use timestamp::parse_timestamp;
