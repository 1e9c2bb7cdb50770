//! What a display device offers its clients: events, and numbered requests.

pub mod event;
pub mod ioctl;
