//! The USB rules a driver rests on: descriptors, pipes, endpoints, the window in which transfers
//! are permitted, and the queues that keep an endpoint posted.

pub mod descriptor;
pub mod device;
pub mod pipe;
pub mod endpoint;
pub mod window;
pub mod transfer;
pub mod urb;
pub mod queue;
pub mod id;
pub mod pm;
pub mod link;
