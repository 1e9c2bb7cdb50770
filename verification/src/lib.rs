//! Display-dock driver logic: the Haar strip codec and its record framing, the control-plane
//! decisions of a dock session, and the USB, I2C, sysfs and DRM-event rules they rest on.

pub mod bytes;
pub mod drm;
pub mod error;
pub mod haar;
pub mod i2c;
pub mod session;
pub mod simd;
pub mod sysfs;
pub mod time;
pub mod usb;
pub mod video;
pub mod video_arm;

