//! The docks' 8x8 multilevel Haar codec and its strip grammar.

pub mod bits;
pub mod coords;
pub mod decode;
pub mod entropy;
pub mod frame;
pub mod framing_laws;
pub mod geometry;
pub mod order;
pub mod order_laws;
pub mod params;
pub mod quant;
pub mod records;
pub mod sample;
pub mod picture_laws;
pub mod strip;
pub mod strip_laws;
pub mod trailer;
pub mod transform;
pub mod vlc;
pub mod walk;
