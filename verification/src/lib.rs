//! A lossless codec for RGBA images in the QOI ("Quite OK Image") chunk format.
//!
//! [`encode`] turns the pixels of an image into a stream of bytes: a header,
//! a sequence of chunks, and an end marker. [`decode`] turns such a stream back
//! into the pixels. Encoder and decoder walk the image pixel by pixel and keep
//! the same state on the way, the previous pixel and a cache of 64 colors seen
//! lately, which is what lets most pixels be written in one or two bytes.
//!
//! The modules, leaves first:
//! - [`pixel`]: the pixel and its hash;
//! - [`cache`]: the color cache;
//! - [`chunk`]: the six kinds of chunk;
//! - [`state`]: the state of a pass and the rules that change it;
//! - [`header`]: the header of a stream;
//! - [`packer`]: chunks to bytes and back;
//! - [`encoder`]: pixels to chunks, and to a stream;
//! - [`decoder`]: a stream to pixels;
//! - [`theorems`]: what is proved of all of them together.

pub mod cache;
pub mod chunk;
pub mod decoder;
pub mod encoder;
pub mod error;
pub mod header;
pub mod packer;
pub mod pixel;
pub mod state;
pub mod theorems;

pub use crate::decoder::decode;
pub use crate::encoder::{encode, encode_image};
pub use crate::error::QoiError;
pub use crate::header::{Channel, Colorspace, QoiHeader};
pub use crate::pixel::RGBA;
