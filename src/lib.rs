//! Decoding of the binary measurement frames of a four-channel handheld
//! thermometer, and recovery of those frames from a raw serial byte stream.

pub mod frame;
pub mod reader;

pub use frame::{DecodeError, HoldType, Reading};
pub use reader::{FrameReader, ReadError, ReadEvent, ReaderConfig, Step};
