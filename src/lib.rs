//! Decoders for the audio and image assets embedded in a legacy multimedia
//! container: a sign-magnitude ADPCM audio decoder, and the repair and
//! pixel-conversion steps that turn JPEG and lossless bitmaps into RGBA.

pub mod adpcm;
pub mod bits;
pub mod error;
pub mod jpeg;
pub mod lossless;
pub mod primitives;
pub mod render;

pub use adpcm::{AdpcmDecoder, ChannelState};
pub use bits::BitCursor;
pub use error::Error;
pub use jpeg::{
    define_bits_jpeg_to_rgba, glue_swf_jpeg_to_tables, remove_invalid_jpeg_data, rgb_with_alpha,
};
pub use lossless::{
    define_bits_lossless_to_rgba, lossless_pixels_to_rgba, BitmapFormat, Color, DefineBitsLossless,
};
pub use render::{BitmapHandle, NullRenderer, ShapeHandle};
