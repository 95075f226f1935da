//! A structural codec for GIF files: a block-level parser and serializer,
//! with an LZW decoder for the image data.
pub mod bytes;
pub mod codec;
pub mod packed;
pub mod parse;
pub mod text;
pub mod types;
pub mod write;

pub use bytes::ByteReader;
pub use types::{
    ApplicationExtension, ColorTable, CommentExtension, Gif, GifError, GifHeader,
    GraphicsControlExtension, ImageDescriptor, LogicalScreenDescriptor, PlainTextExtension, Rgb,
};
