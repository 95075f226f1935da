//! The parsed form of a GIF file.
use vstd::prelude::*;

verus! {

/// Why a GIF stream could not be parsed or written.
#[derive(Debug, Clone, Copy, PartialEq, Eq, Structural)]
pub enum GifError {
    /// The input ended inside a block that cannot be cut short.
    UnexpectedEof,
    /// The first three bytes are not `GIF`.
    InvalidSignature,
    /// A top-level block starts with a byte that is no known block indicator.
    UnknownBlock,
    /// A graphics control or application extension declares the wrong size.
    InvalidBlockSize,
    /// An image descriptor does not start with the image separator.
    InvalidSeparator,
    /// The LZW data holds a code with no dictionary entry and no previous code.
    InvalidCode,
    /// An LZW minimum code size that leaves no room within 12-bit codes, or
    /// image data with an index that such a code size cannot express.
    UnsupportedCodeSize,
}

/// One color table entry.
#[derive(Debug, Clone, Copy, PartialEq, Eq, Structural)]
pub struct Rgb {
    pub red: u8,
    pub green: u8,
    pub blue: u8,
}

/// The signature and version that open a GIF file.
#[derive(Debug, Clone, PartialEq, Eq)]
pub struct GifHeader {
    /// Three bytes, `GIF` in a valid file.
    pub signature: Vec<u8>,
    /// Three bytes such as `89a`.
    pub version: Vec<u8>,
}

/// Canvas size and the global color table's description.
#[derive(Debug, Clone, Copy, PartialEq, Eq, Structural)]
pub struct LogicalScreenDescriptor {
    pub width: u16,
    pub height: u16,
    pub packed_field: u8,
    pub background_color_index: u8,
    pub pixel_aspect_ratio: u8,
}

/// A global or local color table.
#[derive(Debug, Clone, PartialEq, Eq)]
pub struct ColorTable {
    pub colors: Vec<Rgb>,
}

/// Disposal, input and transparency settings, and a delay.
#[derive(Debug, Clone, Copy, PartialEq, Eq, Structural)]
pub struct GraphicsControlExtension {
    pub packed_field: u8,
    pub delay_time: u16,
    pub transparent_color_index: u8,
}

/// A comment: the text of each of its sub-blocks, in order, decoded as UTF-8
/// with U+FFFD in place of invalid sequences.
#[derive(Debug, Clone, PartialEq, Eq)]
pub struct CommentExtension {
    pub comments: Vec<String>,
}

/// An application extension: an 8-byte identifier, a 3-byte authentication
/// code, and the payload of its sub-blocks.
#[derive(Debug, Clone, PartialEq, Eq)]
pub struct ApplicationExtension {
    pub identifier: Vec<u8>,
    pub authentication_code: Vec<u8>,
    pub data: Vec<u8>,
}

/// A plain text extension: its fixed fields and the payload of its
/// sub-blocks.
#[derive(Debug, Clone, PartialEq, Eq)]
pub struct PlainTextExtension {
    pub block_size: u8,
    pub text_grid_left_position: u16,
    pub text_grid_top_position: u16,
    pub text_grid_width: u16,
    pub text_grid_height: u16,
    pub character_cell_width: u8,
    pub character_cell_height: u8,
    pub text_foreground_color_index: u8,
    pub text_background_color_index: u8,
    pub plain_text_data: Vec<u8>,
}

/// An image: its geometry, its optional local color table, and its pixel
/// indices, decoded (one byte per index).
#[derive(Debug, Clone, PartialEq, Eq)]
pub struct ImageDescriptor {
    pub left: u16,
    pub top: u16,
    pub width: u16,
    pub height: u16,
    pub packed_field: u8,
    pub local_color_table: Option<ColorTable>,
    pub lzw_minimum_code_size: u8,
    pub image_data: Vec<u8>,
}

/// A whole GIF file. The trailer is not stored.
#[derive(Debug, Clone, PartialEq, Eq)]
pub struct Gif {
    pub header: GifHeader,
    pub logical_screen_descriptor: LogicalScreenDescriptor,
    pub global_color_table: Option<ColorTable>,
    pub graphics_control_extension: Option<GraphicsControlExtension>,
    pub comment_extensions: Vec<CommentExtension>,
    pub application_extensions: Vec<ApplicationExtension>,
    pub plain_text_extensions: Vec<PlainTextExtension>,
    pub image_descriptors: Vec<ImageDescriptor>,
}

} // verus!
