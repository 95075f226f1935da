//! The bit layout of the packed fields.
use crate::codec::{exp2, two_to};
use crate::types::{GraphicsControlExtension, ImageDescriptor, LogicalScreenDescriptor};
use vstd::prelude::*;

verus! {

/// Whether a screen or image descriptor's packed field announces a color
/// table (bit 7).
pub open spec fn table_flag(packed: u8) -> bool {
    packed & 0x80u8 != 0
}

/// The color table size exponent of a packed field (bits 0 to 2).
pub open spec fn table_exponent(packed: u8) -> u8 {
    packed & 0x07u8
}

/// The number of color table entries that a packed field announces.
pub open spec fn table_len(packed: u8) -> nat {
    if table_flag(packed) {
        exp2((table_exponent(packed) + 1) as nat)
    } else {
        0
    }
}

/// Whether the packed field announces a color table.
pub fn color_table_flag(packed: u8) -> (r: bool)
    ensures
        r == table_flag(packed),
{
    packed & 0x80u8 != 0
}

/// The color table size exponent of the packed field.
pub fn color_table_exponent(packed: u8) -> (r: u8)
    ensures
        r == table_exponent(packed),
        r <= 7,
{
    let r = packed & 0x07u8;
    assert(packed & 0x07u8 <= 7) by (bit_vector);
    r
}

/// The number of entries of the color table that a packed field announces:
/// `2^(e + 1)` for the size exponent `e` where the flag is set, else none.
pub fn color_table_len(packed: u8) -> (r: usize)
    ensures
        r == table_len(packed),
        table_flag(packed) ==> 2 <= r <= 256,
        !table_flag(packed) ==> r == 0,
{
    if color_table_flag(packed) {
        let e = color_table_exponent(packed);
        let r = two_to(e + 1);
        proof {
            crate::codec::lemma_exp2_le(1, (e + 1) as nat);
            crate::codec::lemma_exp2_le((e + 1) as nat, 8);
            reveal_with_fuel(exp2, 9);
        }
        r
    } else {
        0
    }
}

impl LogicalScreenDescriptor {
    /// Whether a global color table follows the descriptor.
    pub fn has_global_color_table(&self) -> (r: bool)
        ensures
            r == table_flag(self.packed_field),
    {
        color_table_flag(self.packed_field)
    }

    /// The number of entries of the global color table.
    pub fn global_color_table_len(&self) -> (r: usize)
        ensures
            r == table_len(self.packed_field),
    {
        color_table_len(self.packed_field)
    }

    /// The color resolution field (bits 4 to 6).
    pub fn color_resolution(&self) -> (r: u8)
        ensures
            r == (self.packed_field >> 4u8) & 0x07u8,
    {
        (self.packed_field >> 4u8) & 0x07u8
    }

    /// Whether the global color table is sorted (bit 3).
    pub fn is_sorted(&self) -> (r: bool)
        ensures
            r == (self.packed_field & 0x08u8 != 0),
    {
        self.packed_field & 0x08u8 != 0
    }
}

impl ImageDescriptor {
    /// Whether a local color table follows the descriptor.
    pub fn has_local_color_table(&self) -> (r: bool)
        ensures
            r == table_flag(self.packed_field),
    {
        color_table_flag(self.packed_field)
    }

    /// The number of entries of the local color table.
    pub fn local_color_table_len(&self) -> (r: usize)
        ensures
            r == table_len(self.packed_field),
    {
        color_table_len(self.packed_field)
    }

    /// Whether the image is interlaced (bit 6).
    pub fn is_interlaced(&self) -> (r: bool)
        ensures
            r == (self.packed_field & 0x40u8 != 0),
    {
        self.packed_field & 0x40u8 != 0
    }

    /// Whether the local color table is sorted (bit 5).
    pub fn is_sorted(&self) -> (r: bool)
        ensures
            r == (self.packed_field & 0x20u8 != 0),
    {
        self.packed_field & 0x20u8 != 0
    }
}

impl GraphicsControlExtension {
    /// The disposal method (bits 2 to 4).
    pub fn disposal_method(&self) -> (r: u8)
        ensures
            r == (self.packed_field >> 2u8) & 0x07u8,
    {
        (self.packed_field >> 2u8) & 0x07u8
    }

    /// Whether the image waits for user input (bit 1).
    pub fn user_input(&self) -> (r: bool)
        ensures
            r == (self.packed_field & 0x02u8 != 0),
    {
        self.packed_field & 0x02u8 != 0
    }

    /// Whether the transparent color index is in use (bit 0).
    pub fn has_transparency(&self) -> (r: bool)
        ensures
            r == (self.packed_field & 0x01u8 != 0),
    {
        self.packed_field & 0x01u8 != 0
    }
}

} // verus!
