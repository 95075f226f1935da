//! The block readers and the parser of a whole file.
use crate::bytes::{
    lemma_lenient_advance, lemma_sub_blocks_advance, lenient_sub_blocks, sub_blocks, u16_le_at,
    ByteReader,
};
use crate::codec::{lzw_decode, lzw_decoded};
use crate::packed::{color_table_len, table_len};
use crate::text::{decode_fragments, lossy_blocks, strings_view};
use crate::types::{
    ApplicationExtension, ColorTable, CommentExtension, Gif, GifError, GifHeader,
    GraphicsControlExtension, ImageDescriptor, LogicalScreenDescriptor, PlainTextExtension, Rgb,
};
use vstd::prelude::*;

verus! {

/// The signature `GIF`.
pub open spec fn gif_signature() -> Seq<u8> {
    seq![0x47u8, 0x49u8, 0x46u8]
}

/// `h` holds the six header bytes at `p`.
pub open spec fn header_at(b: Seq<u8>, p: int, h: GifHeader) -> bool {
    &&& h.signature@ == b.subrange(p, p + 3)
    &&& h.version@ == b.subrange(p + 3, p + 6)
}

/// `d` holds the seven screen descriptor bytes at `p`.
pub open spec fn screen_at(b: Seq<u8>, p: int, d: LogicalScreenDescriptor) -> bool {
    &&& d.width == u16_le_at(b, p)
    &&& d.height == u16_le_at(b, p + 2)
    &&& d.packed_field == b[p + 4]
    &&& d.background_color_index == b[p + 5]
    &&& d.pixel_aspect_ratio == b[p + 6]
}

/// The color table entry at `p`.
pub open spec fn rgb_at(b: Seq<u8>, p: int) -> Rgb {
    Rgb { red: b[p], green: b[p + 1], blue: b[p + 2] }
}

/// The `n` color table entries at `p`.
pub open spec fn colors_at(b: Seq<u8>, p: int, n: int) -> Seq<Rgb> {
    Seq::new(n as nat, |i: int| rgb_at(b, p + 3 * i))
}

/// `g` holds the graphics control extension body whose size byte is at `p`.
pub open spec fn graphics_control_at(b: Seq<u8>, p: int, g: GraphicsControlExtension) -> bool {
    &&& g.packed_field == b[p + 1]
    &&& g.delay_time == u16_le_at(b, p + 2)
    &&& g.transparent_color_index == b[p + 4]
}

/// `t` holds the fixed fields of the plain text extension whose size byte is
/// at `p`.
pub open spec fn plain_text_fields_at(b: Seq<u8>, p: int, t: PlainTextExtension) -> bool {
    &&& t.block_size == b[p]
    &&& t.text_grid_left_position == u16_le_at(b, p + 1)
    &&& t.text_grid_top_position == u16_le_at(b, p + 3)
    &&& t.text_grid_width == u16_le_at(b, p + 5)
    &&& t.text_grid_height == u16_le_at(b, p + 7)
    &&& t.character_cell_width == b[p + 9]
    &&& t.character_cell_height == b[p + 10]
    &&& t.text_foreground_color_index == b[p + 11]
    &&& t.text_background_color_index == b[p + 12]
}

/// Reads the header: the signature and the version.
pub fn read_gif_header(reader: &mut ByteReader) -> (r: Result<GifHeader, GifError>)
    requires
        old(reader).wf(),
    ensures
        final(reader).wf(),
        final(reader).data == old(reader).data,
        ({
            let b = old(reader).bytes();
            let p = old(reader).pos as int;
            &&& !old(reader).has(6) ==> r == Err::<GifHeader, GifError>(GifError::UnexpectedEof)
            &&& old(reader).has(6) && b.subrange(p, p + 3) != gif_signature() ==> r == Err::<
                GifHeader,
                GifError,
            >(GifError::InvalidSignature)
            &&& old(reader).has(6) && b.subrange(p, p + 3) == gif_signature() ==> (r matches Ok(
                h,
            ) && header_at(b, p, h)) && final(reader).pos == p + 6
        }),
{
    let signature = reader.read_bytes(3)?;
    let version = match reader.read_bytes(3) {
        Ok(v) => v,
        Err(e) => {
            return Err(e);
        },
    };
    if signature[0] != 0x47 || signature[1] != 0x49 || signature[2] != 0x46 {
        proof {
            if signature@ == gif_signature() {
                assert(signature@[0] == 0x47);
            }
        }
        return Err(GifError::InvalidSignature);
    }
    assert(signature@ =~= gif_signature());
    Ok(GifHeader { signature, version })
}

/// Reads the logical screen descriptor.
pub fn read_logical_screen_descriptor(reader: &mut ByteReader) -> (r: Result<
    LogicalScreenDescriptor,
    GifError,
>)
    requires
        old(reader).wf(),
    ensures
        final(reader).wf(),
        final(reader).data == old(reader).data,
        !old(reader).has(7) ==> r == Err::<LogicalScreenDescriptor, GifError>(
            GifError::UnexpectedEof,
        ),
        old(reader).has(7) ==> (r matches Ok(d) && screen_at(
            old(reader).bytes(),
            old(reader).pos as int,
            d,
        )) && final(reader).pos == old(reader).pos + 7,
{
    if reader.data.len() - reader.pos < 7 {
        return Err(GifError::UnexpectedEof);
    }
    let width = reader.read_u16_le()?;
    let height = reader.read_u16_le()?;
    let packed_field = reader.read_u8()?;
    let background_color_index = reader.read_u8()?;
    let pixel_aspect_ratio = reader.read_u8()?;
    Ok(LogicalScreenDescriptor { width, height, packed_field, background_color_index, pixel_aspect_ratio })
}

/// Reads a color table of `size` entries.
pub fn read_color_table(reader: &mut ByteReader, size: usize) -> (r: Result<ColorTable, GifError>)
    requires
        old(reader).wf(),
    ensures
        final(reader).wf(),
        final(reader).data == old(reader).data,
        !old(reader).has(3 * size) ==> r == Err::<ColorTable, GifError>(GifError::UnexpectedEof),
        old(reader).has(3 * size) ==> (r matches Ok(t) && t.colors@ == colors_at(
            old(reader).bytes(),
            old(reader).pos as int,
            size as int,
        )) && final(reader).pos == old(reader).pos + 3 * size,
{
    if (reader.data.len() - reader.pos) / 3 < size {
        return Err(GifError::UnexpectedEof);
    }
    let ghost b = reader.bytes();
    let ghost p = reader.pos as int;
    let mut colors: Vec<Rgb> = Vec::new();
    let mut i: usize = 0;
    while i < size
        invariant
            reader.wf(),
            reader.data == old(reader).data,
            b == old(reader).bytes(),
            p == old(reader).pos,
            p + 3 * size <= b.len(),
            i <= size,
            reader.pos == p + 3 * i,
            colors@ == colors_at(b, p, i as int),
        decreases size - i,
    {
        let red = reader.read_u8()?;
        let green = reader.read_u8()?;
        let blue = reader.read_u8()?;
        colors.push(Rgb { red, green, blue });
        assert(colors@ =~= colors_at(b, p, i + 1));
        i = i + 1;
    }
    Ok(ColorTable { colors })
}

/// Reads a graphics control extension, from its block size byte on.
pub fn read_graphics_control_extension(reader: &mut ByteReader) -> (r: Result<
    GraphicsControlExtension,
    GifError,
>)
    requires
        old(reader).wf(),
    ensures
        final(reader).wf(),
        final(reader).data == old(reader).data,
        ({
            let b = old(reader).bytes();
            let p = old(reader).pos as int;
            &&& !old(reader).has(1) ==> r == Err::<GraphicsControlExtension, GifError>(
                GifError::UnexpectedEof,
            )
            &&& old(reader).has(1) && b[p] != 4 ==> r == Err::<GraphicsControlExtension, GifError>(
                GifError::InvalidBlockSize,
            )
            &&& old(reader).has(1) && b[p] == 4 && !old(reader).has(6) ==> r == Err::<
                GraphicsControlExtension,
                GifError,
            >(GifError::UnexpectedEof)
            &&& old(reader).has(6) && b[p] == 4 ==> (r matches Ok(g) && graphics_control_at(
                b,
                p,
                g,
            )) && final(reader).pos == p + 6
        }),
{
    let block_size = reader.read_u8()?;
    if block_size != 4 {
        return Err(GifError::InvalidBlockSize);
    }
    if reader.data.len() - reader.pos < 5 {
        return Err(GifError::UnexpectedEof);
    }
    let packed_field = reader.read_u8()?;
    let delay_time = reader.read_u16_le()?;
    let transparent_color_index = reader.read_u8()?;
    let _terminator = reader.read_u8()?;
    Ok(GraphicsControlExtension { packed_field, delay_time, transparent_color_index })
}

/// Reads a comment extension: the text of each of its sub-blocks, kept
/// apart.
pub fn read_comment_extension(reader: &mut ByteReader) -> (r: Result<CommentExtension, GifError>)
    requires
        old(reader).wf(),
    ensures
        final(reader).wf(),
        final(reader).data == old(reader).data,
        match sub_blocks(old(reader).bytes(), old(reader).pos as int) {
            Some((blocks, e)) => (r matches Ok(c) && strings_view(c.comments@) == lossy_blocks(
                blocks,
            ))
                && final(reader).pos == e,
            None => r == Err::<CommentExtension, GifError>(GifError::UnexpectedEof),
        },
{
    let blocks = reader.read_sub_blocks()?;
    Ok(CommentExtension { comments: decode_fragments(&blocks) })
}

/// Reads an application extension, from its block size byte on.
pub fn read_application_extension(reader: &mut ByteReader) -> (r: Result<
    ApplicationExtension,
    GifError,
>)
    requires
        old(reader).wf(),
    ensures
        final(reader).wf(),
        final(reader).data == old(reader).data,
        ({
            let b = old(reader).bytes();
            let p = old(reader).pos as int;
            &&& !old(reader).has(1) ==> r == Err::<ApplicationExtension, GifError>(
                GifError::UnexpectedEof,
            )
            &&& old(reader).has(1) && b[p] != 11 ==> r == Err::<ApplicationExtension, GifError>(
                GifError::InvalidBlockSize,
            )
            &&& old(reader).has(1) && b[p] == 11 && !old(reader).has(12) ==> r == Err::<
                ApplicationExtension,
                GifError,
            >(GifError::UnexpectedEof)
            &&& old(reader).has(12) && b[p] == 11 ==> match sub_blocks(b, p + 12) {
                Some((blocks, e)) => (r matches Ok(a) && a.identifier@ == b.subrange(p + 1, p + 9)
                    && a.authentication_code@ == b.subrange(p + 9, p + 12) && a.data@
                    == blocks.flatten()) && final(reader).pos == e,
                None => r == Err::<ApplicationExtension, GifError>(GifError::UnexpectedEof),
            }
        }),
{
    let block_size = reader.read_u8()?;
    if block_size != 11 {
        return Err(GifError::InvalidBlockSize);
    }
    let identifier = reader.read_bytes(8)?;
    let authentication_code = reader.read_bytes(3)?;
    let data = reader.read_sub_block_data()?;
    Ok(ApplicationExtension { identifier, authentication_code, data })
}

/// Reads a plain text extension, from its block size byte on.
pub fn read_plain_text_extension(reader: &mut ByteReader) -> (r: Result<
    PlainTextExtension,
    GifError,
>)
    requires
        old(reader).wf(),
    ensures
        final(reader).wf(),
        final(reader).data == old(reader).data,
        ({
            let b = old(reader).bytes();
            let p = old(reader).pos as int;
            &&& !old(reader).has(13) ==> r == Err::<PlainTextExtension, GifError>(
                GifError::UnexpectedEof,
            )
            &&& old(reader).has(13) ==> match sub_blocks(b, p + 13) {
                Some((blocks, e)) => (r matches Ok(t) && plain_text_fields_at(b, p, t)
                    && t.plain_text_data@ == blocks.flatten()) && final(reader).pos == e,
                None => r == Err::<PlainTextExtension, GifError>(GifError::UnexpectedEof),
            }
        }),
{
    if reader.data.len() - reader.pos < 13 {
        return Err(GifError::UnexpectedEof);
    }
    let block_size = reader.read_u8()?;
    let text_grid_left_position = reader.read_u16_le()?;
    let text_grid_top_position = reader.read_u16_le()?;
    let text_grid_width = reader.read_u16_le()?;
    let text_grid_height = reader.read_u16_le()?;
    let character_cell_width = reader.read_u8()?;
    let character_cell_height = reader.read_u8()?;
    let text_foreground_color_index = reader.read_u8()?;
    let text_background_color_index = reader.read_u8()?;
    let plain_text_data = reader.read_sub_block_data()?;
    Ok(
        PlainTextExtension {
            block_size,
            text_grid_left_position,
            text_grid_top_position,
            text_grid_width,
            text_grid_height,
            character_cell_width,
            character_cell_height,
            text_foreground_color_index,
            text_background_color_index,
            plain_text_data,
        },
    )
}

/// Reads an image's LZW data, leniently: the sub-blocks up to the terminator
/// or the end of the input, decoded for the minimum code size given.
pub fn read_lzw_data(reader: &mut ByteReader, minimum_code_size: u8) -> (r: Result<
    Vec<u8>,
    GifError,
>)
    requires
        old(reader).wf(),
    ensures
        final(reader).wf(),
        final(reader).data == old(reader).data,
        ({
            let (s, e) = lenient_sub_blocks(old(reader).bytes(), old(reader).pos as int);
            &&& final(reader).pos == e
            &&& crate::codec::bytes_result(r) == lzw_decoded(s, minimum_code_size as nat)
        }),
{
    let stream = reader.read_sub_blocks_lenient();
    lzw_decode(stream.as_slice(), minimum_code_size)
}

/// Cutting the input short anywhere after the start of an image's LZW data
/// still decodes, to a prefix of what the whole data decodes to: nothing or
/// part of the pixels, never an error.
pub proof fn lemma_truncated_lzw_data(b: Seq<u8>, pos: int, j: int, min: nat)
    requires
        0 <= pos,
        0 <= j <= b.len(),
        lzw_decoded(lenient_sub_blocks(b, pos).0, min) is Ok,
    ensures
        lzw_decoded(lenient_sub_blocks(b.take(j), pos).0, min) matches Ok(q) && q.is_prefix_of(
            lzw_decoded(lenient_sub_blocks(b, pos).0, min)->Ok_0,
        ),
{
    crate::bytes::lemma_lenient_truncated(b, j, pos);
    crate::codec::lemma_decoded_prefix(
        lenient_sub_blocks(b, pos).0,
        lenient_sub_blocks(b.take(j), pos).0,
        min,
    );
}

/// `img` holds the geometry and packed field of the image descriptor whose
/// separator is at `p`.
pub open spec fn image_fields_at(b: Seq<u8>, p: int, img: ImageDescriptor) -> bool {
    &&& img.left == u16_le_at(b, p + 1)
    &&& img.top == u16_le_at(b, p + 3)
    &&& img.width == u16_le_at(b, p + 5)
    &&& img.height == u16_le_at(b, p + 7)
    &&& img.packed_field == b[p + 9]
}

/// Where the minimum code size byte of the image whose separator is at `p`
/// stands.
pub open spec fn image_code_size_pos(b: Seq<u8>, p: int) -> int {
    p + 10 + 3 * table_len(b[p + 9])
}

/// `img` is the image whose separator is at `p`: its fields, its local
/// color table, its code size, and the decoding of its data, `pixels`.
pub open spec fn image_at(b: Seq<u8>, p: int, img: ImageDescriptor, pixels: Seq<u8>) -> bool {
    let n = table_len(b[p + 9]);
    let q = image_code_size_pos(b, p);
    &&& image_fields_at(b, p, img)
    &&& n == 0 ==> img.local_color_table is None
    &&& n > 0 ==> (img.local_color_table matches Some(t) && t.colors@ == colors_at(b, p + 10, n as int))
    &&& img.lzw_minimum_code_size == b[q]
    &&& img.image_data@ == pixels
}

/// Reads an image descriptor, from its separator on, with its local color
/// table and its decoded data.
pub fn read_image_descriptor(reader: &mut ByteReader) -> (r: Result<ImageDescriptor, GifError>)
    requires
        old(reader).wf(),
    ensures
        final(reader).wf(),
        final(reader).data == old(reader).data,
        ({
            let b = old(reader).bytes();
            let p = old(reader).pos as int;
            let q = image_code_size_pos(b, p);
            let (s, e) = lenient_sub_blocks(b, q + 1);
            &&& !old(reader).has(1) ==> r == Err::<ImageDescriptor, GifError>(GifError::UnexpectedEof)
                && final(reader).pos == p
            &&& old(reader).has(1) && b[p] != 0x2C ==> r == Err::<ImageDescriptor, GifError>(
                GifError::InvalidSeparator,
            ) && final(reader).pos == p + 1
            &&& old(reader).has(1) && b[p] == 0x2C && !old(reader).has(10) ==> r == Err::<
                ImageDescriptor,
                GifError,
            >(GifError::UnexpectedEof) && final(reader).pos == p + 1
            &&& old(reader).has(10) && b[p] == 0x2C && q + 1 > b.len() ==> r == Err::<
                ImageDescriptor,
                GifError,
            >(GifError::UnexpectedEof) && final(reader).pos == p + 10
            &&& old(reader).has(10) && b[p] == 0x2C && q + 1 <= b.len() ==> final(reader).pos == e
                && match lzw_decoded(s, b[q] as nat) {
                Ok(pixels) => r matches Ok(img) && image_at(b, p, img, pixels),
                Err(x) => r == Err::<ImageDescriptor, GifError>(x),
            }
        }),
{
    let separator = reader.read_u8()?;
    if separator != 0x2C {
        return Err(GifError::InvalidSeparator);
    }
    if reader.data.len() - reader.pos < 9 {
        return Err(GifError::UnexpectedEof);
    }
    let left = reader.read_u16_le()?;
    let top = reader.read_u16_le()?;
    let width = reader.read_u16_le()?;
    let height = reader.read_u16_le()?;
    let packed_field = reader.read_u8()?;
    let local_color_table_size = color_table_len(packed_field);
    if reader.data.len() - reader.pos < 3 * local_color_table_size + 1 {
        return Err(GifError::UnexpectedEof);
    }
    let local_color_table = if local_color_table_size > 0 {
        Some(read_color_table(reader, local_color_table_size)?)
    } else {
        None
    };
    let lzw_minimum_code_size = reader.read_u8()?;
    let image_data = match read_lzw_data(reader, lzw_minimum_code_size) {
        Ok(v) => v,
        Err(x) => {
            return Err(x);
        },
    };
    Ok(
        ImageDescriptor {
            left,
            top,
            width,
            height,
            packed_field,
            local_color_table,
            lzw_minimum_code_size,
            image_data,
        },
    )
}

/// The payloads of the sub-blocks at `p`, where they can be read.
pub open spec fn blocks_at(b: Seq<u8>, p: int) -> Seq<Seq<u8>> {
    match sub_blocks(b, p) {
        Some((blocks, _)) => blocks,
        None => Seq::empty(),
    }
}

/// Where the sub-blocks at `p` end, or why they cannot be read.
pub open spec fn sub_blocks_end(b: Seq<u8>, p: int) -> Result<int, GifError> {
    match sub_blocks(b, p) {
        Some((_, e)) => Ok(e),
        None => Err(GifError::UnexpectedEof),
    }
}

/// `a` is the application extension whose size byte is at `p`.
pub open spec fn application_at(b: Seq<u8>, p: int, a: ApplicationExtension) -> bool {
    &&& a.identifier@ == b.subrange(p + 1, p + 9)
    &&& a.authentication_code@ == b.subrange(p + 9, p + 12)
    &&& a.data@ == blocks_at(b, p + 12).flatten()
}

/// `t` is the plain text extension whose size byte is at `p`.
pub open spec fn plain_text_at(b: Seq<u8>, p: int, t: PlainTextExtension) -> bool {
    &&& plain_text_fields_at(b, p, t)
    &&& t.plain_text_data@ == blocks_at(b, p + 13).flatten()
}

/// What the LZW data of the image whose separator is at `p` decodes to.
pub open spec fn image_decoded(b: Seq<u8>, p: int) -> Result<Seq<u8>, GifError> {
    let q = image_code_size_pos(b, p);
    lzw_decoded(lenient_sub_blocks(b, q + 1).0, b[q] as nat)
}

/// The pixels of the image whose separator is at `p`, where they decode.
pub open spec fn image_pixels(b: Seq<u8>, p: int) -> Seq<u8> {
    match image_decoded(b, p) {
        Ok(px) => px,
        Err(_) => Seq::empty(),
    }
}

/// Where the block that starts at `p` ends, or why it cannot be read. An
/// extension of unknown label is skipped over.
pub open spec fn block_end(b: Seq<u8>, p: int) -> Result<int, GifError> {
    let q = p + 2;
    if b[p] == 0x21 {
        if q > b.len() {
            Err(GifError::UnexpectedEof)
        } else if b[p + 1] == 0xF9 {
            if q >= b.len() {
                Err(GifError::UnexpectedEof)
            } else if b[q] != 4 {
                Err(GifError::InvalidBlockSize)
            } else if q + 6 > b.len() {
                Err(GifError::UnexpectedEof)
            } else {
                Ok(q + 6)
            }
        } else if b[p + 1] == 0xFF {
            if q >= b.len() {
                Err(GifError::UnexpectedEof)
            } else if b[q] != 11 {
                Err(GifError::InvalidBlockSize)
            } else if q + 12 > b.len() {
                Err(GifError::UnexpectedEof)
            } else {
                sub_blocks_end(b, q + 12)
            }
        } else if b[p + 1] == 0x01 {
            if q + 13 > b.len() {
                Err(GifError::UnexpectedEof)
            } else {
                sub_blocks_end(b, q + 13)
            }
        } else {
            sub_blocks_end(b, q)
        }
    } else if b[p] == 0x2C {
        let c = image_code_size_pos(b, p);
        if p + 10 > b.len() || c + 1 > b.len() {
            Err(GifError::UnexpectedEof)
        } else {
            match image_decoded(b, p) {
                Ok(_) => Ok(lenient_sub_blocks(b, c + 1).1),
                Err(x) => Err(x),
            }
        }
    } else {
        Err(GifError::UnknownBlock)
    }
}

/// The start of each top-level block from `p` on, up to the trailer or the
/// end of the input, or the first reason a block cannot be read.
pub open spec fn block_walk(b: Seq<u8>, p: int) -> Result<Seq<int>, GifError>
    decreases b.len() - p,
{
    if p < 0 || p >= b.len() || b[p] == 0x3B {
        Ok(Seq::empty())
    } else {
        match block_end(b, p) {
            Err(e) => Err(e),
            Ok(q) => if p < q <= b.len() {
                match block_walk(b, q) {
                    Ok(rest) => Ok(seq![p] + rest),
                    Err(e) => Err(e),
                }
            } else {
                Ok(Seq::empty())
            },
        }
    }
}

/// Prepends `seen` to a walk.
pub open spec fn prepend_walk(seen: Seq<int>, r: Result<Seq<int>, GifError>) -> Result<
    Seq<int>,
    GifError,
> {
    match r {
        Ok(rest) => Ok(seen + rest),
        Err(e) => Err(e),
    }
}

/// Where the blocks start: after the header, the screen descriptor and the
/// global color table.
pub open spec fn blocks_start(b: Seq<u8>) -> int {
    (13 + 3 * table_len(b[10])) as int
}

/// The starts of the images among the block starts `ps`.
pub open spec fn image_positions(b: Seq<u8>, ps: Seq<int>) -> Seq<int> {
    ps.filter(|q: int| b[q] == 0x2C)
}

/// The starts of the extensions labelled `label` among the block starts `ps`.
pub open spec fn extension_positions(b: Seq<u8>, ps: Seq<int>, label: u8) -> Seq<int> {
    ps.filter(|q: int| b[q] == 0x21 && b[q + 1] == label)
}

/// The blocks of `g` are those that start at `ps`, kind by kind and in order;
/// of the graphics control extensions, the last one is kept.
#[verifier::opaque]
pub open spec fn blocks_match(b: Seq<u8>, ps: Seq<int>, g: Gif) -> bool {
    blocks_match_parts(
        b,
        ps,
        g.graphics_control_extension,
        g.comment_extensions@,
        g.application_extensions@,
        g.plain_text_extensions@,
        g.image_descriptors@,
    )
}

/// The blocks given are those that start at `ps`, kind by kind and in order.
pub open spec fn blocks_match_parts(
    b: Seq<u8>,
    ps: Seq<int>,
    gce: Option<GraphicsControlExtension>,
    comment_extensions: Seq<CommentExtension>,
    application_extensions: Seq<ApplicationExtension>,
    plain_text_extensions: Seq<PlainTextExtension>,
    image_descriptors: Seq<ImageDescriptor>,
) -> bool {
    let imgs = image_positions(b, ps);
    let gces = extension_positions(b, ps, 0xF9);
    let comments = extension_positions(b, ps, 0xFE);
    let apps = extension_positions(b, ps, 0xFF);
    let texts = extension_positions(b, ps, 0x01);
    &&& image_descriptors.len() == imgs.len()
    &&& forall|i: int|
        0 <= i < imgs.len() ==> image_at(
            b,
            imgs[i],
            #[trigger] image_descriptors[i],
            image_pixels(b, imgs[i]),
        )
    &&& comment_extensions.len() == comments.len()
    &&& forall|i: int|
        0 <= i < comments.len() ==> strings_view(#[trigger] comment_extensions[i].comments@)
            == lossy_blocks(blocks_at(b, comments[i] + 2))
    &&& application_extensions.len() == apps.len()
    &&& forall|i: int|
        0 <= i < apps.len() ==> application_at(b, apps[i] + 2, #[trigger] application_extensions[i])
    &&& plain_text_extensions.len() == texts.len()
    &&& forall|i: int|
        0 <= i < texts.len() ==> plain_text_at(b, texts[i] + 2, #[trigger] plain_text_extensions[i])
    &&& gces.len() == 0 ==> gce is None
    &&& gces.len() > 0 ==> (gce matches Some(x) && graphics_control_at(
        b,
        gces.last() + 2,
        x,
    ))
}

/// How the starts of each kind grow with one more block start.
proof fn lemma_positions_push(b: Seq<u8>, s: Seq<int>, x: int)
    ensures
        image_positions(b, s.push(x)) == (if b[x] == 0x2C {
            image_positions(b, s).push(x)
        } else {
            image_positions(b, s)
        }),
        forall|l: u8|
            #[trigger] extension_positions(b, s.push(x), l) == (if b[x] == 0x21 && b[x + 1] == l {
                extension_positions(b, s, l).push(x)
            } else {
                extension_positions(b, s, l)
            }),
{
    reveal(Seq::filter);
    assert(s.push(x).drop_last() =~= s);
}

/// One top-level block, read.
pub enum Block {
    GraphicsControl(GraphicsControlExtension),
    Comment(CommentExtension),
    Application(ApplicationExtension),
    PlainText(PlainTextExtension),
    Image(ImageDescriptor),
    /// An extension of unknown label, skipped over.
    Skipped,
}

/// `blk` is the block that starts at `p`.
pub open spec fn block_at(b: Seq<u8>, p: int, blk: Block) -> bool {
    match blk {
        Block::GraphicsControl(g) => b[p] == 0x21 && b[p + 1] == 0xF9 && graphics_control_at(
            b,
            p + 2,
            g,
        ),
        Block::Comment(c) => b[p] == 0x21 && b[p + 1] == 0xFE && strings_view(c.comments@)
            == lossy_blocks(blocks_at(b, p + 2)),
        Block::Application(a) => b[p] == 0x21 && b[p + 1] == 0xFF && application_at(b, p + 2, a),
        Block::PlainText(t) => b[p] == 0x21 && b[p + 1] == 0x01 && plain_text_at(b, p + 2, t),
        Block::Image(img) => b[p] == 0x2C && image_at(b, p, img, image_pixels(b, p)),
        Block::Skipped => b[p] == 0x21 && b[p + 1] != 0xF9 && b[p + 1] != 0xFE && b[p + 1] != 0xFF
            && b[p + 1] != 0x01,
    }
}

/// Reads the block that starts at the reader's position, which is no
/// trailer.
pub fn read_block(reader: &mut ByteReader) -> (r: Result<Block, GifError>)
    requires
        old(reader).wf(),
        old(reader).has(1),
        old(reader).bytes()[old(reader).pos as int] != 0x3B,
    ensures
        final(reader).wf(),
        final(reader).data == old(reader).data,
        match block_end(old(reader).bytes(), old(reader).pos as int) {
            Err(e) => r == Err::<Block, GifError>(e),
            Ok(e) => (r matches Ok(blk) && block_at(old(reader).bytes(), old(reader).pos as int, blk))
                && final(reader).pos == e && old(reader).pos < e <= old(reader).bytes().len(),
        },
{
    let ghost b = reader.bytes();
    let ghost p = reader.pos as int;
    let indicator = reader.data[reader.pos];
    if indicator == 0x2C {
        let img = read_image_descriptor(reader)?;
        proof {
            lemma_lenient_advance(b, image_code_size_pos(b, p) + 1);
        }
        return Ok(Block::Image(img));
    }
    if indicator != 0x21 {
        return Err(GifError::UnknownBlock);
    }
    let _introducer = reader.read_u8()?;
    let label = reader.read_u8()?;
    if label == 0xF9 {
        Ok(Block::GraphicsControl(read_graphics_control_extension(reader)?))
    } else if label == 0xFE {
        let c = read_comment_extension(reader)?;
        proof {
            lemma_sub_blocks_advance(b, p + 2);
        }
        Ok(Block::Comment(c))
    } else if label == 0xFF {
        let a = read_application_extension(reader)?;
        proof {
            lemma_sub_blocks_advance(b, p + 14);
        }
        Ok(Block::Application(a))
    } else if label == 0x01 {
        let t = read_plain_text_extension(reader)?;
        proof {
            lemma_sub_blocks_advance(b, p + 15);
        }
        Ok(Block::PlainText(t))
    } else {
        let _skipped = reader.read_sub_blocks()?;
        proof {
            lemma_sub_blocks_advance(b, p + 2);
        }
        Ok(Block::Skipped)
    }
}

/// Files the block `blk`, which starts at `here`, into `g`.
fn add_block(g: &mut Gif, blk: Block, Ghost(b): Ghost<Seq<u8>>, Ghost(seen): Ghost<Seq<int>>, Ghost(here): Ghost<int>)
    requires
        blocks_match(b, seen, *old(g)),
        block_at(b, here, blk),
    ensures
        blocks_match(b, seen.push(here), *final(g)),
        final(g).header == old(g).header,
        final(g).logical_screen_descriptor == old(g).logical_screen_descriptor,
        final(g).global_color_table == old(g).global_color_table,
{
    proof {
        reveal(blocks_match);
        lemma_positions_push(b, seen, here);
        assert(extension_positions(b, seen.push(here), 0xF9) == extension_positions(b, seen, 0xF9)
            || b[here + 1] == 0xF9);
        assert(extension_positions(b, seen.push(here), 0xFE) == extension_positions(b, seen, 0xFE)
            || b[here + 1] == 0xFE);
        assert(extension_positions(b, seen.push(here), 0xFF) == extension_positions(b, seen, 0xFF)
            || b[here + 1] == 0xFF);
        assert(extension_positions(b, seen.push(here), 0x01) == extension_positions(b, seen, 0x01)
            || b[here + 1] == 0x01);
    }
    match blk {
        Block::GraphicsControl(x) => {
            g.graphics_control_extension = Some(x);
        },
        Block::Comment(c) => {
            g.comment_extensions.push(c);
        },
        Block::Application(a) => {
            g.application_extensions.push(a);
        },
        Block::PlainText(t) => {
            g.plain_text_extensions.push(t);
        },
        Block::Image(img) => {
            g.image_descriptors.push(img);
        },
        Block::Skipped => {},
    }
}

/// `r` is what parsing the file `b` gives: errors in the header, the screen
/// descriptor or the global color table, else the first error of the block
/// walk, else the document whose blocks are those of the walk.
pub open spec fn gif_parsed(b: Seq<u8>, r: Result<Gif, GifError>) -> bool {
    let signed = b.len() >= 6 && b.subrange(0, 3) == gif_signature();
    &&& b.len() < 6 ==> r == Err::<Gif, GifError>(GifError::UnexpectedEof)
    &&& b.len() >= 6 && !signed ==> r == Err::<Gif, GifError>(GifError::InvalidSignature)
    &&& signed && (b.len() < 13 || b.len() < blocks_start(b)) ==> r == Err::<Gif, GifError>(
        GifError::UnexpectedEof,
    )
    &&& signed && b.len() >= 13 && b.len() >= blocks_start(b) ==> match block_walk(
        b,
        blocks_start(b),
    ) {
        Err(e) => r == Err::<Gif, GifError>(e),
        Ok(ps) => r matches Ok(g) && {
            &&& header_at(b, 0, g.header)
            &&& screen_at(b, 6, g.logical_screen_descriptor)
            &&& table_len(b[10]) == 0 ==> g.global_color_table is None
            &&& table_len(b[10]) > 0 ==> (g.global_color_table matches Some(t)
                && t.colors@ == colors_at(b, 13, table_len(b[10]) as int))
            &&& blocks_match(b, ps, g)
        },
    }
}

/// Parses a whole GIF file: the header, the screen descriptor, the global
/// color table, then the blocks up to the trailer or the end of the input.
pub fn parse_gif(data: &[u8]) -> (r: Result<Gif, GifError>)
    ensures
        ({
            let b = data@;
            let signed = b.len() >= 6 && b.subrange(0, 3) == gif_signature();
            &&& b.len() < 6 ==> r == Err::<Gif, GifError>(GifError::UnexpectedEof)
            &&& b.len() >= 6 && !signed ==> r == Err::<Gif, GifError>(GifError::InvalidSignature)
            &&& signed && (b.len() < 13 || b.len() < blocks_start(b)) ==> r == Err::<Gif, GifError>(
                GifError::UnexpectedEof,
            )
            &&& signed && b.len() >= 13 && b.len() >= blocks_start(b) ==> match block_walk(
                b,
                blocks_start(b),
            ) {
                Err(e) => r == Err::<Gif, GifError>(e),
                Ok(ps) => r matches Ok(g) && {
                    &&& header_at(b, 0, g.header)
                    &&& screen_at(b, 6, g.logical_screen_descriptor)
                    &&& table_len(b[10]) == 0 ==> g.global_color_table is None
                    &&& table_len(b[10]) > 0 ==> (g.global_color_table matches Some(t)
                        && t.colors@ == colors_at(b, 13, table_len(b[10]) as int))
                    &&& blocks_match(b, ps, g)
                },
            }
        }),
{
    let mut reader = ByteReader::new(data);
    let header = read_gif_header(&mut reader)?;
    let logical_screen_descriptor = read_logical_screen_descriptor(&mut reader)?;
    let global_color_table_size = color_table_len(logical_screen_descriptor.packed_field);
    let global_color_table = if global_color_table_size > 0 {
        Some(read_color_table(&mut reader, global_color_table_size)?)
    } else {
        None
    };
    let ghost b = data@;
    let ghost start = reader.pos as int;
    let ghost mut seen: Seq<int> = Seq::empty();
    let mut g = Gif {
        header,
        logical_screen_descriptor,
        global_color_table,
        graphics_control_extension: None,
        comment_extensions: Vec::new(),
        application_extensions: Vec::new(),
        plain_text_extensions: Vec::new(),
        image_descriptors: Vec::new(),
    };
    proof {
        reveal(Seq::filter);
        reveal(blocks_match);
        assert(seen + Seq::<int>::empty() =~= seen);
    }
    loop
        invariant
            reader.wf(),
            reader.bytes() == b,
            b == data@,
            start == blocks_start(b),
            block_walk(b, start) == prepend_walk(seen, block_walk(b, reader.pos as int)),
            blocks_match(b, seen, g),
            b.len() >= 13,
            b.len() >= blocks_start(b),
            b.subrange(0, 3) == gif_signature(),
            header_at(b, 0, g.header),
            screen_at(b, 6, g.logical_screen_descriptor),
            table_len(b[10]) == 0 ==> g.global_color_table is None,
            table_len(b[10]) > 0 ==> (g.global_color_table matches Some(t) && t.colors@ == colors_at(
                b,
                13,
                table_len(b[10]) as int,
            )),
        ensures
            block_walk(b, start) == Ok::<Seq<int>, GifError>(seen),
        decreases reader.left(),
    {
        let ghost here = reader.pos as int;
        if reader.at_end() || reader.data[reader.pos] == 0x3B {
            assert(block_walk(b, here) == Ok::<Seq<int>, GifError>(Seq::empty()));
            assert(seen + Seq::<int>::empty() =~= seen);
            break;
        }
        let blk = match read_block(&mut reader) {
            Ok(blk) => blk,
            Err(e) => {
                assert(block_walk(b, here) == Err::<Seq<int>, GifError>(e));
                return Err(e);
            },
        };
        let ghost e = reader.pos as int;
        add_block(&mut g, blk, Ghost(b), Ghost(seen), Ghost(here));
        proof {
            match block_walk(b, e) {
                Ok(rest) => {
                    assert(seen + (seq![here] + rest) =~= seen.push(here) + rest);
                },
                Err(_) => {},
            }
            seen = seen.push(here);
        }
    }
    Ok(g)
}

/// A parsed document, told apart by whether it holds plain text extensions.
pub enum Parsed {
    /// A document without plain text extensions.
    Document(Gif),
    /// A document with at least one plain text extension.
    WithPlainText(Gif),
}

/// Parses a whole GIF file, and tells whether it holds plain text
/// extensions.
pub fn parse(data: &[u8]) -> (r: Result<Parsed, GifError>)
    ensures
        match r {
            Ok(Parsed::Document(g)) => gif_parsed(data@, Ok(g)) && g.plain_text_extensions@.len()
                == 0,
            Ok(Parsed::WithPlainText(g)) => gif_parsed(data@, Ok(g))
                && g.plain_text_extensions@.len() > 0,
            Err(e) => gif_parsed(data@, Err(e)),
        },
{
    let g = parse_gif(data)?;
    if g.plain_text_extensions.len() > 0 {
        Ok(Parsed::WithPlainText(g))
    } else {
        Ok(Parsed::Document(g))
    }
}

} // verus!
