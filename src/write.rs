//! The serializer: a GIF file's bytes from its parsed form.
use crate::bytes::append_bytes;
use crate::text::{joined_utf8, utf8_joined};
use crate::codec::{encodable, lzw_encode, lzw_encoded};
use crate::types::{
    ApplicationExtension, ColorTable, CommentExtension, Gif, GifError, ImageDescriptor,
    PlainTextExtension, Rgb,
};
use vstd::prelude::*;

verus! {

/// The two little-endian bytes of `v`.
pub open spec fn u16_le_bytes(v: u16) -> Seq<u8> {
    seq![(v % 256) as u8, (v / 256) as u8]
}

/// `data` cut into sub-blocks of at most 255 bytes, each after its length,
/// without the terminator.
pub open spec fn sub_block_body(data: Seq<u8>) -> Seq<u8>
    decreases data.len(),
{
    if data.len() == 0 {
        Seq::empty()
    } else if data.len() <= 255 {
        seq![data.len() as u8] + data
    } else {
        seq![255u8] + data.take(255) + sub_block_body(data.skip(255))
    }
}

/// `data` as sub-blocks, with the terminator.
pub open spec fn framed(data: Seq<u8>) -> Seq<u8> {
    sub_block_body(data) + seq![0u8]
}

/// The bytes of the color table entries `cs`.
pub open spec fn colors_bytes(cs: Seq<Rgb>) -> Seq<u8>
    decreases cs.len(),
{
    if cs.len() == 0 {
        Seq::empty()
    } else {
        colors_bytes(cs.drop_last()) + seq![cs.last().red, cs.last().green, cs.last().blue]
    }
}

/// The bytes of an optional color table.
pub open spec fn table_bytes(t: Option<ColorTable>) -> Seq<u8> {
    match t {
        Some(t) => colors_bytes(t.colors@),
        None => Seq::empty(),
    }
}

/// A comment: the UTF-8 bytes of its fragments joined, as sub-blocks.
pub open spec fn comment_bytes(c: CommentExtension) -> Seq<u8> {
    seq![0x21u8, 0xFEu8] + framed(joined_utf8(c.comments@))
}

/// The bytes of the comments `cs`, one after the other.
pub open spec fn comments_bytes(cs: Seq<CommentExtension>) -> Seq<u8>
    decreases cs.len(),
{
    if cs.len() == 0 {
        Seq::empty()
    } else {
        comments_bytes(cs.drop_last()) + comment_bytes(cs.last())
    }
}

/// An application extension: identifier, authentication code, and its data
/// as sub-blocks.
pub open spec fn application_bytes(a: ApplicationExtension) -> Seq<u8> {
    seq![0x21u8, 0xFFu8, 0x0Bu8] + a.identifier@ + a.authentication_code@ + framed(a.data@)
}

/// The bytes of the application extensions `apps`, one after the other.
pub open spec fn applications_bytes(apps: Seq<ApplicationExtension>) -> Seq<u8>
    decreases apps.len(),
{
    if apps.len() == 0 {
        Seq::empty()
    } else {
        applications_bytes(apps.drop_last()) + application_bytes(apps.last())
    }
}

/// The fixed fields of a plain text extension, from its introducer on.
pub open spec fn plain_text_head(t: PlainTextExtension) -> Seq<u8> {
    seq![0x21u8, 0x01u8, t.block_size] + u16_le_bytes(t.text_grid_left_position) + u16_le_bytes(
        t.text_grid_top_position,
    ) + u16_le_bytes(t.text_grid_width) + u16_le_bytes(t.text_grid_height) + seq![
        t.character_cell_width,
        t.character_cell_height,
        t.text_foreground_color_index,
        t.text_background_color_index,
    ]
}

/// The payloads of plain text extensions, each as sub-blocks, one after
/// the other.
pub open spec fn plain_text_bodies(ts: Seq<PlainTextExtension>) -> Seq<u8>
    decreases ts.len(),
{
    if ts.len() == 0 {
        Seq::empty()
    } else {
        plain_text_bodies(ts.drop_last()) + sub_block_body(ts.last().plain_text_data@)
    }
}

/// All plain text extensions as one: the fixed fields of the first, then the
/// payload of each, then one terminator.
pub open spec fn plain_texts_bytes(ts: Seq<PlainTextExtension>) -> Seq<u8> {
    if ts.len() == 0 {
        Seq::empty()
    } else {
        plain_text_head(ts[0]) + plain_text_bodies(ts) + seq![0u8]
    }
}

/// An image: its descriptor, its local color table, its code size, and its
/// data LZW-encoded as sub-blocks.
pub open spec fn image_bytes(img: ImageDescriptor) -> Seq<u8> {
    seq![0x2Cu8] + u16_le_bytes(img.left) + u16_le_bytes(img.top) + u16_le_bytes(img.width)
        + u16_le_bytes(img.height) + seq![img.packed_field] + table_bytes(img.local_color_table)
        + seq![img.lzw_minimum_code_size] + framed(
        lzw_encoded(img.image_data@, img.lzw_minimum_code_size),
    )
}

/// The bytes of the images `imgs`, one after the other.
pub open spec fn images_bytes(imgs: Seq<ImageDescriptor>) -> Seq<u8>
    decreases imgs.len(),
{
    if imgs.len() == 0 {
        Seq::empty()
    } else {
        images_bytes(imgs.drop_last()) + image_bytes(imgs.last())
    }
}

/// Whether the encoder can write the data of every image.
pub open spec fn images_encodable(imgs: Seq<ImageDescriptor>) -> bool {
    forall|i: int|
        0 <= i < imgs.len() ==> encodable(
            #[trigger] imgs[i].image_data@,
            imgs[i].lzw_minimum_code_size,
        )
}

/// The bytes of a whole file, in field order: header, screen descriptor,
/// global color table, graphics control extension, comments, application
/// extensions, plain text extensions, images and the trailer.
pub open spec fn gif_bytes(g: Gif) -> Seq<u8> {
    let d = g.logical_screen_descriptor;
    g.header.signature@ + g.header.version@ + u16_le_bytes(d.width) + u16_le_bytes(d.height)
        + seq![d.packed_field, d.background_color_index, d.pixel_aspect_ratio] + table_bytes(
        g.global_color_table,
    ) + match g.graphics_control_extension {
        Some(x) => seq![0x21u8, 0xF9u8, 4u8, x.packed_field] + u16_le_bytes(x.delay_time) + seq![
            x.transparent_color_index,
            0u8,
        ],
        None => Seq::empty(),
    } + comments_bytes(g.comment_extensions@) + applications_bytes(g.application_extensions@)
        + plain_texts_bytes(g.plain_text_extensions@) + images_bytes(g.image_descriptors@) + seq![
        0x3Bu8,
    ]
}

/// Appends the two little-endian bytes of `v`.
fn push_u16_le(out: &mut Vec<u8>, v: u16)
    ensures
        final(out)@ == old(out)@ + u16_le_bytes(v),
{
    out.push((v % 256) as u8);
    out.push((v / 256) as u8);
    assert(final(out)@ =~= old(out)@ + u16_le_bytes(v));
}

/// Writes `data` as sub-blocks of at most 255 bytes, without the terminator.
fn write_sub_block_body(out: &mut Vec<u8>, data: &[u8])
    ensures
        final(out)@ == old(out)@ + sub_block_body(data@),
{
    let ghost start = out@;
    let len: usize = data.len();
    let mut i: usize = 0;
    assert(data@.skip(0) =~= data@);
    while i < len
        invariant
            len == data@.len(),
            i <= data@.len(),
            start + sub_block_body(data@) == out@ + sub_block_body(data@.skip(i as int)),
        decreases data@.len() - i,
    {
        let n: usize = if len - i > 255 {
            255
        } else {
            len - i
        };
        let ghost before = out@;
        let ghost rest = data@.skip(i as int);
        out.push(n as u8);
        let mut j: usize = 0;
        while j < n
            invariant
                len == data@.len(),
                i + n <= len,
                n <= 255,
                j <= n,
                out@ == before + seq![n as u8] + data@.subrange(i as int, i + j),
            decreases n - j,
        {
            out.push(data[i + j]);
            j = j + 1;
            assert(out@ =~= before + seq![n as u8] + data@.subrange(i as int, i + j));
        }
        proof {
            if rest.len() <= 255 {
                assert(rest =~= data@.subrange(i as int, i + n));
                assert(data@.skip(i + n) =~= Seq::<u8>::empty());
                assert(out@ + Seq::<u8>::empty() =~= out@);
            } else {
                assert(rest.take(255) =~= data@.subrange(i as int, i + n));
                assert(rest.skip(255) =~= data@.skip(i + n));
                assert(before + (seq![255u8] + rest.take(255) + sub_block_body(rest.skip(255)))
                    =~= out@ + sub_block_body(data@.skip(i + n)));
            }
        }
        i = i + n;
    }
    assert(out@ + Seq::<u8>::empty() =~= out@);
}

/// Writes `data` as sub-blocks, with the terminator.
fn write_framed(out: &mut Vec<u8>, data: &[u8])
    ensures
        final(out)@ == old(out)@ + framed(data@),
{
    write_sub_block_body(out, data);
    out.push(0);
    assert(final(out)@ =~= old(out)@ + framed(data@));
}

/// Appends the entries of a color table.
fn write_colors(out: &mut Vec<u8>, t: &ColorTable)
    ensures
        final(out)@ == old(out)@ + colors_bytes(t.colors@),
{
    let ghost start = out@;
    let mut i: usize = 0;
    while i < t.colors.len()
        invariant
            i <= t.colors@.len(),
            out@ == start + colors_bytes(t.colors@.subrange(0, i as int)),
        decreases t.colors@.len() - i,
    {
        let c = t.colors[i];
        out.push(c.red);
        out.push(c.green);
        out.push(c.blue);
        assert(t.colors@.subrange(0, i + 1).drop_last() =~= t.colors@.subrange(0, i as int));
        assert(out@ =~= start + colors_bytes(t.colors@.subrange(0, i + 1)));
        i = i + 1;
    }
    assert(t.colors@.subrange(0, i as int) =~= t.colors@);
}

/// Appends an optional color table.
fn write_table(out: &mut Vec<u8>, t: &Option<ColorTable>)
    ensures
        final(out)@ == old(out)@ + table_bytes(*t),
{
    match t {
        Some(t) => write_colors(out, t),
        None => {
            assert(out@ + Seq::<u8>::empty() =~= out@);
        },
    }
}

/// Appends the comments, each with its fragments joined.
fn write_comments(out: &mut Vec<u8>, cs: &Vec<CommentExtension>)
    ensures
        final(out)@ == old(out)@ + comments_bytes(cs@),
{
    let ghost start = out@;
    let mut i: usize = 0;
    while i < cs.len()
        invariant
            i <= cs@.len(),
            out@ == start + comments_bytes(cs@.subrange(0, i as int)),
        decreases cs@.len() - i,
    {
        out.push(0x21);
        out.push(0xFE);
        let text = utf8_joined(&cs[i].comments);
        write_framed(out, text.as_slice());
        assert(cs@.subrange(0, i + 1).drop_last() =~= cs@.subrange(0, i as int));
        assert(out@ =~= start + comments_bytes(cs@.subrange(0, i + 1)));
        i = i + 1;
    }
    assert(cs@.subrange(0, i as int) =~= cs@);
}

/// Appends the application extensions.
fn write_applications(out: &mut Vec<u8>, apps: &Vec<ApplicationExtension>)
    ensures
        final(out)@ == old(out)@ + applications_bytes(apps@),
{
    let ghost start = out@;
    let mut i: usize = 0;
    while i < apps.len()
        invariant
            i <= apps@.len(),
            out@ == start + applications_bytes(apps@.subrange(0, i as int)),
        decreases apps@.len() - i,
    {
        let a = &apps[i];
        out.push(0x21);
        out.push(0xFF);
        out.push(0x0B);
        append_bytes(out, a.identifier.as_slice());
        append_bytes(out, a.authentication_code.as_slice());
        write_framed(out, a.data.as_slice());
        assert(apps@.subrange(0, i + 1).drop_last() =~= apps@.subrange(0, i as int));
        assert(out@ =~= start + applications_bytes(apps@.subrange(0, i + 1)));
        i = i + 1;
    }
    assert(apps@.subrange(0, i as int) =~= apps@);
}

/// Appends the plain text extensions, as one.
fn write_plain_texts(out: &mut Vec<u8>, ts: &Vec<PlainTextExtension>)
    ensures
        final(out)@ == old(out)@ + plain_texts_bytes(ts@),
{
    if ts.len() == 0 {
        assert(out@ + Seq::<u8>::empty() =~= out@);
        return;
    }
    let ghost start = out@;
    let t = &ts[0];
    out.push(0x21);
    out.push(0x01);
    out.push(t.block_size);
    push_u16_le(out, t.text_grid_left_position);
    push_u16_le(out, t.text_grid_top_position);
    push_u16_le(out, t.text_grid_width);
    push_u16_le(out, t.text_grid_height);
    out.push(t.character_cell_width);
    out.push(t.character_cell_height);
    out.push(t.text_foreground_color_index);
    out.push(t.text_background_color_index);
    assert(out@ =~= start + plain_text_head(ts@[0]));
    let ghost head = out@;
    let mut i: usize = 0;
    while i < ts.len()
        invariant
            i <= ts@.len(),
            out@ == head + plain_text_bodies(ts@.subrange(0, i as int)),
        decreases ts@.len() - i,
    {
        write_sub_block_body(out, ts[i].plain_text_data.as_slice());
        assert(ts@.subrange(0, i + 1).drop_last() =~= ts@.subrange(0, i as int));
        assert(out@ =~= head + plain_text_bodies(ts@.subrange(0, i + 1)));
        i = i + 1;
    }
    assert(ts@.subrange(0, i as int) =~= ts@);
    out.push(0);
    assert(out@ =~= start + plain_texts_bytes(ts@));
}

/// Appends an image with its data encoded.
fn write_image(out: &mut Vec<u8>, img: &ImageDescriptor)
    requires
        encodable(img.image_data@, img.lzw_minimum_code_size),
    ensures
        final(out)@ == old(out)@ + image_bytes(*img),
{
    let ghost start = out@;
    out.push(0x2C);
    push_u16_le(out, img.left);
    push_u16_le(out, img.top);
    push_u16_le(out, img.width);
    push_u16_le(out, img.height);
    out.push(img.packed_field);
    write_table(out, &img.local_color_table);
    out.push(img.lzw_minimum_code_size);
    match lzw_encode(img.image_data.as_slice(), img.lzw_minimum_code_size) {
        Ok(code) => {
            write_framed(out, code.as_slice());
        },
        Err(_) => {},
    }
    assert(out@ =~= start + image_bytes(*img));
}

/// Appends the images.
fn write_images(out: &mut Vec<u8>, imgs: &Vec<ImageDescriptor>)
    requires
        images_encodable(imgs@),
    ensures
        final(out)@ == old(out)@ + images_bytes(imgs@),
{
    let ghost start = out@;
    let mut i: usize = 0;
    while i < imgs.len()
        invariant
            i <= imgs@.len(),
            images_encodable(imgs@),
            out@ == start + images_bytes(imgs@.subrange(0, i as int)),
        decreases imgs@.len() - i,
    {
        write_image(out, &imgs[i]);
        assert(imgs@.subrange(0, i + 1).drop_last() =~= imgs@.subrange(0, i as int));
        assert(out@ =~= start + images_bytes(imgs@.subrange(0, i + 1)));
        i = i + 1;
    }
    assert(imgs@.subrange(0, i as int) =~= imgs@);
}

/// Checks that the encoder can write every image.
fn check_images(imgs: &Vec<ImageDescriptor>) -> (r: bool)
    ensures
        r == images_encodable(imgs@),
{
    let mut i: usize = 0;
    while i < imgs.len()
        invariant
            i <= imgs@.len(),
            forall|j: int|
                0 <= j < i ==> encodable(
                    #[trigger] imgs@[j].image_data@,
                    imgs@[j].lzw_minimum_code_size,
                ),
        decreases imgs@.len() - i,
    {
        let img = &imgs[i];
        match crate::codec::is_encodable(img.image_data.as_slice(), img.lzw_minimum_code_size) {
            true => {},
            false => {
                return false;
            },
        }
        i = i + 1;
    }
    true
}

/// Writes a whole file. Every image's data is LZW-encoded at its minimum
/// code size, which must be able to express each of its indices; where one
/// cannot, nothing is written.
pub fn reassemble_gif(gif: &Gif) -> (r: Result<Vec<u8>, GifError>)
    ensures
        images_encodable(gif.image_descriptors@) ==> (r matches Ok(v) && v@ == gif_bytes(*gif)),
        !images_encodable(gif.image_descriptors@) ==> r == Err::<Vec<u8>, GifError>(
            GifError::UnsupportedCodeSize,
        ),
{
    if !check_images(&gif.image_descriptors) {
        return Err(GifError::UnsupportedCodeSize);
    }
    let mut out: Vec<u8> = Vec::new();
    append_bytes(&mut out, gif.header.signature.as_slice());
    append_bytes(&mut out, gif.header.version.as_slice());
    let d = gif.logical_screen_descriptor;
    push_u16_le(&mut out, d.width);
    push_u16_le(&mut out, d.height);
    out.push(d.packed_field);
    out.push(d.background_color_index);
    out.push(d.pixel_aspect_ratio);
    write_table(&mut out, &gif.global_color_table);
    match &gif.graphics_control_extension {
        Some(x) => {
            out.push(0x21);
            out.push(0xF9);
            out.push(4);
            out.push(x.packed_field);
            push_u16_le(&mut out, x.delay_time);
            out.push(x.transparent_color_index);
            out.push(0);
        },
        None => {},
    }
    write_comments(&mut out, &gif.comment_extensions);
    write_applications(&mut out, &gif.application_extensions);
    write_plain_texts(&mut out, &gif.plain_text_extensions);
    write_images(&mut out, &gif.image_descriptors);
    out.push(0x3B);
    assert(out@ =~= gif_bytes(*gif));
    Ok(out)
}

} // verus!
