//! Comment text: decoding sub-blocks as lossy UTF-8, and the bytes of the
//! decoded text.
use crate::bytes::{append_bytes, vecs_view};
use vstd::prelude::*;
use vstd::utf8::encode_utf8;

verus! {

/// What `String::from_utf8_lossy` makes of the bytes `b`.
pub uninterp spec fn lossy_of(b: Seq<u8>) -> Seq<char>;

/// Relies on `String::from_utf8_lossy`: it decodes `b` as UTF-8, putting
/// U+FFFD in place of each invalid sequence, and the text depends on the
/// bytes alone.
#[verifier::external_body]
fn lossy_text(b: &[u8]) -> (r: String)
    ensures
        r@ == lossy_of(b@),
{
    String::from_utf8_lossy(b).into_owned()
}

/// The views of a sequence of strings.
pub open spec fn strings_view(v: Seq<String>) -> Seq<Seq<char>> {
    v.map_values(|s: String| s@)
}

/// The lossy decoding of each byte block.
pub open spec fn lossy_blocks(blocks: Seq<Seq<u8>>) -> Seq<Seq<char>> {
    blocks.map_values(|bl: Seq<u8>| lossy_of(bl))
}

/// The UTF-8 bytes of each string, one after the other.
pub open spec fn joined_utf8(fs: Seq<String>) -> Seq<u8>
    decreases fs.len(),
{
    if fs.len() == 0 {
        Seq::empty()
    } else {
        joined_utf8(fs.drop_last()) + encode_utf8(fs.last()@)
    }
}

/// Decodes each block as lossy UTF-8.
pub fn decode_fragments(blocks: &Vec<Vec<u8>>) -> (r: Vec<String>)
    ensures
        strings_view(r@) == lossy_blocks(vecs_view(blocks@)),
{
    let mut r: Vec<String> = Vec::new();
    let mut i: usize = 0;
    while i < blocks.len()
        invariant
            i <= blocks@.len(),
            strings_view(r@) == lossy_blocks(vecs_view(blocks@)).subrange(0, i as int),
        decreases blocks@.len() - i,
    {
        let s = lossy_text(blocks[i].as_slice());
        let ghost before = r@;
        r.push(s);
        assert(strings_view(r@) =~= strings_view(before).push(s@));
        assert(strings_view(r@) =~= lossy_blocks(vecs_view(blocks@)).subrange(0, i + 1));
        i = i + 1;
    }
    assert(lossy_blocks(vecs_view(blocks@)).subrange(0, i as int) =~= lossy_blocks(
        vecs_view(blocks@),
    ));
    r
}

/// The UTF-8 bytes of the strings, joined.
pub fn utf8_joined(fs: &Vec<String>) -> (r: Vec<u8>)
    ensures
        r@ == joined_utf8(fs@),
{
    let mut out: Vec<u8> = Vec::new();
    let mut i: usize = 0;
    while i < fs.len()
        invariant
            i <= fs@.len(),
            out@ == joined_utf8(fs@.subrange(0, i as int)),
        decreases fs@.len() - i,
    {
        let bytes: &[u8] = fs[i].as_str().as_bytes();
        append_bytes(&mut out, bytes);
        assert(fs@.subrange(0, i + 1).drop_last() =~= fs@.subrange(0, i as int));
        i = i + 1;
    }
    assert(fs@.subrange(0, i as int) =~= fs@);
    out
}

} // verus!
