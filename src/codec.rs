//! LZW decoding of GIF image data, and the encoder that writes it.
use crate::bytes::{append_bytes, vecs_view};
use crate::types::GifError;
use vstd::prelude::*;

verus! {

/// Largest code width, in bits.
pub const MAX_CODE_WIDTH: usize = 12;

/// Largest number of entries the dictionary may hold.
pub const MAX_ENTRIES: usize = 4096;

/// Largest LZW minimum code size whose codes fit in 12 bits.
pub const MAX_MIN_CODE_SIZE: u8 = 11;

/// Two to the power `e`.
pub open spec fn exp2(e: nat) -> nat
    decreases e,
{
    if e == 0 {
        1
    } else {
        2 * exp2((e - 1) as nat)
    }
}

/// Bit `p` of the stream `s`, counting from the least significant bit of
/// each byte.
pub open spec fn bit_at(s: Seq<u8>, p: int) -> u8 {
    (s[p / 8] >> ((p % 8) as u8)) & 1u8
}

/// The `w`-bit code whose least significant bit is bit `p` of `s`.
pub open spec fn code_at(s: Seq<u8>, p: int, w: nat) -> nat
    decreases w,
{
    if w == 0 {
        0
    } else {
        code_at(s, p, (w - 1) as nat) + (bit_at(s, p + w - 1) as nat) * exp2((w - 1) as nat)
    }
}

/// The dictionary right after a clear code, for a clear code `clear`: one
/// single-byte entry per literal, then empty slots for the clear and end codes.
pub open spec fn base_dict(clear: nat) -> Seq<Seq<u8>> {
    Seq::new(clear + 2, |i: int| if i < clear { seq![i as u8] } else { Seq::empty() })
}

/// The sequence that a non-control code stands for, where there is one: a
/// dictionary entry, or else the previous sequence followed by its own first
/// byte.
pub open spec fn entry_for(dict: Seq<Seq<u8>>, prev: Option<Seq<u8>>, code: nat) -> Option<
    Seq<u8>,
> {
    if code < dict.len() {
        Some(dict[code as int])
    } else {
        match prev {
            Some(pv) => Some(pv.push(pv[0])),
            None => None,
        }
    }
}

/// Decodes the codes from bit `p` on, where `dict`, `prev` and `width` are the
/// dictionary, the previously decoded sequence and the code width in force
/// there, and `out` is what was decoded before `p`. The stream ends at the end
/// code or where fewer than `width` bits are left.
pub open spec fn decode_from(
    s: Seq<u8>,
    min: nat,
    p: nat,
    dict: Seq<Seq<u8>>,
    prev: Option<Seq<u8>>,
    width: nat,
    out: Seq<u8>,
) -> Result<Seq<u8>, GifError>
    decreases 8 * s.len() - p,
{
    if width == 0 || p + width > 8 * s.len() {
        Ok(out)
    } else {
        let code = code_at(s, p as int, width);
        let q = p + width;
        if code == exp2(min) + 1 {
            Ok(out)
        } else if code == exp2(min) {
            decode_from(s, min, q, base_dict(exp2(min)), None, min + 1, out)
        } else {
            match entry_for(dict, prev, code) {
                None => Err(GifError::InvalidCode),
                Some(entry) => match prev {
                    None => decode_from(s, min, q, dict, Some(entry), width, out + entry),
                    Some(pv) => {
                        let dict2 = if dict.len() < 4096 {
                            dict.push(pv.push(entry[0]))
                        } else {
                            dict
                        };
                        let width2 = if dict2.len() == exp2(width) && width < 12 {
                            width + 1
                        } else {
                            width
                        };
                        decode_from(s, min, q, dict2, Some(entry), width2, out + entry)
                    },
                },
            }
        }
    }
}

/// The bytes that the LZW stream `s` decodes to, for minimum code size `min`.
pub open spec fn lzw_decoded(s: Seq<u8>, min: nat) -> Result<Seq<u8>, GifError> {
    if min > 11 {
        Err(GifError::UnsupportedCodeSize)
    } else {
        decode_from(s, min, 0, base_dict(exp2(min)), None, min + 1, Seq::empty())
    }
}

/// The view of a decoding result.
pub open spec fn bytes_result(r: Result<Vec<u8>, GifError>) -> Result<Seq<u8>, GifError> {
    match r {
        Ok(v) => Ok(v@),
        Err(e) => Err(e),
    }
}

/// The view of the previously decoded sequence, where there is one.
pub open spec fn prev_view(p: Option<Vec<u8>>) -> Option<Seq<u8>> {
    match p {
        Some(v) => Some(v@),
        None => None,
    }
}

/// `exp2` is monotonic.
pub proof fn lemma_exp2_le(a: nat, b: nat)
    requires
        a <= b,
    ensures
        exp2(a) <= exp2(b),
    decreases b,
{
    if a < b {
        lemma_exp2_le(a, (b - 1) as nat);
    }
}

/// The powers of two at the largest code widths.
pub proof fn lemma_exp2_12()
    ensures
        exp2(11) == 2048,
        exp2(12) == 4096,
{
    reveal_with_fuel(exp2, 13);
}

/// Two to the power `k`.
pub(crate) fn two_to(k: u8) -> (r: usize)
    requires
        k <= 12,
    ensures
        r == exp2(k as nat),
        r <= 4096,
{
    let mut r: usize = 1;
    let mut i: u8 = 0;
    while i < k
        invariant
            i <= k <= 12,
            r == exp2(i as nat),
        decreases k - i,
    {
        proof {
            lemma_exp2_le((i + 1) as nat, 12);
            lemma_exp2_12();
        }
        r = r * 2;
        i = i + 1;
    }
    proof {
        lemma_exp2_le(k as nat, 12);
        lemma_exp2_12();
    }
    r
}

/// Reads the `width`-bit code that starts at bit `bit_off` of byte `byte_idx`.
fn read_code(s: &[u8], byte_idx: usize, bit_off: usize, width: usize) -> (r: usize)
    requires
        bit_off < 8,
        1 <= width <= 12,
        8 * byte_idx + bit_off + width <= 8 * s@.len(),
    ensures
        r == code_at(s@, 8 * byte_idx + bit_off, width as nat),
        r < exp2(width as nat),
{
    let ghost p: int = 8 * byte_idx + bit_off;
    let mut code: usize = 0;
    let mut pw: usize = 1;
    let mut i: usize = 0;
    while i < width
        invariant
            i <= width <= 12,
            bit_off < 8,
            p == 8 * byte_idx + bit_off,
            p + width <= 8 * s@.len(),
            code == code_at(s@, p, i as nat),
            pw == exp2(i as nat),
            code < pw,
        decreases width - i,
    {
        proof {
            lemma_exp2_le((i + 1) as nat, 12);
            lemma_exp2_12();
        }
        let o: usize = bit_off + i;
        proof {
            vstd::arithmetic::div_mod::lemma_fundamental_div_mod(o as int, 8);
            vstd::arithmetic::div_mod::lemma_fundamental_div_mod(p + i, 8);
        }
        let n: usize = s.len();
        assert(p + i < 8 * s@.len());
        assert(byte_idx + o / 8 < n);
        let idx: usize = byte_idx + o / 8;
        assert((p + i) / 8 == idx);
        assert((p + i) % 8 == o % 8);
        let bit: u8 = (s[idx] >> ((o % 8) as u8)) & 1u8;
        assert(bit == bit_at(s@, p + i));
        let b0: u8 = s[idx];
        let sh: u8 = (o % 8) as u8;
        assert((b0 >> sh) & 1u8 <= 1u8) by (bit_vector);
        assert(code_at(s@, p, (i + 1) as nat) == code_at(s@, p, i as nat) + (bit as nat) * exp2(
            i as nat,
        ));
        let ghost old_code = code;
        if bit == 1 {
            code = code + pw;
        } else {
            assert(bit == 0);
        }
        assert(code == old_code + (bit as nat) * exp2(i as nat)) by (nonlinear_arith)
            requires
                bit == 0 || bit == 1,
                bit == 1 ==> code == old_code + pw,
                bit == 0 ==> code == old_code,
                pw == exp2(i as nat),
        ;
        pw = pw * 2;
        i = i + 1;
    }
    code
}

/// The dictionary right after a clear code `clear`.
fn base_dictionary(clear: usize) -> (r: Vec<Vec<u8>>)
    requires
        clear <= 4096,
    ensures
        vecs_view(r@) == base_dict(clear as nat),
{
    let mut d: Vec<Vec<u8>> = Vec::new();
    let mut i: usize = 0;
    while i < clear + 2
        invariant
            clear <= 4096,
            i <= clear + 2,
            vecs_view(d@) == base_dict(clear as nat).subrange(0, i as int),
        decreases clear + 2 - i,
    {
        let mut e: Vec<u8> = Vec::new();
        if i < clear {
            e.push(#[verifier::truncate] (i as u8));
        }
        let ghost before = d@;
        d.push(e);
        proof {
            assert(e@ =~= base_dict(clear as nat)[i as int]);
            assert(vecs_view(d@) =~= vecs_view(before).push(e@));
            assert(vecs_view(d@) =~= base_dict(clear as nat).subrange(0, i + 1));
        }
        i = i + 1;
    }
    assert(base_dict(clear as nat).subrange(0, (clear + 2) as int) =~= base_dict(clear as nat));
    d
}

/// No dictionary slot but those of the clear and end codes is empty.
pub open spec fn entries_nonempty(d: Seq<Seq<u8>>, clear: nat) -> bool {
    forall|i: int| 0 <= i < d.len() && i != clear && i != clear + 1 ==> #[trigger] d[i].len() > 0
}

/// Decodes the LZW code stream `stream`, the concatenated payload of an
/// image's sub-blocks, for the minimum code size `min_code_size`.
///
/// Decoding stops at the end code, or where the stream runs out; what was
/// decoded up to there is returned. A code with no dictionary entry and no
/// previous code to extend is an error.
pub fn lzw_decode(stream: &[u8], min_code_size: u8) -> (r: Result<Vec<u8>, GifError>)
    ensures
        bytes_result(r) == lzw_decoded(stream@, min_code_size as nat),
{
    if min_code_size > MAX_MIN_CODE_SIZE {
        return Err(GifError::UnsupportedCodeSize);
    }
    let ghost s = stream@;
    let ghost min = min_code_size as nat;
    let clear: usize = two_to(min_code_size);
    let end: usize = clear + 1;
    let first_width: usize = min_code_size as usize + 1;
    let first_limit: usize = clear * 2;
    let mut dict = base_dictionary(clear);
    let mut prev: Option<Vec<u8>> = None;
    let mut width: usize = first_width;
    let mut limit: usize = first_limit;
    let mut out: Vec<u8> = Vec::new();
    let mut byte_idx: usize = 0;
    let mut bit_off: usize = 0;
    let n: usize = stream.len();
    proof {
        lemma_exp2_le(min, 11);
        lemma_exp2_12();
        assert(entries_nonempty(base_dict(clear as nat), clear as nat));
    }
    loop
        invariant
            s == stream@,
            n == s.len(),
            min == min_code_size as nat,
            min <= 11,
            clear == exp2(min),
            clear <= 2048,
            end == clear + 1,
            first_width == min + 1,
            first_limit == exp2(first_width as nat),
            first_width <= width <= 12,
            limit == exp2(width as nat),
            bit_off < 8,
            byte_idx <= n,
            8 * byte_idx + bit_off <= 8 * n,
            entries_nonempty(vecs_view(dict@), clear as nat),
            prev matches Some(pv) ==> pv@.len() > 0,
            decode_from(
                s,
                min,
                (8 * byte_idx + bit_off) as nat,
                vecs_view(dict@),
                prev_view(prev),
                width as nat,
                out@,
            ) == lzw_decoded(s, min),
        decreases 8 * n - (8 * byte_idx + bit_off),
    {
        let ghost p: nat = (8 * byte_idx + bit_off) as nat;
        let rem: usize = n - byte_idx;
        if rem < 3 && bit_off + width > 8 * rem {
            return Ok(out);
        }
        let code = read_code(stream, byte_idx, bit_off, width);
        let t: usize = bit_off + width;
        byte_idx = byte_idx + t / 8;
        bit_off = t % 8;
        assert(8 * byte_idx + bit_off == p + width);
        if code == end {
            return Ok(out);
        }
        if code == clear {
            dict = base_dictionary(clear);
            prev = None;
            width = first_width;
            limit = first_limit;
            proof {
                assert(entries_nonempty(base_dict(clear as nat), clear as nat));
            }
            continue;
        }
        let ghost dv = vecs_view(dict@);
        let ghost pvv = prev_view(prev);
        let mut entry: Vec<u8> = Vec::new();
        if code < dict.len() {
            append_bytes(&mut entry, dict[code].as_slice());
            assert(dv[code as int] == dict@[code as int]@);
        } else {
            match &prev {
                Some(pv) => {
                    append_bytes(&mut entry, pv.as_slice());
                    entry.push(pv[0]);
                },
                None => {
                    return Err(GifError::InvalidCode);
                },
            }
        }
        assert(entry_for(dv, pvv, code as nat) == Some(entry@));
        assert(entry@.len() > 0);
        append_bytes(&mut out, entry.as_slice());
        match prev {
            Some(pv) => {
                if dict.len() < MAX_ENTRIES {
                    let mut added = pv;
                    let ghost pv_seq = added@;
                    added.push(entry[0]);
                    dict.push(added);
                    proof {
                        assert(vecs_view(dict@) =~= dv.push(pv_seq.push(entry@[0])));
                    }
                }
                if dict.len() == limit && width < MAX_CODE_WIDTH {
                    proof {
                        lemma_exp2_le(width as nat, 11);
                        lemma_exp2_12();
                    }
                    width = width + 1;
                    limit = limit * 2;
                }
            },
            None => {},
        }
        prev = Some(entry);
    }
}
/// The code stream that `lzw::Encoder` writes, least significant bit first,
/// for `data` at minimum code size `min`.
pub uninterp spec fn lzw_encoded(data: Seq<u8>, min: u8) -> Seq<u8>;

/// Whether every byte of `data` is a literal code at minimum code size `min`,
/// and `min` leaves room for 12-bit codes.
pub open spec fn encodable(data: Seq<u8>, min: u8) -> bool {
    &&& min <= 11
    &&& forall|i: int| 0 <= i < data.len() ==> (#[trigger] data[i] as nat) < exp2(min as nat)
}

/// Relies on `lzw::Encoder` over an `lzw::LsbWriter`: it writes a clear code,
/// the codes for `data`, the end code, then zero bits up to the next byte
/// boundary (a whole zero byte where the codes end on one), and
/// what it writes depends on `data` and `min_code_size` alone. It panics on a
/// byte at or above `1 << min_code_size`, hence the `requires`.
#[verifier::external_body]
fn lzw_compress(data: &[u8], min_code_size: u8) -> (r: Vec<u8>)
    requires
        encodable(data@, min_code_size),
    ensures
        r@ == lzw_encoded(data@, min_code_size),
{
    let mut out: Vec<u8> = Vec::new();
    {
        let writer = lzw::LsbWriter::new(&mut out);
        let mut encoder = lzw::Encoder::new(writer, min_code_size).expect("writing to a Vec");
        encoder.encode_bytes(data).expect("writing to a Vec");
    }
    out
}

/// Whether the encoder can write `data` at minimum code size `min_code_size`.
pub fn is_encodable(data: &[u8], min_code_size: u8) -> (r: bool)
    ensures
        r == encodable(data@, min_code_size),
{
    if min_code_size > MAX_MIN_CODE_SIZE {
        return false;
    }
    let limit: usize = two_to(min_code_size);
    let mut i: usize = 0;
    while i < data.len()
        invariant
            i <= data@.len(),
            min_code_size <= 11,
            limit == exp2(min_code_size as nat),
            forall|j: int| 0 <= j < i ==> (#[trigger] data@[j] as nat) < limit,
        decreases data@.len() - i,
    {
        if data[i] as usize >= limit {
            return false;
        }
        i = i + 1;
    }
    true
}

/// Encodes `data` as an LZW code stream at minimum code size `min_code_size`,
/// or reports that the code size cannot express it.
pub fn lzw_encode(data: &[u8], min_code_size: u8) -> (r: Result<Vec<u8>, GifError>)
    ensures
        encodable(data@, min_code_size) ==> (r matches Ok(v) && v@ == lzw_encoded(
            data@,
            min_code_size,
        )),
        !encodable(data@, min_code_size) ==> r == Err::<Vec<u8>, GifError>(
            GifError::UnsupportedCodeSize,
        ),
{
    if !is_encodable(data, min_code_size) {
        return Err(GifError::UnsupportedCodeSize);
    }
    Ok(lzw_compress(data, min_code_size))
}

/// A code read from a prefix of a stream, wholly within that prefix, is the
/// code read from the stream.
pub proof fn lemma_code_at_prefix(s: Seq<u8>, t: Seq<u8>, p: int, w: nat)
    requires
        t.is_prefix_of(s),
        0 <= p,
        p + w <= 8 * t.len(),
    ensures
        code_at(t, p, w) == code_at(s, p, w),
    decreases w,
{
    if w > 0 {
        lemma_code_at_prefix(s, t, p, (w - 1) as nat);
        let k = p + w - 1;
        vstd::arithmetic::div_mod::lemma_fundamental_div_mod(k, 8);
        assert(0 <= k / 8 < t.len());
        assert(t[k / 8] == s[k / 8]);
    }
}

/// What decoding returns extends what was decoded before.
pub proof fn lemma_decode_extends(
    s: Seq<u8>,
    min: nat,
    p: nat,
    dict: Seq<Seq<u8>>,
    prev: Option<Seq<u8>>,
    width: nat,
    out: Seq<u8>,
)
    ensures
        decode_from(s, min, p, dict, prev, width, out) matches Ok(r) ==> out.is_prefix_of(r),
    decreases 8 * s.len() - p,
{
    if !(width == 0 || p + width > 8 * s.len()) {
        let code = code_at(s, p as int, width);
        let q = p + width;
        if code == exp2(min) + 1 {
        } else if code == exp2(min) {
            lemma_decode_extends(s, min, q, base_dict(exp2(min)), None, min + 1, out);
        } else {
            match entry_for(dict, prev, code) {
                None => {},
                Some(entry) => {
                    let (dict2, width2) = match prev {
                        None => (dict, width),
                        Some(pv) => {
                            let dict2 = if dict.len() < 4096 {
                                dict.push(pv.push(entry[0]))
                            } else {
                                dict
                            };
                            (dict2, if dict2.len() == exp2(width) && width < 12 {
                                width + 1
                            } else {
                                width
                            })
                        },
                    };
                    lemma_decode_extends(s, min, q, dict2, Some(entry), width2, out + entry);
                    if let Ok(r) = decode_from(s, min, p, dict, prev, width, out) {
                        assert(out =~= (out + entry).subrange(0, out.len() as int));
                        assert(out =~= r.subrange(0, out.len() as int));
                    }
                },
            }
        }
    }
}

/// Decoding a prefix of a stream that decodes succeeds too, with a prefix of
/// the result.
pub proof fn lemma_decode_from_prefix(
    s: Seq<u8>,
    t: Seq<u8>,
    min: nat,
    p: nat,
    dict: Seq<Seq<u8>>,
    prev: Option<Seq<u8>>,
    width: nat,
    out: Seq<u8>,
)
    requires
        t.is_prefix_of(s),
        decode_from(s, min, p, dict, prev, width, out) is Ok,
    ensures
        decode_from(t, min, p, dict, prev, width, out) matches Ok(rt) && rt.is_prefix_of(
            decode_from(s, min, p, dict, prev, width, out)->Ok_0,
        ),
    decreases 8 * s.len() - p,
{
    if width == 0 || p + width > 8 * t.len() {
        lemma_decode_extends(s, min, p, dict, prev, width, out);
    } else {
        lemma_code_at_prefix(s, t, p as int, width);
        let code = code_at(s, p as int, width);
        let q = p + width;
        if code == exp2(min) + 1 {
        } else if code == exp2(min) {
            lemma_decode_from_prefix(s, t, min, q, base_dict(exp2(min)), None, min + 1, out);
        } else {
            match entry_for(dict, prev, code) {
                None => {},
                Some(entry) => {
                    let (dict2, width2) = match prev {
                        None => (dict, width),
                        Some(pv) => {
                            let dict2 = if dict.len() < 4096 {
                                dict.push(pv.push(entry[0]))
                            } else {
                                dict
                            };
                            (dict2, if dict2.len() == exp2(width) && width < 12 {
                                width + 1
                            } else {
                                width
                            })
                        },
                    };
                    lemma_decode_from_prefix(s, t, min, q, dict2, Some(entry), width2, out + entry);
                },
            }
        }
    }
}

/// Decoding a prefix of a stream that decodes succeeds, and gives a prefix
/// of what the whole stream decodes to.
pub proof fn lemma_decoded_prefix(s: Seq<u8>, t: Seq<u8>, min: nat)
    requires
        t.is_prefix_of(s),
        lzw_decoded(s, min) is Ok,
    ensures
        lzw_decoded(t, min) matches Ok(q) && q.is_prefix_of(lzw_decoded(s, min)->Ok_0),
{
    lemma_decode_from_prefix(s, t, min, 0, base_dict(exp2(min)), None, min + 1, Seq::empty());
}

/// A code stream that opens with the clear code followed at once by the end
/// code decodes, successfully, to nothing.
pub proof fn lemma_clear_then_end_is_empty(s: Seq<u8>, min: nat)
    requires
        min <= 11,
        2 * (min + 1) <= 8 * s.len(),
        code_at(s, 0, (min + 1) as nat) == exp2(min),
        code_at(s, (min + 1) as int, (min + 1) as nat) == exp2(min) + 1,
    ensures
        lzw_decoded(s, min) == Ok::<Seq<u8>, GifError>(Seq::empty()),
{
    reveal_with_fuel(decode_from, 2);
}

} // verus!
