//! A cursor over an input byte slice, and the little-endian and sub-block
//! framing used throughout the format.
use crate::types::GifError;
use vstd::prelude::*;

verus! {

/// The 16-bit little-endian value of the two bytes at `i` and `i + 1`.
pub open spec fn u16_le_at(s: Seq<u8>, i: int) -> u16 {
    (s[i] as int + 256 * (s[i + 1] as int)) as u16
}

/// The views of a sequence of byte vectors.
pub open spec fn vecs_view(d: Seq<Vec<u8>>) -> Seq<Seq<u8>> {
    d.map_values(|v: Vec<u8>| v@)
}

/// The sub-blocks that start at `pos`: the payload of each, up to the
/// zero-length terminator, and the position after the terminator; `None`
/// where the input ends first.
pub open spec fn sub_blocks(b: Seq<u8>, pos: int) -> Option<(Seq<Seq<u8>>, int)>
    decreases b.len() - pos,
{
    if pos < 0 || pos >= b.len() {
        None
    } else if b[pos] == 0 {
        Some((Seq::empty(), pos + 1))
    } else {
        let end = pos + 1 + b[pos];
        if end > b.len() {
            None
        } else {
            match sub_blocks(b, end) {
                Some((rest, e)) => Some((seq![b.subrange(pos + 1, end)] + rest, e)),
                None => None,
            }
        }
    }
}

/// The sub-blocks that start at `pos`, read leniently: the concatenated
/// payload up to the terminator, or up to the end of the input where it ends
/// first, and the position after what was read.
pub open spec fn lenient_sub_blocks(b: Seq<u8>, pos: int) -> (Seq<u8>, int)
    decreases b.len() - pos,
{
    if pos < 0 || pos >= b.len() {
        (Seq::empty(), b.len() as int)
    } else if b[pos] == 0 {
        (Seq::empty(), pos + 1)
    } else {
        let end = pos + 1 + b[pos];
        if end > b.len() {
            (b.subrange(pos + 1, b.len() as int), b.len() as int)
        } else {
            let (rest, e) = lenient_sub_blocks(b, end);
            (b.subrange(pos + 1, end) + rest, e)
        }
    }
}

/// A sub-block sequence that can be read ends past its start.
pub proof fn lemma_sub_blocks_advance(b: Seq<u8>, pos: int)
    ensures
        sub_blocks(b, pos) matches Some((_, e)) ==> pos < e <= b.len(),
    decreases b.len() - pos,
{
    if 0 <= pos < b.len() && b[pos] != 0 && pos + 1 + b[pos] <= b.len() {
        lemma_sub_blocks_advance(b, pos + 1 + b[pos]);
    }
}

/// A lenient read of sub-blocks from within the input ends no earlier than it
/// starts, and within the input.
pub proof fn lemma_lenient_advance(b: Seq<u8>, pos: int)
    requires
        0 <= pos <= b.len(),
    ensures
        pos <= lenient_sub_blocks(b, pos).1 <= b.len(),
    decreases b.len() - pos,
{
    if 0 <= pos < b.len() && b[pos] != 0 && pos + 1 + b[pos] <= b.len() {
        lemma_lenient_advance(b, pos + 1 + b[pos]);
    }
}

/// Reading sub-blocks leniently from an input cut at `j` gives a prefix of
/// what the whole input gives.
pub proof fn lemma_lenient_truncated(b: Seq<u8>, j: int, pos: int)
    requires
        0 <= pos,
        0 <= j <= b.len(),
    ensures
        lenient_sub_blocks(b.take(j), pos).0.is_prefix_of(lenient_sub_blocks(b, pos).0),
    decreases b.len() - pos,
{
    let c = b.take(j);
    if pos < j && b[pos] != 0 {
        assert(c[pos] == b[pos]);
        let end = pos + 1 + b[pos];
        if end <= j {
            lemma_lenient_truncated(b, j, end);
            assert(c.subrange(pos + 1, end) =~= b.subrange(pos + 1, end));
            let rc = lenient_sub_blocks(c, end).0;
            let rb = lenient_sub_blocks(b, end).0;
            assert(b.subrange(pos + 1, end) + rc =~= (b.subrange(pos + 1, end) + rb).subrange(
                0,
                (end - pos - 1) + rc.len(),
            ));
        } else {
            assert(c.subrange(pos + 1, j) =~= b.subrange(pos + 1, j));
            if end > b.len() {
                assert(b.subrange(pos + 1, j) =~= b.subrange(pos + 1, b.len() as int).subrange(
                    0,
                    j - pos - 1,
                ));
            } else {
                let rb = lenient_sub_blocks(b, end).0;
                assert(b.subrange(pos + 1, j) =~= (b.subrange(pos + 1, end) + rb).subrange(
                    0,
                    j - pos - 1,
                ));
            }
        }
    } else if pos < j {
        assert(c[pos] == b[pos]);
    }
}

/// Prepends `acc` to the blocks of a sub-block result.
pub open spec fn prepend_blocks(acc: Seq<Seq<u8>>, r: Option<(Seq<Seq<u8>>, int)>) -> Option<
    (Seq<Seq<u8>>, int),
> {
    match r {
        Some((rest, e)) => Some((acc + rest, e)),
        None => None,
    }
}

/// The concatenation of byte vectors.
pub fn concat(blocks: &Vec<Vec<u8>>) -> (r: Vec<u8>)
    ensures
        r@ == vecs_view(blocks@).flatten(),
{
    let mut out: Vec<u8> = Vec::new();
    let mut i: usize = 0;
    while i < blocks.len()
        invariant
            i <= blocks@.len(),
            out@ == vecs_view(blocks@).subrange(0, i as int).flatten_alt(),
        decreases blocks@.len() - i,
    {
        append_bytes(&mut out, blocks[i].as_slice());
        assert(vecs_view(blocks@).subrange(0, i + 1).drop_last() =~= vecs_view(blocks@).subrange(
            0,
            i as int,
        ));
        i = i + 1;
    }
    proof {
        assert(vecs_view(blocks@).subrange(0, blocks@.len() as int) =~= vecs_view(blocks@));
        vecs_view(blocks@).lemma_flatten_and_flatten_alt_are_equivalent();
    }
    out
}

/// Appends `src` to `dst`.
pub fn append_bytes(dst: &mut Vec<u8>, src: &[u8])
    ensures
        final(dst)@ == old(dst)@ + src@,
{
    let ghost start = dst@;
    let mut i: usize = 0;
    while i < src.len()
        invariant
            i <= src@.len(),
            dst@ == start + src@.subrange(0, i as int),
        decreases src@.len() - i,
    {
        dst.push(src[i]);
        i = i + 1;
        assert(dst@ =~= start + src@.subrange(0, i as int));
    }
    assert(src@.subrange(0, src@.len() as int) =~= src@);
}

/// A read position in an input byte slice.
pub struct ByteReader<'a> {
    pub data: &'a [u8],
    pub pos: usize,
}

impl<'a> ByteReader<'a> {
    /// The input bytes.
    pub open spec fn bytes(&self) -> Seq<u8> {
        self.data@
    }

    /// The position lies within the input.
    pub open spec fn wf(&self) -> bool {
        self.pos <= self.data@.len()
    }

    /// Number of bytes left to read from the current position.
    pub open spec fn left(&self) -> int {
        self.data@.len() - self.pos
    }

    /// Whether `n` more bytes can be read.
    pub open spec fn has(&self, n: int) -> bool {
        self.pos + n <= self.data@.len()
    }

    pub fn new(data: &'a [u8]) -> (r: Self)
        ensures
            r.data@ == data@,
            r.pos == 0,
            r.wf(),
    {
        ByteReader { data, pos: 0 }
    }

    /// The current read position.
    pub fn track_position(&self) -> (r: usize)
        ensures
            r == self.pos,
    {
        self.pos
    }

    /// Whether the whole input has been read.
    pub fn at_end(&self) -> (r: bool)
        ensures
            r == !self.has(1),
    {
        self.pos >= self.data.len()
    }

    /// Reads one byte.
    pub fn read_u8(&mut self) -> (r: Result<u8, GifError>)
        requires
            old(self).wf(),
        ensures
            final(self).wf(),
            final(self).data == old(self).data,
            old(self).has(1) ==> r == Ok::<u8, GifError>(old(self).bytes()[old(self).pos as int])
                && final(self).pos == old(self).pos + 1,
            !old(self).has(1) ==> r == Err::<u8, GifError>(GifError::UnexpectedEof)
                && final(self).pos == old(self).pos,
    {
        if self.pos < self.data.len() {
            let b = self.data[self.pos];
            self.pos = self.pos + 1;
            Ok(b)
        } else {
            Err(GifError::UnexpectedEof)
        }
    }

    /// Reads a 16-bit little-endian value.
    pub fn read_u16_le(&mut self) -> (r: Result<u16, GifError>)
        requires
            old(self).wf(),
        ensures
            final(self).wf(),
            final(self).data == old(self).data,
            old(self).has(2) ==> r == Ok::<u16, GifError>(
                u16_le_at(old(self).bytes(), old(self).pos as int),
            ) && final(self).pos == old(self).pos + 2,
            !old(self).has(2) ==> r == Err::<u16, GifError>(GifError::UnexpectedEof)
                && final(self).pos == old(self).pos,
    {
        if self.data.len() - self.pos < 2 {
            return Err(GifError::UnexpectedEof);
        }
        let lo = self.data[self.pos] as u16;
        let hi = self.data[self.pos + 1] as u16;
        self.pos = self.pos + 2;
        Ok(lo + hi * 256)
    }

    /// Reads `n` bytes.
    pub fn read_bytes(&mut self, n: usize) -> (r: Result<Vec<u8>, GifError>)
        requires
            old(self).wf(),
        ensures
            final(self).wf(),
            final(self).data == old(self).data,
            old(self).has(n as int) ==> (r matches Ok(v) && v@ == old(self).bytes().subrange(
                old(self).pos as int,
                old(self).pos + n,
            )) && final(self).pos == old(self).pos + n,
            !old(self).has(n as int) ==> r == Err::<Vec<u8>, GifError>(GifError::UnexpectedEof)
                && final(self).pos == old(self).pos,
    {
        if self.data.len() - self.pos < n {
            return Err(GifError::UnexpectedEof);
        }
        let v = self.take_upto(n);
        Ok(v)
    }

    /// Reads at most `n` bytes: all of them where that many are left, else
    /// what is left.
    pub fn take_upto(&mut self, n: usize) -> (r: Vec<u8>)
        requires
            old(self).wf(),
        ensures
            final(self).wf(),
            final(self).data == old(self).data,
            old(self).has(n as int) ==> r@ == old(self).bytes().subrange(
                old(self).pos as int,
                old(self).pos + n,
            ) && final(self).pos == old(self).pos + n,
            !old(self).has(n as int) ==> r@ == old(self).bytes().subrange(
                old(self).pos as int,
                old(self).bytes().len() as int,
            ) && final(self).pos == old(self).bytes().len(),
    {
        let start = self.pos;
        let len = self.data.len();
        let end = if len - start >= n { start + n } else { len };
        let mut v: Vec<u8> = Vec::new();
        let mut i: usize = start;
        while i < end
            invariant
                start <= i <= end <= len == self.data@.len(),
                v@ == self.data@.subrange(start as int, i as int),
            decreases end - i,
        {
            v.push(self.data[i]);
            i = i + 1;
        }
        self.pos = end;
        v
    }

    /// Reads sub-blocks up to the zero-length terminator and returns the
    /// payload of each.
    pub fn read_sub_blocks(&mut self) -> (r: Result<Vec<Vec<u8>>, GifError>)
        requires
            old(self).wf(),
        ensures
            final(self).wf(),
            final(self).data == old(self).data,
            match sub_blocks(old(self).bytes(), old(self).pos as int) {
                Some((blocks, e)) => (r matches Ok(v) && vecs_view(v@) == blocks)
                    && final(self).pos == e,
                None => r == Err::<Vec<Vec<u8>>, GifError>(GifError::UnexpectedEof),
            },
    {
        let ghost b = self.bytes();
        let ghost start = self.pos as int;
        let mut blocks: Vec<Vec<u8>> = Vec::new();
        loop
            invariant
                self.wf(),
                self.data == old(self).data,
                b == self.bytes(),
                b == old(self).bytes(),
                start == old(self).pos,
                sub_blocks(b, start) == prepend_blocks(
                    vecs_view(blocks@),
                    sub_blocks(b, self.pos as int),
                ),
            decreases self.left(),
        {
            let ghost here = self.pos as int;
            let n = match self.read_u8() {
                Ok(n) => n,
                Err(e) => {
                    assert(sub_blocks(b, here) is None);
                    return Err(e);
                },
            };
            if n == 0 {
                assert(sub_blocks(b, here) == Some((Seq::<Seq<u8>>::empty(), here + 1)));
                assert(vecs_view(blocks@) + Seq::<Seq<u8>>::empty() =~= vecs_view(blocks@));
                return Ok(blocks);
            }
            let block = match self.read_bytes(n as usize) {
                Ok(v) => v,
                Err(e) => {
                    assert(sub_blocks(b, here) is None);
                    return Err(e);
                },
            };
            let ghost before = blocks@;
            blocks.push(block);
            proof {
                assert(vecs_view(blocks@) =~= vecs_view(before).push(block@));
                match sub_blocks(b, self.pos as int) {
                    Some((rest, e)) => {
                        assert(vecs_view(before) + (seq![block@] + rest) =~= vecs_view(blocks@)
                            + rest);
                    },
                    None => {},
                }
            }
        }
    }

    /// Reads sub-blocks up to the zero-length terminator and returns their
    /// concatenated payload.
    pub fn read_sub_block_data(&mut self) -> (r: Result<Vec<u8>, GifError>)
        requires
            old(self).wf(),
        ensures
            final(self).wf(),
            final(self).data == old(self).data,
            match sub_blocks(old(self).bytes(), old(self).pos as int) {
                Some((blocks, e)) => (r matches Ok(v) && v@ == blocks.flatten()) && final(self).pos
                    == e,
                None => r == Err::<Vec<u8>, GifError>(GifError::UnexpectedEof),
            },
    {
        let blocks = self.read_sub_blocks()?;
        Ok(concat(&blocks))
    }

    /// Reads sub-blocks up to the zero-length terminator, or up to the end of
    /// the input where it ends first, and returns their concatenated payload.
    pub fn read_sub_blocks_lenient(&mut self) -> (r: Vec<u8>)
        requires
            old(self).wf(),
        ensures
            final(self).wf(),
            final(self).data == old(self).data,
            (r@, final(self).pos as int) == lenient_sub_blocks(
                old(self).bytes(),
                old(self).pos as int,
            ),
    {
        let ghost b = self.bytes();
        let ghost start = self.pos as int;
        let mut out: Vec<u8> = Vec::new();
        loop
            invariant
                self.wf(),
                self.data == old(self).data,
                b == self.bytes(),
                b == old(self).bytes(),
                start == old(self).pos,
                lenient_sub_blocks(b, start) == (
                    out@ + lenient_sub_blocks(b, self.pos as int).0,
                    lenient_sub_blocks(b, self.pos as int).1,
                ),
            decreases self.left(),
        {
            let ghost before = out@;
            let ghost here = self.pos as int;
            if self.at_end() {
                assert(lenient_sub_blocks(b, here) == (Seq::<u8>::empty(), b.len() as int));
                assert(out@ + Seq::<u8>::empty() =~= out@);
                return out;
            }
            let n = match self.read_u8() {
                Ok(n) => n,
                Err(_) => {
                    return out;
                },
            };
            if n == 0 {
                assert(lenient_sub_blocks(b, here) == (Seq::<u8>::empty(), here + 1));
                assert(out@ + Seq::<u8>::empty() =~= out@);
                return out;
            }
            let chunk = self.take_upto(n as usize);
            append_bytes(&mut out, chunk.as_slice());
            proof {
                let rest = lenient_sub_blocks(b, self.pos as int).0;
                assert(before + (chunk@ + rest) =~= out@ + rest);
                if self.pos == b.len() {
                    assert(out@ + Seq::<u8>::empty() =~= out@);
                }
            }
        }
    }
}

} // verus!
