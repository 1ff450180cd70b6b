use vstd::prelude::*;
use crate::codec::find_byte;

verus! {

/// Where the line that starts at `pos` ends, its line feed included.
pub open spec fn line_end(src: Seq<u8>, pos: int) -> int {
    match find_byte(src, pos, 0x0A) {
        Some(k) => k + 1,
        None => src.len() as int,
    }
}

/// The text of the line that starts at `pos`, without its line feed and
/// a carriage return before it.
pub open spec fn line_text(src: Seq<u8>, pos: int) -> Seq<u8> {
    let line = src.subrange(pos, line_end(src, pos));
    if line.len() > 0 && line.last() == 0x0A {
        let l = line.drop_last();
        if l.len() > 0 && l.last() == 0x0D {
            l.drop_last()
        } else {
            l
        }
    } else {
        line
    }
}

/// Appends the line of `src` at `*pos` to `buf` without its line ending,
/// moves `*pos` past it, and returns the number of bytes taken; 0 at the
/// end of `src`.
pub fn read_line(src: &[u8], pos: &mut usize, buf: &mut Vec<u8>) -> (r: usize)
    requires
        *old(pos) <= src@.len(),
    ensures
        *final(pos) == if *old(pos) == src@.len() {
            *old(pos) as int
        } else {
            line_end(src@, *old(pos) as int)
        },
        r == *final(pos) - *old(pos),
        *old(pos) < src@.len() ==> *old(pos) < *final(pos),
        *old(pos) < src@.len() ==> final(buf)@ == old(buf)@ + line_text(src@, *old(pos) as int),
        *old(pos) == src@.len() ==> final(buf)@ == old(buf)@,
        *final(pos) <= src@.len(),
{
    let len = src.len();
    let start = *pos;
    if start == len {
        return 0;
    }
    let mut k: usize = start;
    loop
        invariant_except_break
            start <= k <= len,
            find_byte(src@, start as int, 0x0A) == find_byte(src@, k as int, 0x0A),
        invariant
            len == src@.len(),
            start < len,
        ensures
            start <= k <= len,
            k < len ==> find_byte(src@, start as int, 0x0A) == Some(k as int),
            k >= len ==> find_byte(src@, start as int, 0x0A).is_none(),
        decreases len - k,
    {
        if k >= len || src[k] == 0x0A {
            break;
        }
        k = k + 1;
    }
    let end = if k < len {
        k + 1
    } else {
        len
    };
    let mut text_end = end;
    if text_end > start && src[text_end - 1] == 0x0A {
        text_end = text_end - 1;
        if text_end > start && src[text_end - 1] == 0x0D {
            text_end = text_end - 1;
        }
    }
    let ghost before = buf@;
    let mut i = start;
    while i < text_end
        invariant
            start <= i <= text_end <= end <= len,
            len == src@.len(),
            buf@ == before + src@.subrange(start as int, i as int),
        decreases text_end - i,
    {
        buf.push(src[i]);
        i = i + 1;
        assert(buf@ =~= before + src@.subrange(start as int, i as int));
    }
    proof {
        let line = src@.subrange(start as int, end as int);
        assert(line.len() > 0 && line.last() == 0x0A ==> line.drop_last() =~= src@.subrange(start as int, end - 1));
        assert(end - 1 > start && src@[end - 2] == 0x0D && line.last() == 0x0A ==> line.drop_last().drop_last() =~= src@.subrange(start as int, end - 2));
    }
    *pos = end;
    end - start
}

/// A FASTA reader over bytes in memory.
pub struct Reader<'a> {
    inner: &'a [u8],
    pos: usize,
}

/// The bases of the sequence lines from `pos` up to the next definition
/// line or the end, and where they end.
pub open spec fn sequence_from(src: Seq<u8>, pos: int) -> (Seq<u8>, int)
    decreases src.len() - pos,
{
    if pos < 0 || pos >= src.len() || src[pos] == 0x3E {
        (Seq::empty(), pos)
    } else {
        let next = line_end(src, pos);
        if pos < next <= src.len() {
            let (rest, end) = sequence_from(src, next);
            (line_text(src, pos) + rest, end)
        } else {
            (line_text(src, pos), pos)
        }
    }
}

impl<'a> Reader<'a> {
    pub closed spec fn source(&self) -> Seq<u8> {
        self.inner@
    }

    /// The index of the next byte to read.
    pub closed spec fn position(&self) -> usize {
        self.pos
    }

    pub closed spec fn wf(&self) -> bool {
        self.pos <= self.inner@.len()
    }

    pub fn new(inner: &'a [u8]) -> (r: Self)
        ensures
            r.wf(),
            r.source() == inner@,
            r.position() == 0,
    {
        Reader { inner, pos: 0 }
    }

    /// The underlying bytes.
    pub fn get_ref(&self) -> (r: &'a [u8])
        ensures
            r@ == self.source(),
    {
        self.inner
    }

    /// The underlying bytes, giving up the reader.
    pub fn into_inner(self) -> (r: &'a [u8])
        ensures
            r@ == self.source(),
    {
        self.inner
    }

    /// Reads the definition line into `buf`, without its line ending;
    /// returns the number of bytes taken, 0 at the end.
    pub fn read_definition(&mut self, buf: &mut Vec<u8>) -> (r: usize)
        requires
            old(self).wf(),
        ensures
            final(self).wf(),
            final(self).source() == old(self).source(),
            old(self).position() < old(self).source().len() ==> final(buf)@ == old(buf)@ + line_text(
                old(self).source(),
                old(self).position() as int,
            ) && final(self).position() == line_end(old(self).source(), old(self).position() as int),
            r == final(self).position() - old(self).position(),
    {
        let mut pos = self.pos;
        let n = read_line(self.inner, &mut pos, buf);
        self.pos = pos;
        n
    }

    /// Appends the sequence that follows a definition to `buf`, without line
    /// endings, up to the next definition or the end; returns the number of
    /// bases appended.
    pub fn read_sequence(&mut self, buf: &mut Vec<u8>) -> (r: usize)
        requires
            old(self).wf(),
        ensures
            final(self).wf(),
            final(self).source() == old(self).source(),
            final(buf)@ == old(buf)@ + sequence_from(old(self).source(), old(self).position() as int).0,
            final(self).position() == sequence_from(old(self).source(), old(self).position() as int).1,
            r == sequence_from(old(self).source(), old(self).position() as int).0.len(),
    {
        let src = self.inner;
        let len = src.len();
        let ghost start = self.pos as int;
        let ghost before = buf@;
        let start_len = buf.len();
        let mut pos = self.pos;
        while pos < len && src[pos] != 0x3E
            invariant
                len == src@.len(),
                src@ == self.source(),
                self.source() == old(self).source(),
                start == old(self).position(),
                pos <= len,
                buf@.len() >= before.len(),
                start_len == before.len(),
                buf@.subrange(0, before.len() as int) == before,
                before == old(buf)@,
                sequence_from(src@, start) == (buf@.subrange(before.len() as int, buf@.len() as int) + sequence_from(src@, pos as int).0, sequence_from(src@, pos as int).1),
            decreases len - pos,
        {
            let ghost mid = buf@;
            let ghost p0 = pos as int;
            read_line(src, &mut pos, buf);
            proof {
                let (rest, end) = sequence_from(src@, pos as int);
                assert(sequence_from(src@, p0) == (line_text(src@, p0) + rest, end));
                assert(buf@.subrange(0, before.len() as int) =~= mid.subrange(0, before.len() as int));
                assert(buf@.subrange(before.len() as int, buf@.len() as int) =~= mid.subrange(before.len() as int, mid.len() as int) + line_text(src@, p0));
                assert(mid.subrange(before.len() as int, mid.len() as int) + (line_text(src@, p0) + rest) =~= buf@.subrange(before.len() as int, buf@.len() as int) + rest);
            }
        }
        assert(buf@ =~= before + buf@.subrange(before.len() as int, buf@.len() as int));
        self.pos = pos;
        assert(sequence_from(src@, pos as int).0 =~= Seq::<u8>::empty());
        assert(buf@.subrange(before.len() as int, buf@.len() as int) + Seq::<u8>::empty() =~= buf@.subrange(before.len() as int, buf@.len() as int));
        buf.len() - start_len
    }
}

} // verus!
