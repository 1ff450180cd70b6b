use vstd::prelude::*;

verus! {

/// Why the opening bytes of a BAM file were refused.
#[derive(Clone, Copy, Debug, PartialEq, Eq)]
pub enum ReadMagicError {
    /// Fewer than four bytes.
    UnexpectedEof,
    /// Four bytes other than `BAM\x01`.
    InvalidData,
}

/// Checks the first four bytes of a BAM file.
pub fn read_magic(src: &[u8]) -> (r: Result<(), ReadMagicError>)
    ensures
        src@.len() < 4 ==> r == Err::<(), ReadMagicError>(ReadMagicError::UnexpectedEof),
        src@.len() >= 4 ==> (r.is_ok() <==> src@.subrange(0, 4) == seq![0x42u8, 0x41u8, 0x4Du8, 0x01u8]),
        src@.len() >= 4 && r.is_err() ==> r == Err::<(), ReadMagicError>(ReadMagicError::InvalidData),
{
    if src.len() < 4 {
        return Err(ReadMagicError::UnexpectedEof);
    }
    if src[0] == 0x42 && src[1] == 0x41 && src[2] == 0x4D && src[3] == 0x01 {
        assert(src@.subrange(0, 4) =~= seq![0x42u8, 0x41u8, 0x4Du8, 0x01u8]);
        Ok(())
    } else {
        proof {
            if src@.subrange(0, 4) == seq![0x42u8, 0x41u8, 0x4Du8, 0x01u8] {
                assert(src@.subrange(0, 4)[0] == src@[0]);
                assert(src@.subrange(0, 4)[1] == src@[1]);
                assert(src@.subrange(0, 4)[2] == src@[2]);
                assert(src@.subrange(0, 4)[3] == src@[3]);
            }
        }
        Err(ReadMagicError::InvalidData)
    }
}

/// The base that a 4-bit code stands for.
pub open spec fn base_of(n: u8) -> u8 {
    let t = seq![
        0x3Du8, 0x41u8, 0x43u8, 0x4Du8, 0x47u8, 0x52u8, 0x53u8, 0x56u8,
        0x54u8, 0x57u8, 0x59u8, 0x48u8, 0x4Bu8, 0x44u8, 0x42u8, 0x4Eu8,
    ];
    t[(n % 16) as int]
}

/// Decodes a 4-bit base code: `=ACMGRSVTWYHKDBN`.
pub fn decode_base(n: u8) -> (r: u8)
    ensures
        r == base_of(n),
{
    let t: [u8; 16] = [
        0x3D, 0x41, 0x43, 0x4D, 0x47, 0x52, 0x53, 0x56, 0x54, 0x57, 0x59, 0x48, 0x4B, 0x44, 0x42, 0x4E,
    ];
    let r = t[(n % 16) as usize];
    assert(t@ =~= seq![
        0x3Du8, 0x41u8, 0x43u8, 0x4Du8, 0x47u8, 0x52u8, 0x53u8, 0x56u8,
        0x54u8, 0x57u8, 0x59u8, 0x48u8, 0x4Bu8, 0x44u8, 0x42u8, 0x4Eu8,
    ]);
    r
}

/// The base at index `i` of packed sequence `bases`: two per byte, the
/// high half first.
pub open spec fn base_at(bases: Seq<u8>, i: int) -> u8 {
    if i % 2 == 0 {
        base_of(bases[i / 2] / 16)
    } else {
        base_of(bases[i / 2] % 16)
    }
}

/// The bases `start..end` of a packed BAM sequence, from either end.
pub struct Iter<'a> {
    bases: &'a [u8],
    front: usize,
    back: usize,
}

impl<'a> Iter<'a> {
    pub closed spec fn bases(&self) -> Seq<u8> {
        self.bases@
    }

    /// The index of the next base from the front.
    pub closed spec fn front(&self) -> usize {
        self.front
    }

    /// One past the index of the next base from the back.
    pub closed spec fn back(&self) -> usize {
        self.back
    }

    pub closed spec fn wf(&self) -> bool {
        self.front <= self.back <= 2 * self.bases@.len()
    }

    /// The bases with indices `start..end`.
    pub fn new(bases: &'a [u8], start: usize, end: usize) -> (r: Self)
        requires
            start <= end <= 2 * bases@.len(),
        ensures
            r.wf(),
            r.bases() == bases@,
            r.front() == start,
            r.back() == end,
    {
        Iter { bases, front: start, back: end }
    }

    /// The next base from the front.
    pub fn next(&mut self) -> (r: Option<u8>)
        requires
            old(self).wf(),
        ensures
            final(self).wf(),
            final(self).bases() == old(self).bases(),
            final(self).back() == old(self).back(),
            old(self).front() < old(self).back() ==> r == Some(base_at(old(self).bases(), old(self).front() as int))
                && final(self).front() == old(self).front() + 1,
            old(self).front() >= old(self).back() ==> r.is_none() && final(self).front() == old(self).front(),
    {
        if self.front >= self.back {
            return None;
        }
        let b = self.bases[self.front / 2];
        let n = if self.front % 2 == 0 {
            b / 16
        } else {
            b % 16
        };
        self.front = self.front + 1;
        Some(decode_base(n))
    }

    /// The next base from the back.
    pub fn next_back(&mut self) -> (r: Option<u8>)
        requires
            old(self).wf(),
        ensures
            final(self).wf(),
            final(self).bases() == old(self).bases(),
            final(self).front() == old(self).front(),
            old(self).front() < old(self).back() ==> r == Some(base_at(old(self).bases(), old(self).back() - 1))
                && final(self).back() == old(self).back() - 1,
            old(self).front() >= old(self).back() ==> r.is_none() && final(self).back() == old(self).back(),
    {
        if self.front >= self.back {
            return None;
        }
        let i = self.back - 1;
        let b = self.bases[i / 2];
        let n = if i % 2 == 0 {
            b / 16
        } else {
            b % 16
        };
        self.back = i;
        Some(decode_base(n))
    }

    /// The number of bases left, as both bounds.
    pub fn size_hint(&self) -> (r: (usize, Option<usize>))
        requires
            self.wf(),
        ensures
            r == (((self.back() - self.front()) as usize, Some((self.back() - self.front()) as usize))),
    {
        (self.back - self.front, Some(self.back - self.front))
    }
}

} // verus!
