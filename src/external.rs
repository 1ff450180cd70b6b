use vstd::prelude::*;
use crate::error::ReadRecordError;
use crate::num::{itf8_at, itf8_bits, itf8_len, to_signed};
use crate::codec::find_byte;

verus! {

/// The reading state of one external block.
pub struct ExtState {
    pub id: i32,
    pub data: Seq<u8>,
    pub pos: int,
}

/// Index of the first entry of `s` with content id `id`.
pub open spec fn find_ext(s: Seq<ExtState>, id: i32) -> Option<int>
    decreases s.len(),
{
    if s.len() == 0 {
        None
    } else {
        match find_ext(s.drop_last(), id) {
            Some(i) => Some(i),
            None => if s.last().id == id {
                Some(s.len() - 1)
            } else {
                None
            },
        }
    }
}

pub proof fn lemma_find_ext(s: Seq<ExtState>, id: i32)
    ensures
        match find_ext(s, id) {
            Some(i) => 0 <= i < s.len() && s[i].id == id && forall|j: int|
                0 <= j < i ==> s[j].id != id,
            None => forall|j: int| 0 <= j < s.len() ==> s[j].id != id,
        },
    decreases s.len(),
{
    if s.len() > 0 {
        let t = s.drop_last();
        lemma_find_ext(t, id);
        assert(forall|j: int| 0 <= j < t.len() ==> t[j] == s[j]);
    }
}

/// Whether `b` is `a` with some cursors moved forward: the same blocks in
/// the same order, none rewound.
pub open spec fn ext_forward(a: Seq<ExtState>, b: Seq<ExtState>) -> bool {
    &&& a.len() == b.len()
    &&& forall|i: int|
        0 <= i < a.len() ==> #[trigger] b[i].id == a[i].id && b[i].data == a[i].data && a[i].pos
            <= b[i].pos
}

/// A byte cursor over one decompressed external block.
pub struct ExternalBlockReader {
    pub content_id: i32,
    pub data: Vec<u8>,
    pub pos: usize,
}

impl ExternalBlockReader {
    pub open spec fn view(&self) -> ExtState {
        ExtState { id: self.content_id, data: self.data@, pos: self.pos as int }
    }
}

/// The external blocks of a slice, by content id. Each is read forward
/// only.
pub struct ExternalDataReaders {
    pub readers: Vec<ExternalBlockReader>,
}

impl ExternalDataReaders {
    pub open spec fn view(&self) -> Seq<ExtState> {
        self.readers@.map_values(|r: ExternalBlockReader| r@)
    }

    /// Each cursor within its block, and no content id twice.
    pub open spec fn wf(&self) -> bool {
        &&& forall|i: int| 0 <= i < self.readers@.len() ==> self.readers@[i].pos <= self.readers@[i].data@.len()
        &&& forall|i: int, j: int|
            0 <= i < j < self.readers@.len() ==> #[trigger] self.readers@[i].content_id
                != #[trigger] self.readers@[j].content_id
    }

    pub fn new() -> (r: Self)
        ensures
            r.wf(),
            r@ == Seq::<ExtState>::empty(),
    {
        ExternalDataReaders { readers: Vec::new() }
    }

    /// Adds a block under `content_id`, replacing one already there.
    pub fn insert(&mut self, content_id: i32, data: Vec<u8>)
        requires
            old(self).wf(),
        ensures
            final(self).wf(),
            ({
                let st = ExtState { id: content_id, data: data@, pos: 0 };
                match find_ext(old(self)@, content_id) {
                    Some(i) => final(self)@ == old(self)@.update(i, st),
                    None => final(self)@ == old(self)@.push(st),
                }
            }),
    {
        proof {
            lemma_find_ext(self@, content_id);
        }
        let r = ExternalBlockReader { content_id, data, pos: 0 };
        let ghost old_readers = self.readers@;
        assert(forall|j: int| 0 <= j < old_readers.len() ==> self@[j].id == old_readers[j].content_id);
        match self.find(content_id) {
            Some(i) => {
                self.readers.set(i, r);
                assert(forall|j: int| 0 <= j < old_readers.len() && j != i ==> self.readers@[j] == old_readers[j]);
            },
            None => {
                self.readers.push(r);
                assert(forall|j: int| 0 <= j < old_readers.len() ==> self.readers@[j] == old_readers[j]);
            },
        }
        assert(self@ =~= match find_ext(old(self)@, content_id) {
            Some(i) => old(self)@.update(i, r@),
            None => old(self)@.push(r@),
        });
    }

    /// Index of the block with `content_id`.
    pub fn find(&self, content_id: i32) -> (r: Option<usize>)
        ensures
            match r {
                Some(k) => find_ext(self@, content_id) == Some(k as int) && k < self@.len(),
                None => find_ext(self@, content_id).is_none(),
            },
    {
        proof {
            lemma_find_ext(self@, content_id);
        }
        let mut i: usize = 0;
        while i < self.readers.len()
            invariant
                0 <= i <= self.readers@.len(),
                forall|j: int| 0 <= j < i ==> self@[j].id != content_id,
            decreases self.readers@.len() - i,
        {
            assert(self@[i as int] == self.readers@[i as int]@);
            if self.readers[i].content_id == content_id {
                proof {
                    lemma_find_ext(self@, content_id);
                    let f = find_ext(self@, content_id);
                    if f.is_none() {
                        assert(self@[i as int].id == content_id);
                    } else {
                        let k = f.unwrap();
                        assert(!(k < i));
                        assert(!(k > i)) by {
                            if k > i {
                                assert(self@[i as int].id == content_id);
                            }
                        }
                    }
                }
                return Some(i);
            }
            i = i + 1;
        }
        None
    }

    /// Takes the next byte of block `i`.
    pub fn read_u8(&mut self, i: usize) -> (r: Option<u8>)
        requires
            old(self).wf(),
            i < old(self)@.len(),
        ensures
            ext_forward(old(self)@, final(self)@),
            final(self).wf(),
            ({
                let e = old(self)@[i as int];
                if e.pos < e.data.len() {
                    r == Some(e.data[e.pos]) && final(self)@ == old(self)@.update(
                        i as int,
                        ExtState { pos: e.pos + 1, ..e },
                    )
                } else {
                    r.is_none() && final(self)@ == old(self)@
                }
            }),
    {
        let pos = self.readers[i].pos;
        if pos >= self.readers[i].data.len() {
            return None;
        }
        let b = self.readers[i].data[pos];
        let ghost e = self@[i as int];
        let mut r = self.readers.remove(i);
        r.pos = pos + 1;
        self.readers.insert(i, r);
        assert(self@ =~= old(self)@.update(i as int, ExtState { pos: e.pos + 1, ..e }));
        Some(b)
    }

    /// Takes the next `n` bytes of block `i`; nothing when fewer are left.
    pub fn read_bytes(&mut self, i: usize, n: usize) -> (r: Option<Vec<u8>>)
        requires
            old(self).wf(),
            i < old(self)@.len(),
        ensures
            ext_forward(old(self)@, final(self)@),
            final(self).wf(),
            ({
                let e = old(self)@[i as int];
                if e.pos + n <= e.data.len() {
                    r.is_some() && r.unwrap()@ == e.data.subrange(e.pos, e.pos + n)
                        && final(self)@ == old(self)@.update(
                        i as int,
                        ExtState { pos: e.pos + n, ..e },
                    )
                } else {
                    r.is_none() && final(self)@ == old(self)@
                }
            }),
    {
        let pos = self.readers[i].pos;
        let len = self.readers[i].data.len();
        if n > len - pos {
            return None;
        }
        let ghost e = self@[i as int];
        let mut out: Vec<u8> = Vec::new();
        let mut k: usize = 0;
        while k < n
            invariant
                self@ == old(self)@,
                e == self@[i as int],
                i < self.readers@.len(),
                pos == e.pos,
                pos + n <= e.data.len(),
                len == e.data.len(),
                0 <= k <= n,
                out@ == e.data.subrange(pos as int, pos + k),
            decreases n - k,
        {
            out.push(self.readers[i].data[pos + k]);
            k = k + 1;
            assert(out@ =~= e.data.subrange(pos as int, pos + k));
        }
        let mut r = self.readers.remove(i);
        r.pos = pos + n;
        self.readers.insert(i, r);
        assert(self@ =~= old(self)@.update(i as int, ExtState { pos: e.pos + n, ..e }));
        Some(out)
    }

    /// Reads one ITF8 integer from block `i`.
    pub fn read_itf8(&mut self, i: usize) -> (r: Result<i32, ReadRecordError>)
        requires
            old(self).wf(),
            i < old(self)@.len(),
        ensures
            ext_forward(old(self)@, final(self)@),
            final(self).wf(),
            final(self)@.len() == old(self)@.len(),
            ({
                let e = old(self)@[i as int];
                match itf8_at(e.data, e.pos) {
                    Some((v, p)) => r == Ok::<i32, ReadRecordError>(v) && final(self)@ == old(
                        self,
                    )@.update(i as int, ExtState { pos: p, ..e }),
                    None => r == Err::<i32, ReadRecordError>(ReadRecordError::UnexpectedEof)
                        && final(self)@ == old(self)@,
                }
            }),
    {
        let pos = self.readers[i].pos;
        let len = self.readers[i].data.len();
        if pos >= len {
            return Err(ReadRecordError::UnexpectedEof);
        }
        let b0 = self.readers[i].data[pos];
        let n: usize = if b0 < 0x80 {
            1
        } else if b0 < 0xC0 {
            2
        } else if b0 < 0xE0 {
            3
        } else if b0 < 0xF0 {
            4
        } else {
            5
        };
        if n > len - pos {
            return Err(ReadRecordError::UnexpectedEof);
        }
        let ghost e = self@[i as int];
        let b = match self.read_bytes(i, n) {
            Some(b) => b,
            None => {
                return Err(ReadRecordError::UnexpectedEof);
            },
        };
        proof {
            let rest = e.data.subrange(e.pos, e.data.len() as int);
            assert(rest[0] == b@[0]);
            assert(forall|k: int| 0 <= k < n ==> rest[k] == b@[k]);
        }
        let v: u32 = if n == 1 {
            b0 as u32
        } else if n == 2 {
            (b[0] - 0x80) as u32 * 0x100 + b[1] as u32
        } else if n == 3 {
            (b[0] - 0xC0) as u32 * 0x1_0000 + b[1] as u32 * 0x100 + b[2] as u32
        } else if n == 4 {
            (b[0] - 0xE0) as u32 * 0x100_0000 + b[1] as u32 * 0x1_0000 + b[2] as u32 * 0x100
                + b[3] as u32
        } else {
            (b[0] % 16) as u32 * 0x1000_0000 + b[1] as u32 * 0x10_0000 + b[2] as u32 * 0x1000
                + b[3] as u32 * 0x10 + (b[4] % 16) as u32
        };
        Ok(to_signed(v))
    }

    /// Takes the bytes of block `i` up to the next `stop` byte, and the stop
    /// byte after them.
    pub fn read_until(&mut self, i: usize, stop: u8) -> (r: Result<Vec<u8>, ReadRecordError>)
        requires
            old(self).wf(),
            i < old(self)@.len(),
        ensures
            ext_forward(old(self)@, final(self)@),
            final(self).wf(),
            ({
                let e = old(self)@[i as int];
                match find_byte(e.data, e.pos, stop) {
                    Some(k) => r.is_ok() && r.unwrap()@ == e.data.subrange(e.pos, k)
                        && final(self)@ == old(self)@.update(i as int, ExtState { pos: k + 1, ..e }),
                    None => r == Err::<Vec<u8>, ReadRecordError>(ReadRecordError::UnexpectedEof)
                        && final(self)@ == old(self)@,
                }
            }),
    {
        let ghost e = self@[i as int];
        let pos = self.readers[i].pos;
        let len = self.readers[i].data.len();
        let mut k: usize = pos;
        loop
            invariant_except_break
                pos <= k <= len,
                find_byte(e.data, e.pos, stop) == find_byte(e.data, k as int, stop),
            invariant
                self@ == old(self)@,
                e == self@[i as int],
                i < self.readers@.len(),
                pos == e.pos,
                len == e.data.len(),
            ensures
                k < len ==> find_byte(e.data, e.pos, stop) == Some(k as int),
                k >= len ==> find_byte(e.data, e.pos, stop).is_none(),
                pos <= k,
            decreases len - k,
        {
            if k >= len {
                break;
            }
            if self.readers[i].data[k] == stop {
                break;
            }
            k = k + 1;
        }
        if k >= len {
            return Err(ReadRecordError::UnexpectedEof);
        }
        let out = match self.read_bytes(i, k - pos) {
            Some(b) => b,
            None => {
                return Err(ReadRecordError::UnexpectedEof);
            },
        };
        let ghost mid = self@;
        assert(mid[i as int] == ExtState { pos: k as int, ..e });
        let _ = self.read_u8(i);
        assert(self@ =~= old(self)@.update(i as int, ExtState { pos: k + 1, ..e }));
        Ok(out)
    }
}

} // verus!
