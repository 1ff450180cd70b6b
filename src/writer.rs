use vstd::prelude::*;
use crate::codec::{Encoding, Integer};
use crate::error::ReadRecordError;
use crate::num::{itf8_encode, write_itf8};

verus! {

/// The core stream being written. The codecs that write here are not
/// supported yet, so it only collects bytes handed to it.
pub struct BitWriter {
    buf: Vec<u8>,
}

impl BitWriter {
    pub closed spec fn view(&self) -> Seq<u8> {
        self.buf@
    }

    pub fn new() -> (r: Self)
        ensures
            r@ == Seq::<u8>::empty(),
    {
        BitWriter { buf: Vec::new() }
    }

    /// The bytes written.
    pub fn finish(self) -> (r: Vec<u8>)
        ensures
            r@ == self@,
    {
        self.buf
    }
}

/// One external block being written.
pub struct ExternalBlockWriter {
    pub content_id: i32,
    pub data: Vec<u8>,
}

/// The external blocks being written, by content id.
pub struct ExternalDataWriters {
    pub writers: Vec<ExternalBlockWriter>,
}

/// Index of the first writer with content id `id`.
pub open spec fn find_writer(s: Seq<(i32, Seq<u8>)>, id: i32) -> Option<int>
    decreases s.len(),
{
    if s.len() == 0 {
        None
    } else {
        match find_writer(s.drop_last(), id) {
            Some(i) => Some(i),
            None => if s.last().0 == id {
                Some(s.len() - 1)
            } else {
                None
            },
        }
    }
}

proof fn lemma_find_writer(s: Seq<(i32, Seq<u8>)>, id: i32)
    ensures
        match find_writer(s, id) {
            Some(i) => 0 <= i < s.len() && s[i].0 == id && forall|j: int|
                0 <= j < i ==> s[j].0 != id,
            None => forall|j: int| 0 <= j < s.len() ==> s[j].0 != id,
        },
    decreases s.len(),
{
    if s.len() > 0 {
        let t = s.drop_last();
        lemma_find_writer(t, id);
        assert(forall|j: int| 0 <= j < t.len() ==> t[j] == s[j]);
    }
}

impl ExternalDataWriters {
    pub open spec fn view(&self) -> Seq<(i32, Seq<u8>)> {
        self.writers@.map_values(|w: ExternalBlockWriter| (w.content_id, w.data@))
    }

    /// No content id twice.
    pub open spec fn wf(&self) -> bool {
        forall|i: int, j: int| 0 <= i < j < self@.len() ==> #[trigger] self@[i].0 != #[trigger] self@[j].0
    }

    pub fn new() -> (r: Self)
        ensures
            r.wf(),
            r@ == Seq::<(i32, Seq<u8>)>::empty(),
    {
        ExternalDataWriters { writers: Vec::new() }
    }

    /// Opens an empty block under `content_id` unless one is open already.
    pub fn insert(&mut self, content_id: i32)
        ensures
            old(self).wf() ==> final(self).wf(),
            find_writer(old(self)@, content_id).is_some() ==> final(self)@ == old(self)@,
            find_writer(old(self)@, content_id).is_none() ==> final(self)@ == old(self)@.push(
                (content_id, Seq::<u8>::empty()),
            ),
    {
        proof {
            lemma_find_writer(self@, content_id);
        }
        if self.find(content_id).is_none() {
            self.writers.push(ExternalBlockWriter { content_id, data: Vec::new() });
            assert(self@ =~= old(self)@.push((content_id, Seq::<u8>::empty())));
        }
    }

    /// Index of the block with `content_id`.
    pub fn find(&self, content_id: i32) -> (r: Option<usize>)
        ensures
            match r {
                Some(k) => find_writer(self@, content_id) == Some(k as int) && k < self@.len(),
                None => find_writer(self@, content_id).is_none(),
            },
    {
        let mut i: usize = 0;
        while i < self.writers.len()
            invariant
                0 <= i <= self.writers@.len(),
                forall|j: int| 0 <= j < i ==> self@[j].0 != content_id,
            decreases self.writers@.len() - i,
        {
            assert(self@[i as int] == (self.writers@[i as int].content_id, self.writers@[i as int].data@));
            if self.writers[i].content_id == content_id {
                proof {
                    lemma_find_writer(self@, content_id);
                    let f = find_writer(self@, content_id);
                    if f.is_none() {
                        assert(self@[i as int].0 == content_id);
                    } else {
                        let k = f.unwrap();
                        assert(!(k < i));
                        assert(!(k > i)) by {
                            if k > i {
                                assert(self@[i as int].0 == content_id);
                            }
                        }
                    }
                }
                return Some(i);
            }
            i = i + 1;
        }
        proof {
            lemma_find_writer(self@, content_id);
        }
        None
    }

    /// The bytes written to the block with `content_id`.
    pub fn get(&self, content_id: i32) -> (r: Option<&Vec<u8>>)
        ensures
            match find_writer(self@, content_id) {
                Some(i) => r.is_some() && r.unwrap()@ == self@[i].1,
                None => r.is_none(),
            },
    {
        match self.find(content_id) {
            Some(i) => {
                assert(self@[i as int] == (self.writers@[i as int].content_id, self.writers@[i as int].data@));
                Some(&self.writers[i].data)
            },
            None => None,
        }
    }
}

/// The streams after `value` is encoded with `c`: only an external
/// codec is supported, and it appends the ITF8 form of the value to its
/// block.
pub open spec fn encode_integer(c: Integer, ext: Seq<(i32, Seq<u8>)>, value: i32) -> Result<Seq<(i32, Seq<u8>)>, ReadRecordError> {
    match c {
        Integer::External { block_content_id } => match find_writer(ext, block_content_id) {
            None => Err(ReadRecordError::MissingExternalBlock(block_content_id)),
            Some(i) => Ok(ext.update(i, (block_content_id, ext[i].1 + itf8_encode(value)))),
        },
        _ => Err(ReadRecordError::NotImplemented),
    }
}

impl Integer {
    /// Encodes one integer. The core stream is left as it is.
    pub fn encode(&self, core: &mut BitWriter, ext: &mut ExternalDataWriters, value: i32) -> (r: Result<(), ReadRecordError>)
        ensures
            old(ext).wf() ==> final(ext).wf(),
            final(core)@ == old(core)@,
            match encode_integer(*self, old(ext)@, value) {
                Ok(s) => r.is_ok() && final(ext)@ == s,
                Err(e) => r == Err::<(), ReadRecordError>(e) && final(ext)@ == old(ext)@,
            },
    {
        match self {
            Integer::External { block_content_id } => match ext.find(*block_content_id) {
                None => Err(ReadRecordError::MissingExternalBlock(*block_content_id)),
                Some(i) => {
                    let mut w = ext.writers.remove(i);
                    proof {
                        lemma_find_writer(old(ext)@, *block_content_id);
                    }
                    write_itf8(&mut w.data, value);
                    ext.writers.insert(i, w);
                    assert(ext@ =~= old(ext)@.update(
                        i as int,
                        (*block_content_id, old(ext)@[i as int].1 + itf8_encode(value)),
                    ));
                    Ok(())
                },
            },
            _ => Err(ReadRecordError::NotImplemented),
        }
    }
}

impl Encoding<Integer> {
    pub fn encode(&self, core: &mut BitWriter, ext: &mut ExternalDataWriters, value: i32) -> (r: Result<(), ReadRecordError>)
        ensures
            old(ext).wf() ==> final(ext).wf(),
            final(core)@ == old(core)@,
            match encode_integer(self.codec(), old(ext)@, value) {
                Ok(s) => r.is_ok() && final(ext)@ == s,
                Err(e) => r == Err::<(), ReadRecordError>(e) && final(ext)@ == old(ext)@,
            },
    {
        self.get().encode(core, ext, value)
    }
}

} // verus!
