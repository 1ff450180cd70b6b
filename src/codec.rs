use vstd::prelude::*;
use crate::bit_reader::{bits_value, lemma_pow2_mono, lemma_pow2_values, pow2_u64, zero_run, BitReader};
use crate::error::ReadRecordError;
use crate::external::{ext_forward, find_ext, ExtState, ExternalDataReaders};
use crate::huffman::{huffman_decode, pow2, CanonicalHuffmanDecoder};
use crate::num::{as_signed, itf8_at, to_signed};

verus! {

/// Where the core stream and every external block stand.
pub struct StreamState {
    pub core: Seq<u8>,
    pub core_pos: int,
    pub ext: Seq<ExtState>,
}

pub open spec fn streams(core: BitReader, ext: ExternalDataReaders) -> StreamState {
    StreamState { core: core.src@, core_pos: core.pos as int, ext: ext@ }
}

/// Whether the streams went from `a` to `b` by reading only: the same
/// bytes, and no cursor rewound.
pub open spec fn forward(a: StreamState, b: StreamState) -> bool {
    &&& a.core == b.core
    &&& a.core_pos <= b.core_pos
    &&& ext_forward(a.ext, b.ext)
}

/// Whether `r` is an error for a missing external block.
pub open spec fn is_missing_block<T>(r: Result<T, ReadRecordError>) -> bool {
    r matches Err(ReadRecordError::MissingExternalBlock(_))
}

/// Whether the result `r` of a decode call is the one that `expected` gives,
/// with the streams left at `after`.
pub open spec fn outcome<T>(
    r: Result<T, ReadRecordError>,
    expected: Result<(T, StreamState), ReadRecordError>,
    after: StreamState,
) -> bool {
    match expected {
        Ok((v, s)) => r == Ok::<T, ReadRecordError>(v) && after == s,
        Err(e) => r == Err::<T, ReadRecordError>(e),
    }
}

pub open spec fn fits_i32(v: int) -> bool {
    i32::MIN <= v <= i32::MAX
}

/// An integer codec of the compression header.
pub enum Integer {
    External { block_content_id: i32 },
    Golomb { offset: i32, m: i32 },
    Huffman { alphabet: Vec<i32>, bit_lens: Vec<u32> },
    Beta { offset: i32, len: u32 },
    Subexp { offset: i32, k: i32 },
    GolombRice { offset: i32, log2_m: i32 },
    Gamma { offset: i32 },
}

/// A byte codec of the compression header.
pub enum Byte {
    External { block_content_id: i32 },
    Huffman { alphabet: Vec<i32>, bit_lens: Vec<u32> },
}

/// A byte-string codec of the compression header.
pub enum ByteArray {
    /// A length, then that many bytes.
    ByteArrayLen { len_encoding: Integer, value_encoding: Byte },
    /// Bytes of an external block up to a stop byte.
    ByteArrayStop { stop_byte: u8, block_content_id: i32 },
}

/// The ITF8 integer at the cursor of external block `id`.
pub open spec fn read_ext_itf8(s: StreamState, id: i32) -> Result<(i32, StreamState), ReadRecordError> {
    match find_ext(s.ext, id) {
        None => Err(ReadRecordError::MissingExternalBlock(id)),
        Some(i) => match itf8_at(s.ext[i].data, s.ext[i].pos) {
            None => Err(ReadRecordError::UnexpectedEof),
            Some((v, p)) => Ok(
                (v, StreamState { ext: s.ext.update(i, ExtState { pos: p, ..s.ext[i] }), ..s }),
            ),
        },
    }
}

/// `len` core bits as an unsigned number, less `offset`.
pub open spec fn beta_decode(s: StreamState, offset: i32, len: u32) -> Result<(i32, StreamState), ReadRecordError> {
    if len > 32 {
        Err(ReadRecordError::InvalidData)
    } else if s.core_pos + len > 8 * s.core.len() {
        Err(ReadRecordError::UnexpectedEof)
    } else {
        let v = as_signed(bits_value(s.core, s.core_pos, len as nat) as int) - offset;
        if fits_i32(v) {
            Ok((v as i32, StreamState { core_pos: s.core_pos + len, ..s }))
        } else {
            Err(ReadRecordError::InvalidData)
        }
    }
}

/// Elias gamma: `n` zero bits, a one bit, then `n` bits `m`; the value is
/// 2^n + m, less `offset`.
pub open spec fn gamma_decode(s: StreamState, offset: i32) -> Result<(i32, StreamState), ReadRecordError> {
    let n = zero_run(s.core, s.core_pos);
    if s.core_pos + n >= 8 * s.core.len() {
        Err(ReadRecordError::UnexpectedEof)
    } else if n > 31 {
        Err(ReadRecordError::InvalidData)
    } else if s.core_pos + n + 1 + n > 8 * s.core.len() {
        Err(ReadRecordError::UnexpectedEof)
    } else {
        let v = pow2_u64(n) + bits_value(s.core, s.core_pos + n + 1, n) - offset;
        if fits_i32(v) {
            Ok((v as i32, StreamState { core_pos: s.core_pos + n + 1 + n, ..s }))
        } else {
            Err(ReadRecordError::InvalidData)
        }
    }
}

/// One integer decoded with codec `c` from the streams `s`.
pub open spec fn decode_integer(c: Integer, s: StreamState) -> Result<(i32, StreamState), ReadRecordError> {
    match c {
        Integer::External { block_content_id } => read_ext_itf8(s, block_content_id),
        Integer::Huffman { alphabet, bit_lens } => match huffman_decode(
            alphabet@,
            bit_lens@,
            s.core,
            s.core_pos,
        ) {
            Ok((v, p)) => Ok((v, StreamState { core_pos: p, ..s })),
            Err(e) => Err(e),
        },
        Integer::Beta { offset, len } => beta_decode(s, offset, len),
        Integer::Gamma { offset } => gamma_decode(s, offset),
        _ => Err(ReadRecordError::NotImplemented),
    }
}

/// One byte decoded with codec `c` from the streams `s`.
pub open spec fn decode_byte(c: Byte, s: StreamState) -> Result<(u8, StreamState), ReadRecordError> {
    match c {
        Byte::External { block_content_id } => match find_ext(s.ext, block_content_id) {
            None => Err(ReadRecordError::MissingExternalBlock(block_content_id)),
            Some(i) => if s.ext[i].pos < s.ext[i].data.len() {
                Ok(
                    (
                        s.ext[i].data[s.ext[i].pos],
                        StreamState {
                            ext: s.ext.update(i, ExtState { pos: s.ext[i].pos + 1, ..s.ext[i] }),
                            ..s
                        },
                    ),
                )
            } else {
                Err(ReadRecordError::UnexpectedEof)
            },
        },
        Byte::Huffman { alphabet, bit_lens } => match huffman_decode(
            alphabet@,
            bit_lens@,
            s.core,
            s.core_pos,
        ) {
            Ok((v, p)) => if 0 <= v <= 255 {
                Ok((v as u8, StreamState { core_pos: p, ..s }))
            } else {
                Err(ReadRecordError::InvalidData)
            },
            Err(e) => Err(e),
        },
    }
}

/// `n` bytes decoded one after another with codec `c`.
pub open spec fn decode_bytes_each(c: Byte, s: StreamState, n: nat) -> Result<(Seq<u8>, StreamState), ReadRecordError>
    decreases n,
{
    if n == 0 {
        Ok((Seq::empty(), s))
    } else {
        match decode_bytes_each(c, s, (n - 1) as nat) {
            Ok((bs, s1)) => match decode_byte(c, s1) {
                Ok((b, s2)) => Ok((bs.push(b), s2)),
                Err(e) => Err(e),
            },
            Err(e) => Err(e),
        }
    }
}

/// `n` bytes decoded with codec `c`: a run of an external block, or `n`
/// symbols of a Huffman code.
pub open spec fn decode_take(c: Byte, s: StreamState, n: nat) -> Result<(Seq<u8>, StreamState), ReadRecordError> {
    match c {
        Byte::External { block_content_id } => match find_ext(s.ext, block_content_id) {
            None => Err(ReadRecordError::MissingExternalBlock(block_content_id)),
            Some(i) => if s.ext[i].pos + n <= s.ext[i].data.len() {
                Ok(
                    (
                        s.ext[i].data.subrange(s.ext[i].pos, s.ext[i].pos + n),
                        StreamState {
                            ext: s.ext.update(i, ExtState { pos: s.ext[i].pos + n, ..s.ext[i] }),
                            ..s
                        },
                    ),
                )
            } else {
                Err(ReadRecordError::UnexpectedEof)
            },
        },
        Byte::Huffman { .. } => decode_bytes_each(c, s, n),
    }
}

/// Index of the first byte `b` in `data` at or after `pos`.
pub open spec fn find_byte(data: Seq<u8>, pos: int, b: u8) -> Option<int>
    decreases data.len() - pos,
{
    if pos < 0 || pos >= data.len() {
        None
    } else if data[pos] == b {
        Some(pos)
    } else {
        find_byte(data, pos + 1, b)
    }
}

/// A byte string decoded with codec `c` from the streams `s`.
pub open spec fn decode_byte_array(c: ByteArray, s: StreamState) -> Result<(Seq<u8>, StreamState), ReadRecordError> {
    match c {
        ByteArray::ByteArrayLen { len_encoding, value_encoding } => match decode_integer(
            len_encoding,
            s,
        ) {
            Ok((n, s1)) => if n < 0 {
                Err(ReadRecordError::InvalidData)
            } else {
                decode_take(value_encoding, s1, n as nat)
            },
            Err(e) => Err(e),
        },
        ByteArray::ByteArrayStop { stop_byte, block_content_id } => match find_ext(
            s.ext,
            block_content_id,
        ) {
            None => Err(ReadRecordError::MissingExternalBlock(block_content_id)),
            Some(i) => match find_byte(s.ext[i].data, s.ext[i].pos, stop_byte) {
                None => Err(ReadRecordError::UnexpectedEof),
                Some(k) => Ok(
                    (
                        s.ext[i].data.subrange(s.ext[i].pos, k),
                        StreamState {
                            ext: s.ext.update(i, ExtState { pos: k + 1, ..s.ext[i] }),
                            ..s
                        },
                    ),
                ),
            },
        },
    }
}

pub open spec fn streams_wf(core: BitReader, ext: ExternalDataReaders) -> bool {
    core.wf() && ext.wf()
}

impl Integer {
    /// Decodes one integer.
    pub fn decode(&self, core: &mut BitReader, ext: &mut ExternalDataReaders) -> (r: Result<i32, ReadRecordError>)
        requires
            streams_wf(*old(core), *old(ext)),
        ensures
            forward(streams(*old(core), *old(ext)), streams(*final(core), *final(ext))),
            is_missing_block(r) ==> streams(*final(core), *final(ext)) == streams(*old(core), *old(ext)),
            streams_wf(*final(core), *final(ext)),
            outcome(r, decode_integer(*self, streams(*old(core), *old(ext))), streams(*final(core), *final(ext))),
    {
        match self {
            Integer::External { block_content_id } => match ext.find(*block_content_id) {
                None => Err(ReadRecordError::MissingExternalBlock(*block_content_id)),
                Some(i) => ext.read_itf8(i),
            },
            Integer::Huffman { alphabet, bit_lens } => decode_symbol(alphabet, bit_lens, core),
            Integer::Beta { offset, len } => decode_beta(*offset, *len, core),
            Integer::Gamma { offset } => decode_gamma(*offset, core),
            _ => Err(ReadRecordError::NotImplemented),
        }
    }
}

/// One symbol of a canonical Huffman code from the core stream.
fn decode_symbol(alphabet: &Vec<i32>, bit_lens: &Vec<u32>, core: &mut BitReader) -> (r: Result<i32, ReadRecordError>)
    requires
        old(core).wf(),
    ensures
        !is_missing_block(r),
        old(core).pos <= final(core).pos,
        final(core).wf(),
        final(core).src@ == old(core).src@,
        match huffman_decode(alphabet@, bit_lens@, old(core).src@, old(core).pos as int) {
            Ok((v, p)) => r == Ok::<i32, ReadRecordError>(v) && final(core).pos == p,
            Err(e) => r == Err::<i32, ReadRecordError>(e),
        },
{
    if alphabet.len() != bit_lens.len() || alphabet.len() == 0 {
        return Err(ReadRecordError::InvalidData);
    }
    if alphabet.len() == 1 {
        return Ok(alphabet[0]);
    }
    match CanonicalHuffmanDecoder::new(alphabet, bit_lens) {
        Ok(d) => d.decode(core),
        Err(e) => Err(e),
    }
}

fn decode_beta(offset: i32, len: u32, core: &mut BitReader) -> (r: Result<i32, ReadRecordError>)
    requires
        old(core).wf(),
    ensures
        !is_missing_block(r),
        old(core).pos <= final(core).pos,
        final(core).wf(),
        final(core).src@ == old(core).src@,
        match beta_decode(
            StreamState { core: old(core).src@, core_pos: old(core).pos as int, ext: Seq::empty() },
            offset,
            len,
        ) {
            Ok((v, s)) => r == Ok::<i32, ReadRecordError>(v) && final(core).pos == s.core_pos,
            Err(e) => r == Err::<i32, ReadRecordError>(e),
        },
{
    if len > 32 {
        return Err(ReadRecordError::InvalidData);
    }
    match core.read_u32(len) {
        None => Err(ReadRecordError::UnexpectedEof),
        Some(u) => {
            let v = to_signed(u) as i64 - offset as i64;
            if v < i32::MIN as i64 || v > i32::MAX as i64 {
                Err(ReadRecordError::InvalidData)
            } else {
                Ok(v as i32)
            }
        },
    }
}

fn decode_gamma(offset: i32, core: &mut BitReader) -> (r: Result<i32, ReadRecordError>)
    requires
        old(core).wf(),
    ensures
        !is_missing_block(r),
        old(core).pos <= final(core).pos,
        final(core).wf(),
        final(core).src@ == old(core).src@,
        match gamma_decode(
            StreamState { core: old(core).src@, core_pos: old(core).pos as int, ext: Seq::empty() },
            offset,
        ) {
            Ok((v, s)) => r == Ok::<i32, ReadRecordError>(v) && final(core).pos == s.core_pos,
            Err(e) => r == Err::<i32, ReadRecordError>(e),
        },
{
    let ghost src = core.src@;
    let ghost start = core.pos as int;
    let mut n: usize = 0;
    loop
        invariant_except_break
            core.pos == start + n,
            zero_run(src, start) == n + zero_run(src, core.pos as int),
        invariant
            core.wf(),
            core.src@ == src,
            src == old(core).src@,
            start == old(core).pos,
        ensures
            core.pos == start + n + 1,
            zero_run(src, start) == n,
        decreases 8 * src.len() - core.pos,
    {
        match core.read_bit() {
            None => {
                return Err(ReadRecordError::UnexpectedEof);
            },
            Some(true) => {
                break;
            },
            Some(false) => {
                n = n + 1;
            },
        }
    }
    if n > 31 {
        return Err(ReadRecordError::InvalidData);
    }
    let m = match core.read_u32(n as u32) {
        None => {
            return Err(ReadRecordError::UnexpectedEof);
        },
        Some(m) => m,
    };
    let p = pow2(n as u32);
    proof {
        lemma_pow2_mono(n as nat, 31);
        lemma_pow2_values();
    }
    let v = p as i64 + m as i64 - offset as i64;
    if v < i32::MIN as i64 || v > i32::MAX as i64 {
        Err(ReadRecordError::InvalidData)
    } else {
        Ok(v as i32)
    }
}

impl Byte {
    /// Decodes one byte.
    pub fn decode(&self, core: &mut BitReader, ext: &mut ExternalDataReaders) -> (r: Result<u8, ReadRecordError>)
        requires
            streams_wf(*old(core), *old(ext)),
        ensures
            forward(streams(*old(core), *old(ext)), streams(*final(core), *final(ext))),
            is_missing_block(r) ==> streams(*final(core), *final(ext)) == streams(*old(core), *old(ext)),
            streams_wf(*final(core), *final(ext)),
            outcome(r, decode_byte(*self, streams(*old(core), *old(ext))), streams(*final(core), *final(ext))),
    {
        match self {
            Byte::External { block_content_id } => match ext.find(*block_content_id) {
                None => Err(ReadRecordError::MissingExternalBlock(*block_content_id)),
                Some(i) => match ext.read_u8(i) {
                    Some(b) => Ok(b),
                    None => Err(ReadRecordError::UnexpectedEof),
                },
            },
            Byte::Huffman { alphabet, bit_lens } => match decode_symbol(alphabet, bit_lens, core) {
                Ok(v) => if 0 <= v && v <= 255 {
                    Ok(v as u8)
                } else {
                    Err(ReadRecordError::InvalidData)
                },
                Err(e) => Err(e),
            },
        }
    }

    /// Decodes `n` bytes.
    pub fn decode_take(&self, core: &mut BitReader, ext: &mut ExternalDataReaders, n: usize) -> (r: Result<Vec<u8>, ReadRecordError>)
        requires
            streams_wf(*old(core), *old(ext)),
        ensures
            forward(streams(*old(core), *old(ext)), streams(*final(core), *final(ext))),
            streams_wf(*final(core), *final(ext)),
            match decode_take(*self, streams(*old(core), *old(ext)), n as nat) {
                Ok((v, s)) => r.is_ok() && r.unwrap()@ == v && streams(*final(core), *final(ext)) == s,
                Err(e) => r == Err::<Vec<u8>, ReadRecordError>(e),
            },
    {
        match self {
            Byte::External { block_content_id } => match ext.find(*block_content_id) {
                None => Err(ReadRecordError::MissingExternalBlock(*block_content_id)),
                Some(i) => match ext.read_bytes(i, n) {
                    Some(b) => Ok(b),
                    None => Err(ReadRecordError::UnexpectedEof),
                },
            },
            Byte::Huffman { .. } => {
                let ghost s0 = streams(*core, *ext);
                let mut out: Vec<u8> = Vec::new();
                let mut k: usize = 0;
                while k < n
                    invariant
                        streams_wf(*core, *ext),
                        s0 == streams(*old(core), *old(ext)),
                        *self is Huffman,
                        forward(s0, streams(*core, *ext)),
                        0 <= k <= n,
                        decode_bytes_each(*self, s0, k as nat) == Ok::<(Seq<u8>, StreamState), ReadRecordError>((out@, streams(*core, *ext))),
                    decreases n - k,
                {
                    let b = self.decode(core, ext);
                    match b {
                        Ok(b) => {
                            out.push(b);
                        },
                        Err(e) => {
                            proof {
                                assert(decode_bytes_each(*self, s0, (k + 1) as nat) == Err::<(Seq<u8>, StreamState), ReadRecordError>(e));
                                lemma_each_stops(*self, s0, (k + 1) as nat, n as nat);
                            }
                            return Err(e);
                        },
                    }
                    k = k + 1;
                }
                Ok(out)
            },
        }
    }
}

/// Once decoding one byte after another fails, decoding more fails the same
/// way.
pub proof fn lemma_each_stops(c: Byte, s: StreamState, k: nat, n: nat)
    requires
        k <= n,
        decode_bytes_each(c, s, k).is_err(),
    ensures
        decode_bytes_each(c, s, n) == decode_bytes_each(c, s, k),
    decreases n - k,
{
    if k < n {
        lemma_each_stops(c, s, k, (n - 1) as nat);
    }
}

impl ByteArray {
    /// Decodes one byte string.
    pub fn decode(&self, core: &mut BitReader, ext: &mut ExternalDataReaders) -> (r: Result<Vec<u8>, ReadRecordError>)
        requires
            streams_wf(*old(core), *old(ext)),
        ensures
            forward(streams(*old(core), *old(ext)), streams(*final(core), *final(ext))),
            streams_wf(*final(core), *final(ext)),
            match decode_byte_array(*self, streams(*old(core), *old(ext))) {
                Ok((v, s)) => r.is_ok() && r.unwrap()@ == v && streams(*final(core), *final(ext)) == s,
                Err(e) => r == Err::<Vec<u8>, ReadRecordError>(e),
            },
    {
        match self {
            ByteArray::ByteArrayLen { len_encoding, value_encoding } => {
                let n = match len_encoding.decode(core, ext) {
                    Ok(n) => n,
                    Err(e) => {
                        return Err(e);
                    },
                };
                if n < 0 {
                    return Err(ReadRecordError::InvalidData);
                }
                value_encoding.decode_take(core, ext, n as usize)
            },
            ByteArray::ByteArrayStop { stop_byte, block_content_id } => match ext.find(*block_content_id) {
                None => Err(ReadRecordError::MissingExternalBlock(*block_content_id)),
                Some(i) => ext.read_until(i, *stop_byte),
            },
        }
    }
}

/// A codec as the compression header declares it for one data series or
/// tag.
pub struct Encoding<C> {
    codec: C,
}

impl<C> Encoding<C> {
    pub closed spec fn codec(&self) -> C {
        self.codec
    }

    pub fn new(codec: C) -> (r: Self)
        ensures
            r.codec() == codec,
    {
        Encoding { codec }
    }

    pub fn get(&self) -> (r: &C)
        ensures
            *r == self.codec(),
    {
        &self.codec
    }
}

/// Two encodings are equal exactly when their codecs are, so
/// `Encoding::new(a) == Encoding::new(b)` when `a == b`.
pub proof fn lemma_encoding_eq<C>(a: Encoding<C>, b: Encoding<C>)
    ensures
        a == b <==> a.codec() == b.codec(),
{
}

impl Encoding<Integer> {
    pub fn decode(&self, core: &mut BitReader, ext: &mut ExternalDataReaders) -> (r: Result<i32, ReadRecordError>)
        requires
            streams_wf(*old(core), *old(ext)),
        ensures
            forward(streams(*old(core), *old(ext)), streams(*final(core), *final(ext))),
            is_missing_block(r) ==> streams(*final(core), *final(ext)) == streams(*old(core), *old(ext)),
            streams_wf(*final(core), *final(ext)),
            outcome(r, decode_integer(self.codec(), streams(*old(core), *old(ext))), streams(*final(core), *final(ext))),
    {
        self.get().decode(core, ext)
    }
}

impl Encoding<Byte> {
    pub fn decode(&self, core: &mut BitReader, ext: &mut ExternalDataReaders) -> (r: Result<u8, ReadRecordError>)
        requires
            streams_wf(*old(core), *old(ext)),
        ensures
            forward(streams(*old(core), *old(ext)), streams(*final(core), *final(ext))),
            is_missing_block(r) ==> streams(*final(core), *final(ext)) == streams(*old(core), *old(ext)),
            streams_wf(*final(core), *final(ext)),
            outcome(r, decode_byte(self.codec(), streams(*old(core), *old(ext))), streams(*final(core), *final(ext))),
    {
        self.get().decode(core, ext)
    }

    pub fn decode_take(&self, core: &mut BitReader, ext: &mut ExternalDataReaders, n: usize) -> (r: Result<Vec<u8>, ReadRecordError>)
        requires
            streams_wf(*old(core), *old(ext)),
        ensures
            forward(streams(*old(core), *old(ext)), streams(*final(core), *final(ext))),
            streams_wf(*final(core), *final(ext)),
            match decode_take(self.codec(), streams(*old(core), *old(ext)), n as nat) {
                Ok((v, s)) => r.is_ok() && r.unwrap()@ == v && streams(*final(core), *final(ext)) == s,
                Err(e) => r == Err::<Vec<u8>, ReadRecordError>(e),
            },
    {
        self.get().decode_take(core, ext, n)
    }
}

impl Encoding<ByteArray> {
    pub fn decode(&self, core: &mut BitReader, ext: &mut ExternalDataReaders) -> (r: Result<Vec<u8>, ReadRecordError>)
        requires
            streams_wf(*old(core), *old(ext)),
        ensures
            forward(streams(*old(core), *old(ext)), streams(*final(core), *final(ext))),
            streams_wf(*final(core), *final(ext)),
            match decode_byte_array(self.codec(), streams(*old(core), *old(ext))) {
                Ok((v, s)) => r.is_ok() && r.unwrap()@ == v && streams(*final(core), *final(ext)) == s,
                Err(e) => r == Err::<Vec<u8>, ReadRecordError>(e),
            },
    {
        self.get().decode(core, ext)
    }
}

/// A Huffman codec over a single symbol with code length 0 decodes that
/// symbol and consumes no bits, whatever the streams hold.
pub proof fn lemma_huffman_singleton(c: Integer, sym: i32, s: StreamState)
    requires
        c matches Integer::Huffman { alphabet, bit_lens } && alphabet@ == seq![sym] && bit_lens@
            == seq![0u32],
    ensures
        decode_integer(c, s) == Ok::<(i32, StreamState), ReadRecordError>((sym, s)),
{
}

/// A Beta codec reads back what was written: where the `len` core bits at
/// the cursor hold `v + offset`, it decodes `v` and moves the cursor by
/// `len`.
pub proof fn lemma_beta_round_trip(offset: i32, len: u32, v: i32, s: StreamState)
    requires
        len <= 32,
        s.core_pos + len <= 8 * s.core.len(),
        0 <= v + offset < 0x8000_0000,
        bits_value(s.core, s.core_pos, len as nat) == v + offset,
    ensures
        decode_integer(Integer::Beta { offset, len }, s) == Ok::<(i32, StreamState), ReadRecordError>(
            (v, StreamState { core_pos: s.core_pos + len, ..s }),
        ),
{
}

} // verus!
