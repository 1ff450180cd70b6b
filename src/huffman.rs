use vstd::prelude::*;
use crate::bit_reader::{bits_value, lemma_pow2_mono, lemma_pow2_values, lemma_pow2_step, pow2_u64, BitReader};
use crate::error::ReadRecordError;

verus! {

/// Whether entry `j` comes before entry `i` in canonical order: by code
/// length, then by symbol.
pub open spec fn before(a: Seq<i32>, l: Seq<u32>, j: int, i: int) -> bool {
    l[j] < l[i] || (l[j] == l[i] && a[j] < a[i])
}

/// The part of entry `i`'s canonical code that the first `n` entries make.
pub open spec fn code_sum(a: Seq<i32>, l: Seq<u32>, i: int, n: int) -> nat
    decreases n,
{
    if n <= 0 {
        0
    } else {
        code_sum(a, l, i, n - 1) + if before(a, l, n - 1, i) {
            pow2_u64((l[i] - l[n - 1]) as nat)
        } else {
            0
        }
    }
}

/// The canonical code of entry `i`: each entry before it in canonical order
/// takes up its share of the code space of length `l[i]`.
pub open spec fn canonical_code(a: Seq<i32>, l: Seq<u32>, i: int) -> nat {
    code_sum(a, l, i, a.len() as int)
}

/// Whether a multi-symbol alphabet makes a usable canonical code: lengths
/// from 1 to 31, distinct symbols, and every code fits its length.
pub open spec fn table_valid(a: Seq<i32>, l: Seq<u32>) -> bool {
    &&& a.len() == l.len()
    &&& forall|i: int| 0 <= i < l.len() ==> 1 <= #[trigger] l[i] <= 31
    &&& forall|i: int, j: int| 0 <= i < j < a.len() ==> a[i] != a[j]
    &&& forall|i: int| 0 <= i < a.len() ==> canonical_code(a, l, i) < pow2_u64(l[i] as nat)
}

/// The largest of the first `n` code lengths.
pub open spec fn max_len(l: Seq<u32>, n: int) -> nat
    decreases n,
{
    if n <= 0 {
        0
    } else {
        let m = max_len(l, n - 1);
        if l[n - 1] > m {
            l[n - 1] as nat
        } else {
            m
        }
    }
}

/// The first of the first `n` entries whose code has length `k` and value
/// `v`.
pub open spec fn first_match(a: Seq<i32>, l: Seq<u32>, k: nat, v: nat, n: int) -> Option<int>
    decreases n,
{
    if n <= 0 {
        None
    } else {
        match first_match(a, l, k, v, n - 1) {
            Some(i) => Some(i),
            None => if l[n - 1] == k && canonical_code(a, l, n - 1) == v {
                Some(n - 1)
            } else {
                None
            },
        }
    }
}

/// Decoding by reading `k`, `k + 1`, ... bits from `pos` until they form
/// a code of the table; the symbol and the position after it.
pub open spec fn huffman_search(
    a: Seq<i32>,
    l: Seq<u32>,
    core: Seq<u8>,
    pos: int,
    k: nat,
) -> Result<(i32, int), ReadRecordError>
    decreases 32 - k,
{
    if k > max_len(l, l.len() as int) || k > 31 {
        Err(ReadRecordError::InvalidData)
    } else if pos + k > 8 * core.len() {
        Err(ReadRecordError::UnexpectedEof)
    } else {
        match first_match(a, l, k, bits_value(core, pos, k), a.len() as int) {
            Some(i) => Ok((a[i], pos + k)),
            None => huffman_search(a, l, core, pos, k + 1),
        }
    }
}

/// One symbol of the canonical Huffman code over (`a`, `l`) read from bit
/// `pos` of `core`. A single-symbol alphabet takes no bits.
pub open spec fn huffman_decode(a: Seq<i32>, l: Seq<u32>, core: Seq<u8>, pos: int) -> Result<
    (i32, int),
    ReadRecordError,
> {
    if a.len() != l.len() || a.len() == 0 {
        Err(ReadRecordError::InvalidData)
    } else if a.len() == 1 {
        Ok((a[0], pos))
    } else if !table_valid(a, l) {
        Err(ReadRecordError::InvalidData)
    } else {
        huffman_search(a, l, core, pos, 1)
    }
}

/// Two to the power `n`, for `n` up to 62.
pub fn pow2(n: u32) -> (r: u64)
    requires
        n <= 62,
    ensures
        r == pow2_u64(n as nat),
{
    let mut r: u64 = 1;
    let mut i: u32 = 0;
    while i < n
        invariant
            0 <= i <= n <= 62,
            r == pow2_u64(i as nat),
        decreases n - i,
    {
        proof {
            lemma_pow2_step(i as nat);
            lemma_pow2_mono((i + 1) as nat, 62);
            lemma_pow2_values();
        }
        r = r * 2;
        i = i + 1;
    }
    r
}

/// A canonical Huffman code table, built once from an alphabet and its
/// code lengths.
pub struct CanonicalHuffmanDecoder {
    pub alphabet: Vec<i32>,
    pub bit_lens: Vec<u32>,
    /// The canonical code of each entry.
    pub codes: Vec<u64>,
    pub max_len: u32,
}

impl CanonicalHuffmanDecoder {
    pub open spec fn wf(&self) -> bool {
        &&& self.alphabet@.len() >= 2
        &&& table_valid(self.alphabet@, self.bit_lens@)
        &&& self.codes@.len() == self.alphabet@.len()
        &&& forall|i: int|
            0 <= i < self.codes@.len() ==> self.codes@[i] == canonical_code(
                self.alphabet@,
                self.bit_lens@,
                i,
            )
        &&& self.max_len == max_len(self.bit_lens@, self.bit_lens@.len() as int)
    }

    /// Builds the table of a multi-symbol alphabet; fails where the lengths
    /// do not make a usable canonical code.
    pub fn new(alphabet: &Vec<i32>, bit_lens: &Vec<u32>) -> (r: Result<Self, ReadRecordError>)
        requires
            alphabet@.len() >= 2,
        ensures
            match r {
                Ok(d) => d.wf() && d.alphabet@ == alphabet@ && d.bit_lens@ == bit_lens@,
                Err(e) => e == ReadRecordError::InvalidData && !table_valid(
                    alphabet@,
                    bit_lens@,
                ),
            },
    {
        let ghost old_alphabet = alphabet@;
        let ghost old_lens = bit_lens@;
        let n = alphabet.len();
        if bit_lens.len() != n {
            return Err(ReadRecordError::InvalidData);
        }
        let mut i: usize = 0;
        let mut m: u32 = 0;
        while i < n
            invariant
                n == alphabet@.len() == bit_lens@.len(),
                0 <= i <= n,
                forall|k: int| 0 <= k < i ==> 1 <= #[trigger] bit_lens@[k] <= 31,
                m == max_len(bit_lens@, i as int),
            decreases n - i,
        {
            let len = bit_lens[i];
            if len < 1 || len > 31 {
                return Err(ReadRecordError::InvalidData);
            }
            if len > m {
                m = len;
            }
            i = i + 1;
        }
        i = 0;
        while i < n
            invariant
                n == alphabet@.len() == bit_lens@.len(),
                0 <= i <= n,
                forall|p: int, q: int| 0 <= p < q < n && p < i ==> alphabet@[p] != alphabet@[q],
                m == max_len(bit_lens@, n as int),
                forall|k: int| 0 <= k < n ==> 1 <= #[trigger] bit_lens@[k] <= 31,
            decreases n - i,
        {
            let mut j: usize = i + 1;
            while j < n
                invariant
                    n == alphabet@.len(),
                    0 <= i < n,
                    i + 1 <= j <= n,
                    forall|p: int, q: int|
                        0 <= p < q < n && p < i ==> alphabet@[p] != alphabet@[q],
                    forall|q: int| i < q < j ==> alphabet@[i as int] != alphabet@[q],
                decreases n - j,
            {
                if alphabet[i] == alphabet[j] {
                    return Err(ReadRecordError::InvalidData);
                }
                j = j + 1;
            }
            i = i + 1;
        }
        let mut codes: Vec<u64> = Vec::new();
        i = 0;
        while i < n
            invariant
                n == alphabet@.len() == bit_lens@.len(),
                m == max_len(bit_lens@, n as int),
                forall|p: int, q: int| 0 <= p < q < n ==> alphabet@[p] != alphabet@[q],
                0 <= i <= n,
                forall|k: int| 0 <= k < n ==> 1 <= #[trigger] bit_lens@[k] <= 31,
                codes@.len() == i,
                forall|k: int|
                    0 <= k < i ==> codes@[k] == canonical_code(alphabet@, bit_lens@, k),
                forall|k: int|
                    0 <= k < i ==> #[trigger] canonical_code(alphabet@, bit_lens@, k) < pow2_u64(
                        bit_lens@[k] as nat,
                    ),
            decreases n - i,
        {
            match code_of(alphabet, bit_lens, i) {
                Some(c) => {
                    codes.push(c);
                },
                None => {
                    return Err(ReadRecordError::InvalidData);
                },
            }
            i = i + 1;
        }
        let alphabet = alphabet.clone();
        let bit_lens = bit_lens.clone();
        assert(alphabet@ =~= old_alphabet);
        assert(bit_lens@ =~= old_lens);
        assert(table_valid(alphabet@, bit_lens@));
        Ok(CanonicalHuffmanDecoder { alphabet, bit_lens, codes, max_len: m })
    }

    /// Reads bits one at a time until they form a code of the table and
    /// returns its symbol.
    pub fn decode(&self, core: &mut BitReader) -> (r: Result<i32, ReadRecordError>)
        requires
            self.wf(),
            old(core).wf(),
        ensures
            r matches Err(e) ==> e == ReadRecordError::UnexpectedEof || e == ReadRecordError::InvalidData,
            old(core).pos <= final(core).pos,
            final(core).wf(),
            final(core).src@ == old(core).src@,
            match huffman_search(
                self.alphabet@,
                self.bit_lens@,
                old(core).src@,
                old(core).pos as int,
                1,
            ) {
                Ok((v, p)) => r == Ok::<i32, ReadRecordError>(v) && final(core).pos == p,
                Err(e) => r == Err::<i32, ReadRecordError>(e),
            },
    {
        let ghost a = self.alphabet@;
        let ghost l = self.bit_lens@;
        let ghost src = core.src@;
        let ghost start = core.pos as int;
        let mut acc: u64 = 0;
        let mut k: u32 = 1;
        while k <= self.max_len && k <= 31
            invariant
                self.wf(),
                a == self.alphabet@,
                l == self.bit_lens@,
                core.wf(),
                core.src@ == src,
                src == old(core).src@,
                start == old(core).pos,
                1 <= k <= 32,
                core.pos == start + k - 1,
                acc == bits_value(src, start, (k - 1) as nat),
                acc < pow2_u64((k - 1) as nat),
                huffman_search(a, l, src, start, 1) == huffman_search(a, l, src, start, k as nat),
            decreases 32 - k,
        {
            let b = core.read_bit();
            let bit: u64 = match b {
                Some(true) => 1,
                Some(false) => 0,
                None => {
                    return Err(ReadRecordError::UnexpectedEof);
                },
            };
            proof {
                lemma_pow2_step((k - 1) as nat);
                lemma_pow2_mono(k as nat, 31);
                lemma_pow2_values();
            }
            acc = acc * 2 + bit;
            let mut i: usize = 0;
            let n = self.alphabet.len();
            while i < n
                invariant
                    self.wf(),
                    a == self.alphabet@,
                    l == self.bit_lens@,
                    n == a.len(),
                    0 <= i <= n,
                    core.wf(),
                    core.src@ == src,
                    src == old(core).src@,
                    start == old(core).pos,
                    core.pos == start + k,
                    k <= max_len(l, l.len() as int),
                    k <= 31,
                    huffman_search(a, l, src, start, 1) == huffman_search(a, l, src, start, k as nat),
                    acc == bits_value(src, start, k as nat),
                    first_match(a, l, k as nat, acc as nat, i as int).is_none(),
                decreases n - i,
            {
                if self.bit_lens[i] == k && self.codes[i] == acc {
                    proof {
                        lemma_first_match_extend(a, l, k as nat, acc as nat, (i + 1) as int, n as int);
                    }
                    return Ok(self.alphabet[i]);
                }
                i = i + 1;
            }
            k = k + 1;
        }
        Err(ReadRecordError::InvalidData)
    }
}

/// The canonical code of entry `i`, or `None` where it does not fit in
/// `bit_lens[i]` bits.
fn code_of(alphabet: &Vec<i32>, bit_lens: &Vec<u32>, i: usize) -> (r: Option<u64>)
    requires
        alphabet@.len() == bit_lens@.len(),
        i < alphabet@.len(),
        forall|k: int| 0 <= k < bit_lens@.len() ==> 1 <= #[trigger] bit_lens@[k] <= 31,
    ensures
        match r {
            Some(c) => c == canonical_code(alphabet@, bit_lens@, i as int) && c < pow2_u64(
                bit_lens@[i as int] as nat,
            ),
            None => canonical_code(alphabet@, bit_lens@, i as int) >= pow2_u64(
                bit_lens@[i as int] as nat,
            ),
        },
{
    let n = alphabet.len();
    let li = bit_lens[i];
    let limit = pow2(li);
    proof {
        lemma_pow2_mono(li as nat, 31);
        lemma_pow2_mono(0, li as nat);
    }
    let mut sum: u64 = 0;
    let mut j: usize = 0;
    while j < n
        invariant
            n == alphabet@.len() == bit_lens@.len(),
            0 <= i < n,
            0 <= j <= n,
            li == bit_lens@[i as int],
            forall|k: int| 0 <= k < n ==> 1 <= #[trigger] bit_lens@[k] <= 31,
            limit == pow2_u64(li as nat),
            limit <= pow2_u64(31),
            sum == code_sum(alphabet@, bit_lens@, i as int, j as int),
            sum < limit,
        decreases n - j,
    {
        let lj = bit_lens[j];
        if lj < li || (lj == li && alphabet[j] < alphabet[i]) {
            let t = pow2(li - lj);
            proof {
                lemma_pow2_mono((li - lj) as nat, 31);
                lemma_pow2_values();
            }
            sum = sum + t;
        }
        assert(sum == code_sum(alphabet@, bit_lens@, i as int, j + 1));
        if sum >= limit {
            proof {
                lemma_code_sum_mono(alphabet@, bit_lens@, i as int, j + 1, n as int);
            }
            return None;
        }
        j = j + 1;
    }
    Some(sum)
}

/// Adding entries never lowers a partial code sum.
pub proof fn lemma_code_sum_mono(a: Seq<i32>, l: Seq<u32>, i: int, j: int, n: int)
    requires
        0 <= j <= n,
    ensures
        code_sum(a, l, i, j) <= code_sum(a, l, i, n),
    decreases n - j,
{
    if j < n {
        lemma_code_sum_mono(a, l, i, j, n - 1);
    }
}

/// Once an entry matches among the first `i`, it is the first match among
/// any longer prefix.
pub proof fn lemma_first_match_extend(a: Seq<i32>, l: Seq<u32>, k: nat, v: nat, i: int, n: int)
    requires
        0 <= i <= n,
        first_match(a, l, k, v, i).is_some(),
    ensures
        first_match(a, l, k, v, n) == first_match(a, l, k, v, i),
    decreases n - i,
{
    if i < n {
        lemma_first_match_extend(a, l, k, v, i, n - 1);
    }
}

} // verus!
