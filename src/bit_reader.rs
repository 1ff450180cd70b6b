use vstd::prelude::*;

verus! {

/// The bit at index `i` of `src`, counting from the most significant bit of
/// the first byte.
pub open spec fn bit_at(src: Seq<u8>, i: int) -> bool {
    ((src[i / 8] >> ((7 - i % 8) as u8)) & 1u8) == 1u8
}

/// The unsigned number written by the `n` bits of `src` that start at bit
/// `pos`, most significant bit first.
pub open spec fn bits_value(src: Seq<u8>, pos: int, n: nat) -> nat
    decreases n,
{
    if n == 0 {
        0
    } else {
        2 * bits_value(src, pos, (n - 1) as nat) + if bit_at(src, pos + n - 1) {
            1nat
        } else {
            0nat
        }
    }
}

/// The number of zero bits in `src` from bit `pos` up to the first one bit or
/// the end of the buffer.
pub open spec fn zero_run(src: Seq<u8>, pos: int) -> nat
    decreases 8 * src.len() - pos,
{
    if pos < 0 || pos >= 8 * src.len() || bit_at(src, pos) {
        0
    } else {
        1 + zero_run(src, pos + 1)
    }
}

/// A reader of single bits over an in-memory buffer, most significant bit of
/// each byte first.
pub struct BitReader {
    pub src: Vec<u8>,
    /// Index of the next bit to read.
    pub pos: usize,
}

impl BitReader {
    pub open spec fn wf(&self) -> bool {
        &&& self.pos <= 8 * self.src@.len()
        &&& 8 * self.src@.len() <= usize::MAX
    }

    /// Number of bits left to read.
    pub open spec fn remaining(&self) -> int {
        8 * self.src@.len() - self.pos
    }

    pub fn new(src: Vec<u8>) -> (r: Self)
        requires
            8 * src@.len() <= usize::MAX,
        ensures
            r.wf(),
            r.src@ == src@,
            r.pos == 0,
    {
        BitReader { src, pos: 0 }
    }

    /// Reads one bit.
    pub fn read_bit(&mut self) -> (r: Option<bool>)
        requires
            old(self).wf(),
        ensures
            final(self).wf(),
            final(self).src@ == old(self).src@,
            old(self).pos < 8 * old(self).src@.len() ==> r == Some(
                bit_at(old(self).src@, old(self).pos as int),
            ) && final(self).pos == old(self).pos + 1,
            old(self).pos >= 8 * old(self).src@.len() ==> r.is_none() && final(self).pos
                == old(self).pos,
    {
        if self.pos >= self.src.len() * 8 {
            return None;
        }
        let byte = self.src[self.pos / 8];
        let shift = (7 - self.pos % 8) as u8;
        let b = ((byte >> shift) & 1u8) == 1u8;
        self.pos = self.pos + 1;
        Some(b)
    }

    /// Reads `n` bits as an unsigned number, most significant bit first.
    /// Nothing is consumed when fewer than `n` bits are left.
    pub fn read_u32(&mut self, n: u32) -> (r: Option<u32>)
        requires
            old(self).wf(),
            n <= 32,
        ensures
            final(self).wf(),
            final(self).src@ == old(self).src@,
            n <= old(self).remaining() ==> r == Some(
                bits_value(old(self).src@, old(self).pos as int, n as nat) as u32,
            ) && final(self).pos == old(self).pos + n && bits_value(
                old(self).src@,
                old(self).pos as int,
                n as nat,
            ) < 0x1_0000_0000,
            n > old(self).remaining() ==> r.is_none() && final(self).pos == old(self).pos,
    {
        if (n as usize) > self.src.len() * 8 - self.pos {
            return None;
        }
        let ghost start = self.pos as int;
        let mut v: u64 = 0;
        let mut i: u32 = 0;
        while i < n
            invariant
                self.wf(),
                self.src@ == old(self).src@,
                0 <= i <= n <= 32,
                self.pos == start + i,
                start + n <= 8 * self.src@.len(),
                v == bits_value(self.src@, start, i as nat),
                v < pow2_u64(i as nat),
            decreases n - i,
        {
            let b = self.read_bit();
            proof {
                lemma_pow2_step(i as nat);
                lemma_pow2_mono(i as nat, 32);
                lemma_pow2_values();
            }
            let bit: u64 = if b == Some(true) {
                1
            } else {
                0
            };
            v = v * 2 + bit;
            i = i + 1;
        }
        proof {
            lemma_pow2_mono(n as nat, 32);
            lemma_pow2_values();
            assert(pow2_u64(32) == 0x1_0000_0000);
        }
        Some(v as u32)
    }
}

/// Two to the power `n`.
pub open spec fn pow2_u64(n: nat) -> nat
    decreases n,
{
    if n == 0 {
        1
    } else {
        2 * pow2_u64((n - 1) as nat)
    }
}

pub proof fn lemma_pow2_values()
    ensures
        pow2_u64(31) == 0x8000_0000,
        pow2_u64(32) == 0x1_0000_0000,
        pow2_u64(62) == 0x4000_0000_0000_0000,
{
    reveal_with_fuel(pow2_u64, 9);
    assert(pow2_u64(7) == 128);
    assert(pow2_u64(8) == 256);
    lemma_pow2_add(8, 8);
    lemma_pow2_add(16, 8);
    lemma_pow2_add(24, 7);
    lemma_pow2_add(24, 8);
    lemma_pow2_add(31, 31);
    assert(0x8000_0000nat * 0x8000_0000nat == 0x4000_0000_0000_0000nat) by (nonlinear_arith);
}

pub proof fn lemma_pow2_add(a: nat, b: nat)
    ensures
        pow2_u64(a + b) == pow2_u64(a) * pow2_u64(b),
    decreases b,
{
    if b > 0 {
        let c = (b - 1) as nat;
        lemma_pow2_add(a, c);
        lemma_pow2_step(a + c);
        lemma_pow2_step(c);
        assert(a + b == a + c + 1);
        let x = pow2_u64(a);
        let y = pow2_u64(c);
        assert(2 * (x * y) == x * (2 * y)) by (nonlinear_arith);
        assert(pow2_u64(a + b) == 2 * (x * y));
        assert(pow2_u64(b) == 2 * y);
    } else {
        assert(pow2_u64(0) == 1);
        assert(a + b == a);
    }
}

pub proof fn lemma_pow2_step(n: nat)
    ensures
        pow2_u64(n + 1) == 2 * pow2_u64(n),
{
}

pub proof fn lemma_pow2_mono(a: nat, b: nat)
    requires
        a <= b,
    ensures
        pow2_u64(a) <= pow2_u64(b),
    decreases b,
{
    if a < b {
        lemma_pow2_mono(a, (b - 1) as nat);
    }
}

} // verus!
