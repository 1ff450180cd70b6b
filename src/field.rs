use vstd::prelude::*;
use crate::error::Type;
use crate::num::as_signed;
use crate::record::{TagValue, TagValueView};

verus! {

/// Why a typed field value could not be read.
#[derive(Clone, Copy, Debug, PartialEq, Eq)]
pub enum DecodeError {
    UnexpectedEof,
    StringNotNulTerminated,
    InvalidArray,
}

/// The little-endian number in the `n` bytes of `src` from `pos`.
pub open spec fn le_value(src: Seq<u8>, pos: int, n: nat) -> int
    decreases n,
{
    if n == 0 {
        0
    } else {
        src[pos] + 256 * le_value(src, pos + 1, (n - 1) as nat)
    }
}

/// Index of the first NUL byte at or after `pos`.
pub open spec fn find_nul(src: Seq<u8>, pos: int) -> Option<int>
    decreases src.len() - pos,
{
    if pos < 0 || pos >= src.len() {
        None
    } else if src[pos] == 0 {
        Some(pos)
    } else {
        find_nul(src, pos + 1)
    }
}

/// The size of one element of an array with subtype `t`.
pub open spec fn array_elem_size(t: u8) -> nat {
    if t == 0x63 || t == 0x43 {
        1
    } else if t == 0x73 || t == 0x53 {
        2
    } else if t == 0x69 || t == 0x49 || t == 0x66 {
        4
    } else {
        0
    }
}

/// The value of type `ty` at `pos` in `src`, and the position after it.
pub open spec fn value_at(src: Seq<u8>, pos: int, ty: Type) -> Result<(TagValueView, int), DecodeError> {
    let fixed = match ty {
        Type::Character | Type::Int8 | Type::UInt8 => 1int,
        Type::Int16 | Type::UInt16 => 2,
        Type::Int32 | Type::UInt32 | Type::Float => 4,
        _ => 0,
    };
    if fixed > 0 {
        if pos + fixed > src.len() {
            Err(DecodeError::UnexpectedEof)
        } else {
            let v = le_value(src, pos, fixed as nat);
            let r = match ty {
                Type::Character => TagValueView::Character(v as u8),
                Type::Int8 => TagValueView::Int8((if v < 128 { v } else { v - 256 }) as i8),
                Type::UInt8 => TagValueView::UInt8(v as u8),
                Type::Int16 => TagValueView::Int16((if v < 32768 { v } else { v - 65536 }) as i16),
                Type::UInt16 => TagValueView::UInt16(v as u16),
                Type::Int32 => TagValueView::Int32(as_signed(v)),
                Type::UInt32 => TagValueView::UInt32(v as u32),
                _ => TagValueView::Float(v as u32),
            };
            Ok((r, pos + fixed))
        }
    } else if ty == Type::String || ty == Type::Hex {
        match find_nul(src, pos) {
            None => Err(DecodeError::StringNotNulTerminated),
            Some(k) => Ok(
                (
                    if ty == Type::String {
                        TagValueView::String(src.subrange(pos, k))
                    } else {
                        TagValueView::Hex(src.subrange(pos, k))
                    },
                    k + 1,
                ),
            ),
        }
    } else {
        if pos + 5 > src.len() {
            Err(DecodeError::UnexpectedEof)
        } else if array_elem_size(src[pos]) == 0 {
            Err(DecodeError::InvalidArray)
        } else {
            let end = pos + 5 + le_value(src, pos + 1, 4) * array_elem_size(src[pos]);
            if end > src.len() {
                Err(DecodeError::UnexpectedEof)
            } else {
                Ok((TagValueView::Array(src.subrange(pos, end)), end))
            }
        }
    }
}

/// Reads `n` little-endian bytes from `pos`, for `n` from 1 to 4.
pub fn read_le(src: &[u8], pos: usize, n: usize) -> (r: u32)
    requires
        1 <= n <= 4,
        pos + n <= src@.len(),
    ensures
        r == le_value(src@, pos as int, n as nat),
        n == 1 ==> r < 256,
        n == 2 ==> r < 65536,
{
    let len = src.len();
    let mut v: u64 = 0;
    let mut k: usize = n;
    while k > 0
        invariant
            len == src@.len(),
            0 <= k <= n <= 4,
            pos + n <= src@.len(),
            v == le_value(src@, pos + k, (n - k) as nat),
            v < pow256(n - k),
        decreases k,
    {
        k = k - 1;
        let b = src[pos + k] as u64;
        proof {
            let m = pow256(n - k - 1);
            assert(pow256(n - k) == 256 * m);
            lemma_pow256_mono(n - k, 4);
            assert(b + 256 * v < 256 * m) by (nonlinear_arith)
                requires
                    b < 256,
                    v < m,
            ;
        }
        v = b + 256 * v;
    }
    proof {
        lemma_pow256_mono(n as int, 4);
        reveal_with_fuel(pow256, 3);
    }
    v as u32
}

spec fn pow256(n: int) -> nat
    decreases n,
{
    if n <= 0 {
        1
    } else {
        256 * pow256(n - 1)
    }
}

proof fn lemma_pow256_mono(a: int, b: int)
    requires
        0 <= a <= b,
    ensures
        pow256(a) <= pow256(b),
        pow256(4) == 0x1_0000_0000,
    decreases b,
{
    reveal_with_fuel(pow256, 5);
    if a < b {
        lemma_pow256_mono(a, b - 1);
    }
}

/// Reads one value of type `ty` from `src` at `*pos` and moves `*pos`
/// past it.
pub fn read_value(src: &[u8], pos: &mut usize, ty: Type) -> (r: Result<TagValue, DecodeError>)
    requires
        *old(pos) <= src@.len(),
    ensures
        match value_at(src@, *old(pos) as int, ty) {
            Ok((v, p)) => r.is_ok() && r.unwrap()@ == v && *final(pos) == p,
            Err(e) => r == Err::<TagValue, DecodeError>(e),
        },
{
    let p = *pos;
    let len = src.len();
    let fixed: usize = match ty {
        Type::Character | Type::Int8 | Type::UInt8 => 1,
        Type::Int16 | Type::UInt16 => 2,
        Type::Int32 | Type::UInt32 | Type::Float => 4,
        _ => 0,
    };
    if fixed > 0 {
        if fixed > len - p {
            return Err(DecodeError::UnexpectedEof);
        }
        let v = read_le(src, p, fixed);
        *pos = p + fixed;
        let r = match ty {
            Type::Character => TagValue::Character(v as u8),
            Type::Int8 => TagValue::Int8(if v < 128 { v as i8 } else { (v as i32 - 256) as i8 }),
            Type::UInt8 => TagValue::UInt8(v as u8),
            Type::Int16 => TagValue::Int16(if v < 32768 { v as i16 } else { (v as i32 - 65536) as i16 }),
            Type::UInt16 => TagValue::UInt16(v as u16),
            Type::Int32 => TagValue::Int32(crate::num::to_signed(v)),
            Type::UInt32 => TagValue::UInt32(v),
            _ => TagValue::Float(v),
        };
        return Ok(r);
    }
    if ty == Type::String || ty == Type::Hex {
        let mut k: usize = p;
        loop
            invariant_except_break
                p <= k <= len,
                find_nul(src@, p as int) == find_nul(src@, k as int),
            invariant
                len == src@.len(),
                p <= len,
            ensures
                k < len ==> find_nul(src@, p as int) == Some(k as int),
                k >= len ==> find_nul(src@, p as int).is_none(),
                p <= k,
            decreases len - k,
        {
            if k >= len {
                break;
            }
            if src[k] == 0 {
                break;
            }
            k = k + 1;
        }
        if k >= len {
            return Err(DecodeError::StringNotNulTerminated);
        }
        let buf = copy_range(src, p, k);
        *pos = k + 1;
        if ty == Type::String {
            return Ok(TagValue::String(buf));
        } else {
            return Ok(TagValue::Hex(buf));
        }
    }
    if 5 > len - p {
        return Err(DecodeError::UnexpectedEof);
    }
    let sub = src[p];
    let size: usize = if sub == 0x63 || sub == 0x43 {
        1
    } else if sub == 0x73 || sub == 0x53 {
        2
    } else if sub == 0x69 || sub == 0x49 || sub == 0x66 {
        4
    } else {
        0
    };
    if size == 0 {
        return Err(DecodeError::InvalidArray);
    }
    let count = read_le(src, p + 1, 4);
    assert(count as u64 * size as u64 <= 0xFFFF_FFFFu64 * 4) by (nonlinear_arith)
        requires
            size <= 4,
    ;
    if count as u64 * size as u64 > (len - p - 5) as u64 {
        return Err(DecodeError::UnexpectedEof);
    }
    let end = p + 5 + count as usize * size;
    let buf = copy_range(src, p, end);
    *pos = end;
    Ok(TagValue::Array(buf))
}

/// A copy of `src[start..end]`.
pub fn copy_range(src: &[u8], start: usize, end: usize) -> (r: Vec<u8>)
    requires
        start <= end <= src@.len(),
    ensures
        r@ == src@.subrange(start as int, end as int),
{
    let mut out: Vec<u8> = Vec::new();
    let mut k: usize = start;
    while k < end
        invariant
            start <= k <= end <= src@.len(),
            out@ == src@.subrange(start as int, k as int),
        decreases end - k,
    {
        out.push(src[k]);
        k = k + 1;
        assert(out@ =~= src@.subrange(start as int, k as int));
    }
    out
}

} // verus!
