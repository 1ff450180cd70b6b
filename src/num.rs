use vstd::prelude::*;

verus! {

/// The number of bytes of an ITF8 integer, as its first byte says.
pub open spec fn itf8_len(b0: u8) -> nat {
    if b0 < 0x80 {
        1
    } else if b0 < 0xC0 {
        2
    } else if b0 < 0xE0 {
        3
    } else if b0 < 0xF0 {
        4
    } else {
        5
    }
}

/// The 32-bit pattern that the ITF8 integer at the start of `b` writes.
pub open spec fn itf8_bits(b: Seq<u8>) -> int {
    let n = itf8_len(b[0]);
    if n == 1 {
        b[0] as int
    } else if n == 2 {
        (b[0] - 0x80) * 0x100 + b[1]
    } else if n == 3 {
        (b[0] - 0xC0) * 0x1_0000 + b[1] * 0x100 + b[2]
    } else if n == 4 {
        (b[0] - 0xE0) * 0x100_0000 + b[1] * 0x1_0000 + b[2] * 0x100 + b[3]
    } else {
        (b[0] % 16) * 0x1000_0000 + b[1] * 0x10_0000 + b[2] * 0x1000 + b[3] * 0x10 + b[4] % 16
    }
}

/// The ITF8 integer that starts at `pos` in `data`, with the position after
/// it; `None` where `data` ends first.
pub open spec fn itf8_at(data: Seq<u8>, pos: int) -> Option<(i32, int)> {
    if 0 <= pos < data.len() && pos + itf8_len(data[pos]) <= data.len() {
        Some((as_signed(itf8_bits(data.subrange(pos, data.len() as int))), pos + itf8_len(data[pos])))
    } else {
        None
    }
}

/// A 32-bit pattern read as a two's complement number.
pub open spec fn as_signed(v: int) -> i32 {
    if v < 0x8000_0000 {
        v as i32
    } else {
        (v - 0x1_0000_0000) as i32
    }
}

/// The 32-bit pattern of a two's complement number.
pub open spec fn as_unsigned(v: i32) -> int {
    if v >= 0 {
        v as int
    } else {
        v + 0x1_0000_0000
    }
}

/// The ITF8 encoding of `v`: the shortest form that holds its 32-bit
/// pattern.
pub open spec fn itf8_encode(v: i32) -> Seq<u8> {
    let u = as_unsigned(v);
    if u < 0x80 {
        seq![u as u8]
    } else if u < 0x4000 {
        seq![(0x80 + u / 0x100) as u8, (u % 0x100) as u8]
    } else if u < 0x20_0000 {
        seq![(0xC0 + u / 0x1_0000) as u8, (u / 0x100 % 0x100) as u8, (u % 0x100) as u8]
    } else if u < 0x1000_0000 {
        seq![
            (0xE0 + u / 0x100_0000) as u8,
            (u / 0x1_0000 % 0x100) as u8,
            (u / 0x100 % 0x100) as u8,
            (u % 0x100) as u8,
        ]
    } else {
        seq![
            (0xF0 + u / 0x1000_0000) as u8,
            (u / 0x10_0000 % 0x100) as u8,
            (u / 0x1000 % 0x100) as u8,
            (u / 0x10 % 0x100) as u8,
            (u % 0x10) as u8,
        ]
    }
}

/// Reads a 32-bit pattern as a two's complement number.
pub fn to_signed(v: u32) -> (r: i32)
    ensures
        r == as_signed(v as int),
{
    if v < 0x8000_0000 {
        v as i32
    } else {
        ((v - 0x8000_0000) as i32) + i32::MIN
    }
}

/// The 32-bit pattern of a two's complement number.
pub fn to_unsigned(v: i32) -> (r: u32)
    ensures
        r as int == as_unsigned(v),
{
    if v >= 0 {
        v as u32
    } else {
        ((v - i32::MIN) as u32) + 0x8000_0000
    }
}

/// Appends the ITF8 encoding of `value` to `dst`.
pub fn write_itf8(dst: &mut Vec<u8>, value: i32)
    ensures
        final(dst)@ == old(dst)@ + itf8_encode(value),
{
    let u = to_unsigned(value);
    if u < 0x80 {
        dst.push(u as u8);
    } else if u < 0x4000 {
        dst.push((0x80 + u / 0x100) as u8);
        dst.push((u % 0x100) as u8);
    } else if u < 0x20_0000 {
        dst.push((0xC0 + u / 0x1_0000) as u8);
        dst.push((u / 0x100 % 0x100) as u8);
        dst.push((u % 0x100) as u8);
    } else if u < 0x1000_0000 {
        dst.push((0xE0 + u / 0x100_0000) as u8);
        dst.push((u / 0x1_0000 % 0x100) as u8);
        dst.push((u / 0x100 % 0x100) as u8);
        dst.push((u % 0x100) as u8);
    } else {
        dst.push((0xF0 + u / 0x1000_0000) as u8);
        dst.push((u / 0x10_0000 % 0x100) as u8);
        dst.push((u / 0x1000 % 0x100) as u8);
        dst.push((u / 0x10 % 0x100) as u8);
        dst.push((u % 0x10) as u8);
    }
    assert(dst@ =~= old(dst)@ + itf8_encode(value));
}

/// Decoding the ITF8 encoding of a number gives the number back, and the
/// encoding is exactly as long as its first byte says.
pub proof fn lemma_itf8_round_trip(v: i32)
    ensures
        itf8_encode(v).len() == itf8_len(itf8_encode(v)[0]),
        as_signed(itf8_bits(itf8_encode(v))) == v,
{
    let u = as_unsigned(v);
    let b = itf8_encode(v);
    if u < 0x80 {
    } else if u < 0x4000 {
        assert(u == (u / 0x100) * 0x100 + u % 0x100) by (nonlinear_arith);
        assert(u / 0x100 < 0x40) by (nonlinear_arith)
            requires u < 0x4000;
    } else if u < 0x20_0000 {
        assert(u / 0x1_0000 < 0x20) by (nonlinear_arith)
            requires u < 0x20_0000;
        assert(u == (u / 0x1_0000) * 0x1_0000 + (u / 0x100 % 0x100) * 0x100 + u % 0x100)
            by (nonlinear_arith);
    } else if u < 0x1000_0000 {
        assert(u / 0x100_0000 < 0x10) by (nonlinear_arith)
            requires u < 0x1000_0000;
        assert(u == (u / 0x100_0000) * 0x100_0000 + (u / 0x1_0000 % 0x100) * 0x1_0000 + (u
            / 0x100 % 0x100) * 0x100 + u % 0x100) by (nonlinear_arith);
    } else {
        assert(u / 0x1000_0000 < 0x10) by (nonlinear_arith)
            requires u < 0x1_0000_0000;
        assert(u == (u / 0x1000_0000) * 0x1000_0000 + (u / 0x10_0000 % 0x100) * 0x10_0000 + (u
            / 0x1000 % 0x100) * 0x1000 + (u / 0x10 % 0x100) * 0x10 + u % 0x10) by (nonlinear_arith);
    }
}

} // verus!
