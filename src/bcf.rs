use vstd::prelude::*;
use crate::codec::find_byte;
use crate::field::{copy_range, le_value, read_le};
use crate::vcf::{decimal, opt_bytes_view, write_position, Value, ValueView};

verus! {

/// Why the typed values of a BCF record could not be read.
#[derive(Clone, Copy, Debug, PartialEq, Eq)]
pub enum DecodeError {
    InvalidType,
    InvalidLength,
    InvalidRawValue,
}

/// How many values a header says a field has.
#[derive(Clone, Copy, Debug, PartialEq, Eq, Structural)]
pub enum Number {
    Count(usize),
    AlternateBases,
    ReferenceAlternateBases,
    Samples,
    Unknown,
}

/// The value type a header declares for a field.
#[derive(Clone, Copy, Debug, PartialEq, Eq, Structural)]
pub enum FormatType {
    Integer,
    Float,
    Character,
    String,
}

/// A BCF typed-value descriptor: the element type and the count.
#[derive(Clone, Copy, Debug, PartialEq, Eq)]
pub enum Type {
    Int8(usize),
    Int16(usize),
    Int32(usize),
    Float(usize),
    String(usize),
}

/// One raw element: a value, or one of the sentinels.
#[derive(Clone, Copy, Debug, PartialEq, Eq)]
pub enum Raw {
    Value(i64),
    Missing,
    EndOfVector,
    Reserved,
}

/// The two's complement number in a `w`-byte pattern `u`.
pub open spec fn signed(u: int, w: nat) -> int {
    if w == 1 {
        if u < 0x80 { u } else { u - 0x100 }
    } else if w == 2 {
        if u < 0x8000 { u } else { u - 0x1_0000 }
    } else {
        if u < 0x8000_0000 { u } else { u - 0x1_0000_0000 }
    }
}

/// The smallest integer of width `w`, which stands for a missing value.
pub open spec fn int_min(w: nat) -> int {
    if w == 1 {
        -0x80
    } else if w == 2 {
        -0x8000
    } else {
        -0x8000_0000
    }
}

/// The element of width `w` at `pos`; a float element is read by its bits.
pub open spec fn raw_at(src: Seq<u8>, pos: int, w: nat, float: bool) -> Raw {
    let u = le_value(src, pos, w);
    if float {
        if u == 0x7F80_0001 {
            Raw::Missing
        } else if u == 0x7F80_0002 {
            Raw::EndOfVector
        } else if 0x7F80_0003 <= u <= 0x7F80_0007 {
            Raw::Reserved
        } else {
            Raw::Value(u as i64)
        }
    } else {
        let v = signed(u, w);
        let m = int_min(w);
        if v == m {
            Raw::Missing
        } else if v == m + 1 {
            Raw::EndOfVector
        } else if v <= m + 7 {
            Raw::Reserved
        } else {
            Raw::Value(v as i64)
        }
    }
}

pub open spec fn scalar(v: i64, float: bool) -> ValueView {
    if float {
        ValueView::Float(v as u32)
    } else {
        ValueView::Integer(v as i32)
    }
}

/// One value per sample for `count` samples, `w` bytes each, from `pos`.
pub open spec fn single_values(src: Seq<u8>, pos: int, count: nat, w: nat, float: bool) -> Result<Seq<Option<ValueView>>, DecodeError>
    decreases count,
{
    if count == 0 {
        Ok(Seq::empty())
    } else if pos + w > src.len() {
        Err(DecodeError::InvalidRawValue)
    } else {
        let head = match raw_at(src, pos, w, float) {
            Raw::Value(v) => Ok(Some(scalar(v, float))),
            Raw::Missing => Ok(None),
            _ => Err(DecodeError::InvalidRawValue),
        };
        match head {
            Err(e) => Err(e),
            Ok(h) => match single_values(src, pos + w, (count - 1) as nat, w, float) {
                Err(e) => Err(e),
                Ok(rest) => Ok(seq![h] + rest),
            },
        }
    }
}

/// The `n` elements of one sample's vector from `pos`, with the end markers
/// dropped.
pub open spec fn elements(src: Seq<u8>, pos: int, n: nat, w: nat, float: bool) -> Result<Seq<Option<i64>>, DecodeError>
    decreases n,
{
    if n == 0 {
        Ok(Seq::empty())
    } else {
        let head: Result<Seq<Option<i64>>, DecodeError> = match raw_at(src, pos, w, float) {
            Raw::Value(v) => Ok(seq![Some(v)]),
            Raw::Missing => Ok(seq![None]),
            Raw::EndOfVector => Ok(Seq::empty()),
            Raw::Reserved => Err(DecodeError::InvalidRawValue),
        };
        match head {
            Err(e) => Err(e),
            Ok(h) => match elements(src, pos + w, (n - 1) as nat, w, float) {
                Err(e) => Err(e),
                Ok(rest) => Ok(h + rest),
            },
        }
    }
}

/// A sample's vector as a value: none where it holds one missing element.
pub open spec fn array_value(vs: Seq<Option<i64>>, float: bool) -> Option<ValueView> {
    if vs.len() == 1 && vs[0].is_none() {
        None
    } else if float {
        Some(ValueView::FloatArray(vs.map_values(|x: Option<i64>| match x {
            Some(v) => Some(v as u32),
            None => None,
        })))
    } else {
        Some(ValueView::IntegerArray(vs.map_values(|x: Option<i64>| match x {
            Some(v) => Some(v as i32),
            None => None,
        })))
    }
}

/// One vector of `len` elements per sample for `count` samples.
pub open spec fn array_values(src: Seq<u8>, pos: int, count: nat, len: nat, w: nat, float: bool) -> Result<Seq<Option<ValueView>>, DecodeError>
    decreases count,
{
    if count == 0 {
        Ok(Seq::empty())
    } else if pos + len * w > src.len() {
        Err(DecodeError::InvalidRawValue)
    } else {
        match elements(src, pos, len, w, float) {
            Err(e) => Err(e),
            Ok(vs) => match array_values(src, pos + len * w, (count - 1) as nat, len, w, float) {
                Err(e) => Err(e),
                Ok(rest) => Ok(seq![array_value(vs, float)] + rest),
            },
        }
    }
}

/// `b` up to its first NUL.
pub open spec fn until_nul(b: Seq<u8>) -> Seq<u8> {
    match find_byte(b, 0, 0) {
        Some(k) => b.subrange(0, k),
        None => b,
    }
}

/// The part of `b` from `start` split at each comma.
pub open spec fn split_commas(b: Seq<u8>, start: int) -> Seq<Seq<u8>>
    decreases b.len() - start,
{
    match find_byte(b, start, 0x2C) {
        Some(k) => if 0 <= start <= k < b.len() {
            seq![b.subrange(start, k)] + split_commas(b, k + 1)
        } else {
            seq![b.subrange(start, b.len() as int)]
        },
        None => seq![b.subrange(start, b.len() as int)],
    }
}

/// One string of `len` bytes per sample, NUL-padded; split at commas
/// where `array` is set.
pub open spec fn string_values(src: Seq<u8>, pos: int, count: nat, len: nat, array: bool) -> Result<Seq<Option<ValueView>>, DecodeError>
    decreases count,
{
    if count == 0 {
        Ok(Seq::empty())
    } else if pos + len > src.len() {
        Err(DecodeError::InvalidRawValue)
    } else {
        let data = until_nul(src.subrange(pos, pos + len));
        let v = if array {
            ValueView::StringArray(split_commas(data, 0).map_values(|p: Seq<u8>| Some(p)))
        } else {
            ValueView::String(data)
        };
        match string_values(src, pos + len, (count - 1) as nat, len, array) {
            Err(e) => Err(e),
            Ok(rest) => Ok(seq![Some(v)] + rest),
        }
    }
}

/// The type descriptor at `pos` and the position after it. A count of 15
/// in the descriptor byte means the count follows as a typed integer.
pub open spec fn type_at(src: Seq<u8>, pos: int) -> Result<(Option<Type>, int), DecodeError> {
    if pos < 0 || pos >= src.len() {
        Err(DecodeError::InvalidType)
    } else {
        let b = src[pos];
        let code = b % 16;
        let n: Result<(int, int), DecodeError> = if b / 16 < 15 {
            Ok(((b / 16) as int, pos + 1))
        } else if pos + 1 >= src.len() {
            Err(DecodeError::InvalidType)
        } else {
            let t = src[pos + 1];
            let w: nat = if t == 0x11 { 1 } else if t == 0x12 { 2 } else if t == 0x13 { 4 } else { 0 };
            if w == 0 || pos + 2 + w > src.len() {
                Err(DecodeError::InvalidType)
            } else {
                let v = signed(le_value(src, pos + 2, w), w);
                if v < 0 {
                    Err(DecodeError::InvalidType)
                } else {
                    Ok((v, pos + 2 + w))
                }
            }
        };
        match n {
            Err(e) => Err(e),
            Ok((n, p)) => if code == 0 {
                Ok((None, p))
            } else if code == 1 {
                Ok((Some(Type::Int8(n as usize)), p))
            } else if code == 2 {
                Ok((Some(Type::Int16(n as usize)), p))
            } else if code == 3 {
                Ok((Some(Type::Int32(n as usize)), p))
            } else if code == 5 {
                Ok((Some(Type::Float(n as usize)), p))
            } else if code == 7 {
                Ok((Some(Type::String(n as usize)), p))
            } else {
                Err(DecodeError::InvalidType)
            },
        }
    }
}

/// The values of one FORMAT field for `count` samples: its type
/// descriptor, then a value or vector per sample as the header's number
/// and type ask.
pub open spec fn values_at(src: Seq<u8>, pos: int, number: Number, ty: FormatType, count: nat) -> Result<Seq<Option<ValueView>>, DecodeError> {
    match type_at(src, pos) {
        Err(e) => Err(e),
        Ok((None, _)) => Err(DecodeError::InvalidType),
        Ok((Some(t), p)) => {
            let (w, n, float, string) = match t {
                Type::Int8(n) => (1nat, n, false, false),
                Type::Int16(n) => (2nat, n, false, false),
                Type::Int32(n) => (4nat, n, false, false),
                Type::Float(n) => (4nat, n, true, false),
                Type::String(n) => (1nat, n, false, true),
            };
            if number == Number::Count(0) {
                Err(DecodeError::InvalidLength)
            } else if !string && n == 0 {
                Err(DecodeError::InvalidLength)
            } else if string != (ty == FormatType::String) || float != (ty == FormatType::Float) || ty
                == FormatType::Character {
                Err(DecodeError::InvalidType)
            } else if string {
                string_values(src, p, count, n as nat, number != Number::Count(1))
            } else if number == Number::Count(1) && n == 1 {
                single_values(src, p, count, w, float)
            } else {
                array_values(src, p, count, n as nat, w, float)
            }
        },
    }
}

pub open spec fn values_view(v: Seq<Option<Value>>) -> Seq<Option<ValueView>> {
    v.map_values(|x: Option<Value>| match x {
        Some(y) => Some(y@),
        None => None,
    })
}

/// Reads one element of width `w` at `pos`.
fn read_raw(src: &[u8], pos: usize, w: usize, float: bool) -> (r: Raw)
    requires
        w == 1 || w == 2 || w == 4,
        pos + w <= src@.len(),
    ensures
        r == raw_at(src@, pos as int, w as nat, float),
        match r {
            Raw::Value(v) => (float ==> 0 <= v < 0x1_0000_0000) && (!float ==> i32::MIN <= v <= i32::MAX),
            _ => true,
        },
{
    let u = read_le(src, pos, w) as i64;
    if float {
        if u == 0x7F80_0001 {
            Raw::Missing
        } else if u == 0x7F80_0002 {
            Raw::EndOfVector
        } else if 0x7F80_0003 <= u && u <= 0x7F80_0007 {
            Raw::Reserved
        } else {
            Raw::Value(u)
        }
    } else {
        let (v, m) = if w == 1 {
            (if u < 0x80 { u } else { u - 0x100 }, -0x80i64)
        } else if w == 2 {
            (if u < 0x8000 { u } else { u - 0x1_0000 }, -0x8000i64)
        } else {
            (if u < 0x8000_0000 { u } else { u - 0x1_0000_0000 }, -0x8000_0000i64)
        };
        if v == m {
            Raw::Missing
        } else if v == m + 1 {
            Raw::EndOfVector
        } else if v <= m + 7 {
            Raw::Reserved
        } else {
            Raw::Value(v)
        }
    }
}

fn scalar_value(v: i64, float: bool) -> (r: Value)
    requires
        float ==> 0 <= v < 0x1_0000_0000,
        !float ==> i32::MIN <= v <= i32::MAX,
    ensures
        r@ == scalar(v, float),
{
    if float {
        Value::Float(v as u32)
    } else {
        Value::Integer(v as i32)
    }
}

/// Reads the type descriptor at `pos`.
pub fn read_type(src: &[u8], pos: usize) -> (r: Result<(Option<Type>, usize), DecodeError>)
    ensures
        match type_at(src@, pos as int) {
            Ok((t, p)) => r == Ok::<(Option<Type>, usize), DecodeError>((t, p as usize)) && p <= src@.len(),
            Err(e) => r == Err::<(Option<Type>, usize), DecodeError>(e),
        },
{
    let len = src.len();
    if pos >= len {
        return Err(DecodeError::InvalidType);
    }
    let b = src[pos];
    let code = b % 16;
    let (n, p): (usize, usize) = if b / 16 < 15 {
        ((b / 16) as usize, pos + 1)
    } else {
        if pos + 1 >= len {
            return Err(DecodeError::InvalidType);
        }
        let t = src[pos + 1];
        let w: usize = if t == 0x11 {
            1
        } else if t == 0x12 {
            2
        } else if t == 0x13 {
            4
        } else {
            0
        };
        if w == 0 || w > len - pos - 2 {
            return Err(DecodeError::InvalidType);
        }
        let u = read_le(src, pos + 2, w) as i64;
        let v = if w == 1 {
            if u < 0x80 { u } else { u - 0x100 }
        } else if w == 2 {
            if u < 0x8000 { u } else { u - 0x1_0000 }
        } else {
            if u < 0x8000_0000 { u } else { u - 0x1_0000_0000 }
        };
        if v < 0 {
            return Err(DecodeError::InvalidType);
        }
        (v as usize, pos + 2 + w)
    };
    if code == 0 {
        Ok((None, p))
    } else if code == 1 {
        Ok((Some(Type::Int8(n)), p))
    } else if code == 2 {
        Ok((Some(Type::Int16(n)), p))
    } else if code == 3 {
        Ok((Some(Type::Int32(n)), p))
    } else if code == 5 {
        Ok((Some(Type::Float(n)), p))
    } else if code == 7 {
        Ok((Some(Type::String(n)), p))
    } else {
        Err(DecodeError::InvalidType)
    }
}

/// Prefixes the values of a successful result with `done`.
pub open spec fn after(done: Seq<Option<ValueView>>, rest: Result<Seq<Option<ValueView>>, DecodeError>) -> Result<Seq<Option<ValueView>>, DecodeError> {
    match rest {
        Ok(r) => Ok(done + r),
        Err(e) => Err(e),
    }
}

fn read_single_values(src: &[u8], pos: usize, count: usize, w: usize, float: bool) -> (r: Result<Vec<Option<Value>>, DecodeError>)
    requires
        w == 1 || w == 2 || w == 4,
    ensures
        match single_values(src@, pos as int, count as nat, w as nat, float) {
            Ok(v) => r.is_ok() && values_view(r.unwrap()@) == v,
            Err(e) => r == Err::<Vec<Option<Value>>, DecodeError>(e),
        },
{
    let len = src.len();
    let mut out: Vec<Option<Value>> = Vec::new();
    let mut p = pos;
    let mut i: usize = 0;
    assert(values_view(out@) =~= Seq::empty());
    while i < count
        invariant
            w == 1 || w == 2 || w == 4,
            len == src@.len(),
            0 <= i <= count,
            single_values(src@, pos as int, count as nat, w as nat, float) == after(
                values_view(out@),
                single_values(src@, p as int, (count - i) as nat, w as nat, float),
            ),
        decreases count - i,
    {
        if p > len || w > len - p {
            return Err(DecodeError::InvalidRawValue);
        }
        let ghost before = values_view(out@);
        match read_raw(src, p, w, float) {
            Raw::Value(v) => {
                out.push(Some(scalar_value(v, float)));
            },
            Raw::Missing => {
                out.push(None);
            },
            _ => {
                return Err(DecodeError::InvalidRawValue);
            },
        }
        assert(values_view(out@) =~= before + seq![values_view(out@).last()]);
        p = p + w;
        i = i + 1;
        proof {
            let rest = single_values(src@, p as int, (count - i) as nat, w as nat, float);
            assert(after(values_view(out@), rest) == after(before, single_values(src@, (p - w) as int, (count - i + 1) as nat, w as nat, float))) by {
                match rest {
                    Ok(r) => {
                        assert(before + seq![values_view(out@).last()] + r =~= before + (seq![values_view(out@).last()] + r));
                    },
                    Err(e) => {},
                }
            }
        }
    }
    Ok(out)
}

/// The allele index a raw genotype byte holds: half the signed byte,
/// rounded down, less one; -1 is a missing allele.
pub open spec fn allele_index(v: u8) -> int {
    (if v < 0x80 { v as int } else { v - 0x100 }) / 2 - 1
}

pub open spec fn allele_text(j: int) -> Seq<u8> {
    if j == -1 {
        seq![0x2Eu8]
    } else if j >= 0 {
        decimal(j as nat)
    } else {
        seq![0x2Du8] + decimal((-j) as nat)
    }
}

/// The genotype text of the alleles of `vs` from `i` on, after `acc`.
pub open spec fn genotype_text(vs: Seq<u8>, i: int, acc: Seq<u8>) -> Seq<u8>
    decreases vs.len() - i,
{
    if i < 0 || i >= vs.len() || vs[i] == 0x81 {
        acc
    } else {
        let sep = if i > 0 {
            seq![if vs[i] % 2 == 1 { 0x7Cu8 } else { 0x2Fu8 }]
        } else {
            Seq::empty()
        };
        genotype_text(vs, i + 1, acc + sep + allele_text(allele_index(vs[i])))
    }
}

/// Parses a genotype's raw alleles: each byte is the allele index plus
/// one, doubled, with the low bit set where it is phased with the allele
/// before it; an end marker stops the list.
pub fn parse_raw_genotype_values(values: &[u8]) -> (r: Vec<u8>)
    ensures
        r@ == genotype_text(values@, 0, Seq::empty()),
{
    let mut out: Vec<u8> = Vec::new();
    let mut i: usize = 0;
    while i < values.len()
        invariant
            0 <= i <= values@.len(),
            genotype_text(values@, 0, Seq::empty()) == genotype_text(values@, i as int, out@),
        decreases values@.len() - i,
    {
        let v = values[i];
        if v == 0x81 {
            return out;
        }
        let ghost acc = out@;
        if i > 0 {
            if v % 2 == 1 {
                out.push(0x7C);
            } else {
                out.push(0x2F);
            }
        }
        let s: i32 = if v < 0x80 {
            v as i32
        } else {
            v as i32 - 0x100
        };
        let half: i32 = if s >= 0 {
            s / 2
        } else {
            -((-s + 1) / 2)
        };
        assert(half == s as int / 2);
        let j = half - 1;
        if j == -1 {
            out.push(0x2E);
        } else if j >= 0 {
            let _ = write_position(&mut out, Some(j as usize));
        } else {
            out.push(0x2D);
            let _ = write_position(&mut out, Some((-j) as usize));
        }
        assert(out@ =~= acc + (if i > 0 {
            seq![if v % 2 == 1 { 0x7Cu8 } else { 0x2Fu8 }]
        } else {
            Seq::<u8>::empty()
        }) + allele_text(allele_index(v)));
        i = i + 1;
    }
    out
}

pub open spec fn after_elements(done: Seq<Option<i64>>, rest: Result<Seq<Option<i64>>, DecodeError>) -> Result<Seq<Option<i64>>, DecodeError> {
    match rest {
        Ok(r) => Ok(done + r),
        Err(e) => Err(e),
    }
}

/// The byte size of `len` elements of width `w`.
fn vector_size(len: usize, w: usize) -> (r: u128)
    requires
        w == 1 || w == 2 || w == 4,
    ensures
        r == len * w,
{
    if w == 1 {
        len as u128
    } else if w == 2 {
        len as u128 * 2
    } else {
        len as u128 * 4
    }
}

proof fn lemma_after_step(before: Seq<Option<i64>>, h: Seq<Option<i64>>, rest: Result<Seq<Option<i64>>, DecodeError>)
    ensures
        after_elements(before, match rest {
            Ok(r) => Ok(h + r),
            Err(e) => Err::<Seq<Option<i64>>, DecodeError>(e),
        }) == after_elements(before + h, rest),
{
    match rest {
        Ok(r) => {
            assert(before + (h + r) =~= (before + h) + r);
        },
        Err(_) => {},
    }
}

fn read_elements(src: &[u8], pos: usize, n: usize, w: usize, float: bool) -> (r: Result<Vec<Option<i64>>, DecodeError>)
    requires
        w == 1 || w == 2 || w == 4,
        pos + n * w <= src@.len(),
    ensures
        match elements(src@, pos as int, n as nat, w as nat, float) {
            Ok(v) => r.is_ok() && r.unwrap()@ == v,
            Err(e) => r == Err::<Vec<Option<i64>>, DecodeError>(e),
        },
        r.is_ok() ==> forall|k: int| 0 <= k < r.unwrap()@.len() && r.unwrap()@[k].is_some() ==> (
            float ==> 0 <= r.unwrap()@[k].unwrap() < 0x1_0000_0000) && (!float ==> i32::MIN
            <= r.unwrap()@[k].unwrap() <= i32::MAX),
{
    let len = src.len();
    let mut out: Vec<Option<i64>> = Vec::new();
    let mut p = pos;
    let mut i: usize = 0;
    assert(out@ =~= Seq::<Option<i64>>::empty());
    while i < n
        invariant
            len == src@.len(),
            w == 1 || w == 2 || w == 4,
            0 <= i <= n,
            p == pos + i * w,
            pos + n * w <= src@.len(),
            elements(src@, pos as int, n as nat, w as nat, float) == after_elements(
                out@,
                elements(src@, p as int, (n - i) as nat, w as nat, float),
            ),
            forall|k: int| 0 <= k < out@.len() && out@[k].is_some() ==> (float ==> 0 <= out@[k].unwrap()
                < 0x1_0000_0000) && (!float ==> i32::MIN <= out@[k].unwrap() <= i32::MAX),
        decreases n - i,
    {
        proof {
            assert((i + 1) * w == i * w + w) by (nonlinear_arith);
            assert((i + 1) * w <= n * w) by (nonlinear_arith)
                requires
                    i + 1 <= n,
                    w >= 1,
            ;
        }
        let ghost before = out@;
        let ghost rest = elements(src@, (p + w) as int, (n - i - 1) as nat, w as nat, float);
        let ghost h: Seq<Option<i64>>;
        match read_raw(src, p, w, float) {
            Raw::Value(v) => {
                out.push(Some(v));
                proof {
                    h = seq![Some(v)];
                }
            },
            Raw::Missing => {
                out.push(None);
                proof {
                    h = seq![None];
                }
            },
            Raw::EndOfVector => {
                proof {
                    h = Seq::empty();
                }
            },
            Raw::Reserved => {
                return Err(DecodeError::InvalidRawValue);
            },
        }
        proof {
            assert(out@ =~= before + h);
            assert(elements(src@, p as int, (n - i) as nat, w as nat, float) == match rest {
                Ok(r) => Ok(h + r),
                Err(e) => Err::<Seq<Option<i64>>, DecodeError>(e),
            });
            lemma_after_step(before, h, rest);
        }
        p = p + w;
        i = i + 1;
    }
    assert(out@ + Seq::<Option<i64>>::empty() =~= out@);
    Ok(out)
}

fn array_of(vs: Vec<Option<i64>>, float: bool) -> (r: Option<Value>)
    requires
        forall|k: int| 0 <= k < vs@.len() && vs@[k].is_some() ==> (float ==> 0 <= vs@[k].unwrap()
            < 0x1_0000_0000) && (!float ==> i32::MIN <= vs@[k].unwrap() <= i32::MAX),
    ensures
        match r {
            Some(v) => array_value(vs@, float) == Some(v@),
            None => array_value(vs@, float).is_none(),
        },
{
    if vs.len() == 1 && vs[0].is_none() {
        return None;
    }
    let mut i: usize = 0;
    if float {
        let mut out: Vec<Option<u32>> = Vec::new();
        while i < vs.len()
            invariant
                0 <= i <= vs@.len(),
                out@.len() == i,
                forall|k: int| 0 <= k < vs@.len() && vs@[k].is_some() ==> 0 <= vs@[k].unwrap() < 0x1_0000_0000,
                forall|k: int| 0 <= k < i ==> out@[k] == match vs@[k] {
                    Some(v) => Some(v as u32),
                    None => None::<u32>,
                },
            decreases vs@.len() - i,
        {
            out.push(match vs[i] {
                Some(v) => Some(v as u32),
                None => None,
            });
            i = i + 1;
        }
        let r = Value::FloatArray(out);
        assert(r@ == array_value(vs@, float)->Some_0) by {
            assert(out@ =~= vs@.map_values(|x: Option<i64>| match x {
                Some(v) => Some(v as u32),
                None => None,
            }));
        }
        Some(r)
    } else {
        let mut out: Vec<Option<i32>> = Vec::new();
        while i < vs.len()
            invariant
                0 <= i <= vs@.len(),
                out@.len() == i,
                forall|k: int| 0 <= k < vs@.len() && vs@[k].is_some() ==> i32::MIN <= vs@[k].unwrap() <= i32::MAX,
                forall|k: int| 0 <= k < i ==> out@[k] == match vs@[k] {
                    Some(v) => Some(v as i32),
                    None => None::<i32>,
                },
            decreases vs@.len() - i,
        {
            out.push(match vs[i] {
                Some(v) => Some(v as i32),
                None => None,
            });
            i = i + 1;
        }
        let r = Value::IntegerArray(out);
        assert(r@ == array_value(vs@, float)->Some_0) by {
            assert(out@ =~= vs@.map_values(|x: Option<i64>| match x {
                Some(v) => Some(v as i32),
                None => None,
            }));
        }
        Some(r)
    }
}

proof fn lemma_after_values(before: Seq<Option<ValueView>>, h: Option<ValueView>, rest: Result<Seq<Option<ValueView>>, DecodeError>)
    ensures
        after(before, match rest {
            Ok(r) => Ok(seq![h] + r),
            Err(e) => Err::<Seq<Option<ValueView>>, DecodeError>(e),
        }) == after(before.push(h), rest),
{
    match rest {
        Ok(r) => {
            assert(before + (seq![h] + r) =~= before.push(h) + r);
        },
        Err(_) => {},
    }
}

fn read_array_values(src: &[u8], pos: usize, count: usize, len: usize, w: usize, float: bool) -> (r: Result<Vec<Option<Value>>, DecodeError>)
    requires
        w == 1 || w == 2 || w == 4,
    ensures
        match array_values(src@, pos as int, count as nat, len as nat, w as nat, float) {
            Ok(v) => r.is_ok() && values_view(r.unwrap()@) == v,
            Err(e) => r == Err::<Vec<Option<Value>>, DecodeError>(e),
        },
{
    let src_len = src.len();
    let size = vector_size(len, w);
    let mut out: Vec<Option<Value>> = Vec::new();
    let mut p = pos;
    let mut i: usize = 0;
    assert(values_view(out@) =~= Seq::empty());
    assert(after(Seq::empty(), array_values(src@, pos as int, count as nat, len as nat, w as nat, float)) == array_values(src@, pos as int, count as nat, len as nat, w as nat, float)) by {
        match array_values(src@, pos as int, count as nat, len as nat, w as nat, float) {
            Ok(r) => {
                assert(Seq::<Option<ValueView>>::empty() + r =~= r);
            },
            Err(_) => {},
        }
    }
    while i < count
        invariant
            src_len == src@.len(),
            w == 1 || w == 2 || w == 4,
            size == len * w,
            0 <= i <= count,
            array_values(src@, pos as int, count as nat, len as nat, w as nat, float) == after(
                values_view(out@),
                array_values(src@, p as int, (count - i) as nat, len as nat, w as nat, float),
            ),
        decreases count - i,
    {
        if p > src_len || size > (src_len - p) as u128 {
            return Err(DecodeError::InvalidRawValue);
        }
        let vs = read_elements(src, p, len, w, float)?;
        let v = array_of(vs, float);
        let ghost before = values_view(out@);
        let ghost hv = match &v {
            Some(x) => Some(x@),
            None => None::<ValueView>,
        };
        out.push(v);
        proof {
            assert(values_view(out@) =~= before.push(hv));
            lemma_after_values(before, hv, array_values(src@, (p + size) as int, (count - i - 1) as nat, len as nat, w as nat, float));
        }
        p = p + size as usize;
        i = i + 1;
    }
    assert(values_view(out@) + Seq::<Option<ValueView>>::empty() =~= values_view(out@));
    Ok(out)
}

/// The part of `data` from `start` split at each comma.
fn split_at_commas(data: &Vec<u8>, start: usize) -> (r: Vec<Option<Vec<u8>>>)
    requires
        start <= data@.len(),
    ensures
        r@.map_values(|x: Option<Vec<u8>>| opt_bytes_view(x)) == split_commas(data@, start as int).map_values(|p: Seq<u8>| Some(p)),
    decreases data@.len() - start,
{
    let len = data.len();
    let mut k: usize = start;
    loop
        invariant_except_break
            start <= k <= len,
            find_byte(data@, start as int, 0x2C) == find_byte(data@, k as int, 0x2C),
        invariant
            len == data@.len(),
            start <= len,
        ensures
            start <= k <= len,
            k < len ==> find_byte(data@, start as int, 0x2C) == Some(k as int),
            k >= len ==> find_byte(data@, start as int, 0x2C).is_none(),
        decreases len - k,
    {
        if k >= len || data[k] == 0x2C {
            break;
        }
        k = k + 1;
    }
    let part = copy_range(data.as_slice(), start, k);
    let mut out: Vec<Option<Vec<u8>>> = Vec::new();
    out.push(Some(part));
    if k < len {
        let rest = split_at_commas(data, k + 1);
        let ghost a = out@.map_values(|x: Option<Vec<u8>>| opt_bytes_view(x));
        let ghost b = rest@.map_values(|x: Option<Vec<u8>>| opt_bytes_view(x));
        let mut rest = rest;
        out.append(&mut rest);
        assert(out@.map_values(|x: Option<Vec<u8>>| opt_bytes_view(x)) =~= a + b);
        assert(split_commas(data@, start as int).map_values(|p: Seq<u8>| Some(p)) =~= a + b);
    } else {
        assert(out@.map_values(|x: Option<Vec<u8>>| opt_bytes_view(x)) =~= split_commas(data@, start as int).map_values(|p: Seq<u8>| Some(p)));
    }
    out
}

fn read_string_values(src: &[u8], pos: usize, count: usize, len: usize, array: bool) -> (r: Result<Vec<Option<Value>>, DecodeError>)
    ensures
        match string_values(src@, pos as int, count as nat, len as nat, array) {
            Ok(v) => r.is_ok() && values_view(r.unwrap()@) == v,
            Err(e) => r == Err::<Vec<Option<Value>>, DecodeError>(e),
        },
{
    let src_len = src.len();
    let mut out: Vec<Option<Value>> = Vec::new();
    let mut p = pos;
    let mut i: usize = 0;
    assert(values_view(out@) =~= Seq::empty());
    assert(after(Seq::empty(), string_values(src@, pos as int, count as nat, len as nat, array)) == string_values(src@, pos as int, count as nat, len as nat, array)) by {
        match string_values(src@, pos as int, count as nat, len as nat, array) {
            Ok(r) => {
                assert(Seq::<Option<ValueView>>::empty() + r =~= r);
            },
            Err(_) => {},
        }
    }
    while i < count
        invariant
            src_len == src@.len(),
            0 <= i <= count,
            string_values(src@, pos as int, count as nat, len as nat, array) == after(
                values_view(out@),
                string_values(src@, p as int, (count - i) as nat, len as nat, array),
            ),
        decreases count - i,
    {
        if p > src_len || len > src_len - p {
            return Err(DecodeError::InvalidRawValue);
        }
        let buf = copy_range(src, p, p + len);
        let mut k: usize = 0;
        loop
            invariant_except_break
                k <= len,
                find_byte(buf@, 0, 0) == find_byte(buf@, k as int, 0),
            invariant
                buf@.len() == len,
            ensures
                k <= len,
                k < len ==> find_byte(buf@, 0, 0) == Some(k as int),
                k >= len ==> find_byte(buf@, 0, 0).is_none(),
            decreases len - k,
        {
            if k >= len || buf[k] == 0 {
                break;
            }
            k = k + 1;
        }
        let data = copy_range(buf.as_slice(), 0, k);
        assert(data@ =~= until_nul(buf@));
        let v = if array {
            Value::StringArray(split_at_commas(&data, 0))
        } else {
            Value::String(data)
        };
        let ghost before = values_view(out@);
        out.push(Some(v));
        proof {
            assert(values_view(out@) =~= before.push(Some(v@)));
            lemma_after_values(before, Some(v@), string_values(src@, (p + len) as int, (count - i - 1) as nat, len as nat, array));
        }
        p = p + len;
        i = i + 1;
    }
    assert(values_view(out@) + Seq::<Option<ValueView>>::empty() =~= values_view(out@));
    Ok(out)
}

/// Reads the values of one FORMAT field for `sample_count` samples from
/// the start of `src`.
pub fn read_values(src: &[u8], number: Number, ty: FormatType, sample_count: usize) -> (r: Result<Vec<Option<Value>>, DecodeError>)
    ensures
        match values_at(src@, 0, number, ty, sample_count as nat) {
            Ok(v) => r.is_ok() && values_view(r.unwrap()@) == v,
            Err(e) => r == Err::<Vec<Option<Value>>, DecodeError>(e),
        },
{
    let (t, p) = match read_type(src, 0)? {
        (None, _) => {
            return Err(DecodeError::InvalidType);
        },
        (Some(t), p) => (t, p),
    };
    let (w, n, float, string): (usize, usize, bool, bool) = match t {
        Type::Int8(n) => (1, n, false, false),
        Type::Int16(n) => (2, n, false, false),
        Type::Int32(n) => (4, n, false, false),
        Type::Float(n) => (4, n, true, false),
        Type::String(n) => (1, n, false, true),
    };
    if number == Number::Count(0) {
        return Err(DecodeError::InvalidLength);
    }
    if !string && n == 0 {
        return Err(DecodeError::InvalidLength);
    }
    if string != (ty == FormatType::String) || float != (ty == FormatType::Float) || ty == FormatType::Character {
        return Err(DecodeError::InvalidType);
    }
    if string {
        read_string_values(src, p, sample_count, n, number != Number::Count(1))
    } else if number == Number::Count(1) && n == 1 {
        read_single_values(src, p, sample_count, w, float)
    } else {
        read_array_values(src, p, sample_count, n, w, float)
    }
}

/// A typed value of a BCF record, its elements as read.
#[derive(Clone, Debug, PartialEq, Eq)]
pub enum TypedValue {
    Int8(Option<Raw>),
    Int16(Option<Raw>),
    Int32(Option<Raw>),
    Float(Option<Raw>),
    String(Option<Vec<u8>>),
    /// A vector of the elements of the given type.
    Array(Type, Vec<Raw>),
}

pub enum TypedValueView {
    Int8(Option<Raw>),
    Int16(Option<Raw>),
    Int32(Option<Raw>),
    Float(Option<Raw>),
    String(Option<Seq<u8>>),
    Array(Type, Seq<Raw>),
}

impl TypedValue {
    pub open spec fn view(&self) -> TypedValueView {
        match self {
            TypedValue::Int8(r) => TypedValueView::Int8(*r),
            TypedValue::Int16(r) => TypedValueView::Int16(*r),
            TypedValue::Int32(r) => TypedValueView::Int32(*r),
            TypedValue::Float(r) => TypedValueView::Float(*r),
            TypedValue::String(s) => TypedValueView::String(opt_bytes_view(*s)),
            TypedValue::Array(t, v) => TypedValueView::Array(*t, v@),
        }
    }
}

/// The `n` elements of width `w` from `pos`.
pub open spec fn raws(src: Seq<u8>, pos: int, n: nat, w: nat, float: bool) -> Seq<Raw> {
    Seq::new(n, |i: int| raw_at(src, pos + i * w, w, float))
}

/// The typed value at `pos` and the position after it.
pub open spec fn typed_value_at(src: Seq<u8>, pos: int) -> Result<(Option<TypedValueView>, int), DecodeError> {
    match type_at(src, pos) {
        Err(e) => Err(e),
        Ok((None, p)) => Ok((None, p)),
        Ok((Some(Type::String(n)), p)) => if n == 0 {
            Ok((Some(TypedValueView::String(None)), p))
        } else if p + n > src.len() {
            Err(DecodeError::InvalidRawValue)
        } else {
            Ok((Some(TypedValueView::String(Some(src.subrange(p, p + n)))), p + n))
        },
        Ok((Some(t), p)) => {
            let (w, n, float): (nat, usize, bool) = match t {
                Type::Int8(n) => (1, n, false),
                Type::Int16(n) => (2, n, false),
                Type::Int32(n) => (4, n, false),
                _ => (4, t->Float_0, true),
            };
            let single = |r: Option<Raw>| match t {
                Type::Int8(_) => TypedValueView::Int8(r),
                Type::Int16(_) => TypedValueView::Int16(r),
                Type::Int32(_) => TypedValueView::Int32(r),
                _ => TypedValueView::Float(r),
            };
            if n == 0 {
                Ok((Some(single(None)), p))
            } else if p + n * w > src.len() {
                Err(DecodeError::InvalidRawValue)
            } else if n == 1 {
                Ok((Some(single(Some(raw_at(src, p, w, float)))), p + w))
            } else {
                Ok((Some(TypedValueView::Array(t, raws(src, p, n as nat, w, float))), p + n * w))
            }
        },
    }
}

/// Reads the typed value at `*pos` and moves `*pos` past it.
pub fn read_value(src: &[u8], pos: &mut usize) -> (r: Result<Option<TypedValue>, DecodeError>)
    ensures
        match typed_value_at(src@, *old(pos) as int) {
            Ok((v, p)) => r.is_ok() && *final(pos) == p && match r.unwrap() {
                Some(x) => v == Some(x@),
                None => v.is_none(),
            },
            Err(e) => r == Err::<Option<TypedValue>, DecodeError>(e),
        },
{
    let len = src.len();
    let (t, p) = read_type(src, *pos)?;
    let t = match t {
        None => {
            *pos = p;
            return Ok(None);
        },
        Some(t) => t,
    };
    if let Type::String(n) = t {
        if n == 0 {
            *pos = p;
            return Ok(Some(TypedValue::String(None)));
        }
        if n > len - p {
            return Err(DecodeError::InvalidRawValue);
        }
        let b = copy_range(src, p, p + n);
        *pos = p + n;
        return Ok(Some(TypedValue::String(Some(b))));
    }
    let (w, n, float): (usize, usize, bool) = match t {
        Type::Int8(n) => (1, n, false),
        Type::Int16(n) => (2, n, false),
        Type::Int32(n) => (4, n, false),
        Type::Float(n) => (4, n, true),
        Type::String(n) => (1, n, false),
    };
    let size = vector_size(n, w);
    if n == 0 {
        *pos = p;
        return Ok(Some(single_value(t, None)));
    }
    if size > (len - p) as u128 {
        return Err(DecodeError::InvalidRawValue);
    }
    if n == 1 {
        assert(n * w == w) by (nonlinear_arith)
            requires
                n == 1,
        ;
        let r = read_raw(src, p, w, float);
        *pos = p + w;
        return Ok(Some(single_value(t, Some(r))));
    }
    let mut out: Vec<Raw> = Vec::new();
    let mut q = p;
    let mut i: usize = 0;
    while i < n
        invariant
            len == src@.len(),
            w == 1 || w == 2 || w == 4,
            0 <= i <= n,
            q == p + i * w,
            p + n * w <= len,
            out@ =~= raws(src@, p as int, i as nat, w as nat, float),
        decreases n - i,
    {
        proof {
            assert((i + 1) * w == i * w + w) by (nonlinear_arith);
            assert((i + 1) * w <= n * w) by (nonlinear_arith)
                requires
                    i + 1 <= n,
                    w >= 1,
            ;
        }
        out.push(read_raw(src, q, w, float));
        q = q + w;
        i = i + 1;
    }
    *pos = q;
    Ok(Some(TypedValue::Array(t, out)))
}

fn single_value(t: Type, r: Option<Raw>) -> (v: TypedValue)
    ensures
        v@ == match t {
            Type::Int8(_) => TypedValueView::Int8(r),
            Type::Int16(_) => TypedValueView::Int16(r),
            Type::Int32(_) => TypedValueView::Int32(r),
            _ => TypedValueView::Float(r),
        },
{
    match t {
        Type::Int8(_) => TypedValue::Int8(r),
        Type::Int16(_) => TypedValue::Int16(r),
        Type::Int32(_) => TypedValue::Int32(r),
        _ => TypedValue::Float(r),
    }
}

} // verus!
