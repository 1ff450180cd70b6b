use vstd::prelude::*;

verus! {

/// Where each field of a raw VCF record line ends.
#[derive(Clone, Copy, Debug, PartialEq, Eq)]
pub struct Bounds {
    pub reference_sequence_name_end: usize,
    pub variant_start_end: usize,
    pub ids_end: usize,
    pub reference_bases_end: usize,
    pub alternate_bases_end: usize,
    pub quality_score_end: usize,
    pub filters_end: usize,
    pub info_end: usize,
}

impl Bounds {
    pub fn reference_sequence_name_range(&self) -> (r: std::ops::Range<usize>)
        ensures
            r.start == 0 && r.end == self.reference_sequence_name_end,
    {
        0..self.reference_sequence_name_end
    }

    pub fn variant_start_range(&self) -> (r: std::ops::Range<usize>)
        ensures
            r.start == self.reference_sequence_name_end && r.end == self.variant_start_end,
    {
        self.reference_sequence_name_end..self.variant_start_end
    }

    pub fn ids_range(&self) -> (r: std::ops::Range<usize>)
        ensures
            r.start == self.variant_start_end && r.end == self.ids_end,
    {
        self.variant_start_end..self.ids_end
    }

    pub fn reference_bases_range(&self) -> (r: std::ops::Range<usize>)
        ensures
            r.start == self.ids_end && r.end == self.reference_bases_end,
    {
        self.ids_end..self.reference_bases_end
    }

    pub fn alternate_bases_range(&self) -> (r: std::ops::Range<usize>)
        ensures
            r.start == self.reference_bases_end && r.end == self.alternate_bases_end,
    {
        self.reference_bases_end..self.alternate_bases_end
    }

    pub fn quality_score_range(&self) -> (r: std::ops::Range<usize>)
        ensures
            r.start == self.alternate_bases_end && r.end == self.quality_score_end,
    {
        self.alternate_bases_end..self.quality_score_end
    }

    pub fn filters_range(&self) -> (r: std::ops::Range<usize>)
        ensures
            r.start == self.quality_score_end && r.end == self.filters_end,
    {
        self.quality_score_end..self.filters_end
    }

    pub fn info_range(&self) -> (r: std::ops::Range<usize>)
        ensures
            r.start == self.filters_end && r.end == self.info_end,
    {
        self.filters_end..self.info_end
    }

    /// Where the samples start; they run to the end of the line.
    pub fn samples_range(&self) -> (r: usize)
        ensures
            r == self.info_end,
    {
        self.info_end
    }
}

impl Default for Bounds {
    /// The bounds of a line whose first eight fields are one byte each
    /// after a three-byte reference sequence name.
    fn default() -> (r: Self)
        ensures
            r.reference_sequence_name_end == 3 && r.variant_start_end == 4 && r.ids_end == 5
                && r.reference_bases_end == 6 && r.alternate_bases_end == 7 && r.quality_score_end
                == 8 && r.filters_end == 9 && r.info_end == 10,
    {
        Bounds {
            reference_sequence_name_end: 3,
            variant_start_end: 4,
            ids_end: 5,
            reference_bases_end: 6,
            alternate_bases_end: 7,
            quality_score_end: 8,
            filters_end: 9,
            info_end: 10,
        }
    }
}

/// Why a VCF header record could not be parsed.
#[derive(Clone, Copy, Debug, PartialEq, Eq)]
pub enum ParseError {
    /// The record does not start with `##`.
    MissingPrefix,
    /// The key is invalid.
    InvalidKey,
    /// The value is invalid.
    InvalidValue,
}

/// Takes the `##` that starts a header record line; the line is left as it
/// is when it does not start so.
pub fn consume_prefix(src: &mut Vec<u8>) -> (r: Result<(), ParseError>)
    ensures
        r.is_ok() <==> old(src)@.len() >= 2 && old(src)@[0] == 0x23 && old(src)@[1] == 0x23,
        r.is_ok() ==> final(src)@ == old(src)@.subrange(2, old(src)@.len() as int),
        r.is_err() ==> final(src)@ == old(src)@ && r == Err::<(), ParseError>(ParseError::MissingPrefix),
{
    if src.len() >= 2 && src[0] == 0x23 && src[1] == 0x23 {
        src.remove(0);
        src.remove(0);
        assert(src@ =~= old(src)@.subrange(2, old(src)@.len() as int));
        Ok(())
    } else {
        Err(ParseError::MissingPrefix)
    }
}

/// How an allele is joined to the one before it.
#[derive(Clone, Copy, Debug, PartialEq, Eq, Structural)]
pub enum Phasing {
    Phased,
    Unphased,
}

pub open spec fn phasing_byte(p: Phasing) -> u8 {
    match p {
        Phasing::Phased => 0x7C,
        Phasing::Unphased => 0x2F,
    }
}

/// The decimal digits of `n`.
pub open spec fn decimal(n: nat) -> Seq<u8>
    decreases n,
{
    if n < 10 {
        seq![(0x30 + n) as u8]
    } else {
        decimal(n / 10).push((0x30 + n % 10) as u8)
    }
}

/// An allele position as written: its number, or `.` where it is missing.
pub open spec fn position_text(p: Option<usize>) -> Seq<u8> {
    match p {
        Some(n) => decimal(n as nat),
        None => seq![0x2Eu8],
    }
}

/// Writes `|` for a phased allele, `/` for an unphased one.
pub fn write_phasing(buf: &mut Vec<u8>, phasing: Phasing) -> (r: Result<(), ParseError>)
    ensures
        r.is_ok(),
        final(buf)@ == old(buf)@.push(phasing_byte(phasing)),
{
    match phasing {
        Phasing::Phased => buf.push(0x7C),
        Phasing::Unphased => buf.push(0x2F),
    }
    Ok(())
}

fn write_decimal(buf: &mut Vec<u8>, n: usize)
    ensures
        final(buf)@ == old(buf)@ + decimal(n as nat),
    decreases n,
{
    if n >= 10 {
        write_decimal(buf, n / 10);
    }
    buf.push((0x30 + n % 10) as u8);
    assert(buf@ =~= old(buf)@ + decimal(n as nat));
}

/// Writes an allele position, or `.` where it is missing.
pub fn write_position(buf: &mut Vec<u8>, position: Option<usize>) -> (r: Result<(), ParseError>)
    ensures
        r.is_ok(),
        final(buf)@ == old(buf)@ + position_text(position),
{
    match position {
        Some(n) => write_decimal(buf, n),
        None => {
            buf.push(0x2E);
            assert(buf@ =~= old(buf)@ + seq![0x2Eu8]);
        },
    }
    Ok(())
}

/// A genotype as VCF 4.0 to 4.3 write it: a separator before each allele
/// but the first.
pub open spec fn genotype_text_4_0(alleles: Seq<(Option<usize>, Phasing)>, n: int) -> Seq<u8>
    decreases n,
{
    if n <= 0 {
        Seq::empty()
    } else {
        let a = alleles[n - 1];
        genotype_text_4_0(alleles, n - 1) + (if n - 1 > 0 {
            seq![phasing_byte(a.1)]
        } else {
            Seq::empty()
        }) + position_text(a.0)
    }
}

/// A genotype as VCF 4.4 writes it: a separator before every allele.
pub open spec fn genotype_text_4_4(alleles: Seq<(Option<usize>, Phasing)>, n: int) -> Seq<u8>
    decreases n,
{
    if n <= 0 {
        Seq::empty()
    } else {
        let a = alleles[n - 1];
        genotype_text_4_4(alleles, n - 1) + seq![phasing_byte(a.1)] + position_text(a.0)
    }
}

pub fn vcf_4_0_write_genotype(buf: &mut Vec<u8>, alleles: &[(Option<usize>, Phasing)]) -> (r: Result<(), ParseError>)
    ensures
        r.is_ok(),
        final(buf)@ == old(buf)@ + genotype_text_4_0(alleles@, alleles@.len() as int),
{
    let mut i: usize = 0;
    while i < alleles.len()
        invariant
            0 <= i <= alleles@.len(),
            buf@ == old(buf)@ + genotype_text_4_0(alleles@, i as int),
        decreases alleles@.len() - i,
    {
        let (position, phasing) = alleles[i];
        let ghost before = buf@;
        if i > 0 {
            let _ = write_phasing(buf, phasing);
        }
        let _ = write_position(buf, position);
        assert(buf@ =~= old(buf)@ + genotype_text_4_0(alleles@, i + 1));
        i = i + 1;
    }
    Ok(())
}

pub fn vcf_4_4_write_genotype(buf: &mut Vec<u8>, alleles: &[(Option<usize>, Phasing)]) -> (r: Result<(), ParseError>)
    ensures
        r.is_ok(),
        final(buf)@ == old(buf)@ + genotype_text_4_4(alleles@, alleles@.len() as int),
{
    let mut i: usize = 0;
    while i < alleles.len()
        invariant
            0 <= i <= alleles@.len(),
            buf@ == old(buf)@ + genotype_text_4_4(alleles@, i as int),
        decreases alleles@.len() - i,
    {
        let (position, phasing) = alleles[i];
        let _ = write_phasing(buf, phasing);
        let _ = write_position(buf, position);
        assert(buf@ =~= old(buf)@ + genotype_text_4_4(alleles@, i + 1));
        i = i + 1;
    }
    Ok(())
}

/// The number of `b` bytes among the first `n` of `s`.
pub open spec fn count_byte(s: Seq<u8>, b: u8, n: int) -> nat
    decreases n,
{
    if n <= 0 {
        0
    } else {
        count_byte(s, b, n - 1) + if s[n - 1] == b {
            1nat
        } else {
            0nat
        }
    }
}

/// The number of comma-separated values in `s`; none in an empty string.
pub fn count(s: &[u8]) -> (r: usize)
    requires
        s@.len() < usize::MAX,
    ensures
        r == if s@.len() == 0 {
            0
        } else {
            count_byte(s@, 0x2C, s@.len() as int) + 1
        },
{
    if s.len() == 0 {
        return 0;
    }
    let mut n: usize = 0;
    let mut i: usize = 0;
    while i < s.len()
        invariant
            0 <= i <= s@.len(),
            n == count_byte(s@, 0x2C, i as int),
            n <= i,
        decreases s@.len() - i,
    {
        if s[i] == 0x2C {
            n = n + 1;
        }
        i = i + 1;
    }
    n + 1
}

/// The values of an array field of a sample.
pub trait Values {
    /// The number of values.
    fn len(&self) -> usize;
}

impl<'a> Values for &'a [u8] {
    fn len(&self) -> usize {
        let s: &[u8] = *self;
        if s.len() == usize::MAX {
            return usize::MAX;
        }
        count(s)
    }
}

/// A sample value of a VCF record buffer. Floats are kept as their bits.
#[derive(Clone, Debug, PartialEq, Eq)]
pub enum Value {
    Integer(i32),
    Float(u32),
    Character(u8),
    String(Vec<u8>),
    IntegerArray(Vec<Option<i32>>),
    FloatArray(Vec<Option<u32>>),
    StringArray(Vec<Option<Vec<u8>>>),
}

pub enum ValueView {
    Integer(i32),
    Float(u32),
    Character(u8),
    String(Seq<u8>),
    IntegerArray(Seq<Option<i32>>),
    FloatArray(Seq<Option<u32>>),
    StringArray(Seq<Option<Seq<u8>>>),
}

pub open spec fn opt_bytes_view(v: Option<Vec<u8>>) -> Option<Seq<u8>> {
    match v {
        Some(b) => Some(b@),
        None => None,
    }
}

impl Value {
    pub open spec fn view(&self) -> ValueView {
        match self {
            Value::Integer(n) => ValueView::Integer(*n),
            Value::Float(n) => ValueView::Float(*n),
            Value::Character(c) => ValueView::Character(*c),
            Value::String(s) => ValueView::String(s@),
            Value::IntegerArray(a) => ValueView::IntegerArray(a@),
            Value::FloatArray(a) => ValueView::FloatArray(a@),
            Value::StringArray(a) => ValueView::StringArray(a@.map_values(|x: Option<Vec<u8>>| opt_bytes_view(x))),
        }
    }
}

/// One key's values across the samples of a record buffer.
pub struct Series<'s> {
    name: &'s str,
    values: &'s [Vec<Option<Value>>],
    i: usize,
}

impl<'s> Series<'s> {
    pub closed spec fn values(&self) -> Seq<Vec<Option<Value>>> {
        self.values@
    }

    pub closed spec fn index(&self) -> usize {
        self.i
    }

    /// The series of the key at index `i` of each sample's values.
    pub fn new(name: &'s str, values: &'s [Vec<Option<Value>>], i: usize) -> (r: Self)
        ensures
            r.values() == values@,
            r.index() == i,
    {
        Series { name, values, i }
    }

    /// The value of sample `i`: `None` past the last sample, `Some(None)`
    /// where the sample has no value for the key.
    pub fn get(&self, i: usize) -> (r: Option<Option<&Value>>)
        ensures
            i >= self.values().len() ==> r.is_none(),
            i < self.values().len() ==> match r {
                Some(Some(v)) => self.index() < self.values()[i as int]@.len() && self.values()[i as int]@[self.index() as int] == Some(*v),
                Some(None) => self.index() >= self.values()[i as int]@.len() || self.values()[i as int]@[self.index() as int].is_none(),
                None => false,
            },
    {
        if i >= self.values.len() {
            return None;
        }
        let sample = &self.values[i];
        if self.i >= sample.len() {
            return Some(None);
        }
        match &sample[self.i] {
            Some(v) => Some(Some(v)),
            None => Some(None),
        }
    }
}

} // verus!
