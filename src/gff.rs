use vstd::prelude::*;
use crate::codec::find_byte;
use crate::field::copy_range;

verus! {

/// Why an attribute field could not be parsed.
#[derive(Clone, Copy, Debug, PartialEq, Eq)]
pub enum ParseError {
    /// A field has no `=` between its tag and value.
    MissingSeparator,
}

pub type Field = Result<(Seq<u8>, Seq<u8>), ParseError>;

/// Where the field that starts at `pos` ends: the next `;` or the end.
pub open spec fn field_end(src: Seq<u8>, pos: int) -> int {
    match find_byte(src, pos, 0x3B) {
        Some(k) => k,
        None => src.len() as int,
    }
}

/// The field of `src` in `pos..end`, split at its first `=`.
pub open spec fn parse_field(src: Seq<u8>, pos: int, end: int) -> Field {
    match find_byte(src.subrange(0, end), pos, 0x3D) {
        None => Err(ParseError::MissingSeparator),
        Some(e) => Ok((src.subrange(pos, e), src.subrange(e + 1, end))),
    }
}

/// The fields of `src` from `pos` on, up to and with the first that does
/// not parse.
pub open spec fn fields_from(src: Seq<u8>, pos: int) -> Seq<Field>
    decreases src.len() - pos,
{
    if pos < 0 || pos >= src.len() {
        Seq::empty()
    } else {
        let end = field_end(src, pos);
        match parse_field(src, pos, end) {
            Err(e) => seq![Err(e)],
            Ok(f) => if pos < end + 1 <= src.len() {
                seq![Ok(f)] + fields_from(src, end + 1)
            } else {
                seq![Ok(f)]
            },
        }
    }
}

/// What `get` finds for `tag` among `fields`: the value of the first field
/// with that tag, or the first error before it.
pub open spec fn lookup(fields: Seq<Field>, tag: Seq<u8>) -> Option<Result<Seq<u8>, ParseError>>
    decreases fields.len(),
{
    if fields.len() == 0 {
        None
    } else {
        match fields[0] {
            Err(e) => Some(Err(e)),
            Ok((t, v)) => if t == tag {
                Some(Ok(v))
            } else {
                lookup(fields.drop_first(), tag)
            },
        }
    }
}

pub open spec fn field_view(f: Result<(Vec<u8>, Vec<u8>), ParseError>) -> Field {
    match f {
        Ok((t, v)) => Ok((t@, v@)),
        Err(e) => Err(e),
    }
}

/// Raw GFF record attributes: `tag=value` fields separated by `;`.
pub struct Attributes {
    src: Vec<u8>,
}

impl Attributes {
    pub closed spec fn view(&self) -> Seq<u8> {
        self.src@
    }

    pub fn new(buf: &[u8]) -> (r: Self)
        ensures
            r@ == buf@,
    {
        let src = copy_range(buf, 0, buf.len());
        assert(src@ =~= buf@);
        Attributes { src }
    }

    /// Whether there are any attributes.
    pub fn is_empty(&self) -> (r: bool)
        ensures
            r == (self@.len() == 0),
    {
        self.src.len() == 0
    }

    /// The fields in order; a field that does not parse ends the list.
    pub fn iter(&self) -> (r: Vec<Result<(Vec<u8>, Vec<u8>), ParseError>>)
        ensures
            r@.map_values(|f| field_view(f)) == fields_from(self@, 0),
    {
        let src = &self.src;
        let len = src.len();
        let mut out: Vec<Result<(Vec<u8>, Vec<u8>), ParseError>> = Vec::new();
        let mut pos: usize = 0;
        while pos < len
            invariant
                len == src@.len(),
                *src == self.src,
                0 <= pos <= len,
                out@.map_values(|f| field_view(f)) + fields_from(src@, pos as int) == fields_from(src@, 0),
            decreases len - pos,
        {
            let mut end: usize = pos;
            loop
                invariant_except_break
                    pos <= end <= len,
                    find_byte(src@, pos as int, 0x3B) == find_byte(src@, end as int, 0x3B),
                invariant
                    len == src@.len(),
                    pos < len,
                ensures
                    pos <= end <= len,
                    end == field_end(src@, pos as int),
                decreases len - end,
            {
                if end >= len || src[end] == 0x3B {
                    break;
                }
                end = end + 1;
            }
            let mut eq: usize = pos;
            loop
                invariant_except_break
                    pos <= eq <= end,
                    find_byte(src@.subrange(0, end as int), pos as int, 0x3D) == find_byte(
                        src@.subrange(0, end as int),
                        eq as int,
                        0x3D,
                    ),
                invariant
                    len == src@.len(),
                    pos <= end <= len,
                ensures
                    pos <= eq <= end,
                    eq < end ==> find_byte(src@.subrange(0, end as int), pos as int, 0x3D) == Some(eq as int),
                    eq >= end ==> find_byte(src@.subrange(0, end as int), pos as int, 0x3D).is_none(),
                decreases end - eq,
            {
                if eq >= end {
                    break;
                }
                if src[eq] == 0x3D {
                    break;
                }
                eq = eq + 1;
            }
            let ghost before = out@.map_values(|f| field_view(f));
            if eq >= end {
                out.push(Err(ParseError::MissingSeparator));
                assert(out@.map_values(|f| field_view(f)) =~= before.push(Err(ParseError::MissingSeparator)));
                assert(fields_from(src@, pos as int) == seq![Err::<(Seq<u8>, Seq<u8>), ParseError>(ParseError::MissingSeparator)]);
                assert(out@.map_values(|f| field_view(f)) =~= fields_from(src@, 0));
                return out;
            }
            let tag = copy_range(src.as_slice(), pos, eq);
            let value = copy_range(src.as_slice(), eq + 1, end);
            let ghost f = (tag@, value@);
            out.push(Ok((tag, value)));
            assert(out@.map_values(|f| field_view(f)) =~= before.push(Ok(f)));
            if end >= len {
                assert(fields_from(src@, pos as int) == seq![Ok::<(Seq<u8>, Seq<u8>), ParseError>(f)] + fields_from(src@, end + 1));
                assert(fields_from(src@, end + 1) =~= Seq::<Field>::empty());
                pos = len;
            } else {
                pos = end + 1;
            }
        }
        assert(fields_from(src@, pos as int) =~= Seq::<Field>::empty());
        assert(out@.map_values(|f| field_view(f)) =~= fields_from(src@, 0));
        out
    }

    /// The value of the first field with `tag`, or the error of a field
    /// before it that does not parse.
    pub fn get(&self, tag: &[u8]) -> (r: Option<Result<Vec<u8>, ParseError>>)
        ensures
            match lookup(fields_from(self@, 0), tag@) {
                None => r.is_none(),
                Some(Err(e)) => r == Some(Err::<Vec<u8>, ParseError>(e)),
                Some(Ok(v)) => r.is_some() && r.unwrap().is_ok() && r.unwrap().unwrap()@ == v,
            },
    {
        let fields = self.iter();
        let ghost fs = fields@.map_values(|f| field_view(f));
        let mut i: usize = 0;
        assert(fs.subrange(0, fs.len() as int) =~= fs);
        while i < fields.len()
            invariant
                fs == fields@.map_values(|f| field_view(f)),
                fs == fields_from(self@, 0),
                0 <= i <= fields@.len(),
                lookup(fs, tag@) == lookup(fs.subrange(i as int, fs.len() as int), tag@),
            decreases fields@.len() - i,
        {
            let ghost rest = fs.subrange(i as int, fs.len() as int);
            assert(rest[0] == fs[i as int]);
            assert(rest.drop_first() =~= fs.subrange(i + 1, fs.len() as int));
            match &fields[i] {
                Err(e) => {
                    return Some(Err(*e));
                },
                Ok((t, v)) => {
                    if bytes_eq(t, tag) {
                        return Some(Ok(copy_range(v.as_slice(), 0, v.len())));
                    }
                },
            }
            i = i + 1;
        }
        None
    }
}

/// Whether two byte strings are equal.
pub fn bytes_eq(a: &Vec<u8>, b: &[u8]) -> (r: bool)
    ensures
        r == (a@ == b@),
{
    if a.len() != b.len() {
        return false;
    }
    let mut i: usize = 0;
    while i < a.len()
        invariant
            a@.len() == b@.len(),
            0 <= i <= a@.len(),
            forall|j: int| 0 <= j < i ==> a@[j] == b@[j],
        decreases a@.len() - i,
    {
        if a[i] != b[i] {
            return false;
        }
        i = i + 1;
    }
    assert(a@ =~= b@);
    true
}

} // verus!
