use vstd::prelude::*;

verus! {

/// Why a SAM header record could not be parsed.
#[derive(Clone, Copy, Debug, PartialEq, Eq)]
pub enum ParseError {
    /// The record does not start with `@`.
    MissingPrefix,
    /// The record kind is invalid.
    InvalidKind,
    /// The record value is invalid.
    InvalidValue,
}

/// Takes the first byte of a header record line, which must be `@`.
pub fn consume_prefix(src: &mut Vec<u8>) -> (r: Result<(), ParseError>)
    ensures
        old(src)@.len() > 0 ==> final(src)@ == old(src)@.drop_first(),
        old(src)@.len() == 0 ==> final(src)@ == old(src)@,
        r.is_ok() <==> old(src)@.len() > 0 && old(src)@[0] == 0x40,
        r.is_err() ==> r == Err::<(), ParseError>(ParseError::MissingPrefix),
{
    if src.len() == 0 {
        return Err(ParseError::MissingPrefix);
    }
    let b = src.remove(0);
    assert(src@ =~= old(src)@.drop_first());
    if b == 0x40 {
        Ok(())
    } else {
        Err(ParseError::MissingPrefix)
    }
}

/// The quality scores of an alignment record, as a record type offers
/// them.
pub trait QualityScores {
    /// Whether there are no scores.
    fn is_empty(&self) -> bool;

    /// The number of scores.
    fn len(&self) -> usize;

    /// The scores in order.
    fn iter(&self) -> Vec<u8>;
}

} // verus!
