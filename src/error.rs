use vstd::prelude::*;

verus! {

/// The named per-record columns of a slice, each compressed with its own
/// codec.
#[derive(Clone, Copy, Debug, PartialEq, Eq, Structural)]
pub enum DataSeries {
    BamFlags,
    CramFlags,
    ReferenceSequenceIds,
    ReadLengths,
    AlignmentStarts,
    ReadGroupIds,
    Names,
    MateFlags,
    MateReferenceSequenceIds,
    MateAlignmentStarts,
    TemplateLengths,
    MateDistances,
    TagSetIds,
    FeatureCounts,
    FeatureCodes,
    FeaturePositionDeltas,
    Bases,
    QualityScores,
    BaseSubstitutionCodes,
    InsertionBases,
    DeletionLengths,
    ReferenceSkipLengths,
    SoftClipBases,
    PaddingLengths,
    HardClipLengths,
    MappingQualities,
    StretchesOfBases,
    StretchesOfQualityScores,
}

/// The value type of an auxiliary field.
#[derive(Clone, Copy, Debug, PartialEq, Eq, Structural)]
pub enum Type {
    Character,
    Int8,
    UInt8,
    Int16,
    UInt16,
    Int32,
    UInt32,
    Float,
    String,
    Hex,
    Array,
}

/// A tag-set entry: the two-character tag and its value type.
#[derive(Clone, Copy, Debug, PartialEq, Eq)]
pub struct TagKey {
    pub tag: [u8; 2],
    pub ty: Type,
}

/// Why a codec or the record engine stopped.
#[derive(Clone, Copy, Debug, PartialEq, Eq)]
pub enum ReadRecordError {
    /// A stream ended before the value was complete.
    UnexpectedEof,
    /// The compression header has no encoding for a series the record needs.
    MissingDataSeriesEncoding(DataSeries),
    /// No external block has the content id.
    MissingExternalBlock(i32),
    /// The preservation map has no tag set with the id.
    MissingTagSet(usize),
    /// The compression header has no encoding for the tag.
    MissingTagEncoding(TagKey),
    /// A value is out of range or otherwise malformed.
    InvalidData,
    /// The codec variant is declared but not supported.
    NotImplemented,
}

} // verus!
