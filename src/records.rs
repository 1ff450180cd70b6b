use vstd::prelude::*;
use crate::bit_reader::BitReader;
use crate::codec::{
    decode_byte, decode_byte_array, decode_integer, decode_take, forward, streams, streams_wf, StreamState,
};
use crate::error::{DataSeries, ReadRecordError, TagKey, Type};
use crate::external::ExternalDataReaders;
use crate::field::{read_value, value_at};
use crate::header::{CompressionHeader, ReferenceSequenceContext};
use crate::record::{Feature, FeatureView, Record, RecordView, Tag, TagValueView};

verus! {

/// BAM flag: the read is unmapped.
pub const UNMAPPED: u16 = 0x4;
/// BAM flag: the mate is unmapped.
pub const MATE_UNMAPPED: u16 = 0x8;
/// BAM flag: the mate is on the reverse strand.
pub const MATE_REVERSE_COMPLEMENTED: u16 = 0x20;
/// CRAM flag: quality scores are stored as an array.
pub const QUALITY_SCORES_ARE_STORED_AS_ARRAY: u8 = 0x1;
/// CRAM flag: the mate is described in the record itself.
pub const DETACHED: u8 = 0x2;
/// CRAM flag: the mate is a later record of the slice.
pub const MATE_IS_DOWNSTREAM: u8 = 0x4;
/// Mate flag: the mate is on the negative strand.
pub const MATE_ON_NEGATIVE_STRAND: u8 = 0x1;
/// Mate flag: the mate is unmapped.
pub const MATE_FLAG_UNMAPPED: u8 = 0x2;
/// A quality score that stands for "not stored".
pub const MISSING_QUALITY_SCORE: u8 = 0xFF;

type Step<T> = Result<(T, StreamState), ReadRecordError>;

/// One integer of series `ds`.
pub open spec fn series_int(h: CompressionHeader, ds: DataSeries, s: StreamState) -> Step<i32> {
    match h.data_series_encodings.integer(ds) {
        None => Err(ReadRecordError::MissingDataSeriesEncoding(ds)),
        Some(e) => decode_integer(e.codec(), s),
    }
}

/// One byte of series `ds`.
pub open spec fn series_byte(h: CompressionHeader, ds: DataSeries, s: StreamState) -> Step<u8> {
    match h.data_series_encodings.byte(ds) {
        None => Err(ReadRecordError::MissingDataSeriesEncoding(ds)),
        Some(e) => decode_byte(e.codec(), s),
    }
}

/// `n` bytes of series `ds`.
pub open spec fn series_take(h: CompressionHeader, ds: DataSeries, s: StreamState, n: nat) -> Step<Seq<u8>> {
    match h.data_series_encodings.byte(ds) {
        None => Err(ReadRecordError::MissingDataSeriesEncoding(ds)),
        Some(e) => decode_take(e.codec(), s, n),
    }
}

/// One byte string of series `ds`.
pub open spec fn series_bytes(h: CompressionHeader, ds: DataSeries, s: StreamState) -> Step<Seq<u8>> {
    match h.data_series_encodings.byte_array(ds) {
        None => Err(ReadRecordError::MissingDataSeriesEncoding(ds)),
        Some(e) => decode_byte_array(e.codec(), s),
    }
}

/// A count or length of series `ds`; negative values are invalid.
pub open spec fn series_usize(h: CompressionHeader, ds: DataSeries, s: StreamState) -> Step<usize> {
    match series_int(h, ds, s) {
        Ok((n, s1)) => if n >= 0 {
            Ok((n as usize, s1))
        } else {
            Err(ReadRecordError::InvalidData)
        },
        Err(e) => Err(e),
    }
}

/// A byte-sized number of series `ds`.
pub open spec fn series_u8(h: CompressionHeader, ds: DataSeries, s: StreamState) -> Step<u8> {
    match series_int(h, ds, s) {
        Ok((n, s1)) => if 0 <= n <= 255 {
            Ok((n as u8, s1))
        } else {
            Err(ReadRecordError::InvalidData)
        },
        Err(e) => Err(e),
    }
}

/// An id of series `ds`, where -1 stands for none.
pub open spec fn series_id(h: CompressionHeader, ds: DataSeries, s: StreamState) -> Step<Option<usize>> {
    match series_int(h, ds, s) {
        Ok((n, s1)) => if n == -1 {
            Ok((None, s1))
        } else if n >= 0 {
            Ok((Some(n as usize), s1))
        } else {
            Err(ReadRecordError::InvalidData)
        },
        Err(e) => Err(e),
    }
}

/// The 1-based alignment start from a decoded value: an offset from the
/// previous record's start, or the start itself. Non-positive starts are
/// invalid.
pub open spec fn resolve_start(deltas: bool, prev: usize, raw: i32) -> Result<usize, ReadRecordError> {
    let v = if deltas {
        prev + raw
    } else {
        raw as int
    };
    if 0 < v <= usize::MAX {
        Ok(v as usize)
    } else {
        Err(ReadRecordError::InvalidData)
    }
}

type RecordStep = Result<(RecordView, StreamState), ReadRecordError>;

/// The BAM flags, then CRAM flags.
pub open spec fn step_flags(h: CompressionHeader, r: RecordView, s: StreamState) -> RecordStep {
    match series_int(h, DataSeries::BamFlags, s) {
        Err(e) => Err(e),
        Ok((b, s1)) => if !(0 <= b <= 0xFFFF) {
            Err(ReadRecordError::InvalidData)
        } else {
            match series_u8(h, DataSeries::CramFlags, s1) {
                Err(e) => Err(e),
                Ok((c, s2)) => Ok((RecordView { bam_flags: b as u16, cram_flags: c, ..r }, s2)),
            }
        },
    }
}

/// The reference sequence, read length, alignment start and read group.
pub open spec fn step_positions(
    h: CompressionHeader,
    ctx: ReferenceSequenceContext,
    prev: usize,
    r: RecordView,
    s: StreamState,
) -> RecordStep {
    let rid: Step<Option<usize>> = match ctx {
        ReferenceSequenceContext::Fixed { reference_sequence_id, .. } => Ok(
            (Some(reference_sequence_id), s),
        ),
        ReferenceSequenceContext::Absent => Ok((None, s)),
        ReferenceSequenceContext::Many => series_id(h, DataSeries::ReferenceSequenceIds, s),
    };
    match rid {
        Err(e) => Err(e),
        Ok((rid, s1)) => match series_usize(h, DataSeries::ReadLengths, s1) {
            Err(e) => Err(e),
            Ok((len, s2)) => match series_int(h, DataSeries::AlignmentStarts, s2) {
                Err(e) => Err(e),
                Ok((raw, s3)) => match resolve_start(
                    h.preservation_map.alignment_starts_are_deltas,
                    prev,
                    raw,
                ) {
                    Err(e) => Err(e),
                    Ok(start) => match series_id(h, DataSeries::ReadGroupIds, s3) {
                        Err(e) => Err(e),
                        Ok((rg, s4)) => Ok(
                            (
                                RecordView {
                                    reference_sequence_id: rid,
                                    read_length: len,
                                    alignment_start: start,
                                    read_group_id: rg,
                                    ..r
                                },
                                s4,
                            ),
                        ),
                    },
                },
            },
        },
    }
}

/// A decoded name; `*` and a NUL stand for none.
pub open spec fn name_of(b: Seq<u8>) -> Option<Seq<u8>> {
    if b == seq![0x2Au8, 0x00u8] {
        None
    } else {
        Some(b)
    }
}

/// The name, where the header says records carry names.
pub open spec fn step_names(h: CompressionHeader, r: RecordView, s: StreamState) -> RecordStep {
    if h.preservation_map.records_have_names {
        match series_bytes(h, DataSeries::Names, s) {
            Err(e) => Err(e),
            Ok((b, s1)) => Ok((RecordView { name: name_of(b), ..r }, s1)),
        }
    } else {
        Ok((r, s))
    }
}

/// The BAM flags with the mate flags folded in.
pub open spec fn fold_mate_flags(bam: u16, mate: u8) -> u16 {
    let a = if mate & MATE_ON_NEGATIVE_STRAND != 0 {
        bam | MATE_REVERSE_COMPLEMENTED
    } else {
        bam
    };
    if mate & MATE_FLAG_UNMAPPED != 0 {
        a | MATE_UNMAPPED
    } else {
        a
    }
}

/// For a detached record: mate flags, the name if not read yet,
/// mate reference, mate start and template length.
pub open spec fn step_detached_mate(h: CompressionHeader, r: RecordView, s: StreamState) -> RecordStep {
    match series_u8(h, DataSeries::MateFlags, s) {
        Err(e) => Err(e),
        Ok((mf, s1)) => {
            let r1 = RecordView { mate_flags: mf, bam_flags: fold_mate_flags(r.bam_flags, mf), ..r };
            let named: RecordStep = if !h.preservation_map.records_have_names {
                match series_bytes(h, DataSeries::Names, s1) {
                    Err(e) => Err(e),
                    Ok((b, s2)) => Ok((RecordView { name: name_of(b), ..r1 }, s2)),
                }
            } else {
                Ok((r1, s1))
            };
            match named {
                Err(e) => Err(e),
                Ok((r2, s2)) => match series_id(h, DataSeries::MateReferenceSequenceIds, s2) {
                    Err(e) => Err(e),
                    Ok((mid, s3)) => match series_usize(h, DataSeries::MateAlignmentStarts, s3) {
                        Err(e) => Err(e),
                        Ok((ms, s4)) => match series_int(h, DataSeries::TemplateLengths, s4) {
                            Err(e) => Err(e),
                            Ok((tl, s5)) => Ok(
                                (
                                    RecordView {
                                        mate_reference_sequence_id: mid,
                                        mate_alignment_start: if ms == 0 {
                                            None
                                        } else {
                                            Some(ms)
                                        },
                                        template_length: tl,
                                        ..r2
                                    },
                                    s5,
                                ),
                            ),
                        },
                    },
                },
            }
        },
    }
}

/// Mate information, as the CRAM flags call for.
pub open spec fn step_mate(h: CompressionHeader, r: RecordView, s: StreamState) -> RecordStep {
    if r.cram_flags & DETACHED != 0 {
        step_detached_mate(h, r, s)
    } else if r.cram_flags & MATE_IS_DOWNSTREAM != 0 {
        match series_usize(h, DataSeries::MateDistances, s) {
            Err(e) => Err(e),
            Ok((d, s1)) => Ok((RecordView { mate_distance: Some(d), ..r }, s1)),
        }
    } else {
        Ok((r, s))
    }
}

/// The character code of a value type.
pub open spec fn type_code(t: Type) -> u8 {
    match t {
        Type::Character => 0x41,
        Type::Int8 => 0x63,
        Type::UInt8 => 0x43,
        Type::Int16 => 0x73,
        Type::UInt16 => 0x53,
        Type::Int32 => 0x69,
        Type::UInt32 => 0x49,
        Type::Float => 0x66,
        Type::String => 0x5A,
        Type::Hex => 0x48,
        Type::Array => 0x42,
    }
}

/// The content id under which a tag's codec is registered: the two tag
/// characters and the type code, as a 24-bit number.
pub open spec fn tag_content_id(k: TagKey) -> i32 {
    (k.tag[0] * 0x1_0000 + k.tag[1] * 0x100 + type_code(k.ty)) as i32
}

/// Index of the first tag codec registered under `id`.
pub open spec fn find_tag_encoding(t: Seq<(i32, crate::codec::Encoding<crate::codec::ByteArray>)>, id: i32) -> Option<int>
    decreases t.len(),
{
    if t.len() == 0 {
        None
    } else {
        match find_tag_encoding(t.drop_last(), id) {
            Some(i) => Some(i),
            None => if t.last().0 == id {
                Some(t.len() - 1)
            } else {
                None
            },
        }
    }
}

/// The value of one tag.
#[verifier::opaque]
pub open spec fn tag_value(h: CompressionHeader, k: TagKey, s: StreamState) -> Step<TagValueView> {
    match find_tag_encoding(h.tag_encodings@, tag_content_id(k)) {
        None => Err(ReadRecordError::MissingTagEncoding(k)),
        Some(i) => match decode_byte_array(h.tag_encodings@[i].1.codec(), s) {
            Err(e) => Err(e),
            Ok((b, s1)) => match value_at(b, 0, k.ty) {
                Ok((v, _)) => Ok((v, s1)),
                Err(_) => Err(ReadRecordError::InvalidData),
            },
        },
    }
}

/// The values of the first `n` keys of a tag set.
pub open spec fn tag_values(h: CompressionHeader, keys: Seq<TagKey>, s: StreamState, n: nat) -> Step<
    Seq<([u8; 2], TagValueView)>,
>
    decreases n,
{
    if n == 0 {
        Ok((Seq::empty(), s))
    } else {
        match tag_values(h, keys, s, (n - 1) as nat) {
            Err(e) => Err(e),
            Ok((vs, s1)) => match tag_value(h, keys[n - 1], s1) {
                Err(e) => Err(e),
                Ok((v, s2)) => Ok((vs.push((keys[n - 1].tag, v)), s2)),
            },
        }
    }
}

/// The tag set id, then the value of each of its tags.
pub open spec fn step_tags(h: CompressionHeader, r: RecordView, s: StreamState) -> RecordStep {
    match series_usize(h, DataSeries::TagSetIds, s) {
        Err(e) => Err(e),
        Ok((id, s1)) => if id >= h.preservation_map.tag_sets@.len() {
            Err(ReadRecordError::MissingTagSet(id))
        } else {
            let keys = h.preservation_map.tag_sets@[id as int]@;
            match tag_values(h, keys, s1, keys.len()) {
                Err(e) => Err(e),
                Ok((tags, s2)) => Ok((RecordView { tags, ..r }, s2)),
            }
        },
    }
}

/// Whether `c` is the code of a read feature.
pub open spec fn is_feature_code(c: i32) -> bool {
    c == 0x62 || c == 0x71 || c == 0x42 || c == 0x58 || c == 0x49 || c == 0x44 || c == 0x69
        || c == 0x51 || c == 0x4E || c == 0x53 || c == 0x50 || c == 0x48
}

/// The payload of a feature with code `c` at `position`: a fixed recipe for
/// each code.
#[verifier::opaque]
pub open spec fn feature_payload(h: CompressionHeader, c: u8, position: usize, s: StreamState) -> Step<FeatureView> {
    if c == 0x62 {
        match series_bytes(h, DataSeries::StretchesOfBases, s) {
            Err(e) => Err(e),
            Ok((b, s1)) => Ok((FeatureView::Bases { position, bases: b }, s1)),
        }
    } else if c == 0x71 {
        match series_bytes(h, DataSeries::StretchesOfQualityScores, s) {
            Err(e) => Err(e),
            Ok((b, s1)) => Ok((FeatureView::Scores { position, quality_scores: b }, s1)),
        }
    } else if c == 0x42 {
        match series_byte(h, DataSeries::Bases, s) {
            Err(e) => Err(e),
            Ok((b, s1)) => match series_byte(h, DataSeries::QualityScores, s1) {
                Err(e) => Err(e),
                Ok((q, s2)) => Ok((FeatureView::ReadBase { position, base: b, quality_score: q }, s2)),
            },
        }
    } else if c == 0x58 {
        match series_byte(h, DataSeries::BaseSubstitutionCodes, s) {
            Err(e) => Err(e),
            Ok((b, s1)) => Ok((FeatureView::Substitution { position, code: b }, s1)),
        }
    } else if c == 0x49 {
        match series_bytes(h, DataSeries::InsertionBases, s) {
            Err(e) => Err(e),
            Ok((b, s1)) => Ok((FeatureView::Insertion { position, bases: b }, s1)),
        }
    } else if c == 0x44 {
        match series_usize(h, DataSeries::DeletionLengths, s) {
            Err(e) => Err(e),
            Ok((n, s1)) => Ok((FeatureView::Deletion { position, len: n }, s1)),
        }
    } else if c == 0x69 {
        match series_byte(h, DataSeries::Bases, s) {
            Err(e) => Err(e),
            Ok((b, s1)) => Ok((FeatureView::InsertBase { position, base: b }, s1)),
        }
    } else if c == 0x51 {
        match series_byte(h, DataSeries::QualityScores, s) {
            Err(e) => Err(e),
            Ok((q, s1)) => Ok((FeatureView::QualityScore { position, quality_score: q }, s1)),
        }
    } else if c == 0x4E {
        match series_usize(h, DataSeries::ReferenceSkipLengths, s) {
            Err(e) => Err(e),
            Ok((n, s1)) => Ok((FeatureView::ReferenceSkip { position, len: n }, s1)),
        }
    } else if c == 0x53 {
        match series_bytes(h, DataSeries::SoftClipBases, s) {
            Err(e) => Err(e),
            Ok((b, s1)) => Ok((FeatureView::SoftClip { position, bases: b }, s1)),
        }
    } else if c == 0x50 {
        match series_usize(h, DataSeries::PaddingLengths, s) {
            Err(e) => Err(e),
            Ok((n, s1)) => Ok((FeatureView::Padding { position, len: n }, s1)),
        }
    } else {
        match series_usize(h, DataSeries::HardClipLengths, s) {
            Err(e) => Err(e),
            Ok((n, s1)) => Ok((FeatureView::HardClip { position, len: n }, s1)),
        }
    }
}

/// One feature after a running offset `prev` (0 before the first): its
/// code, a delta added to the offset, and its payload. The feature's
/// 1-based position is the new offset plus one.
#[verifier::opaque]
pub open spec fn one_feature(h: CompressionHeader, prev: usize, s: StreamState) -> Result<
    (FeatureView, usize, StreamState),
    ReadRecordError,
> {
    match series_int(h, DataSeries::FeatureCodes, s) {
        Err(e) => Err(e),
        Ok((c, s1)) => if !is_feature_code(c) {
            Err(ReadRecordError::InvalidData)
        } else {
            match series_usize(h, DataSeries::FeaturePositionDeltas, s1) {
                Err(e) => Err(e),
                Ok((d, s2)) => if prev + d + 1 > (usize::MAX as int) {
                    Err(ReadRecordError::InvalidData)
                } else {
                    match feature_payload(h, c as u8, (prev + d + 1) as usize, s2) {
                        Err(e) => Err(e),
                        Ok((f, s3)) => Ok((f, (prev + d) as usize, s3)),
                    }
                }
            }
        }
    }
}

/// The first `n` features of a record, with the running offset after them.
pub open spec fn features(h: CompressionHeader, s: StreamState, n: nat) -> Result<
    (Seq<FeatureView>, usize, StreamState),
    ReadRecordError,
>
    decreases n,
{
    if n == 0 {
        Ok((Seq::empty(), 0, s))
    } else {
        match features(h, s, (n - 1) as nat) {
            Err(e) => Err(e),
            Ok((fs, prev, s1)) => match one_feature(h, prev, s1) {
                Err(e) => Err(e),
                Ok((f, p, s2)) => Ok((fs.push(f), p, s2)),
            },
        }
    }
}

/// Quality scores that are all the missing marker stand for none.
pub open spec fn normalize_quality(q: Seq<u8>) -> Seq<u8> {
    if forall|i: int| 0 <= i < q.len() ==> q[i] == MISSING_QUALITY_SCORE {
        Seq::empty()
    } else {
        q
    }
}

/// The quality scores of a record, where its CRAM flags say they are
/// stored.
pub open spec fn step_quality(h: CompressionHeader, r: RecordView, s: StreamState) -> RecordStep {
    if r.cram_flags & QUALITY_SCORES_ARE_STORED_AS_ARRAY != 0 {
        match series_take(h, DataSeries::QualityScores, s, r.read_length as nat) {
            Err(e) => Err(e),
            Ok((q, s1)) => Ok((RecordView { quality_scores: normalize_quality(q), ..r }, s1)),
        }
    } else {
        Ok((r, s))
    }
}

/// For an unmapped read: its bases, then its quality scores.
pub open spec fn step_unmapped(h: CompressionHeader, r: RecordView, s: StreamState) -> RecordStep {
    match series_take(h, DataSeries::Bases, s, r.read_length as nat) {
        Err(e) => Err(e),
        Ok((b, s1)) => step_quality(h, RecordView { sequence: b, ..r }, s1),
    }
}

/// For a mapped read: its features, mapping quality and quality
/// scores.
pub open spec fn step_mapped(h: CompressionHeader, r: RecordView, s: StreamState) -> RecordStep {
    match series_usize(h, DataSeries::FeatureCounts, s) {
        Err(e) => Err(e),
        Ok((n, s1)) => match features(h, s1, n as nat) {
            Err(e) => Err(e),
            Ok((fs, _, s2)) => match series_u8(h, DataSeries::MappingQualities, s2) {
                Err(e) => Err(e),
                Ok((mq, s3)) => step_quality(
                    h,
                    RecordView {
                        features: fs,
                        mapping_quality: if mq == 0xFF {
                            None
                        } else {
                            Some(mq)
                        },
                        ..r
                    },
                    s3,
                ),
            },
        },
    }
}

/// The read itself, by whether it is mapped.
pub open spec fn step_read(h: CompressionHeader, r: RecordView, s: StreamState) -> RecordStep {
    if r.bam_flags & UNMAPPED != 0 {
        step_unmapped(h, r, s)
    } else {
        step_mapped(h, r, s)
    }
}

/// One whole record with id `id`, decoded after a record that started at
/// `prev`.
pub open spec fn decode_record(
    h: CompressionHeader,
    ctx: ReferenceSequenceContext,
    prev: usize,
    id: u64,
    s: StreamState,
) -> RecordStep {
    match decode_front(h, ctx, prev, id, s) {
        Err(e) => Err(e),
        Ok((r5, s5)) => step_read(h, r5, s5),
    }
}

/// The fields of a record before its read: flags, positions, name, mate
/// and tags.
pub open spec fn decode_front(
    h: CompressionHeader,
    ctx: ReferenceSequenceContext,
    prev: usize,
    id: u64,
    s: StreamState,
) -> RecordStep {
    let r0 = RecordView { id, ..crate::record::empty_record() };
    match step_flags(h, r0, s) {
        Err(e) => Err(e),
        Ok((r1, s1)) => match step_positions(h, ctx, prev, r1, s1) {
            Err(e) => Err(e),
            Ok((r2, s2)) => match step_names(h, r2, s2) {
                Err(e) => Err(e),
                Ok((r3, s3)) => match step_mate(h, r3, s3) {
                    Err(e) => Err(e),
                    Ok((r4, s4)) => step_tags(h, r4, s4),
                },
            },
        },
    }
}

/// What the next call of `read_record` gives: nothing when no record is
/// left, else the next record and where the streams are after it.
pub open spec fn next_record(
    h: CompressionHeader,
    ctx: ReferenceSequenceContext,
    prev: usize,
    id: u64,
    remaining: usize,
    s: StreamState,
) -> Result<Option<(RecordView, StreamState)>, ReadRecordError> {
    if remaining == 0 {
        Ok(None)
    } else if id == u64::MAX {
        Err(ReadRecordError::InvalidData)
    } else {
        match decode_record(h, ctx, prev, id, s) {
            Ok((r, s1)) => Ok(Some((r, s1))),
            Err(e) => Err(e),
        }
    }
}

/// What an engine is: the header and context it decodes against, the
/// previous alignment start, the next id, the records left, and where the
/// streams stand.
pub struct EngineState {
    pub header: CompressionHeader,
    pub context: ReferenceSequenceContext,
    pub prev_alignment_start: usize,
    pub id: u64,
    pub remaining: usize,
    pub streams: StreamState,
}

/// One call of `read_record` on an engine in state `e`: its outcome
/// (a record, none left, or an error) and the state after it. After an
/// error no record is left.
pub open spec fn step(e: EngineState) -> (Result<Option<RecordView>, ReadRecordError>, EngineState) {
    match next_record(e.header, e.context, e.prev_alignment_start, e.id, e.remaining, e.streams) {
        Ok(None) => (Ok(None), e),
        Ok(Some((r, s))) => (
            Ok(Some(r)),
            EngineState {
                streams: s,
                id: (e.id + 1) as u64,
                remaining: (e.remaining - 1) as usize,
                prev_alignment_start: r.alignment_start,
                ..e
            },
        ),
        Err(err) => (Err(err), EngineState { remaining: 0, ..e }),
    }
}

/// Whether two engine states decode alike: equal in everything, the
/// streams aside once no record is left.
pub open spec fn equivalent(a: EngineState, b: EngineState) -> bool {
    &&& a.header == b.header
    &&& a.context == b.context
    &&& a.prev_alignment_start == b.prev_alignment_start
    &&& a.id == b.id
    &&& a.remaining == b.remaining
    &&& (a.remaining > 0 ==> a.streams == b.streams)
}

/// The outcomes of `k` successive calls of `read_record` from state `e`.
pub open spec fn run(e: EngineState, k: nat) -> Seq<Result<Option<RecordView>, ReadRecordError>>
    decreases k,
{
    if k == 0 {
        Seq::empty()
    } else {
        seq![step(e).0] + run(step(e).1, (k - 1) as nat)
    }
}

/// The state of an engine that `new` makes.
pub open spec fn initial_state(
    h: CompressionHeader,
    core: BitReader,
    ext: ExternalDataReaders,
    ctx: ReferenceSequenceContext,
    initial_id: u64,
    record_count: usize,
) -> EngineState {
    EngineState {
        header: h,
        context: ctx,
        prev_alignment_start: match ctx {
            ReferenceSequenceContext::Fixed { alignment_start, .. } => alignment_start,
            _ => 0,
        },
        id: initial_id,
        remaining: record_count,
        streams: streams(core, ext),
    }
}

pub proof fn lemma_find_tag_encoding(t: Seq<(i32, crate::codec::Encoding<crate::codec::ByteArray>)>, id: i32)
    ensures
        match find_tag_encoding(t, id) {
            Some(i) => 0 <= i < t.len() && t[i].0 == id && forall|j: int| 0 <= j < i ==> t[j].0 != id,
            None => forall|j: int| 0 <= j < t.len() ==> t[j].0 != id,
        },
    decreases t.len(),
{
    if t.len() > 0 {
        let u = t.drop_last();
        lemma_find_tag_encoding(u, id);
        assert(forall|j: int| 0 <= j < u.len() ==> u[j] == t[j]);
    }
}

/// Once a tag fails, reading more tags fails the same way.
pub proof fn lemma_tag_values_stop(h: CompressionHeader, keys: Seq<TagKey>, s: StreamState, k: nat, n: nat)
    requires
        k <= n,
        tag_values(h, keys, s, k).is_err(),
    ensures
        tag_values(h, keys, s, n) == tag_values(h, keys, s, k),
    decreases n - k,
{
    if k < n {
        lemma_tag_values_stop(h, keys, s, k, (n - 1) as nat);
    }
}

/// Once a feature fails, reading more features fails the same way.
pub proof fn lemma_features_stop(h: CompressionHeader, s: StreamState, k: nat, n: nat)
    requires
        k <= n,
        features(h, s, k).is_err(),
    ensures
        features(h, s, n) == features(h, s, k),
    decreases n - k,
{
    if k < n {
        lemma_features_stop(h, s, k, (n - 1) as nat);
    }
}

/// The content id under which the codec of tag `k` is registered.
pub fn content_id_of(k: TagKey) -> (r: i32)
    ensures
        r == tag_content_id(k),
{
    let t: u8 = match k.ty {
        Type::Character => 0x41,
        Type::Int8 => 0x63,
        Type::UInt8 => 0x43,
        Type::Int16 => 0x73,
        Type::UInt16 => 0x53,
        Type::Int32 => 0x69,
        Type::UInt32 => 0x49,
        Type::Float => 0x66,
        Type::String => 0x5A,
        Type::Hex => 0x48,
        Type::Array => 0x42,
    };
    k.tag[0] as i32 * 0x1_0000 + k.tag[1] as i32 * 0x100 + t as i32
}

/// Whether every score is the missing marker.
pub fn all_missing(q: &Vec<u8>) -> (r: bool)
    ensures
        r == forall|i: int| 0 <= i < q@.len() ==> q@[i] == MISSING_QUALITY_SCORE,
{
    let mut i: usize = 0;
    while i < q.len()
        invariant
            0 <= i <= q@.len(),
            forall|j: int| 0 <= j < i ==> q@[j] == MISSING_QUALITY_SCORE,
        decreases q@.len() - i,
    {
        if q[i] != MISSING_QUALITY_SCORE {
            return false;
        }
        i = i + 1;
    }
    true
}

/// Whether `r` is the result that `expected` gives, with the record and the
/// streams left at `rec` and `after`.
pub open spec fn step_ok(r: Result<(), ReadRecordError>, expected: RecordStep, rec: RecordView, after: StreamState) -> bool {
    match expected {
        Ok((v, s)) => r.is_ok() && rec == v && after == s,
        Err(e) => r == Err::<(), ReadRecordError>(e),
    }
}

/// Whether `r` is the value that `expected` gives, with the streams left at
/// `after`.
pub open spec fn value_ok<T>(r: Result<T, ReadRecordError>, expected: Step<T>, after: StreamState) -> bool {
    match expected {
        Ok((v, s)) => r == Ok::<T, ReadRecordError>(v) && after == s,
        Err(e) => r == Err::<T, ReadRecordError>(e),
    }
}

/// Like `value_ok`, for byte strings.
pub open spec fn bytes_ok(r: Result<Vec<u8>, ReadRecordError>, expected: Step<Seq<u8>>, after: StreamState) -> bool {
    match expected {
        Ok((v, s)) => r.is_ok() && r.unwrap()@ == v && after == s,
        Err(e) => r == Err::<Vec<u8>, ReadRecordError>(e),
    }
}

/// Decodes the records of one slice, one per call, against a shared
/// compression header.
pub struct Records<'ch> {
    compression_header: &'ch CompressionHeader,
    core_data_reader: BitReader,
    external_data_readers: ExternalDataReaders,
    reference_sequence_context: ReferenceSequenceContext,
    id: u64,
    prev_alignment_start: usize,
    remaining: usize,
}

impl<'ch> Records<'ch> {
    pub closed spec fn header(&self) -> CompressionHeader {
        *self.compression_header
    }

    pub closed spec fn context(&self) -> ReferenceSequenceContext {
        self.reference_sequence_context
    }

    pub closed spec fn streams(&self) -> StreamState {
        streams(self.core_data_reader, self.external_data_readers)
    }

    pub open spec fn state(&self) -> EngineState {
        EngineState {
            header: self.header(),
            context: self.context(),
            prev_alignment_start: self.prev_alignment_start(),
            id: self.id(),
            remaining: self.remaining(),
            streams: self.streams(),
        }
    }

    /// The id of the next record.
    pub closed spec fn id(&self) -> u64 {
        self.id
    }

    /// The alignment start of the last record read; 0 before the first.
    pub closed spec fn prev_alignment_start(&self) -> usize {
        self.prev_alignment_start
    }

    /// The number of records not read yet.
    pub closed spec fn remaining(&self) -> usize {
        self.remaining
    }

    pub closed spec fn wf(&self) -> bool {
        streams_wf(self.core_data_reader, self.external_data_readers)
    }

    /// Whether `self` is `o` after reading on: only the streams differ, and
    /// only by cursors moving forward.
    pub closed spec fn advanced_from(&self, o: &Self) -> bool {
        &&& self.compression_header == o.compression_header
        &&& self.reference_sequence_context == o.reference_sequence_context
        &&& self.id == o.id
        &&& self.prev_alignment_start == o.prev_alignment_start
        &&& self.remaining == o.remaining
        &&& forward(o.streams(), self.streams())
    }

    /// An engine over `record_count` records of a slice, with ids counted
    /// from `initial_id`. Where the slice sits at a fixed place, that start
    /// is the previous start of the first record; otherwise it is 0.
    pub fn new(
        compression_header: &'ch CompressionHeader,
        core_data_reader: BitReader,
        external_data_readers: ExternalDataReaders,
        reference_sequence_context: ReferenceSequenceContext,
        initial_id: u64,
        record_count: usize,
    ) -> (r: Self)
        requires
            streams_wf(core_data_reader, external_data_readers),
        ensures
            r.wf(),
            r.state() == initial_state(
                *compression_header,
                core_data_reader,
                external_data_readers,
                reference_sequence_context,
                initial_id,
                record_count,
            ),
            r.header() == *compression_header,
            r.context() == reference_sequence_context,
            r.streams() == streams(core_data_reader, external_data_readers),
            r.id() == initial_id,
            r.remaining() == record_count,
            r.prev_alignment_start() == match reference_sequence_context {
                ReferenceSequenceContext::Fixed { alignment_start, .. } => alignment_start,
                _ => 0,
            },
    {
        let prev = match &reference_sequence_context {
            ReferenceSequenceContext::Fixed { alignment_start, .. } => *alignment_start,
            _ => 0,
        };
        Records {
            compression_header,
            core_data_reader,
            external_data_readers,
            reference_sequence_context,
            id: initial_id,
            prev_alignment_start: prev,
            remaining: record_count,
        }
    }

    /// The id that the next record will get.
    pub fn next_id(&self) -> (r: u64)
        ensures
            r == self.id(),
    {
        self.id
    }

    fn read_int(&mut self, ds: DataSeries) -> (r: Result<i32, ReadRecordError>)
        requires
            old(self).wf(),
        ensures
            final(self).wf(),
            final(self).advanced_from(old(self)),
            value_ok(r, series_int(old(self).header(), ds, old(self).streams()), final(self).streams()),
    {
        let h = self.compression_header;
        match h.data_series_encodings.get_integer(ds) {
            None => Err(ReadRecordError::MissingDataSeriesEncoding(ds)),
            Some(e) => e.decode(&mut self.core_data_reader, &mut self.external_data_readers),
        }
    }

    fn read_usize(&mut self, ds: DataSeries) -> (r: Result<usize, ReadRecordError>)
        requires
            old(self).wf(),
        ensures
            final(self).wf(),
            final(self).advanced_from(old(self)),
            value_ok(r, series_usize(old(self).header(), ds, old(self).streams()), final(self).streams()),
    {
        let n = self.read_int(ds)?;
        if n >= 0 {
            Ok(n as usize)
        } else {
            Err(ReadRecordError::InvalidData)
        }
    }

    fn read_u8(&mut self, ds: DataSeries) -> (r: Result<u8, ReadRecordError>)
        requires
            old(self).wf(),
        ensures
            final(self).wf(),
            final(self).advanced_from(old(self)),
            value_ok(r, series_u8(old(self).header(), ds, old(self).streams()), final(self).streams()),
    {
        let n = self.read_int(ds)?;
        if 0 <= n && n <= 255 {
            Ok(n as u8)
        } else {
            Err(ReadRecordError::InvalidData)
        }
    }

    fn read_id(&mut self, ds: DataSeries) -> (r: Result<Option<usize>, ReadRecordError>)
        requires
            old(self).wf(),
        ensures
            final(self).wf(),
            final(self).advanced_from(old(self)),
            value_ok(r, series_id(old(self).header(), ds, old(self).streams()), final(self).streams()),
    {
        let n = self.read_int(ds)?;
        if n == -1 {
            Ok(None)
        } else if n >= 0 {
            Ok(Some(n as usize))
        } else {
            Err(ReadRecordError::InvalidData)
        }
    }

    fn read_byte(&mut self, ds: DataSeries) -> (r: Result<u8, ReadRecordError>)
        requires
            old(self).wf(),
        ensures
            final(self).wf(),
            final(self).advanced_from(old(self)),
            value_ok(r, series_byte(old(self).header(), ds, old(self).streams()), final(self).streams()),
    {
        let h = self.compression_header;
        match h.data_series_encodings.get_byte(ds) {
            None => Err(ReadRecordError::MissingDataSeriesEncoding(ds)),
            Some(e) => e.decode(&mut self.core_data_reader, &mut self.external_data_readers),
        }
    }

    fn read_take(&mut self, ds: DataSeries, n: usize) -> (r: Result<Vec<u8>, ReadRecordError>)
        requires
            old(self).wf(),
        ensures
            final(self).wf(),
            final(self).advanced_from(old(self)),
            bytes_ok(r, series_take(old(self).header(), ds, old(self).streams(), n as nat), final(self).streams()),
    {
        let h = self.compression_header;
        match h.data_series_encodings.get_byte(ds) {
            None => Err(ReadRecordError::MissingDataSeriesEncoding(ds)),
            Some(e) => e.decode_take(&mut self.core_data_reader, &mut self.external_data_readers, n),
        }
    }

    fn read_bytes(&mut self, ds: DataSeries) -> (r: Result<Vec<u8>, ReadRecordError>)
        requires
            old(self).wf(),
        ensures
            final(self).wf(),
            final(self).advanced_from(old(self)),
            bytes_ok(r, series_bytes(old(self).header(), ds, old(self).streams()), final(self).streams()),
    {
        let h = self.compression_header;
        match h.data_series_encodings.get_byte_array(ds) {
            None => Err(ReadRecordError::MissingDataSeriesEncoding(ds)),
            Some(e) => e.decode(&mut self.core_data_reader, &mut self.external_data_readers),
        }
    }

    fn read_flags(&mut self, record: &mut Record) -> (r: Result<(), ReadRecordError>)
        requires
            old(self).wf(),
        ensures
            final(self).wf(),
            final(self).advanced_from(old(self)),
            step_ok(r, step_flags(old(self).header(), old(record)@, old(self).streams()), final(record)@, final(self).streams()),
    {
        let b = self.read_int(DataSeries::BamFlags)?;
        if !(0 <= b && b <= 0xFFFF) {
            return Err(ReadRecordError::InvalidData);
        }
        let c = self.read_u8(DataSeries::CramFlags)?;
        record.bam_flags = b as u16;
        record.cram_flags = c;
        Ok(())
    }

    fn read_positions(&mut self, record: &mut Record) -> (r: Result<(), ReadRecordError>)
        requires
            old(self).wf(),
        ensures
            final(self).wf(),
            final(self).advanced_from(old(self)),
            step_ok(
                r,
                step_positions(old(self).header(), old(self).context(), old(self).prev_alignment_start(), old(record)@, old(self).streams()),
                final(record)@,
                final(self).streams(),
            ),
    {
        let rid = match &self.reference_sequence_context {
            ReferenceSequenceContext::Fixed { reference_sequence_id, .. } => Some(*reference_sequence_id),
            ReferenceSequenceContext::Absent => None,
            ReferenceSequenceContext::Many => self.read_id(DataSeries::ReferenceSequenceIds)?,
        };
        let len = self.read_usize(DataSeries::ReadLengths)?;
        let raw = self.read_int(DataSeries::AlignmentStarts)?;
        let start = resolve_alignment_start(
            self.compression_header.preservation_map.alignment_starts_are_deltas,
            self.prev_alignment_start,
            raw,
        )?;
        let rg = self.read_id(DataSeries::ReadGroupIds)?;
        record.reference_sequence_id = rid;
        record.read_length = len;
        record.alignment_start = start;
        record.read_group_id = rg;
        Ok(())
    }

    fn read_name(&mut self) -> (r: Result<Option<Vec<u8>>, ReadRecordError>)
        requires
            old(self).wf(),
        ensures
            final(self).wf(),
            final(self).advanced_from(old(self)),
            match series_bytes(old(self).header(), DataSeries::Names, old(self).streams()) {
                Ok((b, s)) => r.is_ok() && final(self).streams() == s && match r.unwrap() {
                    Some(n) => name_of(b) == Some(n@),
                    None => name_of(b).is_none(),
                },
                Err(e) => r == Err::<Option<Vec<u8>>, ReadRecordError>(e),
            },
    {
        let b = self.read_bytes(DataSeries::Names)?;
        if b.len() == 2 && b[0] == 0x2A && b[1] == 0x00 {
            assert(b@ =~= seq![0x2Au8, 0x00u8]);
            Ok(None)
        } else {
            Ok(Some(b))
        }
    }

    fn read_names(&mut self, record: &mut Record) -> (r: Result<(), ReadRecordError>)
        requires
            old(self).wf(),
        ensures
            final(self).wf(),
            final(self).advanced_from(old(self)),
            step_ok(r, step_names(old(self).header(), old(record)@, old(self).streams()), final(record)@, final(self).streams()),
    {
        // Records without stored names are named later, when mates are
        // resolved.
        if self.compression_header.preservation_map.records_have_names {
            record.name = self.read_name()?;
        }
        Ok(())
    }

    fn read_mate(&mut self, record: &mut Record) -> (r: Result<(), ReadRecordError>)
        requires
            old(self).wf(),
        ensures
            final(self).wf(),
            final(self).advanced_from(old(self)),
            step_ok(r, step_mate(old(self).header(), old(record)@, old(self).streams()), final(record)@, final(self).streams()),
    {
        if record.cram_flags & DETACHED != 0 {
            let mf = self.read_u8(DataSeries::MateFlags)?;
            record.mate_flags = mf;
            if mf & MATE_ON_NEGATIVE_STRAND != 0 {
                record.bam_flags = record.bam_flags | MATE_REVERSE_COMPLEMENTED;
            }
            if mf & MATE_FLAG_UNMAPPED != 0 {
                record.bam_flags = record.bam_flags | MATE_UNMAPPED;
            }
            if !self.compression_header.preservation_map.records_have_names {
                record.name = self.read_name()?;
            }
            let mid = self.read_id(DataSeries::MateReferenceSequenceIds)?;
            let ms = self.read_usize(DataSeries::MateAlignmentStarts)?;
            let tl = self.read_int(DataSeries::TemplateLengths)?;
            record.mate_reference_sequence_id = mid;
            record.mate_alignment_start = if ms == 0 {
                None
            } else {
                Some(ms)
            };
            record.template_length = tl;
        } else if record.cram_flags & MATE_IS_DOWNSTREAM != 0 {
            // Pairing with the downstream mate is left to the caller.
            let d = self.read_usize(DataSeries::MateDistances)?;
            record.mate_distance = Some(d);
        }
        Ok(())
    }

    fn find_tag_encoding(&self, id: i32) -> (r: Option<usize>)
        ensures
            match r {
                Some(k) => find_tag_encoding(self.header().tag_encodings@, id) == Some(k as int)
                    && k < self.header().tag_encodings@.len(),
                None => find_tag_encoding(self.header().tag_encodings@, id).is_none(),
            },
    {
        let t = &self.compression_header.tag_encodings;
        let mut i: usize = 0;
        while i < t.len()
            invariant
                *t == self.header().tag_encodings,
                0 <= i <= t@.len(),
                forall|j: int| 0 <= j < i ==> t@[j].0 != id,
            decreases t@.len() - i,
        {
            if t[i].0 == id {
                proof {
                    lemma_find_tag_encoding(t@, id);
                    let f = find_tag_encoding(t@, id);
                    if f.is_some() {
                        let k = f.unwrap();
                        assert(!(k < i));
                        assert(!(k > i)) by {
                            if k > i {
                                assert(t@[i as int].0 == id);
                            }
                        }
                    }
                }
                return Some(i);
            }
            i = i + 1;
        }
        proof {
            lemma_find_tag_encoding(t@, id);
        }
        None
    }

    fn read_tag_value(&mut self, key: TagKey) -> (r: Result<crate::record::TagValue, ReadRecordError>)
        requires
            old(self).wf(),
        ensures
            final(self).wf(),
            final(self).advanced_from(old(self)),
            match tag_value(old(self).header(), key, old(self).streams()) {
                Ok((v, s)) => r.is_ok() && r.unwrap()@ == v && final(self).streams() == s,
                Err(e) => r == Err::<crate::record::TagValue, ReadRecordError>(e),
            },
    {
        reveal(tag_value);
        let id = content_id_of(key);
        let i = match self.find_tag_encoding(id) {
            Some(i) => i,
            None => {
                return Err(ReadRecordError::MissingTagEncoding(key));
            },
        };
        let h = self.compression_header;
        let b = h.tag_encodings[i].1.decode(&mut self.core_data_reader, &mut self.external_data_readers)?;
        let mut pos: usize = 0;
        match read_value(b.as_slice(), &mut pos, key.ty) {
            Ok(v) => Ok(v),
            Err(_) => Err(ReadRecordError::InvalidData),
        }
    }

    fn read_data(&mut self, record: &mut Record) -> (r: Result<(), ReadRecordError>)
        requires
            old(self).wf(),
        ensures
            final(self).wf(),
            final(self).advanced_from(old(self)),
            step_ok(r, step_tags(old(self).header(), old(record)@, old(self).streams()), final(record)@, final(self).streams()),
    {
        let id = self.read_usize(DataSeries::TagSetIds)?;
        let h = self.compression_header;
        if id >= h.preservation_map.tag_sets.len() {
            return Err(ReadRecordError::MissingTagSet(id));
        }
        let keys = &h.preservation_map.tag_sets[id];
        let ghost s1 = self.streams();
        let mut tags: Vec<Tag> = Vec::new();
        assert(tags@.map_values(|t: Tag| (t.tag, t.value@)) =~= Seq::empty());
        let mut k: usize = 0;
        while k < keys.len()
            invariant
                self.wf(),
                self.advanced_from(old(self)),
                *h == old(self).header(),
                series_usize(old(self).header(), DataSeries::TagSetIds, old(self).streams()) == Ok::<(usize, StreamState), ReadRecordError>((id, s1)),
                id < h.preservation_map.tag_sets@.len(),
                keys@ == h.preservation_map.tag_sets@[id as int]@,
                0 <= k <= keys@.len(),
                tag_values(*h, keys@, s1, k as nat) == Ok::<(Seq<([u8; 2], TagValueView)>, StreamState), ReadRecordError>(
                    (tags@.map_values(|t: Tag| (t.tag, t.value@)), self.streams()),
                ),
            decreases keys@.len() - k,
        {
            let key = keys[k];
            let v = match self.read_tag_value(key) {
                Ok(v) => v,
                Err(e) => {
                    proof {
                        assert(tag_values(*h, keys@, s1, (k + 1) as nat) == Err::<(Seq<([u8; 2], TagValueView)>, StreamState), ReadRecordError>(e));
                        lemma_tag_values_stop(*h, keys@, s1, (k + 1) as nat, keys@.len());
                    }
                    return Err(e);
                },
            };
            let ghost before = tags@.map_values(|t: Tag| (t.tag, t.value@));
            tags.push(Tag { tag: key.tag, value: v });
            assert(tags@.map_values(|t: Tag| (t.tag, t.value@)) =~= before.push((key.tag, v@)));
            k = k + 1;
        }
        record.tags = tags;
        Ok(())
    }

    fn read_feature_payload(&mut self, code: u8, position: usize) -> (r: Result<Feature, ReadRecordError>)
        requires
            old(self).wf(),
        ensures
            final(self).wf(),
            final(self).advanced_from(old(self)),
            match feature_payload(old(self).header(), code, position, old(self).streams()) {
                Ok((f, s)) => r.is_ok() && r.unwrap()@ == f && final(self).streams() == s,
                Err(e) => r == Err::<Feature, ReadRecordError>(e),
            },
    {
        reveal(feature_payload);
        if code == 0x62 {
            let bases = self.read_bytes(DataSeries::StretchesOfBases)?;
            Ok(Feature::Bases { position, bases })
        } else if code == 0x71 {
            let quality_scores = self.read_bytes(DataSeries::StretchesOfQualityScores)?;
            Ok(Feature::Scores { position, quality_scores })
        } else if code == 0x42 {
            let base = self.read_byte(DataSeries::Bases)?;
            let quality_score = self.read_byte(DataSeries::QualityScores)?;
            Ok(Feature::ReadBase { position, base, quality_score })
        } else if code == 0x58 {
            let c = self.read_byte(DataSeries::BaseSubstitutionCodes)?;
            Ok(Feature::Substitution { position, code: c })
        } else if code == 0x49 {
            let bases = self.read_bytes(DataSeries::InsertionBases)?;
            Ok(Feature::Insertion { position, bases })
        } else if code == 0x44 {
            let len = self.read_usize(DataSeries::DeletionLengths)?;
            Ok(Feature::Deletion { position, len })
        } else if code == 0x69 {
            let base = self.read_byte(DataSeries::Bases)?;
            Ok(Feature::InsertBase { position, base })
        } else if code == 0x51 {
            let quality_score = self.read_byte(DataSeries::QualityScores)?;
            Ok(Feature::QualityScore { position, quality_score })
        } else if code == 0x4E {
            let len = self.read_usize(DataSeries::ReferenceSkipLengths)?;
            Ok(Feature::ReferenceSkip { position, len })
        } else if code == 0x53 {
            let bases = self.read_bytes(DataSeries::SoftClipBases)?;
            Ok(Feature::SoftClip { position, bases })
        } else if code == 0x50 {
            let len = self.read_usize(DataSeries::PaddingLengths)?;
            Ok(Feature::Padding { position, len })
        } else {
            let len = self.read_usize(DataSeries::HardClipLengths)?;
            Ok(Feature::HardClip { position, len })
        }
    }

    fn read_feature(&mut self, prev: usize) -> (r: Result<(Feature, usize), ReadRecordError>)
        requires
            old(self).wf(),
        ensures
            final(self).wf(),
            final(self).advanced_from(old(self)),
            match one_feature(old(self).header(), prev, old(self).streams()) {
                Ok((f, p, s)) => r.is_ok() && r.unwrap().0@ == f && r.unwrap().1 == p && final(self).streams() == s,
                Err(e) => r == Err::<(Feature, usize), ReadRecordError>(e),
            },
    {
        reveal(one_feature);
        let code = self.read_int(DataSeries::FeatureCodes)?;
        if !(code == 0x62 || code == 0x71 || code == 0x42 || code == 0x58 || code == 0x49 || code == 0x44
            || code == 0x69 || code == 0x51 || code == 0x4E || code == 0x53 || code == 0x50 || code == 0x48) {
            return Err(ReadRecordError::InvalidData);
        }
        let delta = self.read_usize(DataSeries::FeaturePositionDeltas)?;
        if delta >= usize::MAX - prev {
            return Err(ReadRecordError::InvalidData);
        }
        let offset = prev + delta;
        let f = self.read_feature_payload(code as u8, offset + 1)?;
        Ok((f, offset))
    }

    fn read_quality_scores(&mut self, record: &mut Record) -> (r: Result<(), ReadRecordError>)
        requires
            old(self).wf(),
        ensures
            final(self).wf(),
            final(self).advanced_from(old(self)),
            step_ok(r, step_quality(old(self).header(), old(record)@, old(self).streams()), final(record)@, final(self).streams()),
    {
        if record.cram_flags & QUALITY_SCORES_ARE_STORED_AS_ARRAY != 0 {
            let q = self.read_take(DataSeries::QualityScores, record.read_length)?;
            if all_missing(&q) {
                record.quality_scores = Vec::new();
                assert(record.quality_scores@ =~= normalize_quality(q@));
            } else {
                record.quality_scores = q;
            }
        }
        Ok(())
    }

    fn read_unmapped_read(&mut self, record: &mut Record) -> (r: Result<(), ReadRecordError>)
        requires
            old(self).wf(),
        ensures
            final(self).wf(),
            final(self).advanced_from(old(self)),
            step_ok(r, step_unmapped(old(self).header(), old(record)@, old(self).streams()), final(record)@, final(self).streams()),
    {
        let sequence = self.read_take(DataSeries::Bases, record.read_length)?;
        record.sequence = sequence;
        self.read_quality_scores(record)
    }

    fn read_mapped_read(&mut self, record: &mut Record) -> (r: Result<(), ReadRecordError>)
        requires
            old(self).wf(),
        ensures
            final(self).wf(),
            final(self).advanced_from(old(self)),
            step_ok(r, step_mapped(old(self).header(), old(record)@, old(self).streams()), final(record)@, final(self).streams()),
    {
        let n = self.read_usize(DataSeries::FeatureCounts)?;
        let ghost h = self.header();
        let ghost s1 = self.streams();
        let mut fs: Vec<Feature> = Vec::new();
        assert(fs@.map_values(|f: Feature| f@) =~= Seq::empty());
        let mut prev: usize = 0;
        let mut i: usize = 0;
        while i < n
            invariant
                self.wf(),
                self.advanced_from(old(self)),
                h == old(self).header(),
                series_usize(old(self).header(), DataSeries::FeatureCounts, old(self).streams()) == Ok::<(usize, StreamState), ReadRecordError>((n, s1)),
                0 <= i <= n,
                features(h, s1, i as nat) == Ok::<(Seq<FeatureView>, usize, StreamState), ReadRecordError>(
                    (fs@.map_values(|f: Feature| f@), prev, self.streams()),
                ),
            decreases n - i,
        {
            let (f, p) = match self.read_feature(prev) {
                Ok(x) => x,
                Err(e) => {
                    proof {
                        assert(features(h, s1, (i + 1) as nat) == Err::<(Seq<FeatureView>, usize, StreamState), ReadRecordError>(e));
                        lemma_features_stop(h, s1, (i + 1) as nat, n as nat);
                    }
                    return Err(e);
                },
            };
            let ghost before = fs@.map_values(|f: Feature| f@);
            fs.push(f);
            assert(fs@.map_values(|f: Feature| f@) =~= before.push(f@));
            prev = p;
            i = i + 1;
        }
        let mq = self.read_u8(DataSeries::MappingQualities)?;
        record.features = fs;
        record.mapping_quality = if mq == 0xFF {
            None
        } else {
            Some(mq)
        };
        self.read_quality_scores(record)
    }

    /// The next record as `read_record` gives it, but on an error the count
    /// of records left stays as it was.
    fn read_front(&mut self, record: &mut Record) -> (r: Result<(), ReadRecordError>)
        requires
            old(self).wf(),
        ensures
            final(self).wf(),
            final(self).advanced_from(old(self)),
            step_ok(
                r,
                decode_front(old(self).header(), old(self).context(), old(self).prev_alignment_start(), old(self).id(), old(self).streams()),
                final(record)@,
                final(self).streams(),
            ),
    {
        *record = Record::new();
        record.id = self.id;
        self.read_flags(record)?;
        self.read_positions(record)?;
        self.read_names(record)?;
        self.read_mate(record)?;
        self.read_data(record)
    }

    fn read_read(&mut self, record: &mut Record) -> (r: Result<(), ReadRecordError>)
        requires
            old(self).wf(),
        ensures
            final(self).wf(),
            final(self).advanced_from(old(self)),
            step_ok(r, step_read(old(self).header(), old(record)@, old(self).streams()), final(record)@, final(self).streams()),
    {
        if record.bam_flags & UNMAPPED != 0 {
            self.read_unmapped_read(record)
        } else {
            self.read_mapped_read(record)
        }
    }

    #[verifier::rlimit(60)]
    fn decode_next(&mut self, record: &mut Record) -> (r: Result<usize, ReadRecordError>)
        requires
            old(self).wf(),
        ensures
            final(self).wf(),
            forward(old(self).streams(), final(self).streams()),
            final(self).header() == old(self).header(),
            final(self).context() == old(self).context(),
            match next_record(
                old(self).header(),
                old(self).context(),
                old(self).prev_alignment_start(),
                old(self).id(),
                old(self).remaining(),
                old(self).streams(),
            ) {
                Ok(None) => r == Ok::<usize, ReadRecordError>(0) && *final(record) == *old(record)
                    && final(self).streams() == old(self).streams() && final(self).id() == old(
                    self,
                ).id() && final(self).remaining() == 0 && final(self).prev_alignment_start()
                    == old(self).prev_alignment_start(),
                Ok(Some((rec, s))) => r == Ok::<usize, ReadRecordError>(1) && final(record)@ == rec
                    && final(self).streams() == s && final(self).id() == old(self).id() + 1
                    && final(self).remaining() == old(self).remaining() - 1
                    && final(self).prev_alignment_start() == rec.alignment_start,
                Err(e) => r == Err::<usize, ReadRecordError>(e) && final(self).id() == old(
                    self,
                ).id() && final(self).remaining() == old(self).remaining()
                    && final(self).prev_alignment_start() == old(self).prev_alignment_start(),
            },
    {
        if self.remaining == 0 {
            return Ok(0);
        }
        if self.id == u64::MAX {
            return Err(ReadRecordError::InvalidData);
        }
        self.read_front(record)?;
        self.read_read(record)?;
        self.id = self.id + 1;
        self.prev_alignment_start = record.alignment_start;
        self.remaining = self.remaining - 1;
        Ok(1)
    }

    /// Decodes the next record into `record` and returns 1, or returns 0
    /// when the slice has no more records. `record` is cleared first, so
    /// one buffer can serve a whole loop. The streams only move forward.
    /// An error is terminal: the id counter and the previous alignment
    /// start stay as they were, and no record is left to read.
    #[verifier::rlimit(60)]
    pub fn read_record(&mut self, record: &mut Record) -> (r: Result<usize, ReadRecordError>)
        requires
            old(self).wf(),
        ensures
            final(self).wf(),
            final(self).header() == old(self).header(),
            final(self).context() == old(self).context(),
            forward(old(self).streams(), final(self).streams()),
            equivalent(final(self).state(), step(old(self).state()).1),
            match step(old(self).state()).0 {
                Ok(None) => r == Ok::<usize, ReadRecordError>(0) && *final(record) == *old(record),
                Ok(Some(rec)) => r == Ok::<usize, ReadRecordError>(1) && final(record)@ == rec,
                Err(e) => r == Err::<usize, ReadRecordError>(e),
            },
            match next_record(
                old(self).header(),
                old(self).context(),
                old(self).prev_alignment_start(),
                old(self).id(),
                old(self).remaining(),
                old(self).streams(),
            ) {
                Ok(None) => final(self).streams() == old(self).streams() && final(self).id() == old(
                    self,
                ).id() && final(self).remaining() == 0 && final(self).prev_alignment_start()
                    == old(self).prev_alignment_start(),
                Ok(Some((rec, s))) => final(self).streams() == s && final(self).id() == old(self).id() + 1
                    && final(self).remaining() == old(self).remaining() - 1
                    && final(self).prev_alignment_start() == rec.alignment_start,
                Err(e) => final(self).id() == old(self).id() && final(self).remaining() == 0
                    && final(self).prev_alignment_start() == old(self).prev_alignment_start(),
            },
    {
        let r = self.decode_next(record);
        if r.is_err() {
            self.remaining = 0;
        }
        r
    }
}

/// The 1-based alignment start of a record from the decoded value `raw`:
/// with `deltas`, an offset from `prev`, the previous record's start;
/// otherwise the start itself. A start that is not positive is invalid.
pub fn resolve_alignment_start(deltas: bool, prev: usize, raw: i32) -> (r: Result<usize, ReadRecordError>)
    ensures
        r == resolve_start(deltas, prev, raw),
        (if deltas { prev + raw } else { raw as int }) <= 0 ==> r.is_err(),
{
    if deltas {
        if raw >= 0 {
            let d = raw as usize;
            if d > usize::MAX - prev {
                return Err(ReadRecordError::InvalidData);
            }
            let v = prev + d;
            if v == 0 {
                Err(ReadRecordError::InvalidData)
            } else {
                Ok(v)
            }
        } else {
            let d = (-(raw as i64)) as usize;
            if d >= prev {
                Err(ReadRecordError::InvalidData)
            } else {
                Ok(prev - d)
            }
        }
    } else if raw > 0 {
        Ok(raw as usize)
    } else {
        Err(ReadRecordError::InvalidData)
    }
}

/// Quality scores that are all the missing marker read as none; any other
/// scores are kept as decoded.
pub proof fn lemma_quality_normalization(q: Seq<u8>)
    ensures
        (forall|i: int| 0 <= i < q.len() ==> q[i] == MISSING_QUALITY_SCORE) ==> normalize_quality(q)
            == Seq::<u8>::empty(),
        (exists|i: int| 0 <= i < q.len() && q[i] != MISSING_QUALITY_SCORE) ==> normalize_quality(
            q,
        ) == q,
{
}

/// Where a record stores quality scores, the `read_length` bytes decoded
/// for them become an empty buffer when all are the missing marker, and
/// are kept as they are otherwise.
pub proof fn lemma_quality_step(h: CompressionHeader, r: RecordView, s: StreamState, q: Seq<u8>, s1: StreamState)
    requires
        r.cram_flags & QUALITY_SCORES_ARE_STORED_AS_ARRAY != 0,
        series_take(h, DataSeries::QualityScores, s, r.read_length as nat) == Ok::<(Seq<u8>, StreamState), ReadRecordError>((q, s1)),
    ensures
        step_quality(h, r, s) == Ok::<(RecordView, StreamState), ReadRecordError>(
            (RecordView { quality_scores: normalize_quality(q), ..r }, s1),
        ),
        (forall|i: int| 0 <= i < q.len() ==> q[i] == MISSING_QUALITY_SCORE) ==> normalize_quality(q)
            == Seq::<u8>::empty(),
        (exists|i: int| 0 <= i < q.len() && q[i] != MISSING_QUALITY_SCORE) ==> normalize_quality(q)
            == q,
{
}

/// Without a codec for feature codes, a mapped record with at least one
/// feature fails on that series by name.
pub proof fn lemma_missing_feature_codes(h: CompressionHeader, s: StreamState, n: nat)
    requires
        h.data_series_encodings.feature_codes.is_none(),
        n >= 1,
    ensures
        features(h, s, n) == Err::<(Seq<FeatureView>, usize, StreamState), ReadRecordError>(
            ReadRecordError::MissingDataSeriesEncoding(DataSeries::FeatureCodes),
        ),
    decreases n,
{
    reveal(one_feature);
    if n > 1 {
        lemma_missing_feature_codes(h, s, (n - 1) as nat);
    } else {
        assert(features(h, s, 0) == Ok::<(Seq<FeatureView>, usize, StreamState), ReadRecordError>((Seq::empty(), 0, s)));
        assert(series_int(h, DataSeries::FeatureCodes, s) == Err::<(i32, StreamState), ReadRecordError>(
            ReadRecordError::MissingDataSeriesEncoding(DataSeries::FeatureCodes),
        ));
    }
}

/// Without a codec for feature codes, `read_record` fails on that series by
/// name for a mapped record with at least one feature, once the fields
/// before its features decode; the id counter stays as it was.
pub proof fn lemma_missing_feature_codes_record(
    e: EngineState,
    r: RecordView,
    s5: StreamState,
    n: usize,
    s6: StreamState,
)
    requires
        e.header.data_series_encodings.feature_codes.is_none(),
        e.remaining > 0,
        e.id < u64::MAX,
        decode_front(e.header, e.context, e.prev_alignment_start, e.id, e.streams) == Ok::<(RecordView, StreamState), ReadRecordError>((r, s5)),
        r.bam_flags & UNMAPPED == 0,
        series_usize(e.header, DataSeries::FeatureCounts, s5) == Ok::<(usize, StreamState), ReadRecordError>((n, s6)),
        n >= 1,
    ensures
        step(e).0 == Err::<Option<RecordView>, ReadRecordError>(
            ReadRecordError::MissingDataSeriesEncoding(DataSeries::FeatureCodes),
        ),
        step(e).1.id == e.id,
{
    lemma_missing_feature_codes(e.header, s6, n as nat);
}

/// The starts of successive records from their decoded values `raws`,
/// each resolved against the one before, the first against `prev`.
pub open spec fn resolve_starts(deltas: bool, prev: usize, raws: Seq<i32>) -> Result<Seq<usize>, ReadRecordError>
    decreases raws.len(),
{
    if raws.len() == 0 {
        Ok(Seq::empty())
    } else {
        match resolve_start(deltas, prev, raws[0]) {
            Err(e) => Err(e),
            Ok(p) => match resolve_starts(deltas, p, raws.drop_first()) {
                Err(e) => Err(e),
                Ok(rest) => Ok(seq![p] + rest),
            },
        }
    }
}

/// The sum of the first `n` values of `raws`.
pub open spec fn prefix_sum(raws: Seq<i32>, n: nat) -> int
    decreases n,
{
    if n == 0 || raws.len() == 0 {
        0
    } else {
        raws[0] + prefix_sum(raws.drop_first(), (n - 1) as nat)
    }
}

/// With offsets, the start of each record is the first previous start plus
/// the sum of the offsets so far, as long as every such start is positive
/// and fits; the first that is not positive is an error.
pub proof fn lemma_starts_accumulate(prev: usize, raws: Seq<i32>)
    ensures
        (forall|i: nat| 1 <= i <= raws.len() ==> 0 < #[trigger] prefix_sum(raws, i) + prev <= usize::MAX)
            ==> (resolve_starts(true, prev, raws) matches Ok(v) && v.len() == raws.len() && forall|i: int|
            0 <= i < raws.len() ==> v[i] == prev + prefix_sum(raws, (i + 1) as nat)),
        (exists|i: nat| 1 <= i <= raws.len() && #[trigger] prefix_sum(raws, i) + prev <= 0)
            ==> resolve_starts(true, prev, raws).is_err(),
    decreases raws.len(),
{
    if raws.len() > 0 {
        let t = raws.drop_first();
        let p = prev + raws[0];
        assert(prefix_sum(raws, 1) == raws[0]) by {
            assert(prefix_sum(t, 0) == 0);
        }
        assert(forall|i: nat| 1 <= i <= raws.len() ==> #[trigger] prefix_sum(raws, i) == raws[0] + prefix_sum(t, (i - 1) as nat));
        if 0 < p <= usize::MAX {
            lemma_starts_accumulate(p as usize, t);
            if forall|i: nat| 1 <= i <= raws.len() ==> 0 < #[trigger] prefix_sum(raws, i) + prev <= usize::MAX {
                assert forall|i: nat| 1 <= i <= t.len() implies 0 < #[trigger] prefix_sum(t, i) + p <= usize::MAX by {
                    assert(prefix_sum(raws, i + 1) == raws[0] + prefix_sum(t, i));
                }
                let v = resolve_starts(true, p as usize, t)->Ok_0;
                assert forall|i: int| 0 <= i < raws.len() implies #[trigger] (seq![p as usize] + v)[i] == prev + prefix_sum(raws, (i + 1) as nat) by {
                    if i > 0 {
                        assert(prefix_sum(raws, (i + 1) as nat) == raws[0] + prefix_sum(t, i as nat));
                    }
                }
            }
            if exists|i: nat| 1 <= i <= raws.len() && #[trigger] prefix_sum(raws, i) + prev <= 0 {
                let i = choose|i: nat| 1 <= i <= raws.len() && #[trigger] prefix_sum(raws, i) + prev <= 0;
                assert(i > 1);
                assert(prefix_sum(t, (i - 1) as nat) + p <= 0);
            }
        }
    }
}

/// Engines in equivalent states, as `new` makes them from the same
/// arguments, give the same outcomes over any number of calls of
/// `read_record`: the same records, the same errors, at the same calls.
pub proof fn lemma_decoding_is_deterministic(a: EngineState, b: EngineState, k: nat)
    requires
        equivalent(a, b),
    ensures
        run(a, k) == run(b, k),
    decreases k,
{
    if k > 0 {
        if a.remaining > 0 {
            assert(a == b);
        } else {
            assert(step(a).0 == step(b).0);
            assert(equivalent(step(a).1, step(b).1));
        }
        lemma_decoding_is_deterministic(step(a).1, step(b).1, (k - 1) as nat);
    }
}

/// A feature payload sits at the position it is given.
pub proof fn lemma_payload_position(h: CompressionHeader, c: u8, position: usize, s: StreamState)
    ensures
        match feature_payload(h, c, position, s) {
            Ok((f, _)) => f.position() == position,
            Err(_) => true,
        },
{
    reveal(feature_payload);
}

/// Each feature is one past the running offset plus its decoded delta, and
/// the offset moves on by that delta; from an offset of 0, deltas 3, 0, 7
/// give positions 4, 4, 11.
pub proof fn lemma_feature_position_from_delta(
    h: CompressionHeader,
    prev: usize,
    s: StreamState,
    c: i32,
    s3: StreamState,
    d: usize,
    s4: StreamState,
)
    requires
        series_int(h, DataSeries::FeatureCodes, s) == Ok::<(i32, StreamState), ReadRecordError>((c, s3)),
        series_usize(h, DataSeries::FeaturePositionDeltas, s3) == Ok::<(usize, StreamState), ReadRecordError>((d, s4)),
    ensures
        match one_feature(h, prev, s) {
            Ok((f, p, _)) => p == prev + d && f.position() == prev + d + 1,
            Err(_) => true,
        },
{
    reveal(one_feature);
    lemma_payload_position(h, c as u8, (prev + d + 1) as usize, s4);
}

/// Features come in order of position: each is at the running offset plus
/// one, and the offset never goes back.
pub proof fn lemma_feature_positions_ordered(h: CompressionHeader, s: StreamState, n: nat)
    ensures
        match features(h, s, n) {
            Ok((fs, prev, _)) => (forall|i: int, j: int|
                0 <= i <= j < fs.len() ==> 1 <= #[trigger] fs[i].position() <= #[trigger] fs[j].position() <= prev + 1)
                && (fs.len() > 0 ==> fs.last().position() == prev + 1) && fs.len() == n,
            Err(_) => true,
        },
    decreases n,
{
    if n > 0 {
        lemma_feature_positions_ordered(h, s, (n - 1) as nat);
        match features(h, s, (n - 1) as nat) {
            Ok((fs, prev, s1)) => {
                reveal(one_feature);
                match one_feature(h, prev, s1) {
                    Ok((f, p, s2)) => {
                        match series_int(h, DataSeries::FeatureCodes, s1) {
                            Ok((c, s3)) => match series_usize(h, DataSeries::FeaturePositionDeltas, s3) {
                                Ok((d, s4)) => {
                                    lemma_payload_position(h, c as u8, (prev + d + 1) as usize, s4);
                                },
                                Err(_) => {},
                            },
                            Err(_) => {},
                        }
                        assert(f.position() == p + 1 && p >= prev);
                        let gs = fs.push(f);
                        assert(forall|i: int| 0 <= i < fs.len() ==> gs[i] == fs[i]);
                        assert(gs.last() == f);
                    },
                    Err(_) => {},
                }
            },
            Err(_) => {},
        }
    }
}

} // verus!
