use vstd::prelude::*;
use crate::codec::{Byte, ByteArray, Encoding, Integer};
use crate::error::{DataSeries, TagKey};

verus! {

/// Where the records of a slice lie on the reference.
pub enum ReferenceSequenceContext {
    /// Every record is on one reference sequence; the slice starts at
    /// `alignment_start`.
    Fixed { reference_sequence_id: usize, alignment_start: usize },
    /// No record is placed.
    Absent,
    /// Each record names its reference sequence.
    Many,
}

/// What the compression header says about which fields records carry.
pub struct PreservationMap {
    pub records_have_names: bool,
    pub alignment_starts_are_deltas: bool,
    /// The tag keys of each tag set, in record order.
    pub tag_sets: Vec<Vec<TagKey>>,
}

/// The codec of each data series, where the header declares one.
pub struct DataSeriesEncodings {
    pub bam_flags: Option<Encoding<Integer>>,
    pub cram_flags: Option<Encoding<Integer>>,
    pub reference_sequence_ids: Option<Encoding<Integer>>,
    pub read_lengths: Option<Encoding<Integer>>,
    pub alignment_starts: Option<Encoding<Integer>>,
    pub read_group_ids: Option<Encoding<Integer>>,
    pub names: Option<Encoding<ByteArray>>,
    pub mate_flags: Option<Encoding<Integer>>,
    pub mate_reference_sequence_ids: Option<Encoding<Integer>>,
    pub mate_alignment_starts: Option<Encoding<Integer>>,
    pub template_lengths: Option<Encoding<Integer>>,
    pub mate_distances: Option<Encoding<Integer>>,
    pub tag_set_ids: Option<Encoding<Integer>>,
    pub feature_counts: Option<Encoding<Integer>>,
    pub feature_codes: Option<Encoding<Integer>>,
    pub feature_position_deltas: Option<Encoding<Integer>>,
    pub bases: Option<Encoding<Byte>>,
    pub quality_scores: Option<Encoding<Byte>>,
    pub base_substitution_codes: Option<Encoding<Byte>>,
    pub insertion_bases: Option<Encoding<ByteArray>>,
    pub deletion_lengths: Option<Encoding<Integer>>,
    pub reference_skip_lengths: Option<Encoding<Integer>>,
    pub soft_clip_bases: Option<Encoding<ByteArray>>,
    pub padding_lengths: Option<Encoding<Integer>>,
    pub hard_clip_lengths: Option<Encoding<Integer>>,
    pub mapping_qualities: Option<Encoding<Integer>>,
    pub stretches_of_bases: Option<Encoding<ByteArray>>,
    pub stretches_of_quality_scores: Option<Encoding<ByteArray>>,
}

impl DataSeriesEncodings {
    /// A table that declares no codec.
    pub fn new() -> (r: Self)
        ensures
            r.bam_flags.is_none(),
            r.cram_flags.is_none(),
            r.reference_sequence_ids.is_none(),
            r.read_lengths.is_none(),
            r.alignment_starts.is_none(),
            r.read_group_ids.is_none(),
            r.names.is_none(),
            r.mate_flags.is_none(),
            r.mate_reference_sequence_ids.is_none(),
            r.mate_alignment_starts.is_none(),
            r.template_lengths.is_none(),
            r.mate_distances.is_none(),
            r.tag_set_ids.is_none(),
            r.feature_counts.is_none(),
            r.feature_codes.is_none(),
            r.feature_position_deltas.is_none(),
            r.bases.is_none(),
            r.quality_scores.is_none(),
            r.base_substitution_codes.is_none(),
            r.insertion_bases.is_none(),
            r.deletion_lengths.is_none(),
            r.reference_skip_lengths.is_none(),
            r.soft_clip_bases.is_none(),
            r.padding_lengths.is_none(),
            r.hard_clip_lengths.is_none(),
            r.mapping_qualities.is_none(),
            r.stretches_of_bases.is_none(),
            r.stretches_of_quality_scores.is_none(),
    {
        DataSeriesEncodings {
            bam_flags: None,
            cram_flags: None,
            reference_sequence_ids: None,
            read_lengths: None,
            alignment_starts: None,
            read_group_ids: None,
            names: None,
            mate_flags: None,
            mate_reference_sequence_ids: None,
            mate_alignment_starts: None,
            template_lengths: None,
            mate_distances: None,
            tag_set_ids: None,
            feature_counts: None,
            feature_codes: None,
            feature_position_deltas: None,
            bases: None,
            quality_scores: None,
            base_substitution_codes: None,
            insertion_bases: None,
            deletion_lengths: None,
            reference_skip_lengths: None,
            soft_clip_bases: None,
            padding_lengths: None,
            hard_clip_lengths: None,
            mapping_qualities: None,
            stretches_of_bases: None,
            stretches_of_quality_scores: None,
        }
    }

    /// The integer codec declared for `s`; `None` for a series of bytes.
    pub open spec fn integer(&self, s: DataSeries) -> Option<Encoding<Integer>> {
        match s {
            DataSeries::BamFlags => self.bam_flags,
            DataSeries::CramFlags => self.cram_flags,
            DataSeries::ReferenceSequenceIds => self.reference_sequence_ids,
            DataSeries::ReadLengths => self.read_lengths,
            DataSeries::AlignmentStarts => self.alignment_starts,
            DataSeries::ReadGroupIds => self.read_group_ids,
            DataSeries::MateFlags => self.mate_flags,
            DataSeries::MateReferenceSequenceIds => self.mate_reference_sequence_ids,
            DataSeries::MateAlignmentStarts => self.mate_alignment_starts,
            DataSeries::TemplateLengths => self.template_lengths,
            DataSeries::MateDistances => self.mate_distances,
            DataSeries::TagSetIds => self.tag_set_ids,
            DataSeries::FeatureCounts => self.feature_counts,
            DataSeries::FeatureCodes => self.feature_codes,
            DataSeries::FeaturePositionDeltas => self.feature_position_deltas,
            DataSeries::DeletionLengths => self.deletion_lengths,
            DataSeries::ReferenceSkipLengths => self.reference_skip_lengths,
            DataSeries::PaddingLengths => self.padding_lengths,
            DataSeries::HardClipLengths => self.hard_clip_lengths,
            DataSeries::MappingQualities => self.mapping_qualities,
            _ => None,
        }
    }

    /// The byte codec declared for `s`; `None` for another kind of series.
    pub open spec fn byte(&self, s: DataSeries) -> Option<Encoding<Byte>> {
        match s {
            DataSeries::Bases => self.bases,
            DataSeries::QualityScores => self.quality_scores,
            DataSeries::BaseSubstitutionCodes => self.base_substitution_codes,
            _ => None,
        }
    }

    /// The byte-string codec declared for `s`; `None` for another kind of
    /// series.
    pub open spec fn byte_array(&self, s: DataSeries) -> Option<Encoding<ByteArray>> {
        match s {
            DataSeries::Names => self.names,
            DataSeries::InsertionBases => self.insertion_bases,
            DataSeries::SoftClipBases => self.soft_clip_bases,
            DataSeries::StretchesOfBases => self.stretches_of_bases,
            DataSeries::StretchesOfQualityScores => self.stretches_of_quality_scores,
            _ => None,
        }
    }

    pub fn get_integer(&self, s: DataSeries) -> (r: Option<&Encoding<Integer>>)
        ensures
            match self.integer(s) {
                Some(e) => r == Some(&e),
                None => r.is_none(),
            },
    {
        match s {
            DataSeries::BamFlags => self.bam_flags.as_ref(),
            DataSeries::CramFlags => self.cram_flags.as_ref(),
            DataSeries::ReferenceSequenceIds => self.reference_sequence_ids.as_ref(),
            DataSeries::ReadLengths => self.read_lengths.as_ref(),
            DataSeries::AlignmentStarts => self.alignment_starts.as_ref(),
            DataSeries::ReadGroupIds => self.read_group_ids.as_ref(),
            DataSeries::MateFlags => self.mate_flags.as_ref(),
            DataSeries::MateReferenceSequenceIds => self.mate_reference_sequence_ids.as_ref(),
            DataSeries::MateAlignmentStarts => self.mate_alignment_starts.as_ref(),
            DataSeries::TemplateLengths => self.template_lengths.as_ref(),
            DataSeries::MateDistances => self.mate_distances.as_ref(),
            DataSeries::TagSetIds => self.tag_set_ids.as_ref(),
            DataSeries::FeatureCounts => self.feature_counts.as_ref(),
            DataSeries::FeatureCodes => self.feature_codes.as_ref(),
            DataSeries::FeaturePositionDeltas => self.feature_position_deltas.as_ref(),
            DataSeries::DeletionLengths => self.deletion_lengths.as_ref(),
            DataSeries::ReferenceSkipLengths => self.reference_skip_lengths.as_ref(),
            DataSeries::PaddingLengths => self.padding_lengths.as_ref(),
            DataSeries::HardClipLengths => self.hard_clip_lengths.as_ref(),
            DataSeries::MappingQualities => self.mapping_qualities.as_ref(),
            _ => None,
        }
    }

    pub fn get_byte(&self, s: DataSeries) -> (r: Option<&Encoding<Byte>>)
        ensures
            match self.byte(s) {
                Some(e) => r == Some(&e),
                None => r.is_none(),
            },
    {
        match s {
            DataSeries::Bases => self.bases.as_ref(),
            DataSeries::QualityScores => self.quality_scores.as_ref(),
            DataSeries::BaseSubstitutionCodes => self.base_substitution_codes.as_ref(),
            _ => None,
        }
    }

    pub fn get_byte_array(&self, s: DataSeries) -> (r: Option<&Encoding<ByteArray>>)
        ensures
            match self.byte_array(s) {
                Some(e) => r == Some(&e),
                None => r.is_none(),
            },
    {
        match s {
            DataSeries::Names => self.names.as_ref(),
            DataSeries::InsertionBases => self.insertion_bases.as_ref(),
            DataSeries::SoftClipBases => self.soft_clip_bases.as_ref(),
            DataSeries::StretchesOfBases => self.stretches_of_bases.as_ref(),
            DataSeries::StretchesOfQualityScores => self.stretches_of_quality_scores.as_ref(),
            _ => None,
        }
    }
}

/// The part of a container's compression header that record decoding
/// reads.
pub struct CompressionHeader {
    pub preservation_map: PreservationMap,
    pub data_series_encodings: DataSeriesEncodings,
    /// The codec of each tag, by the content id made from its key.
    pub tag_encodings: Vec<(i32, Encoding<ByteArray>)>,
}

} // verus!
