use vstd::prelude::*;

verus! {

/// A read feature as decoded: its 1-based position in the read and what
/// the read has there.
#[derive(Clone, Debug, PartialEq, Eq)]
pub enum Feature {
    Bases { position: usize, bases: Vec<u8> },
    Scores { position: usize, quality_scores: Vec<u8> },
    ReadBase { position: usize, base: u8, quality_score: u8 },
    Substitution { position: usize, code: u8 },
    Insertion { position: usize, bases: Vec<u8> },
    Deletion { position: usize, len: usize },
    InsertBase { position: usize, base: u8 },
    QualityScore { position: usize, quality_score: u8 },
    ReferenceSkip { position: usize, len: usize },
    SoftClip { position: usize, bases: Vec<u8> },
    Padding { position: usize, len: usize },
    HardClip { position: usize, len: usize },
}

/// A feature with its byte runs as sequences.
pub enum FeatureView {
    Bases { position: usize, bases: Seq<u8> },
    Scores { position: usize, quality_scores: Seq<u8> },
    ReadBase { position: usize, base: u8, quality_score: u8 },
    Substitution { position: usize, code: u8 },
    Insertion { position: usize, bases: Seq<u8> },
    Deletion { position: usize, len: usize },
    InsertBase { position: usize, base: u8 },
    QualityScore { position: usize, quality_score: u8 },
    ReferenceSkip { position: usize, len: usize },
    SoftClip { position: usize, bases: Seq<u8> },
    Padding { position: usize, len: usize },
    HardClip { position: usize, len: usize },
}

impl FeatureView {
    pub open spec fn position(&self) -> usize {
        match *self {
            FeatureView::Bases { position, .. } => position,
            FeatureView::Scores { position, .. } => position,
            FeatureView::ReadBase { position, .. } => position,
            FeatureView::Substitution { position, .. } => position,
            FeatureView::Insertion { position, .. } => position,
            FeatureView::Deletion { position, .. } => position,
            FeatureView::InsertBase { position, .. } => position,
            FeatureView::QualityScore { position, .. } => position,
            FeatureView::ReferenceSkip { position, .. } => position,
            FeatureView::SoftClip { position, .. } => position,
            FeatureView::Padding { position, .. } => position,
            FeatureView::HardClip { position, .. } => position,
        }
    }
}

impl Feature {
    pub open spec fn view(&self) -> FeatureView {
        match self {
            Feature::Bases { position, bases } => FeatureView::Bases { position: *position, bases: bases@ },
            Feature::Scores { position, quality_scores } => FeatureView::Scores {
                position: *position,
                quality_scores: quality_scores@,
            },
            Feature::ReadBase { position, base, quality_score } => FeatureView::ReadBase {
                position: *position,
                base: *base,
                quality_score: *quality_score,
            },
            Feature::Substitution { position, code } => FeatureView::Substitution {
                position: *position,
                code: *code,
            },
            Feature::Insertion { position, bases } => FeatureView::Insertion {
                position: *position,
                bases: bases@,
            },
            Feature::Deletion { position, len } => FeatureView::Deletion { position: *position, len: *len },
            Feature::InsertBase { position, base } => FeatureView::InsertBase {
                position: *position,
                base: *base,
            },
            Feature::QualityScore { position, quality_score } => FeatureView::QualityScore {
                position: *position,
                quality_score: *quality_score,
            },
            Feature::ReferenceSkip { position, len } => FeatureView::ReferenceSkip {
                position: *position,
                len: *len,
            },
            Feature::SoftClip { position, bases } => FeatureView::SoftClip {
                position: *position,
                bases: bases@,
            },
            Feature::Padding { position, len } => FeatureView::Padding { position: *position, len: *len },
            Feature::HardClip { position, len } => FeatureView::HardClip { position: *position, len: *len },
        }
    }

    /// The feature's 1-based position in the read.
    pub fn position(&self) -> (r: usize)
        ensures
            r == self@.position(),
    {
        match self {
            Feature::Bases { position, .. } => *position,
            Feature::Scores { position, .. } => *position,
            Feature::ReadBase { position, .. } => *position,
            Feature::Substitution { position, .. } => *position,
            Feature::Insertion { position, .. } => *position,
            Feature::Deletion { position, .. } => *position,
            Feature::InsertBase { position, .. } => *position,
            Feature::QualityScore { position, .. } => *position,
            Feature::ReferenceSkip { position, .. } => *position,
            Feature::SoftClip { position, .. } => *position,
            Feature::Padding { position, .. } => *position,
            Feature::HardClip { position, .. } => *position,
        }
    }
}

/// An auxiliary value, read by the type its tag declares.
#[derive(Clone, Debug, PartialEq, Eq)]
pub enum TagValue {
    Character(u8),
    Int8(i8),
    UInt8(u8),
    Int16(i16),
    UInt16(u16),
    Int32(i32),
    UInt32(u32),
    /// The bits of a single-precision float, as stored.
    Float(u32),
    String(Vec<u8>),
    Hex(Vec<u8>),
    /// A typed array as stored: subtype, count, then the elements.
    Array(Vec<u8>),
}

pub enum TagValueView {
    Character(u8),
    Int8(i8),
    UInt8(u8),
    Int16(i16),
    UInt16(u16),
    Int32(i32),
    UInt32(u32),
    Float(u32),
    String(Seq<u8>),
    Hex(Seq<u8>),
    Array(Seq<u8>),
}

impl TagValue {
    pub open spec fn view(&self) -> TagValueView {
        match self {
            TagValue::Character(c) => TagValueView::Character(*c),
            TagValue::Int8(n) => TagValueView::Int8(*n),
            TagValue::UInt8(n) => TagValueView::UInt8(*n),
            TagValue::Int16(n) => TagValueView::Int16(*n),
            TagValue::UInt16(n) => TagValueView::UInt16(*n),
            TagValue::Int32(n) => TagValueView::Int32(*n),
            TagValue::UInt32(n) => TagValueView::UInt32(*n),
            TagValue::Float(f) => TagValueView::Float(*f),
            TagValue::String(s) => TagValueView::String(s@),
            TagValue::Hex(s) => TagValueView::Hex(s@),
            TagValue::Array(s) => TagValueView::Array(s@),
        }
    }
}

/// One auxiliary field of a record.
#[derive(Clone, Debug, PartialEq, Eq)]
pub struct Tag {
    pub tag: [u8; 2],
    pub value: TagValue,
}

/// One decoded alignment record.
#[derive(Clone, Debug, PartialEq, Eq)]
pub struct Record {
    /// Sequential id within the slice.
    pub id: u64,
    pub bam_flags: u16,
    pub cram_flags: u8,
    pub reference_sequence_id: Option<usize>,
    pub read_length: usize,
    /// 1-based.
    pub alignment_start: usize,
    pub read_group_id: Option<usize>,
    pub name: Option<Vec<u8>>,
    pub mate_flags: u8,
    pub mate_reference_sequence_id: Option<usize>,
    pub mate_alignment_start: Option<usize>,
    pub template_length: i32,
    /// Records to the mate further down the slice, left unresolved.
    pub mate_distance: Option<usize>,
    pub tags: Vec<Tag>,
    pub features: Vec<Feature>,
    pub mapping_quality: Option<u8>,
    pub sequence: Vec<u8>,
    /// Empty where the record stores none.
    pub quality_scores: Vec<u8>,
}

pub struct RecordView {
    pub id: u64,
    pub bam_flags: u16,
    pub cram_flags: u8,
    pub reference_sequence_id: Option<usize>,
    pub read_length: usize,
    pub alignment_start: usize,
    pub read_group_id: Option<usize>,
    pub name: Option<Seq<u8>>,
    pub mate_flags: u8,
    pub mate_reference_sequence_id: Option<usize>,
    pub mate_alignment_start: Option<usize>,
    pub template_length: i32,
    pub mate_distance: Option<usize>,
    pub tags: Seq<([u8; 2], TagValueView)>,
    pub features: Seq<FeatureView>,
    pub mapping_quality: Option<u8>,
    pub sequence: Seq<u8>,
    pub quality_scores: Seq<u8>,
}

/// A record with every field empty or zero.
pub open spec fn empty_record() -> RecordView {
    RecordView {
        id: 0,
        bam_flags: 0,
        cram_flags: 0,
        reference_sequence_id: None,
        read_length: 0,
        alignment_start: 0,
        read_group_id: None,
        name: None,
        mate_flags: 0,
        mate_reference_sequence_id: None,
        mate_alignment_start: None,
        template_length: 0,
        mate_distance: None,
        tags: Seq::empty(),
        features: Seq::empty(),
        mapping_quality: None,
        sequence: Seq::empty(),
        quality_scores: Seq::empty(),
    }
}

impl Record {
    pub open spec fn view(&self) -> RecordView {
        RecordView {
            id: self.id,
            bam_flags: self.bam_flags,
            cram_flags: self.cram_flags,
            reference_sequence_id: self.reference_sequence_id,
            read_length: self.read_length,
            alignment_start: self.alignment_start,
            read_group_id: self.read_group_id,
            name: match self.name {
                Some(n) => Some(n@),
                None => None,
            },
            mate_flags: self.mate_flags,
            mate_reference_sequence_id: self.mate_reference_sequence_id,
            mate_alignment_start: self.mate_alignment_start,
            template_length: self.template_length,
            mate_distance: self.mate_distance,
            tags: self.tags@.map_values(|t: Tag| (t.tag, t.value@)),
            features: self.features@.map_values(|f: Feature| f@),
            mapping_quality: self.mapping_quality,
            sequence: self.sequence@,
            quality_scores: self.quality_scores@,
        }
    }

    pub fn new() -> (r: Self)
        ensures
            r@ == empty_record(),
    {
        let r = Record {
            id: 0,
            bam_flags: 0,
            cram_flags: 0,
            reference_sequence_id: None,
            read_length: 0,
            alignment_start: 0,
            read_group_id: None,
            name: None,
            mate_flags: 0,
            mate_reference_sequence_id: None,
            mate_alignment_start: None,
            template_length: 0,
            mate_distance: None,
            tags: Vec::new(),
            features: Vec::new(),
            mapping_quality: None,
            sequence: Vec::new(),
            quality_scores: Vec::new(),
        };
        assert(r@.tags =~= Seq::empty());
        assert(r@.features =~= Seq::empty());
        r
    }
}

} // verus!
