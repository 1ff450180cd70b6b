use noodles::bit_reader::BitReader;
use noodles::codec::{Byte, ByteArray, Encoding, Integer};
use noodles::error::{DataSeries, ReadRecordError, TagKey, Type};
use noodles::external::ExternalDataReaders;
use noodles::header::{CompressionHeader, DataSeriesEncodings, PreservationMap, ReferenceSequenceContext};
use noodles::num::write_itf8;
use noodles::record::{Feature, Record, TagValue};
use noodles::records::{resolve_alignment_start, Records};

const BAM_FLAGS: i32 = 1;
const CRAM_FLAGS: i32 = 2;
const READ_LENGTHS: i32 = 3;
const ALIGNMENT_STARTS: i32 = 4;
const READ_GROUP_IDS: i32 = 5;
const TAG_SET_IDS: i32 = 6;
const BASES: i32 = 7;
const QUALITY_SCORES: i32 = 8;
const FEATURE_COUNTS: i32 = 9;
const FEATURE_CODES: i32 = 10;
const FEATURE_POSITION_DELTAS: i32 = 11;
const DELETION_LENGTHS: i32 = 12;
const MAPPING_QUALITIES: i32 = 13;
const TAG_NM: i32 = (b'N' as i32) << 16 | (b'M' as i32) << 8 | b'C' as i32;

fn ext(id: i32) -> Option<Encoding<Integer>> {
    Some(Encoding::new(Integer::External { block_content_id: id }))
}

fn header(alignment_starts_are_deltas: bool) -> CompressionHeader {
    let mut e = DataSeriesEncodings::new();
    e.bam_flags = ext(BAM_FLAGS);
    e.cram_flags = ext(CRAM_FLAGS);
    e.read_lengths = ext(READ_LENGTHS);
    e.alignment_starts = ext(ALIGNMENT_STARTS);
    e.read_group_ids = ext(READ_GROUP_IDS);
    e.tag_set_ids = ext(TAG_SET_IDS);
    e.bases = Some(Encoding::new(Byte::External { block_content_id: BASES }));
    e.quality_scores = Some(Encoding::new(Byte::External { block_content_id: QUALITY_SCORES }));
    e.feature_counts = ext(FEATURE_COUNTS);
    e.feature_codes = ext(FEATURE_CODES);
    e.feature_position_deltas = ext(FEATURE_POSITION_DELTAS);
    e.deletion_lengths = ext(DELETION_LENGTHS);
    e.mapping_qualities = ext(MAPPING_QUALITIES);
    let nm = TagKey { tag: *b"NM", ty: Type::UInt8 };
    CompressionHeader {
        preservation_map: PreservationMap {
            records_have_names: false,
            alignment_starts_are_deltas,
            tag_sets: vec![vec![], vec![nm]],
        },
        data_series_encodings: e,
        tag_encodings: vec![(
            TAG_NM,
            Encoding::new(ByteArray::ByteArrayLen {
                len_encoding: Integer::Huffman { alphabet: vec![1], bit_lens: vec![0] },
                value_encoding: Byte::External { block_content_id: TAG_NM },
            }),
        )],
    }
}

fn itf8s(values: &[i32]) -> Vec<u8> {
    let mut buf = Vec::new();
    for &v in values {
        write_itf8(&mut buf, v);
    }
    buf
}

fn readers(blocks: &[(i32, Vec<u8>)]) -> ExternalDataReaders {
    let mut r = ExternalDataReaders::new();
    for (id, data) in blocks {
        r.insert(*id, data.clone());
    }
    r
}

fn read_all(h: &CompressionHeader, blocks: &[(i32, Vec<u8>)], n: usize) -> Vec<Result<Record, ReadRecordError>> {
    let mut records = Records::new(h, BitReader::new(vec![]), readers(blocks), ReferenceSequenceContext::Absent, 0, n);
    let mut out = Vec::new();
    let mut record = Record::new();
    loop {
        match records.read_record(&mut record) {
            Ok(0) => break,
            Ok(_) => out.push(Ok(record.clone())),
            Err(e) => {
                out.push(Err(e));
                break;
            }
        }
    }
    out
}

/// Three unmapped reads of length 0 with the given raw alignment starts.
fn unmapped_blocks(starts: &[i32]) -> Vec<(i32, Vec<u8>)> {
    let n = starts.len();
    vec![
        (BAM_FLAGS, itf8s(&vec![4; n])),
        (CRAM_FLAGS, itf8s(&vec![0; n])),
        (READ_LENGTHS, itf8s(&vec![0; n])),
        (ALIGNMENT_STARTS, itf8s(starts)),
        (READ_GROUP_IDS, itf8s(&vec![-1; n])),
        (TAG_SET_IDS, itf8s(&vec![0; n])),
        (BASES, vec![]),
    ]
}

#[test]
fn alignment_start_deltas_accumulate() {
    let h = header(true);
    let records = read_all(&h, &unmapped_blocks(&[100, 5, -3]), 3);
    let starts: Vec<usize> = records.iter().map(|r| r.as_ref().unwrap().alignment_start).collect();
    assert_eq!(starts, [100, 105, 102]);
    let ids: Vec<u64> = records.iter().map(|r| r.as_ref().unwrap().id).collect();
    assert_eq!(ids, [0, 1, 2]);
}

#[test]
fn non_positive_alignment_start_is_an_error() {
    let h = header(true);
    let records = read_all(&h, &unmapped_blocks(&[100, -100]), 2);
    assert!(records[0].is_ok());
    assert_eq!(records[1], Err(ReadRecordError::InvalidData));

    assert_eq!(resolve_alignment_start(true, 0, 100), Ok(100));
    assert_eq!(resolve_alignment_start(true, 100, 5), Ok(105));
    assert_eq!(resolve_alignment_start(true, 105, -3), Ok(102));
    assert_eq!(resolve_alignment_start(true, 5, -5), Err(ReadRecordError::InvalidData));
    assert_eq!(resolve_alignment_start(false, 5, 0), Err(ReadRecordError::InvalidData));
    assert_eq!(resolve_alignment_start(false, 5, 7), Ok(7));
}

fn mapped_blocks(deltas: &[i32]) -> Vec<(i32, Vec<u8>)> {
    let n = deltas.len() as i32;
    vec![
        (BAM_FLAGS, itf8s(&[0])),
        (CRAM_FLAGS, itf8s(&[0])),
        (READ_LENGTHS, itf8s(&[20])),
        (ALIGNMENT_STARTS, itf8s(&[50])),
        (READ_GROUP_IDS, itf8s(&[2])),
        (TAG_SET_IDS, itf8s(&[1])),
        (TAG_NM, vec![3]),
        (FEATURE_COUNTS, itf8s(&[n])),
        (FEATURE_CODES, itf8s(&vec![b'D' as i32; deltas.len()])),
        (FEATURE_POSITION_DELTAS, itf8s(deltas)),
        (DELETION_LENGTHS, itf8s(&vec![1; deltas.len()])),
        (MAPPING_QUALITIES, itf8s(&[255])),
    ]
}

#[test]
fn feature_positions_follow_deltas() {
    let h = header(false);
    let records = read_all(&h, &mapped_blocks(&[3, 0, 7]), 1);
    let record = records[0].as_ref().unwrap();
    let positions: Vec<usize> = record.features.iter().map(|f| f.position()).collect();
    assert_eq!(positions, [4, 4, 11]);
    assert_eq!(record.features[0], Feature::Deletion { position: 4, len: 1 });
    assert_eq!(record.read_group_id, Some(2));
    assert_eq!(record.mapping_quality, None);
    assert_eq!(record.tags.len(), 1);
    assert_eq!(record.tags[0].tag, *b"NM");
    assert_eq!(record.tags[0].value, TagValue::UInt8(3));
}

#[test]
fn all_missing_quality_scores_become_empty() {
    let h = header(false);
    let blocks = |q: Vec<u8>| {
        vec![
            (BAM_FLAGS, itf8s(&[4])),
            (CRAM_FLAGS, itf8s(&[1])),
            (READ_LENGTHS, itf8s(&[3])),
            (ALIGNMENT_STARTS, itf8s(&[10])),
            (READ_GROUP_IDS, itf8s(&[-1])),
            (TAG_SET_IDS, itf8s(&[0])),
            (BASES, b"ACG".to_vec()),
            (QUALITY_SCORES, q),
        ]
    };
    let missing = read_all(&h, &blocks(vec![0xff, 0xff, 0xff]), 1);
    let record = missing[0].as_ref().unwrap();
    assert_eq!(record.sequence, b"ACG");
    assert!(record.quality_scores.is_empty());

    let stored = read_all(&h, &blocks(vec![30, 31, 32]), 1);
    assert_eq!(stored[0].as_ref().unwrap().quality_scores, [30, 31, 32]);
}

#[test]
fn missing_feature_codes_is_named_and_keeps_the_id() {
    let mut h = header(false);
    h.data_series_encodings.feature_codes = None;
    let blocks = mapped_blocks(&[3]);
    let mut records = Records::new(&h, BitReader::new(vec![]), readers(&blocks), ReferenceSequenceContext::Absent, 7, 1);
    let mut record = Record::new();
    assert_eq!(
        records.read_record(&mut record),
        Err(ReadRecordError::MissingDataSeriesEncoding(DataSeries::FeatureCodes))
    );
    assert_eq!(records.next_id(), 7);
}

#[test]
fn missing_tag_set_is_named() {
    let h = header(false);
    let mut blocks = unmapped_blocks(&[1]);
    blocks[5] = (TAG_SET_IDS, itf8s(&[4]));
    let records = read_all(&h, &blocks, 1);
    assert_eq!(records[0], Err(ReadRecordError::MissingTagSet(4)));
}

#[test]
fn decoding_twice_gives_the_same_records() {
    let h = header(true);
    let blocks = unmapped_blocks(&[100, 5, -3]);
    assert_eq!(read_all(&h, &blocks, 3), read_all(&h, &blocks, 3));
    let h = header(false);
    let blocks = mapped_blocks(&[3, 0, 7]);
    assert_eq!(read_all(&h, &blocks, 1), read_all(&h, &blocks, 1));
}

#[test]
fn exhausted_slice_reads_nothing() {
    let h = header(true);
    let records = read_all(&h, &unmapped_blocks(&[]), 0);
    assert!(records.is_empty());
}

const MATE_FLAGS: i32 = 20;
const NAMES: i32 = 21;
const MATE_REFERENCE_SEQUENCE_IDS: i32 = 22;
const MATE_ALIGNMENT_STARTS: i32 = 23;
const TEMPLATE_LENGTHS: i32 = 24;
const MATE_DISTANCES: i32 = 25;
const REFERENCE_SEQUENCE_IDS: i32 = 26;

fn mate_header() -> CompressionHeader {
    let mut h = header(false);
    let e = &mut h.data_series_encodings;
    e.mate_flags = ext(MATE_FLAGS);
    e.names = Some(Encoding::new(ByteArray::ByteArrayStop { stop_byte: 0, block_content_id: NAMES }));
    e.mate_reference_sequence_ids = ext(MATE_REFERENCE_SEQUENCE_IDS);
    e.mate_alignment_starts = ext(MATE_ALIGNMENT_STARTS);
    e.template_lengths = ext(TEMPLATE_LENGTHS);
    e.mate_distances = ext(MATE_DISTANCES);
    e.reference_sequence_ids = ext(REFERENCE_SEQUENCE_IDS);
    h
}

#[test]
fn detached_mates_and_downstream_distances() {
    let h = mate_header();
    let blocks = vec![
        (BAM_FLAGS, itf8s(&[4, 4])),
        (CRAM_FLAGS, itf8s(&[2, 4])),
        (READ_LENGTHS, itf8s(&[0, 0])),
        (ALIGNMENT_STARTS, itf8s(&[10, 20])),
        (READ_GROUP_IDS, itf8s(&[-1, -1])),
        (TAG_SET_IDS, itf8s(&[0, 0])),
        (BASES, vec![]),
        (MATE_FLAGS, itf8s(&[3])),
        (NAMES, b"r0\x00".to_vec()),
        (MATE_REFERENCE_SEQUENCE_IDS, itf8s(&[-1])),
        (MATE_ALIGNMENT_STARTS, itf8s(&[0])),
        (TEMPLATE_LENGTHS, itf8s(&[-150])),
        (MATE_DISTANCES, itf8s(&[6])),
    ];
    let records = read_all(&h, &blocks, 2);
    let detached = records[0].as_ref().unwrap();
    assert_eq!(detached.bam_flags, 4 | 0x20 | 0x8);
    assert_eq!(detached.mate_flags, 3);
    assert_eq!(detached.name, Some(b"r0".to_vec()));
    assert_eq!(detached.mate_reference_sequence_id, None);
    assert_eq!(detached.mate_alignment_start, None);
    assert_eq!(detached.template_length, -150);
    assert_eq!(detached.mate_distance, None);
    let downstream = records[1].as_ref().unwrap();
    assert_eq!(downstream.mate_distance, Some(6));
    assert_eq!(downstream.name, None);
}

#[test]
fn reference_ids_by_context() {
    let h = mate_header();
    let mut blocks = unmapped_blocks(&[5, 6]);
    blocks.push((REFERENCE_SEQUENCE_IDS, itf8s(&[-1, 3])));
    let mut records = Records::new(&h, BitReader::new(vec![]), readers(&blocks), ReferenceSequenceContext::Many, 0, 2);
    let mut record = Record::new();
    assert_eq!(records.read_record(&mut record), Ok(1));
    assert_eq!(record.reference_sequence_id, None);
    assert_eq!(records.read_record(&mut record), Ok(1));
    assert_eq!(record.reference_sequence_id, Some(3));
    assert_eq!(records.read_record(&mut record), Ok(0));

    let blocks = unmapped_blocks(&[5]);
    let fixed = ReferenceSequenceContext::Fixed { reference_sequence_id: 2, alignment_start: 100 };
    let h = header(true);
    let mut records = Records::new(&h, BitReader::new(vec![]), readers(&blocks), fixed, 0, 1);
    assert_eq!(records.read_record(&mut record), Ok(1));
    assert_eq!(record.reference_sequence_id, Some(2));
    assert_eq!(record.alignment_start, 105);
}

#[test]
fn missing_tag_encoding_is_named() {
    let mut h = header(false);
    h.tag_encodings.clear();
    let records = read_all(&h, &mapped_blocks(&[1]), 1);
    assert_eq!(
        records[0],
        Err(ReadRecordError::MissingTagEncoding(TagKey { tag: *b"NM", ty: Type::UInt8 }))
    );
}

#[test]
fn truncated_streams_are_eof() {
    let h = header(false);
    let mut blocks = unmapped_blocks(&[5]);
    blocks[0] = (BAM_FLAGS, vec![]);
    assert_eq!(read_all(&h, &blocks, 1)[0], Err(ReadRecordError::UnexpectedEof));
}

#[test]
fn errors_end_the_slice() {
    let h = header(true);
    let blocks = unmapped_blocks(&[100, -200, 5]);
    let mut records = Records::new(&h, BitReader::new(vec![]), readers(&blocks), ReferenceSequenceContext::Absent, 0, 3);
    let mut record = Record::new();
    assert_eq!(records.read_record(&mut record), Ok(1));
    assert_eq!(records.read_record(&mut record), Err(ReadRecordError::InvalidData));
    assert_eq!(records.next_id(), 1);
    assert_eq!(records.read_record(&mut record), Ok(0));
}
