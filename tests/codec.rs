use noodles::bit_reader::BitReader;
use noodles::codec::{Byte, ByteArray, Encoding, Integer};
use noodles::error::ReadRecordError;
use noodles::external::ExternalDataReaders;
use noodles::huffman::CanonicalHuffmanDecoder;
use noodles::num::write_itf8;
use noodles::writer::{BitWriter, ExternalDataWriters};

fn decode_with(core_data: Option<&[u8]>, encoding: &Encoding<Integer>) -> Result<i32, ReadRecordError> {
    let core_data = core_data.unwrap_or(&[0b10000000]);
    let mut core_data_reader = BitReader::new(core_data.to_vec());
    let mut external_data_readers = ExternalDataReaders::new();
    external_data_readers.insert(1, vec![0x0d]);
    encoding.decode(&mut core_data_reader, &mut external_data_readers)
}

#[test]
fn test_decode() {
    let t = |core_data: Option<&[u8]>, encoding: Encoding<Integer>, expected: i32| {
        assert_eq!(decode_with(core_data, &encoding), Ok(expected));
    };

    t(None, Encoding::new(Integer::External { block_content_id: 1 }), 13);
    t(
        None,
        Encoding::new(Integer::Huffman { alphabet: vec![0x4e], bit_lens: vec![0] }),
        0x4e,
    );
    t(None, Encoding::new(Integer::Beta { offset: 1, len: 3 }), 3);
    t(Some(&[0b00011010]), Encoding::new(Integer::Gamma { offset: 5 }), 8);
}

#[test]
fn test_encode() {
    let t = |encoding: Encoding<Integer>, value: i32, expected_core_data: &[u8], expected_external_data: &[u8]| {
        let mut core_data_writer = BitWriter::new();

        let block_content_id = 1;
        let mut external_data_writers = ExternalDataWriters::new();
        external_data_writers.insert(block_content_id);

        assert!(encoding.encode(&mut core_data_writer, &mut external_data_writers, value).is_ok());

        let actual_core_data = core_data_writer.finish();
        assert_eq!(actual_core_data, expected_core_data);

        let actual_external_data = external_data_writers.get(block_content_id).unwrap();
        assert_eq!(actual_external_data, expected_external_data);
    };

    t(Encoding::new(Integer::External { block_content_id: 1 }), 0x0d, &[], &[0x0d]);
}

#[test]
fn huffman_singleton_consumes_no_bits() {
    let encoding = Encoding::new(Integer::Huffman { alphabet: vec![-7], bit_lens: vec![0] });
    let mut core = BitReader::new(vec![0xff]);
    let mut ext = ExternalDataReaders::new();
    assert_eq!(encoding.decode(&mut core, &mut ext), Ok(-7));
    assert_eq!(encoding.decode(&mut core, &mut ext), Ok(-7));
    assert_eq!(core.pos, 0);
}

#[test]
fn beta_round_trips_offset_values() {
    // 5 bits holding 9 + 4 = 13 = 0b01101.
    let encoding = Encoding::new(Integer::Beta { offset: 4, len: 5 });
    let mut core = BitReader::new(vec![0b01101000]);
    let mut ext = ExternalDataReaders::new();
    assert_eq!(encoding.decode(&mut core, &mut ext), Ok(9));
    assert_eq!(core.pos, 5);
}

#[test]
fn beta_past_end_is_eof() {
    let encoding = Encoding::new(Integer::Beta { offset: 0, len: 9 });
    let mut core = BitReader::new(vec![0xff]);
    let mut ext = ExternalDataReaders::new();
    assert_eq!(encoding.decode(&mut core, &mut ext), Err(ReadRecordError::UnexpectedEof));
}

#[test]
fn gamma_vector_decodes_to_eight() {
    let encoding = Encoding::new(Integer::Gamma { offset: 5 });
    let mut core = BitReader::new(vec![0b00011010]);
    let mut ext = ExternalDataReaders::new();
    assert_eq!(encoding.decode(&mut core, &mut ext), Ok(8));
    assert_eq!(core.pos, 7);
}

#[test]
fn gamma_without_terminator_is_eof() {
    let encoding = Encoding::new(Integer::Gamma { offset: 0 });
    let mut core = BitReader::new(vec![0x00]);
    let mut ext = ExternalDataReaders::new();
    assert_eq!(encoding.decode(&mut core, &mut ext), Err(ReadRecordError::UnexpectedEof));
}

#[test]
fn external_decodes_and_encodes_thirteen() {
    let encoding = Encoding::new(Integer::External { block_content_id: 1 });
    let mut core = BitReader::new(vec![]);
    let mut ext = ExternalDataReaders::new();
    ext.insert(1, vec![0x0d]);
    assert_eq!(encoding.decode(&mut core, &mut ext), Ok(13));

    let mut core_writer = BitWriter::new();
    let mut writers = ExternalDataWriters::new();
    writers.insert(1);
    assert!(encoding.encode(&mut core_writer, &mut writers, 13).is_ok());
    assert_eq!(writers.get(1).unwrap(), &vec![0x0d]);
    assert!(core_writer.finish().is_empty());
}

#[test]
fn external_missing_block_is_named() {
    let encoding = Encoding::new(Integer::External { block_content_id: 9 });
    let mut core = BitReader::new(vec![]);
    let mut ext = ExternalDataReaders::new();
    assert_eq!(encoding.decode(&mut core, &mut ext), Err(ReadRecordError::MissingExternalBlock(9)));

    let mut core_writer = BitWriter::new();
    let mut writers = ExternalDataWriters::new();
    assert_eq!(
        encoding.encode(&mut core_writer, &mut writers, 1),
        Err(ReadRecordError::MissingExternalBlock(9))
    );
}

#[test]
fn unsupported_codecs_say_so() {
    let mut core = BitReader::new(vec![0xff; 4]);
    let mut ext = ExternalDataReaders::new();
    for codec in [
        Integer::Golomb { offset: 0, m: 2 },
        Integer::Subexp { offset: 0, k: 1 },
        Integer::GolombRice { offset: 0, log2_m: 1 },
    ] {
        assert_eq!(codec.decode(&mut core, &mut ext), Err(ReadRecordError::NotImplemented));
    }
    let mut core_writer = BitWriter::new();
    let mut writers = ExternalDataWriters::new();
    assert_eq!(
        Integer::Beta { offset: 0, len: 3 }.encode(&mut core_writer, &mut writers, 1),
        Err(ReadRecordError::NotImplemented)
    );
}

#[test]
fn itf8_round_trips() {
    for v in [0, 1, 0x7f, 0x80, 0x3fff, 0x4000, 0x1f_ffff, 0x20_0000, 0x0fff_ffff, 0x1000_0000, i32::MAX, -1, -3, i32::MIN] {
        let mut buf = Vec::new();
        write_itf8(&mut buf, v);
        let mut ext = ExternalDataReaders::new();
        ext.insert(2, buf);
        assert_eq!(ext.read_itf8(0), Ok(v));
    }
    let mut buf = Vec::new();
    write_itf8(&mut buf, -3);
    assert_eq!(buf, vec![0xff, 0xff, 0xff, 0xff, 0x0d]);
    let mut buf = Vec::new();
    write_itf8(&mut buf, 0x1234);
    assert_eq!(buf, vec![0x92, 0x34]);
}

#[test]
fn canonical_huffman_codes() {
    // Lengths 1, 2, 2: codes 0, 10, 11.
    let alphabet = vec![5, 7, 6];
    let bit_lens = vec![1, 2, 2];
    let decoder = CanonicalHuffmanDecoder::new(&alphabet, &bit_lens).unwrap();
    assert_eq!(decoder.codes, vec![0, 3, 2]);
    let mut core = BitReader::new(vec![0b01011000]);
    assert_eq!(decoder.decode(&mut core), Ok(5));
    assert_eq!(decoder.decode(&mut core), Ok(6));
    assert_eq!(decoder.decode(&mut core), Ok(7));
    assert_eq!(decoder.decode(&mut core), Ok(5));
}

#[test]
fn ambiguous_huffman_tables_are_refused() {
    assert!(CanonicalHuffmanDecoder::new(&vec![1, 2, 3], &vec![1, 1, 1]).is_err());
    assert!(CanonicalHuffmanDecoder::new(&vec![1, 1], &vec![1, 1]).is_err());
    assert!(CanonicalHuffmanDecoder::new(&vec![1, 2], &vec![0, 1]).is_err());
}

#[test]
fn byte_codecs_take_runs() {
    let mut core = BitReader::new(vec![]);
    let mut ext = ExternalDataReaders::new();
    ext.insert(3, b"ACGT\x00NN".to_vec());
    let take = Encoding::new(Byte::External { block_content_id: 3 });
    assert_eq!(take.decode_take(&mut core, &mut ext, 2), Ok(b"AC".to_vec()));
    let stop = Encoding::new(ByteArray::ByteArrayStop { stop_byte: 0, block_content_id: 3 });
    assert_eq!(stop.decode(&mut core, &mut ext), Ok(b"GT".to_vec()));
    assert_eq!(take.decode(&mut core, &mut ext), Ok(b'N'));
    assert_eq!(take.decode_take(&mut core, &mut ext, 2), Err(ReadRecordError::UnexpectedEof));
}

#[test]
fn gamma_with_thirty_one_zero_bits() {
    // 31 zero bits, a one bit, then 31 zero bits: 2^31 + 0 - 1.
    let encoding = Encoding::new(Integer::Gamma { offset: 1 });
    let mut core = BitReader::new(vec![0, 0, 0, 1, 0, 0, 0, 0]);
    let mut ext = ExternalDataReaders::new();
    assert_eq!(encoding.decode(&mut core, &mut ext), Ok(i32::MAX));
    assert_eq!(core.pos, 63);

    let encoding = Encoding::new(Integer::Gamma { offset: 0 });
    let mut core = BitReader::new(vec![0, 0, 0, 1, 0, 0, 0, 0]);
    assert_eq!(encoding.decode(&mut core, &mut ext), Err(ReadRecordError::InvalidData));

    let mut core = BitReader::new(vec![0, 0, 0, 1, 0]);
    assert_eq!(encoding.decode(&mut core, &mut ext), Err(ReadRecordError::UnexpectedEof));

    let mut core = BitReader::new(vec![0, 0, 0, 0, 0x80, 0, 0, 0, 0]);
    assert_eq!(encoding.decode(&mut core, &mut ext), Err(ReadRecordError::InvalidData));
}

#[test]
fn missing_block_leaves_streams_alone() {
    let encoding = Encoding::new(Integer::External { block_content_id: 4 });
    let mut core = BitReader::new(vec![0xff]);
    let mut ext = ExternalDataReaders::new();
    ext.insert(1, vec![0x0d]);
    assert_eq!(encoding.decode(&mut core, &mut ext), Err(ReadRecordError::MissingExternalBlock(4)));
    assert_eq!(core.pos, 0);
    assert_eq!(ext.readers[0].pos, 0);

    let mut core_writer = BitWriter::new();
    let mut writers = ExternalDataWriters::new();
    writers.insert(1);
    assert!(encoding.encode(&mut core_writer, &mut writers, 3).is_err());
    assert!(writers.get(1).unwrap().is_empty());
}
