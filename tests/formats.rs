use noodles::bam::{read_magic, Iter, ReadMagicError};
use noodles::error::Type;
use noodles::field::{read_value, DecodeError};
use noodles::gff::Attributes;
use noodles::record::TagValue;
use noodles::sam::{self, QualityScores};
use noodles::vcf::{self, Bounds, Phasing, Series, Value, Values};

#[test]
fn header_test_read_magic() {
    let data = b"BAM\x01";
    assert!(read_magic(&data[..]).is_ok());

    let data: [u8; 0] = [];
    assert_eq!(read_magic(&data[..]), Err(ReadMagicError::UnexpectedEof));

    let data = b"MThd";
    assert_eq!(read_magic(&data[..]), Err(ReadMagicError::InvalidData));
}

fn collect(mut iter: Iter) -> Vec<u8> {
    let mut out = Vec::new();
    while let Some(b) = iter.next() {
        out.push(b);
    }
    out
}

fn collect_rev(mut iter: Iter) -> Vec<u8> {
    let mut out = Vec::new();
    while let Some(b) = iter.next_back() {
        out.push(b);
    }
    out
}

#[test]
fn test_next() {
    let mut iter = Iter::new(&[], 0, 0);
    assert!(iter.next().is_none());

    let iter = Iter::new(&[0x12, 0x40], 0, 3);
    assert_eq!(collect(iter), [b'A', b'C', b'G']);

    let iter = Iter::new(&[0x12, 0x48], 0, 4);
    assert_eq!(collect(iter), [b'A', b'C', b'G', b'T']);

    let iter = Iter::new(&[0x12, 0x48], 1, 3);
    assert_eq!(collect(iter), [b'C', b'G']);
}

#[test]
fn test_size_hint() {
    let iter = Iter::new(&[0x12, 0x48], 0, 4);
    assert_eq!(iter.size_hint(), (4, Some(4)));
}

#[test]
fn test_next_back() {
    let mut iter = Iter::new(&[], 0, 0);
    assert!(iter.next_back().is_none());

    let iter = Iter::new(&[0x12, 0x40], 0, 3);
    assert_eq!(collect_rev(iter), [b'G', b'C', b'A']);

    let iter = Iter::new(&[0x12, 0x48], 0, 4);
    assert_eq!(collect_rev(iter), [b'T', b'G', b'C', b'A']);

    let iter = Iter::new(&[0x12, 0x48], 1, 3);
    assert_eq!(collect_rev(iter), [b'G', b'C']);
}

#[test]
fn test_read_value() {
    let t = |data: &[u8], ty: Type, expected: TagValue| {
        let mut pos = 0;
        assert_eq!(read_value(data, &mut pos, ty), Ok(expected));
        assert_eq!(pos, data.len());
    };

    t(b"n", Type::Character, TagValue::Character(b'n'));
    t(&[0x00], Type::Int8, TagValue::Int8(0));
    t(&[0x00, 0x00], Type::Int16, TagValue::Int16(0));
    t(&[0x00, 0x00], Type::UInt16, TagValue::UInt16(0));
    t(&[0x00, 0x00, 0x00, 0x00], Type::Int32, TagValue::Int32(0));
    t(&[0x00, 0x00, 0x00, 0x00], Type::UInt32, TagValue::UInt32(0));
    for array in [
        &[b'c', 0x01, 0x00, 0x00, 0x00, 0x00][..],
        &[b'C', 0x01, 0x00, 0x00, 0x00, 0x00][..],
        &[b's', 0x01, 0x00, 0x00, 0x00, 0x00, 0x00][..],
        &[b'S', 0x01, 0x00, 0x00, 0x00, 0x00, 0x00][..],
        &[b'i', 0x01, 0x00, 0x00, 0x00, 0x00, 0x00, 0x00, 0x00][..],
        &[b'I', 0x01, 0x00, 0x00, 0x00, 0x00, 0x00, 0x00, 0x00][..],
        &[b'f', 0x01, 0x00, 0x00, 0x00, 0x00, 0x00, 0x00, 0x00][..],
    ] {
        t(array, Type::Array, TagValue::Array(array.to_vec()));
    }
    t(&[0xff], Type::Int8, TagValue::Int8(-1));
    t(&[0x00], Type::UInt8, TagValue::UInt8(0));
    t(&[0xff, 0xff], Type::Int16, TagValue::Int16(-1));
    t(&[0x00, 0x80], Type::Int16, TagValue::Int16(i16::MIN));
    t(&[0xff, 0xff], Type::UInt16, TagValue::UInt16(u16::MAX));
    t(&[0xff, 0xff, 0xff, 0xff], Type::Int32, TagValue::Int32(-1));
    t(&[0x01, 0x02, 0x03, 0x04], Type::UInt32, TagValue::UInt32(0x04030201));
    t(&[0x00, 0x00, 0x00, 0x00], Type::Float, TagValue::Float(0));
    t(&[b'n', b'd', b'l', b's', 0x00], Type::String, TagValue::String(b"ndls".to_vec()));
    t(&[b'C', b'A', b'F', b'E', 0x00], Type::Hex, TagValue::Hex(b"CAFE".to_vec()));
    t(
        &[b'C', 0x02, 0x00, 0x00, 0x00, 0x05, 0x08],
        Type::Array,
        TagValue::Array(vec![b'C', 0x02, 0x00, 0x00, 0x00, 0x05, 0x08]),
    );

    let mut pos = 0;
    assert_eq!(read_value(&[0x01], &mut pos, Type::Int16), Err(DecodeError::UnexpectedEof));
    assert_eq!(read_value(b"ndls", &mut pos, Type::String), Err(DecodeError::StringNotNulTerminated));
    assert_eq!(read_value(&[b'x', 0, 0, 0, 0], &mut pos, Type::Array), Err(DecodeError::InvalidArray));
}

#[test]
fn test_is_empty() {
    let attributes = Attributes::new(b"");
    assert!(attributes.is_empty());

    let attributes = Attributes::new(b"gene_id=ndls0;gene_name=gene0");
    assert!(!attributes.is_empty());
}

#[test]
fn attributes_test_get() {
    let attributes = Attributes::new(b"gene_id=ndls0;gene_name=gene0");
    assert!(attributes.get(b"gene_name").is_some());
    assert!(attributes.get(b"comment").is_none());
    assert_eq!(attributes.get(b"gene_name"), Some(Ok(b"gene0".to_vec())));
}

#[test]
fn attributes_test_iter() {
    let attributes = Attributes::new(b"");
    assert!(attributes.iter().is_empty());

    let attributes = Attributes::new(b"gene_id=ndls0;gene_name=gene0");
    let actual: Vec<_> = attributes.iter().into_iter().collect::<Result<_, _>>().unwrap();
    let expected = vec![
        (b"gene_id".to_vec(), b"ndls0".to_vec()),
        (b"gene_name".to_vec(), b"gene0".to_vec()),
    ];
    assert_eq!(actual, expected);
}

#[test]
fn attributes_without_separator_fail() {
    let attributes = Attributes::new(b"a=1;broken;c=3");
    assert_eq!(attributes.iter().len(), 2);
    assert!(attributes.get(b"c").unwrap().is_err());
    assert_eq!(attributes.get(b"a"), Some(Ok(b"1".to_vec())));
}

#[test]
fn test_into_iter() {
    struct T(Vec<u8>);

    impl QualityScores for T {
        fn is_empty(&self) -> bool {
            self.0.is_empty()
        }

        fn len(&self) -> usize {
            self.0.len()
        }

        fn iter(&self) -> Vec<u8> {
            self.0.clone()
        }
    }

    let quality_scores: &dyn QualityScores = &T(vec![45, 35, 43, 50]);

    assert_eq!(quality_scores.iter(), [45, 35, 43, 50]);
    assert_eq!(quality_scores.len(), 4);
    assert!(!quality_scores.is_empty());
}

#[test]
fn record_test_consume_prefix() {
    let mut src = b"@HD".to_vec();
    assert!(sam::consume_prefix(&mut src).is_ok());
    assert_eq!(src, b"HD");

    let mut src = b"".to_vec();
    assert_eq!(sam::consume_prefix(&mut src), Err(sam::ParseError::MissingPrefix));

    let mut src = b"#".to_vec();
    assert_eq!(sam::consume_prefix(&mut src), Err(sam::ParseError::MissingPrefix));
}

#[test]
fn test_consume_prefix() {
    let mut src = b"##fileformat".to_vec();
    assert!(vcf::consume_prefix(&mut src).is_ok());
    assert_eq!(src, b"fileformat");

    let mut src = b"".to_vec();
    assert_eq!(vcf::consume_prefix(&mut src), Err(vcf::ParseError::MissingPrefix));

    let mut src = b"#".to_vec();
    assert_eq!(vcf::consume_prefix(&mut src), Err(vcf::ParseError::MissingPrefix));

    let mut src = b"@".to_vec();
    assert_eq!(vcf::consume_prefix(&mut src), Err(vcf::ParseError::MissingPrefix));
}

#[test]
fn test_write_phasing() {
    let mut buf = Vec::new();

    buf.clear();
    assert!(vcf::write_phasing(&mut buf, Phasing::Phased).is_ok());
    assert_eq!(buf, b"|");

    buf.clear();
    assert!(vcf::write_phasing(&mut buf, Phasing::Unphased).is_ok());
    assert_eq!(buf, b"/");
}

#[test]
fn test_write_position() {
    let mut buf = Vec::new();

    buf.clear();
    assert!(vcf::write_position(&mut buf, None).is_ok());
    assert_eq!(buf, b".");

    buf.clear();
    assert!(vcf::write_position(&mut buf, Some(0)).is_ok());
    assert_eq!(buf, b"0");

    buf.clear();
    assert!(vcf::write_position(&mut buf, Some(1203)).is_ok());
    assert_eq!(buf, b"1203");
}

#[test]
fn test_vcf_4_0_write_genotype() {
    let t = |alleles: &[(Option<usize>, Phasing)], expected: &[u8]| {
        let mut buf = Vec::new();
        assert!(vcf::vcf_4_0_write_genotype(&mut buf, alleles).is_ok());
        assert_eq!(buf, expected);
    };

    t(&[(Some(0), Phasing::Phased)], b"0");
    t(&[(Some(0), Phasing::Unphased), (Some(1), Phasing::Unphased)], b"0/1");
    t(&[(Some(0), Phasing::Phased), (Some(1), Phasing::Phased)], b"0|1");
    t(
        &[(Some(0), Phasing::Unphased), (Some(1), Phasing::Unphased), (Some(2), Phasing::Phased)],
        b"0/1|2",
    );
    t(&[(None, Phasing::Unphased), (None, Phasing::Unphased)], b"./.");
}

#[test]
fn test_vcf_4_4_write_genotype() {
    let t = |alleles: &[(Option<usize>, Phasing)], expected: &[u8]| {
        let mut buf = Vec::new();
        assert!(vcf::vcf_4_4_write_genotype(&mut buf, alleles).is_ok());
        assert_eq!(buf, expected);
    };

    t(&[(Some(0), Phasing::Phased)], b"|0");
    t(&[(Some(0), Phasing::Unphased), (Some(1), Phasing::Unphased)], b"/0/1");
    t(&[(Some(0), Phasing::Phased), (Some(1), Phasing::Phased)], b"|0|1");
    t(
        &[(Some(0), Phasing::Unphased), (Some(1), Phasing::Unphased), (Some(2), Phasing::Phased)],
        b"/0/1|2",
    );
    t(&[(None, Phasing::Unphased), (None, Phasing::Unphased)], b"/./.");
}

#[test]
fn test_ranges() {
    let bounds = Bounds::default();
    assert_eq!(bounds.reference_sequence_name_range(), 0..3);
    assert_eq!(bounds.variant_start_range(), 3..4);
    assert_eq!(bounds.ids_range(), 4..5);
    assert_eq!(bounds.reference_bases_range(), 5..6);
    assert_eq!(bounds.alternate_bases_range(), 6..7);
    assert_eq!(bounds.quality_score_range(), 7..8);
    assert_eq!(bounds.filters_range(), 8..9);
    assert_eq!(bounds.info_range(), 9..10);
    assert_eq!(bounds.samples_range().., 10..);
}

#[test]
fn test_string_values() {
    let src: &[u8] = b"";
    let values: Box<dyn Values> = Box::new(src);
    assert_eq!(values.len(), 0);

    let src: &[u8] = b"a,b,.";
    let values: Box<dyn Values> = Box::new(src);
    assert_eq!(values.len(), 3);
}

#[test]
fn series_test_get() {
    let values = [
        vec![Some(Value::String(b"0|0".to_vec())), Some(Value::Integer(7))],
        vec![Some(Value::String(b"1/1".to_vec()))],
        vec![],
    ];

    let series = Series::new("GT", &values, 0);
    assert_eq!(series.get(0), Some(Some(&Value::String(b"0|0".to_vec()))));
    assert_eq!(series.get(1), Some(Some(&Value::String(b"1/1".to_vec()))));
    assert_eq!(series.get(2), Some(None));
    assert_eq!(series.get(3), None);

    let series = Series::new("GQ", &values, 1);
    assert_eq!(series.get(0), Some(Some(&Value::Integer(7))));
    assert_eq!(series.get(1), Some(None));
    assert_eq!(series.get(2), Some(None));
    assert_eq!(series.get(3), None);
}

#[test]
fn test_read_definition() {
    let data = b">sq0\nACGT\n";
    let mut reader = noodles::fasta::Reader::new(&data[..]);

    let mut description_buf = Vec::new();
    reader.read_definition(&mut description_buf);

    assert_eq!(description_buf, b">sq0");
}

#[test]
fn test_read_line() {
    let mut buf = Vec::new();

    let data = b"noodles\n";
    buf.clear();
    noodles::fasta::read_line(&data[..], &mut 0, &mut buf);
    assert_eq!(buf, b"noodles");

    let data = b"noodles\r\n";
    buf.clear();
    noodles::fasta::read_line(&data[..], &mut 0, &mut buf);
    assert_eq!(buf, b"noodles");

    let data = b"noodles";
    buf.clear();
    noodles::fasta::read_line(&data[..], &mut 0, &mut buf);
    assert_eq!(buf, b"noodles");
}

#[test]
fn fasta_sequences_join_lines() {
    let data = b">sq0\nACGT\n>sq1\nNNNN\nNNNN\nNN\n";
    let mut reader = noodles::fasta::Reader::new(&data[..]);

    let mut definition = Vec::new();
    assert_eq!(reader.read_definition(&mut definition), 5);
    let mut buf = Vec::new();
    assert_eq!(reader.read_sequence(&mut buf), 4);
    assert_eq!(buf, b"ACGT");

    definition.clear();
    reader.read_definition(&mut definition);
    assert_eq!(definition, b">sq1");
    buf.clear();
    assert_eq!(reader.read_sequence(&mut buf), 10);
    assert_eq!(buf, b"NNNNNNNNNN");
    assert_eq!(reader.read_definition(&mut definition), 0);
}
