//! Decoding of CRAM alignment records: the integer and byte codecs, the
//! stream cursors they read from, and the record reconstruction engine.
//! Small parsers and writers of neighbouring formats (BAM, BCF, VCF, SAM,
//! GFF, FASTA) live beside them.
pub mod bit_reader;
pub mod codec;
pub mod error;
pub mod external;
pub mod field;
pub mod header;
pub mod huffman;
pub mod num;
pub mod record;
pub mod records;
pub mod writer;

pub mod bam;
pub mod bcf;
pub mod fasta;
pub mod gff;
pub mod sam;
pub mod vcf;
