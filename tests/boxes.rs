use vsd::boxes::{decode_language, ParsedMDHDBox, ParsedTFDTBox, ParsedTFHDBox, ParsedTRUNBox, ParsedTRUNSample};
use vsd::reader::{ParseError, Reader};

fn be32(v: u32) -> Vec<u8> {
    v.to_be_bytes().to_vec()
}

#[test]
fn reader_reads_big_endian() {
    let mut r = Reader::new(vec![0x12, 0x34, 0x56, 0x78, 0x9a, 0xbc, 0xde, 0xf0, 0x01, 0x02, 0xff, 0xff, 0xff, 0xfe]);
    assert_eq!(r.read_u16(), Ok(0x1234));
    assert_eq!(r.read_u32(), Ok(0x56789abc));
    assert_eq!(r.skip(2), Ok(()));
    assert_eq!(r.position(), 8);
    assert_eq!(r.read_u16(), Ok(0x0102));
    assert_eq!(r.read_i32(), Ok(-2));
    assert_eq!(r.remaining_len(), 0);
    assert_eq!(r.read_u16(), Err(ParseError::InsufficientData));
    assert_eq!(r.skip(1), Err(ParseError::InsufficientData));
}

#[test]
fn reader_reads_u64() {
    let mut r = Reader::new(vec![0x01, 0x02, 0x03, 0x04, 0x05, 0x06, 0x07, 0x08]);
    assert_eq!(r.read_u64(), Ok(0x0102030405060708));
    let mut short = Reader::new(vec![0; 7]);
    assert_eq!(short.read_u64(), Err(ParseError::InsufficientData));
}

fn tfhd_all_flags() -> Vec<u8> {
    let mut b = be32(7);
    b.extend_from_slice(&0x0000_0001_0000_0002u64.to_be_bytes());
    b.extend(be32(99));
    b.extend(be32(1024));
    b.extend(be32(512));
    b
}

#[test]
fn tfhd_all_fields() {
    let mut r = Reader::new(tfhd_all_flags());
    let b = ParsedTFHDBox::parse(&mut r, 0x1b).unwrap();
    assert_eq!(b.track_id, 7);
    assert_eq!(b.base_data_offset, Some(0x0000_0001_0000_0002));
    assert_eq!(b.default_sample_duration, Some(1024));
    assert_eq!(b.default_sample_size, Some(512));
    assert_eq!(r.position(), 24);
}

#[test]
fn tfhd_only_track_id() {
    let mut r = Reader::new(vec![0, 0, 0, 3, 0xaa]);
    let b = ParsedTFHDBox::parse(&mut r, 0).unwrap();
    assert_eq!(b.track_id, 3);
    assert_eq!(b.base_data_offset, None);
    assert_eq!(b.default_sample_duration, None);
    assert_eq!(b.default_sample_size, None);
    assert_eq!(r.position(), 4);
}

#[test]
fn tfhd_size_without_duration() {
    let mut bytes = be32(1);
    bytes.extend(be32(4096));
    let mut r = Reader::new(bytes);
    let b = ParsedTFHDBox::parse(&mut r, 0x10).unwrap();
    assert_eq!(b.default_sample_duration, None);
    assert_eq!(b.default_sample_size, Some(4096));
}

#[test]
fn tfhd_truncated() {
    let mut bytes = tfhd_all_flags();
    bytes.pop();
    let mut r = Reader::new(bytes);
    assert!(matches!(ParsedTFHDBox::parse(&mut r, 0x1b), Err(ParseError::InsufficientData)));
}

#[test]
fn tfdt_version_one() {
    let mut r = Reader::new(0x0123_4567_89ab_cdefu64.to_be_bytes().to_vec());
    let b = ParsedTFDTBox::parse(&mut r, 1).unwrap();
    assert_eq!(b.base_media_decode_time, 0x0123_4567_89ab_cdef);
}

#[test]
fn tfdt_version_zero_widens() {
    let mut r = Reader::new(be32(0xffff_ffff));
    let b = ParsedTFDTBox::parse(&mut r, 0).unwrap();
    assert_eq!(b.base_media_decode_time, 0xffff_ffff);
}

#[test]
fn tfdt_truncated() {
    let mut r = Reader::new(vec![0; 7]);
    assert!(ParsedTFDTBox::parse(&mut r, 1).is_err());
    let mut r = Reader::new(vec![0; 3]);
    assert!(ParsedTFDTBox::parse(&mut r, 0).is_err());
}

fn mdhd_bytes(version: u32, timescale: u32, language: u16) -> Vec<u8> {
    let times = if version == 1 { 16 } else { 8 };
    let mut b = vec![0xee; times];
    b.extend(be32(timescale));
    b.extend(be32(123456));
    b.extend_from_slice(&language.to_be_bytes());
    b
}

#[test]
fn mdhd_version_zero() {
    let mut r = Reader::new(mdhd_bytes(0, 90000, 0x15c7));
    let b = ParsedMDHDBox::parse(&mut r, 0).unwrap();
    assert_eq!(b.timescale, 90000);
    assert_eq!(b.language, "eng");
    assert_eq!(r.position(), 18);
}

#[test]
fn mdhd_version_one() {
    let mut r = Reader::new(mdhd_bytes(1, 48000, 0x15c7));
    let b = ParsedMDHDBox::parse(&mut r, 1).unwrap();
    assert_eq!(b.timescale, 48000);
    assert_eq!(b.language, "eng");
    assert_eq!(r.position(), 26);
}

#[test]
fn mdhd_truncated() {
    let mut bytes = mdhd_bytes(0, 90000, 0x15c7);
    bytes.pop();
    let mut r = Reader::new(bytes);
    assert!(matches!(ParsedMDHDBox::parse(&mut r, 0), Err(ParseError::InsufficientData)));
}

#[test]
fn language_unpacks_five_bit_fields() {
    assert_eq!(decode_language(0x15c7), "eng");
    assert_eq!(decode_language(0x5595), "ulu");
    assert_eq!(decode_language(0x0000), "```");
    assert_eq!(decode_language(0xffff), "\u{7f}\u{7f}\u{7f}");
}

#[test]
fn trun_empty_run() {
    let mut bytes = be32(0);
    bytes.extend(be32(200));
    bytes.extend(be32(0x0200_0000));
    bytes.extend(be32(0xdead));
    let mut r = Reader::new(bytes);
    let b = ParsedTRUNBox::parse(&mut r, 0xf05, 0).unwrap();
    assert_eq!(b.sample_count, 0);
    assert!(b.sample_data.is_empty());
    assert_eq!(b.data_offset, Some(200));
    assert_eq!(r.position(), 12);
}

#[test]
fn trun_three_samples_duration_and_size() {
    let mut bytes = be32(3);
    for (d, s) in [(1000u32, 10u32), (1001, 20), (1002, 30)] {
        bytes.extend(be32(d));
        bytes.extend(be32(s));
    }
    let mut r = Reader::new(bytes);
    let b = ParsedTRUNBox::parse(&mut r, 0x300, 0).unwrap();
    assert_eq!(b.sample_count, 3);
    assert_eq!(b.data_offset, None);
    let expected: Vec<ParsedTRUNSample> = [(1000u32, 10u32), (1001, 20), (1002, 30)]
        .iter()
        .map(|&(d, s)| ParsedTRUNSample {
            sample_duration: Some(d),
            sample_size: Some(s),
            sample_composition_time_offset: None,
        })
        .collect();
    assert_eq!(b.sample_data, expected);
    assert_eq!(r.position(), 28);
}

#[test]
fn trun_truncated_last_sample() {
    let mut bytes = be32(3);
    bytes.extend(vec![0; 23]);
    let mut r = Reader::new(bytes);
    assert!(matches!(ParsedTRUNBox::parse(&mut r, 0x300, 0), Err(ParseError::InsufficientData)));
}

#[test]
fn trun_truncated_count() {
    let mut r = Reader::new(vec![0, 0, 0]);
    assert!(ParsedTRUNBox::parse(&mut r, 0, 0).is_err());
}

#[test]
fn trun_composition_offset_version_zero_is_signed() {
    let mut bytes = be32(1);
    bytes.extend(be32(0xffff_ffff));
    let mut r = Reader::new(bytes.clone());
    let b = ParsedTRUNBox::parse(&mut r, 0x800, 0).unwrap();
    assert_eq!(b.sample_data[0].sample_composition_time_offset, Some(-1));
    let mut r = Reader::new(bytes);
    let b = ParsedTRUNBox::parse(&mut r, 0x800, 1).unwrap();
    assert_eq!(b.sample_data[0].sample_composition_time_offset, Some(-1));
}

#[test]
fn trun_all_sample_fields() {
    let mut bytes = be32(2);
    bytes.extend(be32(8));
    bytes.extend(be32(0xffff));
    for (d, s, o) in [(10u32, 100u32, 5i32), (11, 101, -3)] {
        bytes.extend(be32(d));
        bytes.extend(be32(s));
        bytes.extend(be32(0x1234));
        bytes.extend_from_slice(&o.to_be_bytes());
    }
    let mut r = Reader::new(bytes);
    let b = ParsedTRUNBox::parse(&mut r, 0xf05, 1).unwrap();
    assert_eq!(b.data_offset, Some(8));
    assert_eq!(b.sample_data.len(), 2);
    assert_eq!(b.sample_data[1].sample_duration, Some(11));
    assert_eq!(b.sample_data[1].sample_size, Some(101));
    assert_eq!(b.sample_data[1].sample_composition_time_offset, Some(-3));
    assert_eq!(b.sample_data[0].sample_composition_time_offset, Some(5));
    assert_eq!(r.position(), 44);
}
