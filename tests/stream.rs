use imagetools::{
    read_all, IHDRData, InvalidPNGFormat, PNGChunk, PNGFile, IEND_TAG, IHDR_TAG, PNG_SIGNATURE,
    TIME_TAG,
};

const IDAT: [u8; 4] = *b"IDAT";
const TEXT: [u8; 4] = *b"tEXt";

fn chunk_bytes(tag: [u8; 4], data: &[u8], crc: [u8; 4]) -> Vec<u8> {
    let mut out = (data.len() as u32).to_be_bytes().to_vec();
    out.extend_from_slice(&tag);
    out.extend_from_slice(data);
    out.extend_from_slice(&crc);
    out
}

fn header_payload() -> Vec<u8> {
    vec![0, 0, 0, 10, 0, 0, 0, 10, 8, 0, 0, 0, 0]
}

fn sample_stream() -> Vec<u8> {
    let mut s = PNG_SIGNATURE.to_vec();
    s.extend(chunk_bytes(IHDR_TAG, &header_payload(), [1, 2, 3, 4]));
    s.extend(chunk_bytes(TIME_TAG, &[0x07, 0xE5, 0x0C, 0x1F, 0x17, 0x3B, 0x3B], [5, 6, 7, 8]));
    s.extend(chunk_bytes(IDAT, &[9, 8, 7], [0xAA, 0xBB, 0xCC, 0xDD]));
    s.extend(chunk_bytes(TEXT, &[], [0, 0, 0, 1]));
    s.extend(chunk_bytes(IEND_TAG, &[], [0xAE, 0x42, 0x60, 0x82]));
    s
}

fn same_chunk(a: &PNGChunk, b: &PNGChunk) -> bool {
    a.length() == b.length()
        && a.chunk_type() == b.chunk_type()
        && a.data() == b.data()
        && a.crc() == b.crc()
}

#[test]
fn load_splits_chunks() {
    let f = PNGFile::from_bytes(&sample_stream()).unwrap();
    let h = f.get_ihdr_chunk();
    assert_eq!(h.chunk_type(), IHDR_TAG);
    assert_eq!(h.length(), 13);
    assert_eq!(h.data(), &header_payload());
    assert_eq!(h.crc(), [1, 2, 3, 4]);
    let t = f.get_time_chunk().unwrap();
    assert_eq!(t.chunk_type(), TIME_TAG);
    assert_eq!(t.crc(), [5, 6, 7, 8]);
    let cs = f.get_chunks();
    assert_eq!(cs.len(), 3);
    assert_eq!(cs[0].chunk_type(), IDAT);
    assert_eq!(cs[0].data(), &vec![9, 8, 7]);
    assert_eq!(cs[0].length(), 3);
    assert_eq!(cs[1].chunk_type(), TEXT);
    assert_eq!(cs[1].length(), 0);
    assert_eq!(cs[2].chunk_type(), IEND_TAG);
    assert_eq!(cs[2].crc(), [0xAE, 0x42, 0x60, 0x82]);
}

#[test]
fn loaded_header_and_timestamp_decode() {
    let f = PNGFile::from_bytes(&sample_stream()).unwrap();
    let h = IHDRData::from_chunk(f.get_ihdr_chunk()).unwrap();
    assert_eq!((h.width, h.height), (10, 10));
    let t = f.get_last_modified().unwrap().unwrap();
    assert_eq!((t.year, t.month, t.day), (2021, 12, 31));
    assert_eq!((t.hour, t.minute, t.second), (23, 59, 59));
}

#[test]
fn save_then_load_gives_same_document() {
    let f = PNGFile::from_bytes(&sample_stream()).unwrap();
    let bytes = f.to_bytes();
    let g = PNGFile::from_bytes(&bytes).unwrap();
    assert!(same_chunk(f.get_ihdr_chunk(), g.get_ihdr_chunk()));
    assert!(same_chunk(f.get_time_chunk().unwrap(), g.get_time_chunk().unwrap()));
    assert_eq!(f.get_chunks().len(), g.get_chunks().len());
    for (a, b) in f.get_chunks().iter().zip(g.get_chunks().iter()) {
        assert!(same_chunk(a, b));
    }
}

#[test]
fn save_writes_signature_header_timestamp_then_others() {
    let f = PNGFile::from_bytes(&sample_stream()).unwrap();
    assert_eq!(f.to_bytes(), sample_stream());
}

#[test]
fn timestamp_is_written_after_header() {
    let mut s = PNG_SIGNATURE.to_vec();
    s.extend(chunk_bytes(IDAT, &[1], [0; 4]));
    s.extend(chunk_bytes(TIME_TAG, &[0, 1, 2, 3, 4, 5, 6], [0; 4]));
    s.extend(chunk_bytes(IHDR_TAG, &header_payload(), [0; 4]));
    s.extend(chunk_bytes(IEND_TAG, &[], [0; 4]));
    let f = PNGFile::from_bytes(&s).unwrap();
    let mut expected = PNG_SIGNATURE.to_vec();
    expected.extend(chunk_bytes(IHDR_TAG, &header_payload(), [0; 4]));
    expected.extend(chunk_bytes(TIME_TAG, &[0, 1, 2, 3, 4, 5, 6], [0; 4]));
    expected.extend(chunk_bytes(IDAT, &[1], [0; 4]));
    expected.extend(chunk_bytes(IEND_TAG, &[], [0; 4]));
    assert_eq!(f.to_bytes(), expected);
}

#[test]
fn save_without_timestamp() {
    let mut s = PNG_SIGNATURE.to_vec();
    s.extend(chunk_bytes(IHDR_TAG, &header_payload(), [4, 3, 2, 1]));
    s.extend(chunk_bytes(IEND_TAG, &[], [0; 4]));
    let f = PNGFile::from_bytes(&s).unwrap();
    assert!(f.get_time_chunk().is_none());
    assert_eq!(f.get_last_modified(), Ok(None));
    assert_eq!(f.to_bytes(), s);
}

#[test]
fn wrong_signature_is_rejected() {
    let mut s = sample_stream();
    s[0] = 0x88;
    assert!(matches!(PNGFile::from_bytes(&s), Err(InvalidPNGFormat::InvalidSignature)));
    let mut s = sample_stream();
    s[7] = 0;
    assert!(matches!(PNGFile::from_bytes(&s), Err(InvalidPNGFormat::InvalidSignature)));
}

#[test]
fn short_stream_is_invalid_signature() {
    assert!(matches!(PNGFile::from_bytes(&[]), Err(InvalidPNGFormat::InvalidSignature)));
    assert!(matches!(
        PNGFile::from_bytes(&PNG_SIGNATURE[..7]),
        Err(InvalidPNGFormat::InvalidSignature)
    ));
}

#[test]
fn stream_without_header_is_missing_header() {
    let mut s = PNG_SIGNATURE.to_vec();
    s.extend(chunk_bytes(IEND_TAG, &[], [0; 4]));
    assert!(matches!(PNGFile::from_bytes(&s), Err(InvalidPNGFormat::MissingHeaderChunk)));
    let mut s = PNG_SIGNATURE.to_vec();
    s.extend(chunk_bytes(IDAT, &[1, 2], [0; 4]));
    s.extend(chunk_bytes(IEND_TAG, &[], [0; 4]));
    s.extend(chunk_bytes(IHDR_TAG, &header_payload(), [0; 4]));
    assert!(matches!(PNGFile::from_bytes(&s), Err(InvalidPNGFormat::MissingHeaderChunk)));
}

#[test]
fn signature_alone_is_missing_header() {
    assert!(matches!(
        PNGFile::from_bytes(&PNG_SIGNATURE),
        Err(InvalidPNGFormat::MissingHeaderChunk)
    ));
}

#[test]
fn partial_chunk_after_signature_is_truncated() {
    let mut s = PNG_SIGNATURE.to_vec();
    s.extend_from_slice(&[0, 0, 0]);
    assert!(matches!(PNGFile::from_bytes(&s), Err(InvalidPNGFormat::TruncatedStream)));
}

#[test]
fn declared_length_past_end_is_truncated() {
    let mut s = PNG_SIGNATURE.to_vec();
    s.extend(chunk_bytes(IHDR_TAG, &header_payload(), [0; 4]));
    s.extend_from_slice(&[0xFF, 0xFF, 0xFF, 0xFF]);
    s.extend_from_slice(&IDAT);
    s.extend_from_slice(&[1, 2, 3]);
    assert!(matches!(PNGFile::from_bytes(&s), Err(InvalidPNGFormat::TruncatedStream)));
}

#[test]
fn missing_checksum_is_truncated() {
    let mut s = PNG_SIGNATURE.to_vec();
    s.extend(chunk_bytes(IHDR_TAG, &header_payload(), [0; 4]));
    let mut end = chunk_bytes(IEND_TAG, &[], [0; 4]);
    end.pop();
    s.extend(end);
    assert!(matches!(PNGFile::from_bytes(&s), Err(InvalidPNGFormat::TruncatedStream)));
}

#[test]
fn stream_without_end_is_truncated() {
    let mut s = PNG_SIGNATURE.to_vec();
    s.extend(chunk_bytes(IHDR_TAG, &header_payload(), [0; 4]));
    s.extend(chunk_bytes(IDAT, &[1, 2], [0; 4]));
    assert!(matches!(PNGFile::from_bytes(&s), Err(InvalidPNGFormat::TruncatedStream)));
}

#[test]
fn bytes_after_end_are_ignored() {
    let mut s = sample_stream();
    s.extend_from_slice(&[1, 2, 3]);
    let f = PNGFile::from_bytes(&s).unwrap();
    assert_eq!(f.to_bytes(), sample_stream());
}

#[test]
fn later_special_chunks_replace_earlier() {
    let mut s = PNG_SIGNATURE.to_vec();
    s.extend(chunk_bytes(IHDR_TAG, &header_payload(), [1, 1, 1, 1]));
    s.extend(chunk_bytes(TIME_TAG, &[0, 1, 2, 3, 4, 5, 6], [1, 1, 1, 1]));
    s.extend(chunk_bytes(IHDR_TAG, &header_payload(), [2, 2, 2, 2]));
    s.extend(chunk_bytes(TIME_TAG, &[0, 2, 2, 3, 4, 5, 6], [2, 2, 2, 2]));
    s.extend(chunk_bytes(IEND_TAG, &[], [0; 4]));
    let f = PNGFile::from_bytes(&s).unwrap();
    assert_eq!(f.get_ihdr_chunk().crc(), [2, 2, 2, 2]);
    assert_eq!(f.get_time_chunk().unwrap().crc(), [2, 2, 2, 2]);
    assert_eq!(f.get_last_modified().unwrap().unwrap().year, 2);
    assert_eq!(f.get_chunks().len(), 1);
}

#[test]
fn short_loaded_timestamp_is_truncated_payload() {
    let mut s = PNG_SIGNATURE.to_vec();
    s.extend(chunk_bytes(IHDR_TAG, &header_payload(), [0; 4]));
    s.extend(chunk_bytes(TIME_TAG, &[7, 229], [0; 4]));
    s.extend(chunk_bytes(IEND_TAG, &[], [0; 4]));
    let f = PNGFile::from_bytes(&s).unwrap();
    assert_eq!(f.get_last_modified(), Err(InvalidPNGFormat::TruncatedPayload));
}

#[test]
fn read_all_keeps_stream_order() {
    let s = sample_stream();
    let (h, t, cs) = read_all(&s, 8).unwrap();
    assert_eq!(h.unwrap().chunk_type(), IHDR_TAG);
    assert_eq!(t.unwrap().chunk_type(), TIME_TAG);
    let tags: Vec<[u8; 4]> = cs.iter().map(|c| c.chunk_type()).collect();
    assert_eq!(tags, vec![IDAT, TEXT, IEND_TAG]);
    assert!(matches!(read_all(&s, 9), Err(InvalidPNGFormat::TruncatedStream)));
}

#[test]
fn chunk_reads_and_writes_big_endian_length() {
    let bytes = chunk_bytes(IDAT, &vec![7u8; 300], [9, 9, 9, 9]);
    assert_eq!(&bytes[..4], &[0, 0, 1, 44]);
    let (c, next) = PNGChunk::read_from(&bytes, 0).unwrap();
    assert_eq!(next, bytes.len());
    assert_eq!(c.length(), 300);
    assert_eq!(c.data().len(), 300);
    let mut out = vec![0xEE];
    c.write_to(&mut out);
    assert_eq!(out[0], 0xEE);
    assert_eq!(&out[1..], &bytes[..]);
}

#[test]
fn chunk_read_stops_at_short_input() {
    let bytes = chunk_bytes(IDAT, &[1, 2, 3], [0; 4]);
    assert!(matches!(
        PNGChunk::read_from(&bytes[..bytes.len() - 1], 0),
        Err(InvalidPNGFormat::TruncatedStream)
    ));
    assert!(matches!(PNGChunk::read_from(&bytes[..7], 0), Err(InvalidPNGFormat::TruncatedStream)));
    assert!(matches!(PNGChunk::read_from(&bytes, 3), Err(InvalidPNGFormat::TruncatedStream)));
}

#[test]
fn new_chunk_length_is_payload_length() {
    let c = PNGChunk::new(IDAT, vec![1, 2, 3, 4, 5], [0; 4]);
    assert_eq!(c.length(), 5);
    assert!(c.has_type(&IDAT));
    assert!(!c.has_type(&IEND_TAG));
}
