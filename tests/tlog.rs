use mavlink_log::error::LogError;
use mavlink_log::record::EntryType;
use mavlink_log::tlog::{unpack_tlog_record, TlogReader};

const FRAME_A: [u8; 21] = [
    253, 9, 0, 0, 0, 255, 0, 0, 0, 0, 0, 0, 0, 0, 12, 3, 0, 3, 3, 98, 190,
];
const FRAME_V1: [u8; 17] = [254, 9, 0, 1, 1, 0, 0, 0, 0, 0, 0, 0, 0, 0, 0, 7, 7];

fn tlog_record(ts: u64, frame: &[u8]) -> Vec<u8> {
    let mut v = ts.to_be_bytes().to_vec();
    v.extend_from_slice(frame);
    v
}

#[test]
fn tlog_timestamp_is_big_endian() {
    let bytes = tlog_record(0x0102030405060708, &FRAME_A);
    let (rec, next) = unpack_tlog_record(&bytes, 0).unwrap();
    assert_eq!(rec.timestamp, Some(0x0102030405060708));
    assert_eq!(rec.entry_type, EntryType::Mavlink);
    assert_eq!(rec.payload, FRAME_A.to_vec());
    assert_eq!(next, 29);
}

#[test]
fn tlog_reader_reads_frames_and_skips_garbage() {
    let mut bytes = tlog_record(1, &FRAME_A);
    bytes.extend_from_slice(&[0x00]);
    bytes.extend(tlog_record(2, &FRAME_V1));
    let mut reader = TlogReader::new(bytes);
    let a = reader.parse_next_entry().unwrap().unwrap();
    assert_eq!(a.timestamp, Some(1));
    assert_eq!(a.payload, FRAME_A.to_vec());
    let b = reader.parse_next_entry().unwrap().unwrap();
    assert_eq!(b.timestamp, Some(2));
    assert_eq!(b.payload, FRAME_V1.to_vec());
    assert_eq!(reader.skipped(), 1);
    assert!(reader.parse_next_entry().unwrap().is_none());
}

#[test]
fn tlog_truncated_frame_is_reported() {
    let bytes = tlog_record(1, &FRAME_A[..20]);
    let mut reader = TlogReader::new(bytes);
    assert_eq!(reader.parse_next_entry().err(), Some(LogError::Truncated));
    assert_eq!(unpack_tlog_record(&[0, 1, 2], 0).err(), Some(LogError::Truncated));
}
