use mavlink_log::error::LogError;
use mavlink_log::header::FormatFlags;
use mavlink_log::record::{
    frame_length, pack_record, pack_records, unpack_next_record, unpack_records, EntryType,
    LogRecord, MAX_PAYLOAD,
};

const FRAME: [u8; 21] = [
    253, 9, 0, 0, 0, 255, 0, 0, 0, 0, 0, 0, 0, 0, 12, 3, 0, 3, 3, 98, 190,
];

fn flags(mavlink_only: bool, no_timestamp: bool) -> FormatFlags {
    FormatFlags {
        mavlink_only,
        no_timestamp,
    }
}

#[test]
fn record_sizes_follow_the_flags() {
    let r = pack_record(&flags(false, false), EntryType::Mavlink, 9, &FRAME).unwrap();
    assert_eq!(r.len(), 32);
    assert_eq!(&r[0..11], &[1, 9, 0, 0, 0, 0, 0, 0, 0, 21, 0]);
    let r = pack_record(&flags(false, true), EntryType::Mavlink, 9, &FRAME).unwrap();
    assert_eq!(r.len(), 24);
    assert_eq!(&r[0..3], &[1, 21, 0]);
    let r = pack_record(&flags(true, false), EntryType::Mavlink, 9, &FRAME).unwrap();
    assert_eq!(r.len(), 29);
    assert_eq!(&r[8..], &FRAME);
    let r = pack_record(&flags(true, true), EntryType::Mavlink, 9, &FRAME).unwrap();
    assert_eq!(r, FRAME.to_vec());
}

#[test]
fn payload_size_limit() {
    let largest = vec![0xabu8; MAX_PAYLOAD];
    let r = pack_record(&flags(false, false), EntryType::Raw, 0, &largest).unwrap();
    assert_eq!(r.len(), 11 + 65535);
    assert_eq!(&r[9..11], &[0xff, 0xff]);
    let too_large = vec![0u8; 65536];
    assert_eq!(
        pack_record(&flags(false, false), EntryType::Raw, 0, &too_large).err(),
        Some(LogError::PayloadTooLarge)
    );
}

#[test]
fn raw_under_mavlink_only_is_refused() {
    assert_eq!(
        pack_record(&flags(true, false), EntryType::Raw, 0, &[1]).err(),
        Some(LogError::InvalidEntryForFlags)
    );
    assert_eq!(
        pack_record(&flags(true, false), EntryType::Text, 0, &[1]).err(),
        Some(LogError::InvalidEntryForFlags)
    );
}

#[test]
fn frame_length_probe() {
    assert_eq!(frame_length(&FRAME), Ok(21));
    assert_eq!(frame_length(&[0xfe, 9]), Ok(17));
    assert_eq!(frame_length(&[0xfd, 9, 1]), Ok(34));
    assert_eq!(frame_length(&[0xfd, 9]), Err(LogError::Truncated));
    assert_eq!(frame_length(&[]), Err(LogError::Truncated));
    assert_eq!(frame_length(&[0xff, 1, 2]), Err(LogError::BadMagic));
}

#[test]
fn single_record_reads_back() {
    let f = flags(false, false);
    let mut bytes = pack_record(&f, EntryType::Text, 77, b"abc").unwrap();
    bytes.extend_from_slice(&[5, 5]);
    let (rec, next) = unpack_next_record(&f, &bytes, 0).unwrap();
    assert_eq!(rec.entry_type, EntryType::Text);
    assert_eq!(rec.timestamp, Some(77));
    assert_eq!(rec.payload, b"abc".to_vec());
    assert_eq!(next, 14);
    assert_eq!(unpack_next_record(&f, &bytes, next).err(), Some(LogError::Truncated));
    assert_eq!(unpack_next_record(&f, &[9; 11], 0).err(), Some(LogError::UnknownEntryType));
}

#[test]
fn records_round_trip_under_each_layout() {
    for (mavlink_only, no_timestamp) in [(false, false), (false, true), (true, false), (true, true)] {
        let f = flags(mavlink_only, no_timestamp);
        let ts = |t: u64| if no_timestamp { None } else { Some(t) };
        let mut records = vec![
            LogRecord { entry_type: EntryType::Mavlink, timestamp: ts(1), payload: FRAME.to_vec() },
            LogRecord { entry_type: EntryType::Mavlink, timestamp: ts(2), payload: FRAME.to_vec() },
        ];
        if !mavlink_only {
            records.push(LogRecord { entry_type: EntryType::Text, timestamp: ts(3), payload: b"x".to_vec() });
            records.push(LogRecord { entry_type: EntryType::Raw, timestamp: ts(4), payload: vec![] });
        }
        let body = pack_records(&f, &records).unwrap();
        let back = unpack_records(&f, &body).unwrap();
        assert_eq!(back.len(), records.len());
        for (a, b) in back.iter().zip(records.iter()) {
            assert_eq!(a.entry_type, b.entry_type);
            assert_eq!(a.timestamp, b.timestamp);
            assert_eq!(a.payload, b.payload);
        }
    }
}

#[test]
fn pack_records_reports_the_refused_entry() {
    let records = vec![LogRecord { entry_type: EntryType::Raw, timestamp: Some(1), payload: vec![1] }];
    assert_eq!(pack_records(&flags(true, false), &records).err(), Some(LogError::InvalidEntryForFlags));
}

#[test]
fn malformed_frame_under_mavlink_only_is_refused() {
    assert_eq!(
        pack_record(&flags(true, false), EntryType::Mavlink, 0, &FRAME[..20]).err(),
        Some(LogError::MalformedFrame)
    );
    assert_eq!(
        pack_record(&flags(true, true), EntryType::Mavlink, 0, &[1, 2, 3]).err(),
        Some(LogError::MalformedFrame)
    );
    assert!(pack_record(&flags(false, false), EntryType::Mavlink, 0, &[1, 2, 3]).is_ok());
}
