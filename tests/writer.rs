use mavlink::common::{MavMessage, HEARTBEAT_DATA};
use mavlink::{MAVLinkV2MessageRaw, MavHeader};
use mavlink_log::error::LogError;
use mavlink_log::header::{FileHeader, FormatFlags};
use mavlink_log::writer::{record_timestamp, rotation_threshold, MavLogWriter};

const HEARTBEAT_FRAME: [u8; 21] = [
    253, 9, 0, 0, 0, 255, 0, 0, 0, 0, 0, 0, 0, 0, 12, 3, 0, 3, 3, 98, 190,
];

fn heartbeat_frame() -> Vec<u8> {
    let msg = MavMessage::HEARTBEAT(HEARTBEAT_DATA {
        custom_mode: 0,
        mavtype: mavlink::common::MavType::MAV_TYPE_SUBMARINE,
        autopilot: mavlink::common::MavAutopilot::MAV_AUTOPILOT_ARDUPILOTMEGA,
        base_mode: mavlink::common::MavModeFlag::empty(),
        system_status: mavlink::common::MavState::MAV_STATE_STANDBY,
        mavlink_version: 0x3,
    });
    let mut raw = MAVLinkV2MessageRaw::new();
    raw.serialize_message(MavHeader::default(), &msg);
    raw.raw_bytes().to_vec()
}

/// Writes the same mix of entries as a logger session would, with a clock that advances by
/// one microsecond per record, and returns the file's bytes.
fn populate_log_file(writer: &MavLogWriter) -> Vec<u8> {
    let frame = heartbeat_frame();
    let mut content: Vec<u8> = writer.prefix().to_vec();
    let mut clock: u64 = 0;
    let mut tick = || {
        clock += 1;
        Some(clock)
    };
    for _ in 0..10 {
        content.extend(writer.write_mavlink(tick(), &frame).unwrap());
    }
    if writer.header().format_flags.mavlink_only {
        return content;
    }
    for _ in 0..10 {
        content.extend(writer.write_text(tick(), "Test log entry").unwrap());
    }
    for _ in 0..10 {
        content.extend(writer.write_raw(tick(), &[1, 2, 3, 4, 5]).unwrap());
    }
    for _ in 0..2 {
        content.extend(writer.write_mavlink(tick(), &frame).unwrap());
        content.extend(writer.write_text(tick(), "Test log entry").unwrap());
        content.extend(writer.write_raw(tick(), &[1, 2, 3, 4, 5]).unwrap());
    }
    content
}

#[test]
fn test_write_mix_no_optimization() {
    let writer = MavLogWriter::new(None, None).expect("Failed to create logger");
    let content = populate_log_file(&writer);
    assert_eq!(content.len(), 984);

    assert_eq!(&content[0..16], &writer.header().uuid);
    assert_eq!(content[16..24], writer.header().timestamp_us.to_le_bytes());
    assert_eq!(
        String::from_utf8(content[24..56].to_vec()).unwrap(),
        "mavlink_logger\0\0\0\0\0\0\0\0\0\0\0\0\0\0\0\0\0\0"
    );
    assert_eq!(content[56..60], FileHeader::FILE_FORMAT_VERSION.to_le_bytes());
    assert_eq!(content[60..62], [0, 0]);

    let mut pointer: usize = FileHeader::MIN_SIZE;

    const HEARTBEAT_DATA_SIZE: usize = 32;
    for i in 0..10 {
        let offset = pointer + i * HEARTBEAT_DATA_SIZE;
        assert_eq!(content[offset], 1);
        assert_ne!(content[offset + 1..offset + 9], [0, 0, 0, 0, 0, 0, 0, 0]);
        assert_eq!(content[offset + 9..offset + 11], [21, 0]);
        assert_eq!(content[offset + 11..offset + HEARTBEAT_DATA_SIZE], HEARTBEAT_FRAME);
    }

    const TEXT_DATA_SIZE: usize = 25;
    pointer += 10 * HEARTBEAT_DATA_SIZE;
    for i in 0..10 {
        let offset = pointer + i * TEXT_DATA_SIZE;
        assert_eq!(content[offset], 2);
        assert_ne!(content[offset + 1..offset + 9], [0, 0, 0, 0, 0, 0, 0, 0]);
        assert_eq!(content[offset + 9..offset + 11], [14, 0]);
        assert_eq!(
            content[offset + 11..offset + TEXT_DATA_SIZE],
            [84, 101, 115, 116, 32, 108, 111, 103, 32, 101, 110, 116, 114, 121]
        );
    }

    const RAW_DATA_SIZE: usize = 16;
    pointer += 10 * TEXT_DATA_SIZE;
    for i in 0..10 {
        let offset = pointer + i * RAW_DATA_SIZE;
        assert_eq!(content[offset], 0);
        assert_ne!(content[offset + 1..offset + 9], [0, 0, 0, 0, 0, 0, 0, 0]);
        assert_eq!(content[offset + 9..offset + 11], [5, 0]);
        assert_eq!(content[offset + 11..offset + RAW_DATA_SIZE], [1, 2, 3, 4, 5]);
    }

    const MIXED_DATA_SIZE: usize = 73;
    pointer += 10 * RAW_DATA_SIZE;
    for i in 0..2 {
        let offset = pointer + i * MIXED_DATA_SIZE;
        assert_eq!(content[offset], 1);
        assert_ne!(content[offset + 1..offset + 9], [0, 0, 0, 0, 0, 0, 0, 0]);
        assert_eq!(content[offset + 9..offset + 11], [21, 0]);
        assert_eq!(content[offset + 11..offset + 32], HEARTBEAT_FRAME);
        let offset_text = offset + 32;
        assert_eq!(content[offset_text], 2);
        assert_ne!(content[offset_text + 1..offset_text + 9], [0, 0, 0, 0, 0, 0, 0, 0]);
        assert_eq!(content[offset_text + 9..offset_text + 11], [14, 0]);
        assert_eq!(
            content[offset_text + 11..offset_text + 25],
            [84, 101, 115, 116, 32, 108, 111, 103, 32, 101, 110, 116, 114, 121]
        );
        let offset_raw = offset + 57;
        assert_eq!(content[offset_raw], 0);
        assert_ne!(content[offset_raw + 1..offset_raw + 9], [0, 0, 0, 0, 0, 0, 0, 0]);
        assert_eq!(content[offset_raw + 9..offset_raw + 11], [5, 0]);
        assert_eq!(content[offset_raw + 11..offset_raw + 16], [1, 2, 3, 4, 5]);
    }
}

#[test]
fn test_write_mix_no_timestamp_optimization() {
    let format_flags = FormatFlags {
        no_timestamp: true,
        ..Default::default()
    };
    let writer = MavLogWriter::new(Some(format_flags), None).expect("Failed to create logger");
    let content = populate_log_file(&writer);
    assert_eq!(content.len(), 696);
    assert_eq!(content[60..62], [2, 0]);

    let mut pointer: usize = FileHeader::MIN_SIZE;
    const MAVLINK_ENTRY_SIZE: usize = 24;
    for _ in 0..10 {
        assert_eq!(content[pointer], 1);
        assert_eq!(content[pointer + 1..pointer + 3], [21, 0]);
        assert_eq!(content[pointer + 3..pointer + MAVLINK_ENTRY_SIZE], HEARTBEAT_FRAME);
        pointer += MAVLINK_ENTRY_SIZE;
    }
    const TEXT_ENTRY_SIZE: usize = 17;
    for _ in 0..10 {
        assert_eq!(content[pointer], 2);
        assert_eq!(content[pointer + 1..pointer + 3], [14, 0]);
        assert_eq!(
            content[pointer + 3..pointer + TEXT_ENTRY_SIZE],
            [84, 101, 115, 116, 32, 108, 111, 103, 32, 101, 110, 116, 114, 121]
        );
        pointer += TEXT_ENTRY_SIZE;
    }
    const RAW_ENTRY_SIZE: usize = 8;
    for _ in 0..10 {
        assert_eq!(content[pointer], 0);
        assert_eq!(content[pointer + 1..pointer + 3], [5, 0]);
        assert_eq!(content[pointer + 3..pointer + RAW_ENTRY_SIZE], [1, 2, 3, 4, 5]);
        pointer += RAW_ENTRY_SIZE;
    }
    for _ in 0..2 {
        assert_eq!(content[pointer], 1);
        assert_eq!(content[pointer + 1..pointer + 3], [21, 0]);
        assert_eq!(content[pointer + 3..pointer + 24], HEARTBEAT_FRAME);
        pointer += 24;
        assert_eq!(content[pointer], 2);
        assert_eq!(content[pointer + 1..pointer + 3], [14, 0]);
        assert_eq!(
            content[pointer + 3..pointer + 17],
            [84, 101, 115, 116, 32, 108, 111, 103, 32, 101, 110, 116, 114, 121]
        );
        pointer += 17;
        assert_eq!(content[pointer], 0);
        assert_eq!(content[pointer + 1..pointer + 3], [5, 0]);
        assert_eq!(content[pointer + 3..pointer + 8], [1, 2, 3, 4, 5]);
        pointer += 8;
    }
}

#[test]
fn test_write_mavlink_only_optimization() {
    let format_flags = FormatFlags {
        mavlink_only: true,
        ..Default::default()
    };
    let writer = MavLogWriter::new(Some(format_flags), None).expect("Failed to create logger");
    let content = populate_log_file(&writer);

    let mut pointer: usize = FileHeader::MIN_SIZE;
    assert_eq!(content[60..62], [1, 0]);

    const MAVLINK_ENTRY_SIZE: usize = 29;
    for _ in 0..10 {
        assert_ne!(content[pointer..pointer + 8], [0, 0, 0, 0, 0, 0, 0, 0]);
        assert_eq!(content[pointer + 8..pointer + MAVLINK_ENTRY_SIZE], HEARTBEAT_FRAME);
        pointer += MAVLINK_ENTRY_SIZE;
    }
}

#[test]
fn mavlink_only_writer_refuses_text_and_raw() {
    let flags = FormatFlags {
        mavlink_only: true,
        no_timestamp: false,
    };
    let writer = MavLogWriter::new(Some(flags), None).unwrap();
    assert_eq!(writer.write_text(Some(5), "hi").err(), Some(LogError::InvalidEntryForFlags));
    assert_eq!(writer.write_raw(Some(5), &[1]).err(), Some(LogError::InvalidEntryForFlags));
    assert_eq!(writer.write_mavlink(Some(5), &HEARTBEAT_FRAME).unwrap().len(), 29);
}

#[test]
fn closed_writer_refuses_writes() {
    let mut writer = MavLogWriter::new(None, None).unwrap();
    writer.close();
    writer.close();
    assert_eq!(writer.write_raw(Some(1), &[1]).err(), Some(LogError::Closed));
    assert_eq!(writer.write_text(Some(1), "x").err(), Some(LogError::Closed));
}

#[test]
fn clock_going_backward_writes_zero_and_resets() {
    assert_eq!(record_timestamp(Some(42)), (42, false));
    assert_eq!(record_timestamp(None), (0, true));
    let writer = MavLogWriter::new(None, None).unwrap();
    let record = writer.write_raw(None, &[7]).unwrap();
    assert_eq!(record, vec![0, 0, 0, 0, 0, 0, 0, 0, 0, 1, 0, 7]);
    let record = writer.write_raw(Some(0x0102), &[7]).unwrap();
    assert_eq!(record, vec![0, 2, 1, 0, 0, 0, 0, 0, 0, 1, 0, 7]);
}

#[test]
fn zero_length_text_and_raw_records() {
    let writer = MavLogWriter::new(None, None).unwrap();
    let text = writer.write_text(Some(3), "").unwrap();
    assert_eq!(text, vec![2, 3, 0, 0, 0, 0, 0, 0, 0, 0, 0]);
    let raw = writer.write_raw(Some(3), &[]).unwrap();
    assert_eq!(raw, vec![0, 3, 0, 0, 0, 0, 0, 0, 0, 0, 0]);
}

#[test]
fn writer_prefix_is_the_packed_header() {
    let writer = MavLogWriter::new(None, None).unwrap();
    assert_eq!(writer.prefix(), &writer.header().pack().unwrap()[..]);
    assert_eq!(writer.prefix().len(), 108);
}

#[test]
fn no_backups_disables_rotation() {
    assert_eq!(rotation_threshold(1000, 0), u64::MAX);
    assert_eq!(rotation_threshold(1000, 3), 1000);
}

#[test]
fn writer_with_default_definition() {
    let writer = MavLogWriter::new(None, None).unwrap();
    let d = &writer.header().message_definition;
    assert_eq!((d.version_major, d.version_minor, d.size), (2, 0, 0));
    assert_eq!(d.dialect, "common");
    assert!(d.payload.is_none());
}

#[test]
fn mavlink_only_writer_refuses_a_partial_frame() {
    let flags = FormatFlags {
        mavlink_only: true,
        no_timestamp: false,
    };
    let writer = MavLogWriter::new(Some(flags), None).unwrap();
    assert_eq!(
        writer.write_mavlink(Some(1), &HEARTBEAT_FRAME[..10]).err(),
        Some(LogError::MalformedFrame)
    );
}
