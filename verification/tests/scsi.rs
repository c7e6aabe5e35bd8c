use sysfs_block::error::Error;
use sysfs_block::scsi::ScsiDeviceType;

#[test]
fn byte_round_trip_all_values() {
    for b in 0..=255u8 {
        let parsed = ScsiDeviceType::from_str(&b.to_string()).unwrap();
        assert_eq!(parsed.to_byte(), b);
    }
}

#[test]
fn known_codes_map_to_named_variants() {
    let named = [
        (0x00u8, ScsiDeviceType::Disk),
        (0x01, ScsiDeviceType::Tape),
        (0x02, ScsiDeviceType::Printer),
        (0x03, ScsiDeviceType::Processor),
        (0x04, ScsiDeviceType::WriteOnceReadManyDevice),
        (0x05, ScsiDeviceType::ReadOnlyMemory),
        (0x06, ScsiDeviceType::Scanner),
        (0x07, ScsiDeviceType::MagnetoOpticalDisk),
        (0x08, ScsiDeviceType::MediumChanger),
        (0x09, ScsiDeviceType::CommunicationsDevice),
        (0x0c, ScsiDeviceType::Raid),
        (0x0d, ScsiDeviceType::Enclosure),
        (0x0e, ScsiDeviceType::ReducedBlockCommandsDevice),
        (0x11, ScsiDeviceType::ObjectStorageDevice),
        (0x14, ScsiDeviceType::ZonedBlockDevice),
        (0x1e, ScsiDeviceType::WellKnownLogicalUnit),
        (0x7f, ScsiDeviceType::NoLogicalUnit),
    ];
    for (b, t) in named {
        assert_eq!(ScsiDeviceType::from_byte(b), t);
        assert_eq!(t.to_byte(), b);
    }
}

#[test]
fn unrecognized_codes_map_to_unknown() {
    let known = [
        0x00u8, 0x01, 0x02, 0x03, 0x04, 0x05, 0x06, 0x07, 0x08, 0x09, 0x0c, 0x0d, 0x0e, 0x11,
        0x14, 0x1e, 0x7f,
    ];
    for b in 0..=255u8 {
        if !known.contains(&b) {
            assert_eq!(ScsiDeviceType::from_byte(b), ScsiDeviceType::Unknown(b));
        }
    }
}

#[test]
fn from_str_decimal_text() {
    assert_eq!(ScsiDeviceType::from_str("0"), Ok(ScsiDeviceType::Disk));
    assert_eq!(ScsiDeviceType::from_str("12"), Ok(ScsiDeviceType::Raid));
    assert_eq!(ScsiDeviceType::from_str("127"), Ok(ScsiDeviceType::NoLogicalUnit));
    assert_eq!(ScsiDeviceType::from_str("10"), Ok(ScsiDeviceType::Unknown(10)));
    assert_eq!(ScsiDeviceType::from_str("+5"), Ok(ScsiDeviceType::ReadOnlyMemory));
}

#[test]
fn from_str_rejects_bad_text() {
    assert_eq!(ScsiDeviceType::from_str(""), Err(Error::Parse));
    assert_eq!(ScsiDeviceType::from_str("abc"), Err(Error::Parse));
    assert_eq!(ScsiDeviceType::from_str("256"), Err(Error::Parse));
    assert_eq!(ScsiDeviceType::from_str("-1"), Err(Error::Parse));
    assert_eq!(ScsiDeviceType::from_str(" 5"), Err(Error::Parse));
    assert_eq!(ScsiDeviceType::from_str("5 "), Err(Error::Parse));
}
