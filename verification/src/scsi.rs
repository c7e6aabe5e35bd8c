//! The SCSI peripheral-device-type codec: a closed enumeration over the named
//! single-byte codes of the SCSI protocol standard, a fallback variant for
//! every other code, and lossless conversion to and from the raw byte and
//! from its decimal text representation.

use vstd::prelude::*;
use crate::error::Error;
use crate::parse::{parse_u8, spec_parse_u8};

verus! {

/// A SCSI peripheral device type, as stored in the `device/type` attribute.
///
/// Every byte value maps to exactly one variant, and every variant maps back
/// to exactly its originating byte (named variants) or the stored byte
/// (`Unknown`).
#[derive(Clone, Copy, Debug, Hash, PartialEq, Eq, Structural)]
pub enum ScsiDeviceType {
    Disk,
    Tape,
    Printer,
    Processor,
    WriteOnceReadManyDevice,
    ReadOnlyMemory,
    Scanner,
    MagnetoOpticalDisk,
    MediumChanger,
    CommunicationsDevice,
    Raid,
    Enclosure,
    ReducedBlockCommandsDevice,
    ObjectStorageDevice,
    ZonedBlockDevice,
    WellKnownLogicalUnit,
    NoLogicalUnit,
    Unknown(u8),
}

/// The variant the raw byte `b` decodes to.
pub open spec fn spec_from_byte(b: u8) -> ScsiDeviceType {
    if b == 0x00 {
        ScsiDeviceType::Disk
    } else if b == 0x01 {
        ScsiDeviceType::Tape
    } else if b == 0x02 {
        ScsiDeviceType::Printer
    } else if b == 0x03 {
        ScsiDeviceType::Processor
    } else if b == 0x04 {
        ScsiDeviceType::WriteOnceReadManyDevice
    } else if b == 0x05 {
        ScsiDeviceType::ReadOnlyMemory
    } else if b == 0x06 {
        ScsiDeviceType::Scanner
    } else if b == 0x07 {
        ScsiDeviceType::MagnetoOpticalDisk
    } else if b == 0x08 {
        ScsiDeviceType::MediumChanger
    } else if b == 0x09 {
        ScsiDeviceType::CommunicationsDevice
    } else if b == 0x0c {
        ScsiDeviceType::Raid
    } else if b == 0x0d {
        ScsiDeviceType::Enclosure
    } else if b == 0x0e {
        ScsiDeviceType::ReducedBlockCommandsDevice
    } else if b == 0x11 {
        ScsiDeviceType::ObjectStorageDevice
    } else if b == 0x14 {
        ScsiDeviceType::ZonedBlockDevice
    } else if b == 0x1e {
        ScsiDeviceType::WellKnownLogicalUnit
    } else if b == 0x7f {
        ScsiDeviceType::NoLogicalUnit
    } else {
        ScsiDeviceType::Unknown(b)
    }
}

/// The byte each variant encodes to.
pub open spec fn spec_to_byte(t: ScsiDeviceType) -> u8 {
    match t {
        ScsiDeviceType::Disk => 0x00,
        ScsiDeviceType::Tape => 0x01,
        ScsiDeviceType::Printer => 0x02,
        ScsiDeviceType::Processor => 0x03,
        ScsiDeviceType::WriteOnceReadManyDevice => 0x04,
        ScsiDeviceType::ReadOnlyMemory => 0x05,
        ScsiDeviceType::Scanner => 0x06,
        ScsiDeviceType::MagnetoOpticalDisk => 0x07,
        ScsiDeviceType::MediumChanger => 0x08,
        ScsiDeviceType::CommunicationsDevice => 0x09,
        ScsiDeviceType::Raid => 0x0c,
        ScsiDeviceType::Enclosure => 0x0d,
        ScsiDeviceType::ReducedBlockCommandsDevice => 0x0e,
        ScsiDeviceType::ObjectStorageDevice => 0x11,
        ScsiDeviceType::ZonedBlockDevice => 0x14,
        ScsiDeviceType::WellKnownLogicalUnit => 0x1e,
        ScsiDeviceType::NoLogicalUnit => 0x7f,
        ScsiDeviceType::Unknown(number) => number,
    }
}

/// Decoding any byte and encoding the result again yields the byte back:
/// the codec loses nothing, whichever of the 256 code values the attribute
/// file held.
pub proof fn lemma_scsi_byte_round_trip(b: u8)
    ensures
        spec_to_byte(spec_from_byte(b)) == b,
{
}

/// Decoding the decimal text of a byte and encoding the result again yields
/// the byte the text spelled.
pub proof fn lemma_scsi_text_round_trip(s: Seq<char>, b: u8)
    requires
        spec_parse_u8(s) == Some(b),
    ensures
        spec_to_byte(spec_from_byte(b)) == b,
{
}

impl ScsiDeviceType {
    /// Decodes a raw peripheral-device-type byte.  The seventeen known codes
    /// map to their named variants; every other code is kept as `Unknown`.
    pub fn from_byte(b: u8) -> (r: ScsiDeviceType)
        ensures
            r == spec_from_byte(b),
    {
        match b {
            0x00 => ScsiDeviceType::Disk,
            0x01 => ScsiDeviceType::Tape,
            0x02 => ScsiDeviceType::Printer,
            0x03 => ScsiDeviceType::Processor,
            0x04 => ScsiDeviceType::WriteOnceReadManyDevice,
            0x05 => ScsiDeviceType::ReadOnlyMemory,
            0x06 => ScsiDeviceType::Scanner,
            0x07 => ScsiDeviceType::MagnetoOpticalDisk,
            0x08 => ScsiDeviceType::MediumChanger,
            0x09 => ScsiDeviceType::CommunicationsDevice,
            0x0c => ScsiDeviceType::Raid,
            0x0d => ScsiDeviceType::Enclosure,
            0x0e => ScsiDeviceType::ReducedBlockCommandsDevice,
            0x11 => ScsiDeviceType::ObjectStorageDevice,
            0x14 => ScsiDeviceType::ZonedBlockDevice,
            0x1e => ScsiDeviceType::WellKnownLogicalUnit,
            0x7f => ScsiDeviceType::NoLogicalUnit,
            number => ScsiDeviceType::Unknown(number),
        }
    }

    /// Encodes the variant back to its raw byte.
    pub fn to_byte(&self) -> (r: u8)
        ensures
            r == spec_to_byte(*self),
    {
        match *self {
            ScsiDeviceType::Disk => 0x00,
            ScsiDeviceType::Tape => 0x01,
            ScsiDeviceType::Printer => 0x02,
            ScsiDeviceType::Processor => 0x03,
            ScsiDeviceType::WriteOnceReadManyDevice => 0x04,
            ScsiDeviceType::ReadOnlyMemory => 0x05,
            ScsiDeviceType::Scanner => 0x06,
            ScsiDeviceType::MagnetoOpticalDisk => 0x07,
            ScsiDeviceType::MediumChanger => 0x08,
            ScsiDeviceType::CommunicationsDevice => 0x09,
            ScsiDeviceType::Raid => 0x0c,
            ScsiDeviceType::Enclosure => 0x0d,
            ScsiDeviceType::ReducedBlockCommandsDevice => 0x0e,
            ScsiDeviceType::ObjectStorageDevice => 0x11,
            ScsiDeviceType::ZonedBlockDevice => 0x14,
            ScsiDeviceType::WellKnownLogicalUnit => 0x1e,
            ScsiDeviceType::NoLogicalUnit => 0x7f,
            ScsiDeviceType::Unknown(number) => number,
        }
    }

    /// Parses the decimal text representation of a peripheral-device-type
    /// byte, as stored in the `device/type` attribute, and decodes it.
    /// Fails exactly where the text is not an unsigned decimal byte.
    pub fn from_str(s: &str) -> (r: Result<ScsiDeviceType, Error>)
        ensures
            spec_parse_u8(s@) matches Some(b) ==> r == Ok::<ScsiDeviceType, Error>(
                spec_from_byte(b),
            ),
            spec_parse_u8(s@) is None ==> r == Err::<ScsiDeviceType, Error>(Error::Parse),
    {
        match parse_u8(s) {
            Ok(b) => Ok(ScsiDeviceType::from_byte(b)),
            Err(_) => Err(Error::Parse),
        }
    }
}

} // verus!
