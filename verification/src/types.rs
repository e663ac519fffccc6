//! Plain data carried through the engine: enumerations for systems,
//! sentence kinds and fix qualities, exact decimal numbers, times, dates,
//! coordinates, satellites, and the error taxonomy.
use vstd::prelude::*;

verus! {

/// The positioning system a sentence (or satellite) belongs to, taken from
/// the talker prefix of the leading field.
#[derive(Clone, Copy, Debug, PartialEq, Eq, Structural)]
pub enum GnssType {
    Beidou,
    Galileo,
    Gps,
    Glonass,
    Unknown,
}

/// The supported three-letter message-type tags.
#[derive(Clone, Copy, Debug, PartialEq, Eq, Structural)]
pub enum SentenceType {
    GGA,
    GLL,
    GSA,
    GST,
    GSV,
    RMC,
    VTG,
}

/// Fix solution quality, as reported by a position-report sentence.
#[derive(Clone, Copy, Debug, PartialEq, Eq, Structural)]
pub enum FixType {
    Invalid,
    Gps,
    DGps,
    Pps,
    Rtk,
    FloatRtk,
    Estimated,
    Manual,
    Simulation,
}

/// An exact decimal number: `(-1)^negative * mantissa / 10^scale`.
/// Numeric fields are kept this way so that every decoded value is stored
/// without rounding.
#[derive(Clone, Copy, Debug, PartialEq, Eq, Structural)]
pub struct Decimal {
    pub negative: bool,
    pub mantissa: u64,
    pub scale: u32,
}

/// A time of day with millisecond resolution.
#[derive(Clone, Copy, Debug, PartialEq, Eq, Structural)]
pub struct Time {
    pub hour: u32,
    pub minute: u32,
    pub second: u32,
    pub millisecond: u32,
}

impl Time {
    /// Builds a time from its four components.
    pub fn from_hms_milli(hour: u32, minute: u32, second: u32, millisecond: u32) -> (r: Time)
        requires
            hour < 24,
            minute < 60,
            second < 60,
            millisecond < 1000,
        ensures
            r == (Time { hour, minute, second, millisecond }),
    {
        Time { hour, minute, second, millisecond }
    }

    pub fn hour(&self) -> (r: u32)
        ensures
            r == self.hour,
    {
        self.hour
    }

    pub fn minute(&self) -> (r: u32)
        ensures
            r == self.minute,
    {
        self.minute
    }

    pub fn second(&self) -> (r: u32)
        ensures
            r == self.second,
    {
        self.second
    }

    pub fn millisecond(&self) -> (r: u32)
        ensures
            r == self.millisecond,
    {
        self.millisecond
    }
}

/// A calendar date; the two-digit year of the wire format is stored
/// offset into the 2000s.
#[derive(Clone, Copy, Debug, PartialEq, Eq, Structural)]
pub struct Date {
    pub year: u32,
    pub month: u32,
    pub day: u32,
}

/// A geographic coordinate as transmitted: whole degrees and exact decimal
/// minutes, with a hemisphere sign. The numeric value it denotes is
/// `(-1)^negative * (degrees + minutes/60)`.
#[derive(Clone, Copy, Debug, PartialEq, Eq, Structural)]
pub struct Coordinate {
    pub negative: bool,
    pub degrees: u32,
    pub minutes_mantissa: u64,
    pub minutes_scale: u32,
}

/// One satellite of the current visibility snapshot. Elevation, azimuth and
/// signal-to-noise ratio are each independently optional: a tracked but not
/// yet resolved satellite reports its identifier only.
#[derive(Clone, Copy, Debug, PartialEq, Eq, Structural)]
pub struct Satellite {
    pub gnss_type: GnssType,
    pub prn: u32,
    pub elevation: Option<Decimal>,
    pub azimuth: Option<Decimal>,
    pub snr: Option<Decimal>,
}

impl Satellite {
    pub fn gnss_type(&self) -> (r: GnssType)
        ensures
            r == self.gnss_type,
    {
        self.gnss_type
    }

    pub fn prn(&self) -> (r: u32)
        ensures
            r == self.prn,
    {
        self.prn
    }

    pub fn elevation(&self) -> (r: Option<Decimal>)
        ensures
            r == self.elevation,
    {
        self.elevation
    }

    pub fn azimuth(&self) -> (r: Option<Decimal>)
        ensures
            r == self.azimuth,
    {
        self.azimuth
    }

    pub fn snr(&self) -> (r: Option<Decimal>)
        ensures
            r == self.snr,
    {
        self.snr
    }
}

/// What went wrong while framing a line, before any payload is trusted.
#[derive(Clone, Copy, Debug, PartialEq, Eq, Structural)]
pub enum FramingErrorKind {
    /// The line does not begin with the start-of-sentence marker.
    NoStartMarker,
    /// The line holds no checksum marker at all.
    NoChecksumField,
    /// The checksum marker is not followed by exactly two hexadecimal digits.
    BadChecksumDigits,
    /// The leading field is too short to name a message type.
    BadHeaderField,
}

/// Every failure a caller can see. Each kind is distinct and carries what a
/// caller needs to diagnose it; a failed call leaves the engine unchanged.
#[derive(Clone, Copy, Debug, PartialEq, Eq, Structural)]
pub enum Error {
    /// The line is not framed as a sentence.
    ParsingError(FramingErrorKind),
    /// The transmitted checksum differs from the one computed over the payload.
    ChecksumMismatch { calculated: u8, found: u8 },
    /// The message-type tag is not one of the supported set; the first three
    /// bytes of the tag are carried for the caller.
    Unsupported(u8, u8, u8),
    /// A recognized sentence holds the wrong number of fields.
    FieldCount(SentenceType, u32),
    /// A recognized sentence has a malformed field; the index names it.
    DecodeError(SentenceType, u32),
    /// A decoder was handed a sentence of another type.
    WrongSentenceHeader { expected: SentenceType, found: SentenceType },
    /// A position report declared that it carries no fix; it is rejected and
    /// none of its fields are aggregated.
    InvalidFixQuality,
    /// The navigation gate was asked for an empty required set.
    EmptyNavConfig,
    /// The navigation gate was asked to require a type that cannot carry a
    /// fix update.
    InvalidNavConfig(SentenceType),
}

/// Maps a fix-quality digit of a position report to the fix type it denotes.
pub open spec fn spec_fix_type_of(q: int) -> Option<FixType> {
    if q == 0 {
        Some(FixType::Invalid)
    } else if q == 1 {
        Some(FixType::Gps)
    } else if q == 2 {
        Some(FixType::DGps)
    } else if q == 3 {
        Some(FixType::Pps)
    } else if q == 4 {
        Some(FixType::Rtk)
    } else if q == 5 {
        Some(FixType::FloatRtk)
    } else if q == 6 {
        Some(FixType::Estimated)
    } else if q == 7 {
        Some(FixType::Manual)
    } else if q == 8 {
        Some(FixType::Simulation)
    } else {
        None
    }
}

/// Executable twin of `spec_fix_type_of`.
pub fn fix_type_of(q: u32) -> (r: Option<FixType>)
    ensures
        r == spec_fix_type_of(q as int),
{
    match q {
        0 => Some(FixType::Invalid),
        1 => Some(FixType::Gps),
        2 => Some(FixType::DGps),
        3 => Some(FixType::Pps),
        4 => Some(FixType::Rtk),
        5 => Some(FixType::FloatRtk),
        6 => Some(FixType::Estimated),
        7 => Some(FixType::Manual),
        8 => Some(FixType::Simulation),
        _ => None,
    }
}

} // verus!
