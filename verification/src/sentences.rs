//! One decoder per supported message type, each a pure function from the
//! payload text to a typed record whose fields are independently optional:
//! an empty field decodes to "absent", never to a sentinel value.
use vstd::prelude::*;
use crate::types::Coordinate;
use crate::types::Date;
use crate::types::Decimal;
use crate::types::Error;
use crate::types::FixType;
use crate::types::GnssType;
use crate::types::Satellite;
use crate::types::SentenceType;
use crate::types::Time;
use crate::types::spec_fix_type_of;
use crate::types::fix_type_of;
use crate::text::spec_fields;
use crate::text::split_fields_from;
use crate::text::spec_uint;
use crate::text::spec_opt_uint;
use crate::text::spec_opt_decimal;
use crate::text::spec_opt_time;
use crate::text::spec_opt_date;
use crate::text::spec_latlon;
use crate::text::parse_uint;
use crate::text::parse_opt_uint;
use crate::text::parse_opt_decimal;
use crate::text::parse_opt_time;
use crate::text::parse_opt_date;
use crate::text::parse_latlon;
use crate::classify::NmeaSentence;

verus! {

/// A decoded position report.
#[derive(Clone, Copy, Debug, PartialEq, Eq, Structural)]
pub struct GgaData {
    pub fix_time: Option<Time>,
    pub fix_type: FixType,
    pub latitude: Option<Coordinate>,
    pub longitude: Option<Coordinate>,
    pub fix_satellites: Option<u32>,
    pub hdop: Option<Decimal>,
    pub altitude: Option<Decimal>,
    pub geoid_separation: Option<Decimal>,
}

/// A decoded recommended-minimum report.
#[derive(Clone, Copy, Debug, PartialEq, Eq, Structural)]
pub struct RmcData {
    pub fix_time: Option<Time>,
    pub status_active: bool,
    pub latitude: Option<Coordinate>,
    pub longitude: Option<Coordinate>,
    pub speed_over_ground: Option<Decimal>,
    pub true_course: Option<Decimal>,
    pub fix_date: Option<Date>,
}

/// A decoded latitude/longitude report.
#[derive(Clone, Copy, Debug, PartialEq, Eq, Structural)]
pub struct GllData {
    pub latitude: Option<Coordinate>,
    pub longitude: Option<Coordinate>,
    pub fix_time: Option<Time>,
    pub status_active: bool,
}

/// A decoded course-and-speed report.
#[derive(Clone, Copy, Debug, PartialEq, Eq, Structural)]
pub struct VtgData {
    pub true_course: Option<Decimal>,
    pub speed_over_ground: Option<Decimal>,
}

/// A decoded solution-geometry report.
#[derive(Clone, Copy, Debug, PartialEq, Eq, Structural)]
pub struct GsaData {
    pub pdop: Option<Decimal>,
    pub hdop: Option<Decimal>,
    pub vdop: Option<Decimal>,
}

/// A decoded pseudorange-noise report.
#[derive(Clone, Copy, Debug, PartialEq, Eq, Structural)]
pub struct GstData {
    pub time: Option<Time>,
    pub rms_sd: Option<Decimal>,
    pub ellipse_semi_major_sd: Option<Decimal>,
    pub ellipse_semi_minor_sd: Option<Decimal>,
    pub err_ellipse_orientation: Option<Decimal>,
    pub lat_sd: Option<Decimal>,
    pub long_sd: Option<Decimal>,
    pub alt_sd: Option<Decimal>,
}

/// A decoded visibility-report part.
pub struct GsvData {
    pub total_parts: u32,
    pub part_index: u32,
    pub sats: Vec<Satellite>,
}

/// Position report: 14 fields — time, latitude pair, longitude pair, fix
/// quality, satellite count, horizontal dilution, altitude with unit, geoid
/// separation with unit, then differential-age fields.
pub open spec fn spec_gga(d: Seq<u8>) -> Result<GgaData, Error> {
    let fs = spec_fields(d);
    if fs.len() != 14 {
        Err(Error::FieldCount(SentenceType::GGA, fs.len() as u32))
    } else {
        match spec_opt_time(fs[0]) {
            None => Err(Error::DecodeError(SentenceType::GGA, 0)),
            Some(time) => match spec_latlon(fs[1], fs[2], true) {
                None => Err(Error::DecodeError(SentenceType::GGA, 1)),
                Some(lat) => match spec_latlon(fs[3], fs[4], false) {
                    None => Err(Error::DecodeError(SentenceType::GGA, 3)),
                    Some(lon) => match spec_uint(fs[5]) {
                        None => Err(Error::DecodeError(SentenceType::GGA, 5)),
                        Some(q) => match spec_fix_type_of(q as int) {
                            None => Err(Error::DecodeError(SentenceType::GGA, 5)),
                            Some(ft) => match spec_opt_uint(fs[6]) {
                                None => Err(Error::DecodeError(SentenceType::GGA, 6)),
                                Some(ns) => match spec_opt_decimal(fs[7]) {
                                    None => Err(Error::DecodeError(SentenceType::GGA, 7)),
                                    Some(hdop) => match spec_opt_decimal(fs[8]) {
                                        None => Err(Error::DecodeError(SentenceType::GGA, 8)),
                                        Some(alt) => match spec_opt_decimal(fs[10]) {
                                            None => Err(Error::DecodeError(SentenceType::GGA, 10)),
                                            Some(geoid) => Ok(
                                                GgaData {
                                                    fix_time: time,
                                                    fix_type: ft,
                                                    latitude: lat,
                                                    longitude: lon,
                                                    fix_satellites: ns,
                                                    hdop: hdop,
                                                    altitude: alt,
                                                    geoid_separation: geoid,
                                                },
                                            ),
                                        },
                                    },
                                },
                            },
                        },
                    },
                },
            },
        }
    }
}

/// Executable twin of `spec_gga`.
pub fn parse_gga(data: &[u8]) -> (r: Result<GgaData, Error>)
    ensures
        r == spec_gga(data@),
{
    assert(data@.subrange(0, data@.len() as int) =~= data@);
    let fs = split_fields_from(data, 0);
    if fs.len() != 14 {
        return Err(Error::FieldCount(SentenceType::GGA, fs.len() as u32));
    }
    let time = match parse_opt_time(fs[0].as_slice()) {
        None => {
            return Err(Error::DecodeError(SentenceType::GGA, 0));
        },
        Some(v) => v,
    };
    let lat = match parse_latlon(fs[1].as_slice(), fs[2].as_slice(), true) {
        None => {
            return Err(Error::DecodeError(SentenceType::GGA, 1));
        },
        Some(v) => v,
    };
    let lon = match parse_latlon(fs[3].as_slice(), fs[4].as_slice(), false) {
        None => {
            return Err(Error::DecodeError(SentenceType::GGA, 3));
        },
        Some(v) => v,
    };
    let q = match parse_uint(fs[5].as_slice()) {
        None => {
            return Err(Error::DecodeError(SentenceType::GGA, 5));
        },
        Some(v) => v,
    };
    let ft = match fix_type_of(q) {
        None => {
            return Err(Error::DecodeError(SentenceType::GGA, 5));
        },
        Some(v) => v,
    };
    let ns = match parse_opt_uint(fs[6].as_slice()) {
        None => {
            return Err(Error::DecodeError(SentenceType::GGA, 6));
        },
        Some(v) => v,
    };
    let hdop = match parse_opt_decimal(fs[7].as_slice()) {
        None => {
            return Err(Error::DecodeError(SentenceType::GGA, 7));
        },
        Some(v) => v,
    };
    let alt = match parse_opt_decimal(fs[8].as_slice()) {
        None => {
            return Err(Error::DecodeError(SentenceType::GGA, 8));
        },
        Some(v) => v,
    };
    let geoid = match parse_opt_decimal(fs[10].as_slice()) {
        None => {
            return Err(Error::DecodeError(SentenceType::GGA, 10));
        },
        Some(v) => v,
    };
    Ok(
        GgaData {
            fix_time: time,
            fix_type: ft,
            latitude: lat,
            longitude: lon,
            fix_satellites: ns,
            hdop: hdop,
            altitude: alt,
            geoid_separation: geoid,
        },
    )
}

/// Recommended-minimum report: at least nine fields — time, an A/V status
/// letter, latitude pair, longitude pair, speed, course, date.
pub open spec fn spec_rmc(d: Seq<u8>) -> Result<RmcData, Error> {
    let fs = spec_fields(d);
    if fs.len() < 9 {
        Err(Error::FieldCount(SentenceType::RMC, fs.len() as u32))
    } else {
        match spec_opt_time(fs[0]) {
            None => Err(Error::DecodeError(SentenceType::RMC, 0)),
            Some(time) => if !(fs[1].len() == 1 && (fs[1][0] == 65 || fs[1][0] == 86)) {
                Err(Error::DecodeError(SentenceType::RMC, 1))
            } else {
                match spec_latlon(fs[2], fs[3], true) {
                    None => Err(Error::DecodeError(SentenceType::RMC, 2)),
                    Some(lat) => match spec_latlon(fs[4], fs[5], false) {
                        None => Err(Error::DecodeError(SentenceType::RMC, 4)),
                        Some(lon) => match spec_opt_decimal(fs[6]) {
                            None => Err(Error::DecodeError(SentenceType::RMC, 6)),
                            Some(speed) => match spec_opt_decimal(fs[7]) {
                                None => Err(Error::DecodeError(SentenceType::RMC, 7)),
                                Some(course) => match spec_opt_date(fs[8]) {
                                    None => Err(Error::DecodeError(SentenceType::RMC, 8)),
                                    Some(date) => Ok(
                                        RmcData {
                                            fix_time: time,
                                            status_active: fs[1][0] == 65,
                                            latitude: lat,
                                            longitude: lon,
                                            speed_over_ground: speed,
                                            true_course: course,
                                            fix_date: date,
                                        },
                                    ),
                                },
                            },
                        },
                    },
                }
            },
        }
    }
}

/// Executable twin of `spec_rmc`.
pub fn parse_rmc(data: &[u8]) -> (r: Result<RmcData, Error>)
    ensures
        r == spec_rmc(data@),
{
    assert(data@.subrange(0, data@.len() as int) =~= data@);
    let fs = split_fields_from(data, 0);
    if fs.len() < 9 {
        return Err(Error::FieldCount(SentenceType::RMC, fs.len() as u32));
    }
    let time = match parse_opt_time(fs[0].as_slice()) {
        None => {
            return Err(Error::DecodeError(SentenceType::RMC, 0));
        },
        Some(v) => v,
    };
    if !(fs[1].len() == 1 && (fs[1][0] == 65 || fs[1][0] == 86)) {
        return Err(Error::DecodeError(SentenceType::RMC, 1));
    }
    let active = fs[1][0] == 65;
    let lat = match parse_latlon(fs[2].as_slice(), fs[3].as_slice(), true) {
        None => {
            return Err(Error::DecodeError(SentenceType::RMC, 2));
        },
        Some(v) => v,
    };
    let lon = match parse_latlon(fs[4].as_slice(), fs[5].as_slice(), false) {
        None => {
            return Err(Error::DecodeError(SentenceType::RMC, 4));
        },
        Some(v) => v,
    };
    let speed = match parse_opt_decimal(fs[6].as_slice()) {
        None => {
            return Err(Error::DecodeError(SentenceType::RMC, 6));
        },
        Some(v) => v,
    };
    let course = match parse_opt_decimal(fs[7].as_slice()) {
        None => {
            return Err(Error::DecodeError(SentenceType::RMC, 7));
        },
        Some(v) => v,
    };
    let date = match parse_opt_date(fs[8].as_slice()) {
        None => {
            return Err(Error::DecodeError(SentenceType::RMC, 8));
        },
        Some(v) => v,
    };
    Ok(
        RmcData {
            fix_time: time,
            status_active: active,
            latitude: lat,
            longitude: lon,
            speed_over_ground: speed,
            true_course: course,
            fix_date: date,
        },
    )
}

/// Latitude/longitude report: at least six fields — latitude pair,
/// longitude pair, time, an A/V status letter.
pub open spec fn spec_gll(d: Seq<u8>) -> Result<GllData, Error> {
    let fs = spec_fields(d);
    if fs.len() < 6 {
        Err(Error::FieldCount(SentenceType::GLL, fs.len() as u32))
    } else {
        match spec_latlon(fs[0], fs[1], true) {
            None => Err(Error::DecodeError(SentenceType::GLL, 0)),
            Some(lat) => match spec_latlon(fs[2], fs[3], false) {
                None => Err(Error::DecodeError(SentenceType::GLL, 2)),
                Some(lon) => match spec_opt_time(fs[4]) {
                    None => Err(Error::DecodeError(SentenceType::GLL, 4)),
                    Some(time) => if !(fs[5].len() == 1 && (fs[5][0] == 65 || fs[5][0] == 86)) {
                        Err(Error::DecodeError(SentenceType::GLL, 5))
                    } else {
                        Ok(
                            GllData {
                                latitude: lat,
                                longitude: lon,
                                fix_time: time,
                                status_active: fs[5][0] == 65,
                            },
                        )
                    },
                },
            },
        }
    }
}

/// Executable twin of `spec_gll`.
pub fn parse_gll(data: &[u8]) -> (r: Result<GllData, Error>)
    ensures
        r == spec_gll(data@),
{
    assert(data@.subrange(0, data@.len() as int) =~= data@);
    let fs = split_fields_from(data, 0);
    if fs.len() < 6 {
        return Err(Error::FieldCount(SentenceType::GLL, fs.len() as u32));
    }
    let lat = match parse_latlon(fs[0].as_slice(), fs[1].as_slice(), true) {
        None => {
            return Err(Error::DecodeError(SentenceType::GLL, 0));
        },
        Some(v) => v,
    };
    let lon = match parse_latlon(fs[2].as_slice(), fs[3].as_slice(), false) {
        None => {
            return Err(Error::DecodeError(SentenceType::GLL, 2));
        },
        Some(v) => v,
    };
    let time = match parse_opt_time(fs[4].as_slice()) {
        None => {
            return Err(Error::DecodeError(SentenceType::GLL, 4));
        },
        Some(v) => v,
    };
    if !(fs[5].len() == 1 && (fs[5][0] == 65 || fs[5][0] == 86)) {
        return Err(Error::DecodeError(SentenceType::GLL, 5));
    }
    Ok(
        GllData {
            latitude: lat,
            longitude: lon,
            fix_time: time,
            status_active: fs[5][0] == 65,
        },
    )
}

/// Course-and-speed report: at least eight fields; the true course stands
/// first and the speed in knots fifth.
pub open spec fn spec_vtg(d: Seq<u8>) -> Result<VtgData, Error> {
    let fs = spec_fields(d);
    if fs.len() < 8 {
        Err(Error::FieldCount(SentenceType::VTG, fs.len() as u32))
    } else {
        match spec_opt_decimal(fs[0]) {
            None => Err(Error::DecodeError(SentenceType::VTG, 0)),
            Some(course) => match spec_opt_decimal(fs[4]) {
                None => Err(Error::DecodeError(SentenceType::VTG, 4)),
                Some(speed) => Ok(VtgData { true_course: course, speed_over_ground: speed }),
            },
        }
    }
}

/// Executable twin of `spec_vtg`.
pub fn parse_vtg(data: &[u8]) -> (r: Result<VtgData, Error>)
    ensures
        r == spec_vtg(data@),
{
    assert(data@.subrange(0, data@.len() as int) =~= data@);
    let fs = split_fields_from(data, 0);
    if fs.len() < 8 {
        return Err(Error::FieldCount(SentenceType::VTG, fs.len() as u32));
    }
    let course = match parse_opt_decimal(fs[0].as_slice()) {
        None => {
            return Err(Error::DecodeError(SentenceType::VTG, 0));
        },
        Some(v) => v,
    };
    let speed = match parse_opt_decimal(fs[4].as_slice()) {
        None => {
            return Err(Error::DecodeError(SentenceType::VTG, 4));
        },
        Some(v) => v,
    };
    Ok(VtgData { true_course: course, speed_over_ground: speed })
}

/// The first index in `[from, to)` whose field is not an optional unsigned
/// integer, or `to` when all are.
pub open spec fn first_bad_uint(fs: Seq<Seq<u8>>, from: int, to: int) -> int
    decreases to - from,
{
    if from >= to {
        to
    } else if spec_opt_uint(fs[from]) is None {
        from
    } else {
        first_bad_uint(fs, from + 1, to)
    }
}

proof fn lemma_first_bad_uint_is(fs: Seq<Seq<u8>>, from: int, to: int, k: int)
    requires
        from <= k <= to,
        k < to ==> spec_opt_uint(fs[k]) is None,
        forall|j: int| from <= j < k ==> spec_opt_uint(#[trigger] fs[j]) is Some,
    ensures
        first_bad_uint(fs, from, to) == k,
    decreases to - from,
{
    if from < to && spec_opt_uint(fs[from]) is Some {
        lemma_first_bad_uint_is(fs, from + 1, to, k);
    }
}

/// Solution-geometry report: exactly 17 fields — a selection-mode letter, a
/// fix-mode digit, twelve satellite identifiers, then position, horizontal
/// and vertical dilution values.
pub open spec fn spec_gsa(d: Seq<u8>) -> Result<GsaData, Error> {
    let fs = spec_fields(d);
    if fs.len() != 17 {
        Err(Error::FieldCount(SentenceType::GSA, fs.len() as u32))
    } else if !(fs[0].len() == 1 && (fs[0][0] == 65 || fs[0][0] == 77)) {
        Err(Error::DecodeError(SentenceType::GSA, 0))
    } else {
        match spec_opt_uint(fs[1]) {
            None => Err(Error::DecodeError(SentenceType::GSA, 1)),
            Some(mode) => if mode matches Some(m) && !(1 <= m <= 3) {
                Err(Error::DecodeError(SentenceType::GSA, 1))
            } else {
                let bad = first_bad_uint(fs, 2, 14);
                if bad < 14 {
                    Err(Error::DecodeError(SentenceType::GSA, bad as u32))
                } else {
                    match spec_opt_decimal(fs[14]) {
                        None => Err(Error::DecodeError(SentenceType::GSA, 14)),
                        Some(pdop) => match spec_opt_decimal(fs[15]) {
                            None => Err(Error::DecodeError(SentenceType::GSA, 15)),
                            Some(hdop) => match spec_opt_decimal(fs[16]) {
                                None => Err(Error::DecodeError(SentenceType::GSA, 16)),
                                Some(vdop) => Ok(GsaData { pdop: pdop, hdop: hdop, vdop: vdop }),
                            },
                        },
                    }
                }
            },
        }
    }
}

/// Executable twin of `spec_gsa`.
pub fn parse_gsa(data: &[u8]) -> (r: Result<GsaData, Error>)
    ensures
        r == spec_gsa(data@),
{
    assert(data@.subrange(0, data@.len() as int) =~= data@);
    let fs = split_fields_from(data, 0);
    proof {
        assert(fs@.map_values(|v: Vec<u8>| v@) =~= spec_fields(data@));
    }
    if fs.len() != 17 {
        return Err(Error::FieldCount(SentenceType::GSA, fs.len() as u32));
    }
    if !(fs[0].len() == 1 && (fs[0][0] == 65 || fs[0][0] == 77)) {
        return Err(Error::DecodeError(SentenceType::GSA, 0));
    }
    match parse_opt_uint(fs[1].as_slice()) {
        None => {
            return Err(Error::DecodeError(SentenceType::GSA, 1));
        },
        Some(Some(m)) => if !(1 <= m && m <= 3) {
            return Err(Error::DecodeError(SentenceType::GSA, 1));
        },
        Some(None) => {},
    }
    let mut i: usize = 2;
    while i < 14
        invariant
            2 <= i <= 14,
            fs@.len() == 17,
            fs@.map_values(|v: Vec<u8>| v@) == spec_fields(data@),
            spec_fields(data@).len() == 17,
            fs@[0]@.len() == 1 && (fs@[0]@[0] == 65 || fs@[0]@[0] == 77),
            spec_opt_uint(fs@[1]@) matches Some(mode) && (mode matches Some(m) ==> 1 <= m <= 3),
            forall|j: int| 2 <= j < i ==> spec_opt_uint(#[trigger] fs@[j]@) is Some,
        decreases 14 - i,
    {
        if parse_opt_uint(fs[i].as_slice()).is_none() {
            proof {
                let mapped = fs@.map_values(|v: Vec<u8>| v@);
                assert forall|j: int| 2 <= j < i implies spec_opt_uint(
                    #[trigger] mapped[j],
                ) is Some by {
                    assert(mapped[j] == fs@[j]@);
                };
                assert(mapped[i as int] == fs@[i as int]@);
                lemma_first_bad_uint_is(mapped, 2, 14, i as int);
            }
            return Err(Error::DecodeError(SentenceType::GSA, i as u32));
        }
        i = i + 1;
    }
    proof {
        let mapped = fs@.map_values(|v: Vec<u8>| v@);
        assert forall|j: int| 2 <= j < 14 implies spec_opt_uint(#[trigger] mapped[j]) is Some by {
            assert(mapped[j] == fs@[j]@);
        };
        lemma_first_bad_uint_is(mapped, 2, 14, 14);
    }
    let pdop = match parse_opt_decimal(fs[14].as_slice()) {
        None => {
            return Err(Error::DecodeError(SentenceType::GSA, 14));
        },
        Some(v) => v,
    };
    let hdop = match parse_opt_decimal(fs[15].as_slice()) {
        None => {
            return Err(Error::DecodeError(SentenceType::GSA, 15));
        },
        Some(v) => v,
    };
    let vdop = match parse_opt_decimal(fs[16].as_slice()) {
        None => {
            return Err(Error::DecodeError(SentenceType::GSA, 16));
        },
        Some(v) => v,
    };
    Ok(GsaData { pdop: pdop, hdop: hdop, vdop: vdop })
}

/// Pseudorange-noise report: a time then seven standard-deviation values,
/// at least eight fields in all.
pub open spec fn spec_gst(d: Seq<u8>) -> Result<GstData, Error> {
    let fs = spec_fields(d);
    if fs.len() < 8 {
        Err(Error::FieldCount(SentenceType::GST, fs.len() as u32))
    } else {
        match spec_opt_time(fs[0]) {
            None => Err(Error::DecodeError(SentenceType::GST, 0)),
            Some(time) => match spec_opt_decimal(fs[1]) {
                None => Err(Error::DecodeError(SentenceType::GST, 1)),
                Some(rms) => match spec_opt_decimal(fs[2]) {
                    None => Err(Error::DecodeError(SentenceType::GST, 2)),
                    Some(smaj) => match spec_opt_decimal(fs[3]) {
                        None => Err(Error::DecodeError(SentenceType::GST, 3)),
                        Some(smin) => match spec_opt_decimal(fs[4]) {
                            None => Err(Error::DecodeError(SentenceType::GST, 4)),
                            Some(orient) => match spec_opt_decimal(fs[5]) {
                                None => Err(Error::DecodeError(SentenceType::GST, 5)),
                                Some(lat_sd) => match spec_opt_decimal(fs[6]) {
                                    None => Err(Error::DecodeError(SentenceType::GST, 6)),
                                    Some(long_sd) => match spec_opt_decimal(fs[7]) {
                                        None => Err(Error::DecodeError(SentenceType::GST, 7)),
                                        Some(alt_sd) => Ok(
                                            GstData {
                                                time: time,
                                                rms_sd: rms,
                                                ellipse_semi_major_sd: smaj,
                                                ellipse_semi_minor_sd: smin,
                                                err_ellipse_orientation: orient,
                                                lat_sd: lat_sd,
                                                long_sd: long_sd,
                                                alt_sd: alt_sd,
                                            },
                                        ),
                                    },
                                },
                            },
                        },
                    },
                },
            },
        }
    }
}

/// Decodes a pseudorange-noise sentence, after checking that the sentence
/// really is of that type.
pub fn parse_gst(sentence: NmeaSentence) -> (r: Result<GstData, Error>)
    ensures
        sentence.message_id != SentenceType::GST ==> r == Err::<GstData, Error>(
            Error::WrongSentenceHeader {
                expected: SentenceType::GST,
                found: sentence.message_id,
            },
        ),
        sentence.message_id == SentenceType::GST ==> r == spec_gst(sentence.data@),
{
    if sentence.message_id != SentenceType::GST {
        return Err(
            Error::WrongSentenceHeader {
                expected: SentenceType::GST,
                found: sentence.message_id,
            },
        );
    }
    do_parse_gst(sentence.data.as_slice())
}

/// Executable twin of `spec_gst` on the payload text.
pub fn do_parse_gst(data: &[u8]) -> (r: Result<GstData, Error>)
    ensures
        r == spec_gst(data@),
{
    assert(data@.subrange(0, data@.len() as int) =~= data@);
    let fs = split_fields_from(data, 0);
    if fs.len() < 8 {
        return Err(Error::FieldCount(SentenceType::GST, fs.len() as u32));
    }
    let time = match parse_opt_time(fs[0].as_slice()) {
        None => {
            return Err(Error::DecodeError(SentenceType::GST, 0));
        },
        Some(v) => v,
    };
    let rms = match parse_opt_decimal(fs[1].as_slice()) {
        None => {
            return Err(Error::DecodeError(SentenceType::GST, 1));
        },
        Some(v) => v,
    };
    let smaj = match parse_opt_decimal(fs[2].as_slice()) {
        None => {
            return Err(Error::DecodeError(SentenceType::GST, 2));
        },
        Some(v) => v,
    };
    let smin = match parse_opt_decimal(fs[3].as_slice()) {
        None => {
            return Err(Error::DecodeError(SentenceType::GST, 3));
        },
        Some(v) => v,
    };
    let orient = match parse_opt_decimal(fs[4].as_slice()) {
        None => {
            return Err(Error::DecodeError(SentenceType::GST, 4));
        },
        Some(v) => v,
    };
    let lat_sd = match parse_opt_decimal(fs[5].as_slice()) {
        None => {
            return Err(Error::DecodeError(SentenceType::GST, 5));
        },
        Some(v) => v,
    };
    let long_sd = match parse_opt_decimal(fs[6].as_slice()) {
        None => {
            return Err(Error::DecodeError(SentenceType::GST, 6));
        },
        Some(v) => v,
    };
    let alt_sd = match parse_opt_decimal(fs[7].as_slice()) {
        None => {
            return Err(Error::DecodeError(SentenceType::GST, 7));
        },
        Some(v) => v,
    };
    Ok(
        GstData {
            time: time,
            rms_sd: rms,
            ellipse_semi_major_sd: smaj,
            ellipse_semi_minor_sd: smin,
            err_ellipse_orientation: orient,
            lat_sd: lat_sd,
            long_sd: long_sd,
            alt_sd: alt_sd,
        },
    )
}

/// Field-absence law, decoder side: an empty field of a position report
/// decodes to "unknown", never to a sentinel value.
pub proof fn lemma_empty_fields_decode_absent(d: Seq<u8>)
    requires
        spec_gga(d) is Ok,
    ensures
        spec_fields(d)[0].len() == 0 ==> spec_gga(d)->Ok_0.fix_time is None,
        spec_fields(d)[1].len() == 0 && spec_fields(d)[2].len() == 0 ==> spec_gga(
            d,
        )->Ok_0.latitude is None,
        spec_fields(d)[6].len() == 0 ==> spec_gga(d)->Ok_0.fix_satellites is None,
        spec_fields(d)[7].len() == 0 ==> spec_gga(d)->Ok_0.hdop is None,
        spec_fields(d)[8].len() == 0 ==> spec_gga(d)->Ok_0.altitude is None,
        spec_fields(d)[10].len() == 0 ==> spec_gga(d)->Ok_0.geoid_separation is None,
{
}

/// The satellites carried by the groups of four fields starting at `idx`:
/// identifier, elevation, azimuth, signal-to-noise. A group whose
/// identifier field is empty carries no satellite.
pub open spec fn spec_gsv_sats(fs: Seq<Seq<u8>>, idx: int, talker: GnssType) -> Result<
    Seq<Satellite>,
    Error,
>
    decreases fs.len() - idx,
{
    if idx < 0 || fs.len() - idx < 4 {
        Ok(Seq::empty())
    } else {
        match spec_opt_uint(fs[idx]) {
            None => Err(Error::DecodeError(SentenceType::GSV, idx as u32)),
            Some(prn) => match spec_opt_decimal(fs[idx + 1]) {
                None => Err(Error::DecodeError(SentenceType::GSV, (idx + 1) as u32)),
                Some(elev) => match spec_opt_decimal(fs[idx + 2]) {
                    None => Err(Error::DecodeError(SentenceType::GSV, (idx + 2) as u32)),
                    Some(az) => match spec_opt_decimal(fs[idx + 3]) {
                        None => Err(Error::DecodeError(SentenceType::GSV, (idx + 3) as u32)),
                        Some(snr) => match spec_gsv_sats(fs, idx + 4, talker) {
                            Err(e) => Err(e),
                            Ok(rest) => match prn {
                                None => Ok(rest),
                                Some(p) => Ok(
                                    seq![
                                        Satellite {
                                            gnss_type: talker,
                                            prn: p,
                                            elevation: elev,
                                            azimuth: az,
                                            snr: snr,
                                        },
                                    ] + rest,
                                ),
                            },
                        },
                    },
                },
            },
        }
    }
}

/// Visibility-report part: the declared part count, this part's one-based
/// index, the total satellites in view, then groups of four fields. The
/// index must lie within the declared count and the groups must be whole.
pub open spec fn spec_gsv(d: Seq<u8>, talker: GnssType) -> Result<
    (u32, u32, Seq<Satellite>),
    Error,
> {
    let fs = spec_fields(d);
    if fs.len() < 3 {
        Err(Error::FieldCount(SentenceType::GSV, fs.len() as u32))
    } else {
        match spec_uint(fs[0]) {
            None => Err(Error::DecodeError(SentenceType::GSV, 0)),
            Some(total) => match spec_uint(fs[1]) {
                None => Err(Error::DecodeError(SentenceType::GSV, 1)),
                Some(part) => match spec_opt_uint(fs[2]) {
                    None => Err(Error::DecodeError(SentenceType::GSV, 2)),
                    Some(_in_view) => if !(1 <= part <= total) {
                        Err(Error::DecodeError(SentenceType::GSV, 1))
                    } else if (fs.len() - 3) % 4 != 0 {
                        Err(Error::FieldCount(SentenceType::GSV, fs.len() as u32))
                    } else {
                        match spec_gsv_sats(fs, 3, talker) {
                            Err(e) => Err(e),
                            Ok(sats) => Ok((total, part, sats)),
                        }
                    },
                },
            },
        }
    }
}

/// Executable twin of `spec_gsv_sats`.
fn parse_gsv_sats(fs: &Vec<Vec<u8>>, idx: usize, talker: GnssType) -> (r: Result<
    Vec<Satellite>,
    Error,
>)
    requires
        idx <= fs@.len(),
    ensures
        (spec_gsv_sats(fs@.map_values(|v: Vec<u8>| v@), idx as int, talker) matches Ok(s) ==> (
        r matches Ok(v) && v@ == s)),
        (spec_gsv_sats(fs@.map_values(|v: Vec<u8>| v@), idx as int, talker) matches Err(e) ==> r
            == Err::<Vec<Satellite>, Error>(e)),
    decreases fs@.len() - idx,
{
    let ghost gfs = fs@.map_values(|v: Vec<u8>| v@);
    if fs.len() - idx < 4 {
        return Ok(Vec::new());
    }
    let prn = match parse_opt_uint(fs[idx].as_slice()) {
        None => {
            return Err(Error::DecodeError(SentenceType::GSV, idx as u32));
        },
        Some(v) => v,
    };
    let elev = match parse_opt_decimal(fs[idx + 1].as_slice()) {
        None => {
            return Err(Error::DecodeError(SentenceType::GSV, (idx + 1) as u32));
        },
        Some(v) => v,
    };
    let az = match parse_opt_decimal(fs[idx + 2].as_slice()) {
        None => {
            return Err(Error::DecodeError(SentenceType::GSV, (idx + 2) as u32));
        },
        Some(v) => v,
    };
    let snr = match parse_opt_decimal(fs[idx + 3].as_slice()) {
        None => {
            return Err(Error::DecodeError(SentenceType::GSV, (idx + 3) as u32));
        },
        Some(v) => v,
    };
    let mut rest = match parse_gsv_sats(fs, idx + 4, talker) {
        Err(e) => {
            return Err(e);
        },
        Ok(v) => v,
    };
    match prn {
        None => Ok(rest),
        Some(p) => {
            rest.insert(
                0,
                Satellite {
                    gnss_type: talker,
                    prn: p,
                    elevation: elev,
                    azimuth: az,
                    snr: snr,
                },
            );
            Ok(rest)
        },
    }
}

/// Executable twin of `spec_gsv`.
pub fn parse_gsv(data: &[u8], talker: GnssType) -> (r: Result<GsvData, Error>)
    ensures
        (spec_gsv(data@, talker) matches Ok(t) ==> (r matches Ok(g) && g.total_parts == t.0
            && g.part_index == t.1 && g.sats@ == t.2)),
        (spec_gsv(data@, talker) matches Err(e) ==> r matches Err(e2) && e2 == e),
{
    assert(data@.subrange(0, data@.len() as int) =~= data@);
    let fs = split_fields_from(data, 0);
    let ghost gfs = spec_fields(data@);
    proof {
        assert(fs@.map_values(|v: Vec<u8>| v@) =~= gfs);
    }
    if fs.len() < 3 {
        return Err(Error::FieldCount(SentenceType::GSV, fs.len() as u32));
    }
    let total = match parse_uint(fs[0].as_slice()) {
        None => {
            return Err(Error::DecodeError(SentenceType::GSV, 0));
        },
        Some(v) => v,
    };
    let part = match parse_uint(fs[1].as_slice()) {
        None => {
            return Err(Error::DecodeError(SentenceType::GSV, 1));
        },
        Some(v) => v,
    };
    if parse_opt_uint(fs[2].as_slice()).is_none() {
        return Err(Error::DecodeError(SentenceType::GSV, 2));
    }
    if !(1 <= part && part <= total) {
        return Err(Error::DecodeError(SentenceType::GSV, 1));
    }
    if (fs.len() - 3) % 4 != 0 {
        return Err(Error::FieldCount(SentenceType::GSV, fs.len() as u32));
    }
    match parse_gsv_sats(&fs, 3, talker) {
        Err(e) => Err(e),
        Ok(sats) => Ok(GsvData { total_parts: total, part_index: part, sats: sats }),
    }
}

} // verus!
