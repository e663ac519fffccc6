use nmea::Date;
use nmea::Decimal;
use nmea::Error;
use nmea::FixType;
use nmea::FramingErrorKind;
use nmea::GnssType;
use nmea::Nmea;
use nmea::NmeaSentence;
use nmea::SentenceType;
use nmea::Time;
use nmea::parse_gst;

fn make_line(body: &str) -> String {
    let mut cs: u8 = 0;
    for b in body.as_bytes() {
        cs ^= b;
    }
    format!("${}*{:02X}", body, cs)
}

#[test]
fn checksum_detects_corruption() {
    // a single corrupted payload byte is a checksum mismatch, never decoded
    let good = "$GPGGA,092750.000,5321.6802,N,00630.3372,W,1,8,1.03,61.7,M,55.2,M,,*76";
    let bad = good.replace(",8,", ",9,");
    let mut nmea = Nmea::default();
    let res = nmea.parse(bad.as_bytes());
    assert!(matches!(res, Err(Error::ChecksumMismatch { .. })));
    assert_eq!(nmea.fix_type(), None);
    assert_eq!(nmea.latitude(), None);
}

#[test]
fn absent_fields_leave_prior_values() {
    let mut nmea = Nmea::default();
    nmea.parse("$GPGGA,092750.000,5321.6802,N,00630.3372,W,1,8,1.03,61.7,M,55.2,M,,*76".as_bytes())
        .unwrap();
    let sparse = make_line("GPGGA,,5321.6802,N,00630.3372,W,1,7,,,M,,M,,");
    nmea.parse(sparse.as_bytes()).unwrap();
    // absent fields kept their prior values
    assert_eq!(nmea.fix_timestamp(), Some(Time::from_hms_milli(9, 27, 50, 0)));
    assert_eq!(nmea.hdop, Some(Decimal { negative: false, mantissa: 103, scale: 2 }));
    assert_eq!(nmea.altitude, Some(Decimal { negative: false, mantissa: 617, scale: 1 }));
    assert_eq!(nmea.geoid_separation, Some(Decimal { negative: false, mantissa: 552, scale: 1 }));
    // the present field overwrote
    assert_eq!(nmea.num_of_fix_satellites, Some(7));
}

#[test]
fn exact_decimal_values() {
    let mut nmea = Nmea::default();
    nmea.parse("$GPGGA,092750.000,5321.6802,N,00630.3372,W,1,8,1.03,61.7,M,55.2,M,,*76".as_bytes())
        .unwrap();
    assert_eq!(nmea.hdop, Some(Decimal { negative: false, mantissa: 103, scale: 2 }));
    assert_eq!(nmea.altitude, Some(Decimal { negative: false, mantissa: 617, scale: 1 }));
    // 61.7 + 55.2 == 116.9, exactly
    assert_eq!(
        nmea.geoid_altitude(),
        Some(Decimal { negative: false, mantissa: 1169, scale: 1 })
    );
    let c = nmea.latitude.unwrap();
    assert!(!c.negative);
    assert_eq!(c.degrees, 53);
    assert_eq!(c.minutes_mantissa, 216802);
    assert_eq!(c.minutes_scale, 4);
}

#[test]
fn negative_geoid_separation() {
    let mut nmea = Nmea::default();
    let line = make_line("GPGGA,,5321.6802,N,00630.3372,W,1,8,1.0,61.7,M,-34.0,M,,");
    nmea.parse(line.as_bytes()).unwrap();
    assert_eq!(nmea.geoid_separation, Some(Decimal { negative: true, mantissa: 340, scale: 1 }));
    // 61.7 - 34.0 == 27.7, exactly
    assert_eq!(
        nmea.geoid_altitude(),
        Some(Decimal { negative: false, mantissa: 277, scale: 1 })
    );
}

#[test]
fn framing_error_kinds() {
    let mut nmea = Nmea::default();
    assert_eq!(
        nmea.parse("GPGGA,1*00".as_bytes()),
        Err(Error::ParsingError(FramingErrorKind::NoStartMarker))
    );
    assert_eq!(
        nmea.parse("$GPGGA,1".as_bytes()),
        Err(Error::ParsingError(FramingErrorKind::NoChecksumField))
    );
    assert_eq!(
        nmea.parse("$GPGGA,1*7".as_bytes()),
        Err(Error::ParsingError(FramingErrorKind::BadChecksumDigits))
    );
    let short_header = make_line("GP,1");
    assert_eq!(
        nmea.parse(short_header.as_bytes()),
        Err(Error::ParsingError(FramingErrorKind::BadHeaderField))
    );
    assert!(matches!(
        nmea.parse("$GPGGA,1*00".as_bytes()),
        Err(Error::ChecksumMismatch { .. })
    ));
    // nothing of the above touched the state
    assert_eq!(nmea.fix_type(), None);
}

#[test]
fn unsupported_tag_carries_tag() {
    let mut nmea = Nmea::default();
    let line = make_line("GPXTE,a,b");
    assert_eq!(nmea.parse(line.as_bytes()), Err(Error::Unsupported(88, 84, 69)));
    let line2 = make_line("GRMC,1,2");
    assert_eq!(nmea.parse(line2.as_bytes()), Err(Error::Unsupported(71, 82, 77)));
}

#[test]
fn decode_error_names_field() {
    let mut nmea = Nmea::default();
    let short = make_line("GPGGA,1,2");
    assert_eq!(nmea.parse(short.as_bytes()), Err(Error::FieldCount(SentenceType::GGA, 2)));
    let bad_quality = make_line("GPGGA,092750.000,5321.6802,N,00630.3372,W,x,8,1.03,61.7,M,55.2,M,,");
    assert_eq!(nmea.parse(bad_quality.as_bytes()), Err(Error::DecodeError(SentenceType::GGA, 5)));
    let bad_lat = make_line("GPGGA,092750.000,xyz,N,00630.3372,W,1,8,1.03,61.7,M,55.2,M,,");
    assert_eq!(nmea.parse(bad_lat.as_bytes()), Err(Error::DecodeError(SentenceType::GGA, 1)));
    assert_eq!(nmea.fix_type(), None);
}

#[test]
fn invalid_fix_rejected_whole() {
    let mut nmea = Nmea::default();
    let line = make_line("GPGGA,092750.000,5321.6802,S,00630.3372,E,0,8,1.03,61.7,M,55.2,M,,");
    let res = nmea.parse(line.as_bytes());
    assert_eq!(res, Err(Error::InvalidFixQuality));
    assert_eq!(nmea.fix_type(), None);
    assert_eq!(nmea.latitude(), None);
    assert_eq!(nmea.altitude(), None);
    assert_eq!(nmea.fix_timestamp(), None);
}

#[test]
fn nav_config_errors() {
    assert!(matches!(Nmea::create_for_navigation(&[]), Err(Error::EmptyNavConfig)));
    assert!(matches!(
        Nmea::create_for_navigation(&[SentenceType::RMC, SentenceType::GSV]),
        Err(Error::InvalidNavConfig(SentenceType::GSV))
    ));
}

#[test]
fn gate_re_arrival_keeps_cycle() {
    // a required type arriving twice at one timestamp does not reset the set
    let mut nmea = Nmea::create_for_navigation(&[SentenceType::RMC, SentenceType::GGA]).unwrap();
    let rmc = "$GPRMC,123308.2,A,5521.76474,N,03731.92553,E,000.48,071.9,090317,010.2,E,A*3B";
    let gga = "$GPGGA,123308.2,5521.76474,N,03731.92553,E,1,08,2.2,211.5,M,13.1,M,,*52";
    assert_eq!(nmea.parse_for_fix(rmc.as_bytes()).unwrap(), FixType::Invalid);
    assert_eq!(nmea.parse_for_fix(rmc.as_bytes()).unwrap(), FixType::Invalid);
    assert_eq!(nmea.parse_for_fix(gga.as_bytes()).unwrap(), FixType::Gps);
}

#[test]
fn gsv_repeated_prn_overwrites() {
    let mut nmea = Nmea::default();
    let line = make_line("GPGSV,1,1,02,10,63,137,17,10,64,138,18");
    nmea.parse(line.as_bytes()).unwrap();
    let sats = nmea.satellites();
    assert_eq!(sats.len(), 1);
    assert_eq!(sats[0].prn(), 10);
    assert_eq!(sats[0].elevation(), Some(Decimal { negative: false, mantissa: 64, scale: 0 }));
    assert_eq!(sats[0].snr(), Some(Decimal { negative: false, mantissa: 18, scale: 0 }));
}

#[test]
fn gsv_new_cycle_resets_one_system() {
    let mut nmea = Nmea::default();
    let lines = [
        "$GPGSV,3,1,12,01,49,196,41,03,71,278,32,06,02,323,27,11,21,196,39*72",
        "$GPGSV,3,2,12,14,39,063,33,17,21,292,30,19,20,310,31,22,82,181,36*73",
        "$GPGSV,3,3,12,23,34,232,42,25,11,045,33,31,45,092,38,32,14,061,39*75",
        "$GLGSV,3,1,10,74,40,078,43,66,23,275,31,82,10,347,36,73,15,015,38*6B",
        "$GLGSV,3,2,10,75,19,135,36,65,76,333,31,88,32,233,33,81,40,302,38*6A",
        "$GLGSV,3,3,10,72,40,075,43,87,00,000,*6F",
    ];
    for line in &lines {
        nmea.parse(line.as_bytes()).unwrap();
    }
    assert_eq!(nmea.satellites().len(), 22);
    // a new cycle for one system discards that system's entries only
    nmea.parse("$GPGSV,4,4,15,26,02,112,,31,45,071,,32,01,066,*4C".as_bytes())
        .unwrap();
    let sats = nmea.satellites();
    assert_eq!(sats.len(), 13);
    assert_eq!(sats.iter().filter(|s| s.gnss_type() == GnssType::Glonass).count(), 10);
    assert_eq!(sats.iter().filter(|s| s.gnss_type() == GnssType::Gps).count(), 3);
}

#[test]
fn gsv_part_slot_overwrite_resets() {
    let mut nmea = Nmea::default();
    nmea.parse("$GPGSV,3,1,11,10,63,137,17,07,61,098,15,05,59,290,20,08,54,157,30*70".as_bytes())
        .unwrap();
    nmea.parse("$GPGSV,3,2,11,02,39,223,19,13,28,070,17,26,23,252,,04,14,186,14*79".as_bytes())
        .unwrap();
    nmea.parse("$GPGSV,3,3,11,29,09,301,24,16,09,020,,36,,,*76".as_bytes())
        .unwrap();
    assert_eq!(nmea.satellites().len(), 11);
    // the next cycle's first part discards the previous cycle
    nmea.parse("$GPGSV,3,1,11,10,63,137,17,07,61,098,15,05,59,290,20,08,54,157,30*70".as_bytes())
        .unwrap();
    assert_eq!(nmea.satellites().len(), 4);
}

#[test]
fn rmc_fields_aggregated() {
    let mut nmea = Nmea::default();
    nmea.parse("$GPRMC,092750.000,A,5321.6802,N,00630.3372,W,0.02,31.66,280511,,,A*43".as_bytes())
        .unwrap();
    assert_eq!(nmea.speed_over_ground(), Some(Decimal { negative: false, mantissa: 2, scale: 2 }));
    assert_eq!(nmea.true_course(), Some(Decimal { negative: false, mantissa: 3166, scale: 2 }));
    assert_eq!(nmea.fix_date, Some(Date { year: 2011, month: 5, day: 28 }));
    assert_eq!(nmea.fix_type(), Some(FixType::Gps));
}

#[test]
fn gsa_fields_aggregated() {
    let mut nmea = Nmea::default();
    nmea.parse("$GPGSA,A,3,10,07,05,02,29,04,08,13,,,,,1.72,1.03,1.38*0A".as_bytes())
        .unwrap();
    assert_eq!(nmea.pdop(), Some(Decimal { negative: false, mantissa: 172, scale: 2 }));
    assert_eq!(nmea.hdop(), Some(Decimal { negative: false, mantissa: 103, scale: 2 }));
    assert_eq!(nmea.vdop(), Some(Decimal { negative: false, mantissa: 138, scale: 2 }));
}

#[test]
fn vtg_fields_aggregated() {
    let mut nmea = Nmea::default();
    nmea.parse("$GPVTG,071.9,T,061.7,M,000.48,N,0000.88,K,A*10".as_bytes())
        .unwrap();
    assert_eq!(nmea.true_course(), Some(Decimal { negative: false, mantissa: 719, scale: 1 }));
    assert_eq!(
        nmea.speed_over_ground(),
        Some(Decimal { negative: false, mantissa: 48, scale: 2 })
    );
}

#[test]
fn gst_decodes() {
    let mut nmea = Nmea::default();
    assert_eq!(
        nmea.parse("$GPGST,182141.000,15.5,15.3,7.2,21.8,0.9,0.5,0.8*54".as_bytes()).unwrap(),
        SentenceType::GST
    );
    let sentence = NmeaSentence {
        talker_id: GnssType::Gps,
        message_id: SentenceType::GST,
        data: "182141.000,15.5,15.3,7.2,21.8,0.9,0.5,0.8".as_bytes().to_vec(),
        checksum: 0x54,
    };
    let gst = parse_gst(sentence).unwrap();
    assert_eq!(gst.time, Some(Time::from_hms_milli(18, 21, 41, 0)));
    assert_eq!(gst.rms_sd, Some(Decimal { negative: false, mantissa: 155, scale: 1 }));
    assert_eq!(gst.ellipse_semi_major_sd, Some(Decimal { negative: false, mantissa: 153, scale: 1 }));
    assert_eq!(gst.ellipse_semi_minor_sd, Some(Decimal { negative: false, mantissa: 72, scale: 1 }));
    assert_eq!(gst.err_ellipse_orientation, Some(Decimal { negative: false, mantissa: 218, scale: 1 }));
    assert_eq!(gst.lat_sd, Some(Decimal { negative: false, mantissa: 9, scale: 1 }));
    assert_eq!(gst.long_sd, Some(Decimal { negative: false, mantissa: 5, scale: 1 }));
    assert_eq!(gst.alt_sd, Some(Decimal { negative: false, mantissa: 8, scale: 1 }));
}

#[test]
fn gst_wrong_header() {
    let sentence = NmeaSentence {
        talker_id: GnssType::Gps,
        message_id: SentenceType::GGA,
        data: "182141.000,15.5,15.3,7.2,21.8,0.9,0.5,0.8".as_bytes().to_vec(),
        checksum: 0,
    };
    assert_eq!(
        parse_gst(sentence),
        Err(Error::WrongSentenceHeader { expected: SentenceType::GST, found: SentenceType::GGA })
    );
}

#[test]
fn gst_empty_fields_absent() {
    let sentence = NmeaSentence {
        talker_id: GnssType::Gps,
        message_id: SentenceType::GST,
        data: "182141.000,,15.3,,21.8,,0.5,".as_bytes().to_vec(),
        checksum: 0,
    };
    let gst = parse_gst(sentence).unwrap();
    assert_eq!(gst.rms_sd, None);
    assert_eq!(gst.ellipse_semi_minor_sd, None);
    assert_eq!(gst.lat_sd, None);
    assert_eq!(gst.alt_sd, None);
    assert_eq!(gst.ellipse_semi_major_sd, Some(Decimal { negative: false, mantissa: 153, scale: 1 }));
}

#[test]
fn rmc_void_status_rejected() {
    let mut nmea = Nmea::default();
    let line = make_line("GPRMC,092750.000,V,5321.6802,N,00630.3372,W,0.02,31.66,280511,,,N");
    assert_eq!(nmea.parse(line.as_bytes()), Err(Error::InvalidFixQuality));
    assert_eq!(nmea.latitude(), None);
    assert_eq!(nmea.fix_timestamp(), None);
}
