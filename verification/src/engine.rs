//! The long-lived engine: one aggregate fix state folded line by line, the
//! per-system visibility scans, and the navigation gate that withholds a
//! fix until every required message type has reported for one time instant.
use vstd::prelude::*;
use crate::types::Coordinate;
use crate::types::Date;
use crate::types::Decimal;
use crate::types::Error;
use crate::types::FixType;
use crate::types::GnssType;
use crate::types::Satellite;
use crate::types::SentenceType;
use crate::types::Time;
use crate::text::pow10;
use crate::text::pow10_u64;
use crate::classify::NmeaSentence;
use crate::classify::spec_classify;
use crate::classify::parse_nmea_sentence;
use crate::sentences::GgaData;
use crate::sentences::RmcData;
use crate::sentences::GllData;
use crate::sentences::VtgData;
use crate::sentences::GsaData;
use crate::sentences::spec_gga;
use crate::sentences::spec_rmc;
use crate::sentences::spec_gll;
use crate::sentences::spec_vtg;
use crate::sentences::spec_gsa;
use crate::sentences::spec_gst;
use crate::sentences::spec_gsv;
use crate::sentences::parse_gga;
use crate::sentences::parse_rmc;
use crate::sentences::parse_gll;
use crate::sentences::parse_vtg;
use crate::sentences::parse_gsa;
use crate::sentences::do_parse_gst;
use crate::sentences::parse_gsv;
use crate::scan::SystemScan;
use crate::scan::scan_view;
use crate::scan::spec_merge_part;
use crate::scan::slot_sats;
use crate::scan::append_scan;

verus! {

/// Which of the eligible message types are in a set. Only the
/// position, latitude/longitude and recommended-minimum reports may be
/// required, since only they time-stamp a fix.
#[derive(Clone, Copy, Debug, PartialEq, Eq, Structural)]
pub struct GateConfig {
    pub gga: bool,
    pub gll: bool,
    pub rmc: bool,
}

pub open spec fn gate_none() -> GateConfig {
    GateConfig { gga: false, gll: false, rmc: false }
}

pub open spec fn gate_eligible(st: SentenceType) -> bool {
    st == SentenceType::GGA || st == SentenceType::GLL || st == SentenceType::RMC
}

pub open spec fn req_has(c: GateConfig, st: SentenceType) -> bool {
    match st {
        SentenceType::GGA => c.gga,
        SentenceType::GLL => c.gll,
        SentenceType::RMC => c.rmc,
        _ => false,
    }
}

pub open spec fn seen_with(c: GateConfig, st: SentenceType) -> GateConfig {
    match st {
        SentenceType::GGA => GateConfig { gga: true, gll: c.gll, rmc: c.rmc },
        SentenceType::GLL => GateConfig { gga: c.gga, gll: true, rmc: c.rmc },
        SentenceType::RMC => GateConfig { gga: c.gga, gll: c.gll, rmc: true },
        _ => c,
    }
}

pub open spec fn covers(s: GateConfig, req: GateConfig) -> bool {
    (req.gga ==> s.gga) && (req.gll ==> s.gll) && (req.rmc ==> s.rmc)
}

/// One step of the navigation gate: a line of a type outside the required
/// set changes nothing; a required type whose record timestamp differs from
/// the cycle's rolls the cycle over before being recorded; once every
/// required type has been seen the set clears and the step reports
/// completion.
pub open spec fn gate_step(
    req: GateConfig,
    seen: GateConfig,
    ct: Option<Time>,
    st: SentenceType,
    rt: Option<Time>,
) -> (GateConfig, Option<Time>, bool) {
    if !req_has(req, st) {
        (seen, ct, false)
    } else {
        let s0 = if rt == ct {
            seen
        } else {
            gate_none()
        };
        let s1 = seen_with(s0, st);
        if covers(s1, req) {
            (gate_none(), rt, true)
        } else {
            (s1, rt, false)
        }
    }
}

/// The required set a construction slice denotes, or the first type in it
/// that cannot carry a fix update.
pub open spec fn spec_nav_config(rs: Seq<SentenceType>) -> Result<GateConfig, Error>
    decreases rs.len(),
{
    if rs.len() == 0 {
        Ok(gate_none())
    } else {
        match spec_nav_config(rs.drop_last()) {
            Err(e) => Err(e),
            Ok(c) => if !gate_eligible(rs.last()) {
                Err(Error::InvalidNavConfig(rs.last()))
            } else {
                Ok(seen_with(c, rs.last()))
            },
        }
    }
}

/// The aggregate fix state, the per-system visibility scans and the
/// navigation-gate bookkeeping. Every field is either "not yet known" or
/// reflects the most recently applied record that reported it.
pub struct Nmea {
    pub fix_time: Option<Time>,
    pub fix_date: Option<Date>,
    pub fix_type: Option<FixType>,
    pub latitude: Option<Coordinate>,
    pub longitude: Option<Coordinate>,
    pub altitude: Option<Decimal>,
    pub geoid_separation: Option<Decimal>,
    pub num_of_fix_satellites: Option<u32>,
    pub hdop: Option<Decimal>,
    pub vdop: Option<Decimal>,
    pub pdop: Option<Decimal>,
    pub speed_over_ground: Option<Decimal>,
    pub true_course: Option<Decimal>,
    pub gps_scan: SystemScan,
    pub glonass_scan: SystemScan,
    pub galileo_scan: SystemScan,
    pub beidou_scan: SystemScan,
    pub other_scan: SystemScan,
    pub required: GateConfig,
    pub seen: GateConfig,
    pub cycle_time: Option<Time>,
}

/// The scan of one system, as slots of satellite sequences.
pub open spec fn scan_of(n: Nmea, g: GnssType) -> Seq<Option<Seq<Satellite>>> {
    match g {
        GnssType::Gps => scan_view(n.gps_scan.parts@),
        GnssType::Glonass => scan_view(n.glonass_scan.parts@),
        GnssType::Galileo => scan_view(n.galileo_scan.parts@),
        GnssType::Beidou => scan_view(n.beidou_scan.parts@),
        GnssType::Unknown => scan_view(n.other_scan.parts@),
    }
}

/// The visibility snapshot: all systems' slots, in a fixed system order.
pub open spec fn spec_satellites(n: Nmea) -> Seq<Satellite> {
    slot_sats(scan_of(n, GnssType::Gps)) + slot_sats(scan_of(n, GnssType::Glonass)) + slot_sats(
        scan_of(n, GnssType::Galileo),
    ) + slot_sats(scan_of(n, GnssType::Beidou)) + slot_sats(scan_of(n, GnssType::Unknown))
}

pub open spec fn same_gate(a: Nmea, b: Nmea) -> bool {
    b.required == a.required && b.seen == a.seen && b.cycle_time == a.cycle_time
}

pub open spec fn same_aggregate(a: Nmea, b: Nmea) -> bool {
    b.fix_time == a.fix_time && b.fix_date == a.fix_date && b.fix_type == a.fix_type && b.latitude
        == a.latitude && b.longitude == a.longitude && b.altitude == a.altitude
        && b.geoid_separation == a.geoid_separation && b.num_of_fix_satellites
        == a.num_of_fix_satellites && b.hdop == a.hdop && b.vdop == a.vdop && b.pdop == a.pdop
        && b.speed_over_ground == a.speed_over_ground && b.true_course == a.true_course
        && b.gps_scan == a.gps_scan && b.glonass_scan == a.glonass_scan && b.galileo_scan
        == a.galileo_scan && b.beidou_scan == a.beidou_scan && b.other_scan == a.other_scan
}

/// A freshly constructed engine: nothing known, required set `req`.
pub open spec fn nmea_fresh(n: Nmea, req: GateConfig) -> bool {
    n.fix_time is None && n.fix_date is None && n.fix_type is None && n.latitude is None
        && n.longitude is None && n.altitude is None && n.geoid_separation is None
        && n.num_of_fix_satellites is None && n.hdop is None && n.vdop is None && n.pdop is None
        && n.speed_over_ground is None && n.true_course is None && n.gps_scan.parts@.len() == 0
        && n.glonass_scan.parts@.len() == 0 && n.galileo_scan.parts@.len() == 0
        && n.beidou_scan.parts@.len() == 0 && n.other_scan.parts@.len() == 0 && n.required == req
        && n.seen == gate_none() && n.cycle_time is None
}

/// A position report folded in: each present field overwrites, each absent
/// field leaves the prior value; nothing else of the aggregate moves.
pub open spec fn gga_applied(pre: Nmea, post: Nmea, g: GgaData) -> bool {
    post.fix_time == (if g.fix_time is Some {
        g.fix_time
    } else {
        pre.fix_time
    }) && post.fix_type == Some(g.fix_type) && post.latitude == (if g.latitude is Some {
        g.latitude
    } else {
        pre.latitude
    }) && post.longitude == (if g.longitude is Some {
        g.longitude
    } else {
        pre.longitude
    }) && post.num_of_fix_satellites == (if g.fix_satellites is Some {
        g.fix_satellites
    } else {
        pre.num_of_fix_satellites
    }) && post.hdop == (if g.hdop is Some {
        g.hdop
    } else {
        pre.hdop
    }) && post.altitude == (if g.altitude is Some {
        g.altitude
    } else {
        pre.altitude
    }) && post.geoid_separation == (if g.geoid_separation is Some {
        g.geoid_separation
    } else {
        pre.geoid_separation
    }) && post.fix_date == pre.fix_date && post.vdop == pre.vdop && post.pdop == pre.pdop
        && post.speed_over_ground == pre.speed_over_ground && post.true_course == pre.true_course
        && post.gps_scan == pre.gps_scan && post.glonass_scan == pre.glonass_scan
        && post.galileo_scan == pre.galileo_scan && post.beidou_scan == pre.beidou_scan
        && post.other_scan == pre.other_scan
}

/// A recommended-minimum report folded in. A valid report carries an
/// autonomous fix.
pub open spec fn rmc_applied(pre: Nmea, post: Nmea, d: RmcData) -> bool {
    post.fix_time == (if d.fix_time is Some {
        d.fix_time
    } else {
        pre.fix_time
    }) && post.fix_date == (if d.fix_date is Some {
        d.fix_date
    } else {
        pre.fix_date
    }) && post.fix_type == Some(FixType::Gps) && post.latitude == (if d.latitude is Some {
        d.latitude
    } else {
        pre.latitude
    }) && post.longitude == (if d.longitude is Some {
        d.longitude
    } else {
        pre.longitude
    }) && post.speed_over_ground == (if d.speed_over_ground is Some {
        d.speed_over_ground
    } else {
        pre.speed_over_ground
    }) && post.true_course == (if d.true_course is Some {
        d.true_course
    } else {
        pre.true_course
    }) && post.altitude == pre.altitude && post.geoid_separation == pre.geoid_separation
        && post.num_of_fix_satellites == pre.num_of_fix_satellites && post.hdop == pre.hdop
        && post.vdop == pre.vdop && post.pdop == pre.pdop && post.gps_scan == pre.gps_scan
        && post.glonass_scan == pre.glonass_scan && post.galileo_scan == pre.galileo_scan
        && post.beidou_scan == pre.beidou_scan && post.other_scan == pre.other_scan
}

/// A latitude/longitude report folded in.
pub open spec fn gll_applied(pre: Nmea, post: Nmea, d: GllData) -> bool {
    post.fix_time == (if d.fix_time is Some {
        d.fix_time
    } else {
        pre.fix_time
    }) && post.latitude == (if d.latitude is Some {
        d.latitude
    } else {
        pre.latitude
    }) && post.longitude == (if d.longitude is Some {
        d.longitude
    } else {
        pre.longitude
    }) && post.fix_date == pre.fix_date && post.fix_type == pre.fix_type && post.altitude
        == pre.altitude && post.geoid_separation == pre.geoid_separation
        && post.num_of_fix_satellites == pre.num_of_fix_satellites && post.hdop == pre.hdop
        && post.vdop == pre.vdop && post.pdop == pre.pdop && post.speed_over_ground
        == pre.speed_over_ground && post.true_course == pre.true_course && post.gps_scan
        == pre.gps_scan && post.glonass_scan == pre.glonass_scan && post.galileo_scan
        == pre.galileo_scan && post.beidou_scan == pre.beidou_scan && post.other_scan
        == pre.other_scan
}

/// A course-and-speed report folded in.
pub open spec fn vtg_applied(pre: Nmea, post: Nmea, d: VtgData) -> bool {
    post.true_course == (if d.true_course is Some {
        d.true_course
    } else {
        pre.true_course
    }) && post.speed_over_ground == (if d.speed_over_ground is Some {
        d.speed_over_ground
    } else {
        pre.speed_over_ground
    }) && post.fix_time == pre.fix_time && post.fix_date == pre.fix_date && post.fix_type
        == pre.fix_type && post.latitude == pre.latitude && post.longitude == pre.longitude
        && post.altitude == pre.altitude && post.geoid_separation == pre.geoid_separation
        && post.num_of_fix_satellites == pre.num_of_fix_satellites && post.hdop == pre.hdop
        && post.vdop == pre.vdop && post.pdop == pre.pdop && post.gps_scan == pre.gps_scan
        && post.glonass_scan == pre.glonass_scan && post.galileo_scan == pre.galileo_scan
        && post.beidou_scan == pre.beidou_scan && post.other_scan == pre.other_scan
}

/// A solution-geometry report folded in.
pub open spec fn gsa_applied(pre: Nmea, post: Nmea, d: GsaData) -> bool {
    post.pdop == (if d.pdop is Some {
        d.pdop
    } else {
        pre.pdop
    }) && post.hdop == (if d.hdop is Some {
        d.hdop
    } else {
        pre.hdop
    }) && post.vdop == (if d.vdop is Some {
        d.vdop
    } else {
        pre.vdop
    }) && post.fix_time == pre.fix_time && post.fix_date == pre.fix_date && post.fix_type
        == pre.fix_type && post.latitude == pre.latitude && post.longitude == pre.longitude
        && post.altitude == pre.altitude && post.geoid_separation == pre.geoid_separation
        && post.num_of_fix_satellites == pre.num_of_fix_satellites && post.speed_over_ground
        == pre.speed_over_ground && post.true_course == pre.true_course && post.gps_scan
        == pre.gps_scan && post.glonass_scan == pre.glonass_scan && post.galileo_scan
        == pre.galileo_scan && post.beidou_scan == pre.beidou_scan && post.other_scan
        == pre.other_scan
}

/// A visibility-report part folded into its system's scan; the other
/// systems' scans and the whole aggregate stay put.
pub open spec fn gsv_applied(
    pre: Nmea,
    post: Nmea,
    talker: GnssType,
    total: int,
    part: int,
    sats: Seq<Satellite>,
) -> bool {
    scan_of(post, talker) == spec_merge_part(scan_of(pre, talker), total, part, sats) && (talker
        != GnssType::Gps ==> post.gps_scan == pre.gps_scan) && (talker != GnssType::Glonass
        ==> post.glonass_scan == pre.glonass_scan) && (talker != GnssType::Galileo
        ==> post.galileo_scan == pre.galileo_scan) && (talker != GnssType::Beidou
        ==> post.beidou_scan == pre.beidou_scan) && (talker != GnssType::Unknown ==> post.other_scan
        == pre.other_scan) && post.fix_time == pre.fix_time && post.fix_date == pre.fix_date
        && post.fix_type == pre.fix_type && post.latitude == pre.latitude && post.longitude
        == pre.longitude && post.altitude == pre.altitude && post.geoid_separation
        == pre.geoid_separation && post.num_of_fix_satellites == pre.num_of_fix_satellites
        && post.hdop == pre.hdop && post.vdop == pre.vdop && post.pdop == pre.pdop
        && post.speed_over_ground == pre.speed_over_ground && post.true_course == pre.true_course
}

/// What one classified sentence yields: on success, the timestamp its
/// record carried, which keys the navigation gate; otherwise the failure. A
/// position report claiming no fix, and a report voided by its status
/// letter, are rejected whole.
pub open spec fn spec_sent_result(msg: SentenceType, data: Seq<u8>, talker: GnssType) -> Result<
    Option<Time>,
    Error,
> {
    match msg {
        SentenceType::GGA => match spec_gga(data) {
            Err(e) => Err(e),
            Ok(g) => if g.fix_type == FixType::Invalid {
                Err(Error::InvalidFixQuality)
            } else {
                Ok(g.fix_time)
            },
        },
        SentenceType::RMC => match spec_rmc(data) {
            Err(e) => Err(e),
            Ok(d) => if !d.status_active {
                Err(Error::InvalidFixQuality)
            } else {
                Ok(d.fix_time)
            },
        },
        SentenceType::GLL => match spec_gll(data) {
            Err(e) => Err(e),
            Ok(d) => if !d.status_active {
                Err(Error::InvalidFixQuality)
            } else {
                Ok(d.fix_time)
            },
        },
        SentenceType::VTG => match spec_vtg(data) {
            Err(e) => Err(e),
            Ok(_) => Ok(None),
        },
        SentenceType::GSA => match spec_gsa(data) {
            Err(e) => Err(e),
            Ok(_) => Ok(None),
        },
        SentenceType::GSV => match spec_gsv(data, talker) {
            Err(e) => Err(e),
            Ok(_) => Ok(None),
        },
        SentenceType::GST => match spec_gst(data) {
            Err(e) => Err(e),
            Ok(_) => Ok(None),
        },
    }
}

/// How one classified sentence moves the aggregate: not at all on failure,
/// and by its record's applied-predicate on success.
pub open spec fn sent_applied(
    pre: Nmea,
    post: Nmea,
    talker: GnssType,
    msg: SentenceType,
    data: Seq<u8>,
) -> bool {
    match spec_sent_result(msg, data, talker) {
        Err(_) => post == pre,
        Ok(_) => match msg {
            SentenceType::GGA => gga_applied(pre, post, spec_gga(data)->Ok_0),
            SentenceType::RMC => rmc_applied(pre, post, spec_rmc(data)->Ok_0),
            SentenceType::GLL => gll_applied(pre, post, spec_gll(data)->Ok_0),
            SentenceType::VTG => vtg_applied(pre, post, spec_vtg(data)->Ok_0),
            SentenceType::GSA => gsa_applied(pre, post, spec_gsa(data)->Ok_0),
            SentenceType::GSV => gsv_applied(
                pre,
                post,
                talker,
                spec_gsv(data, talker)->Ok_0.0 as int,
                spec_gsv(data, talker)->Ok_0.1 as int,
                spec_gsv(data, talker)->Ok_0.2,
            ),
            SentenceType::GST => post == pre,
        },
    }
}

/// The whole effect of feeding one raw line to `parse`.
pub open spec fn parse_transition(
    pre: Nmea,
    post: Nmea,
    line: Seq<u8>,
    r: Result<SentenceType, Error>,
) -> bool {
    match spec_classify(line) {
        Err(e) => r == Err::<SentenceType, Error>(e) && post == pre,
        Ok(c) => sent_applied(pre, post, c.talker, c.message, c.data) && same_gate(pre, post) && r
            == (match spec_sent_result(c.message, c.data, c.talker) {
            Err(e) => Err(e),
            Ok(_) => Ok(c.message),
        }),
    }
}

/// The whole effect of feeding one raw line to `parse_for_fix`: the
/// aggregate moves as under `parse`, the navigation gate advances one step at
/// the incoming record's timestamp, and the call reports the aggregate's
/// fix type only on the step that completes the required set.
pub open spec fn fix_transition(
    pre: Nmea,
    post: Nmea,
    line: Seq<u8>,
    r: Result<FixType, Error>,
) -> bool {
    match spec_classify(line) {
        Err(e) => r == Err::<FixType, Error>(e) && post == pre,
        Ok(c) => match spec_sent_result(c.message, c.data, c.talker) {
            Err(e) => r == Err::<FixType, Error>(e) && post == pre,
            Ok(rt) => {
                let (s2, ct2, complete) = gate_step(
                    pre.required,
                    pre.seen,
                    pre.cycle_time,
                    c.message,
                    rt,
                );
                &&& sent_applied(pre, post, c.talker, c.message, c.data)
                &&& post.required == pre.required
                &&& post.seen == s2
                &&& post.cycle_time == ct2
                &&& r == Ok::<FixType, Error>(
                    if complete {
                        match post.fix_type {
                            Some(ft) => ft,
                            None => FixType::Invalid,
                        }
                    } else {
                        FixType::Invalid
                    },
                )
            },
        },
    }
}

impl Nmea {
    fn fresh(req: GateConfig) -> (r: Nmea)
        ensures
            nmea_fresh(r, req),
    {
        Nmea {
            fix_time: None,
            fix_date: None,
            fix_type: None,
            latitude: None,
            longitude: None,
            altitude: None,
            geoid_separation: None,
            num_of_fix_satellites: None,
            hdop: None,
            vdop: None,
            pdop: None,
            speed_over_ground: None,
            true_course: None,
            gps_scan: SystemScan::empty(),
            glonass_scan: SystemScan::empty(),
            galileo_scan: SystemScan::empty(),
            beidou_scan: SystemScan::empty(),
            other_scan: SystemScan::empty(),
            required: req,
            seen: GateConfig { gga: false, gll: false, rmc: false },
            cycle_time: None,
        }
    }

    /// Builds an engine gated on a caller-chosen, non-empty set of message
    /// types; a type that cannot time-stamp a fix is a configuration
    /// error.
    pub fn create_for_navigation(required: &[SentenceType]) -> (r: Result<Nmea, Error>)
        ensures
            required@.len() == 0 ==> r == Err::<Nmea, Error>(Error::EmptyNavConfig),
            required@.len() > 0 ==> match spec_nav_config(required@) {
                Err(e) => r == Err::<Nmea, Error>(e),
                Ok(m) => r matches Ok(n) && nmea_fresh(n, m),
            },
    {
        if required.len() == 0 {
            return Err(Error::EmptyNavConfig);
        }
        let mut cfg = GateConfig { gga: false, gll: false, rmc: false };
        let mut bad: Option<Error> = None;
        let mut i: usize = 0;
        while i < required.len()
            invariant
                i <= required@.len(),
                bad is None ==> spec_nav_config(required@.subrange(0, i as int)) == Ok::<
                    GateConfig,
                    Error,
                >(cfg),
                bad matches Some(e) ==> spec_nav_config(required@.subrange(0, i as int)) == Err::<
                    GateConfig,
                    Error,
                >(e),
            decreases required@.len() - i,
        {
            proof {
                assert(required@.subrange(0, i + 1 as int).drop_last() =~= required@.subrange(
                    0,
                    i as int,
                ));
                assert(required@.subrange(0, i + 1 as int).last() == required@[i as int]);
            }
            if bad.is_none() {
                match required[i] {
                    SentenceType::GGA => {
                        cfg = GateConfig { gga: true, gll: cfg.gll, rmc: cfg.rmc };
                    },
                    SentenceType::GLL => {
                        cfg = GateConfig { gga: cfg.gga, gll: true, rmc: cfg.rmc };
                    },
                    SentenceType::RMC => {
                        cfg = GateConfig { gga: cfg.gga, gll: cfg.gll, rmc: true };
                    },
                    _ => {
                        bad = Some(Error::InvalidNavConfig(required[i]));
                    },
                }
            }
            i = i + 1;
        }
        assert(required@.subrange(0, required@.len() as int) =~= required@);
        match bad {
            Some(e) => Err(e),
            None => Ok(Nmea::fresh(cfg)),
        }
    }

    fn process_gga(&mut self, g: GgaData)
        ensures
            gga_applied(*old(self), *final(self), g),
            same_gate(*old(self), *final(self)),
    {
        match g.fix_time {
            Some(t) => {
                self.fix_time = Some(t);
            },
            None => {},
        }
        self.fix_type = Some(g.fix_type);
        match g.latitude {
            Some(v) => {
                self.latitude = Some(v);
            },
            None => {},
        }
        match g.longitude {
            Some(v) => {
                self.longitude = Some(v);
            },
            None => {},
        }
        match g.fix_satellites {
            Some(v) => {
                self.num_of_fix_satellites = Some(v);
            },
            None => {},
        }
        match g.hdop {
            Some(v) => {
                self.hdop = Some(v);
            },
            None => {},
        }
        match g.altitude {
            Some(v) => {
                self.altitude = Some(v);
            },
            None => {},
        }
        match g.geoid_separation {
            Some(v) => {
                self.geoid_separation = Some(v);
            },
            None => {},
        }
    }

    fn process_rmc(&mut self, d: RmcData)
        ensures
            rmc_applied(*old(self), *final(self), d),
            same_gate(*old(self), *final(self)),
    {
        match d.fix_time {
            Some(t) => {
                self.fix_time = Some(t);
            },
            None => {},
        }
        match d.fix_date {
            Some(t) => {
                self.fix_date = Some(t);
            },
            None => {},
        }
        self.fix_type = Some(FixType::Gps);
        match d.latitude {
            Some(v) => {
                self.latitude = Some(v);
            },
            None => {},
        }
        match d.longitude {
            Some(v) => {
                self.longitude = Some(v);
            },
            None => {},
        }
        match d.speed_over_ground {
            Some(v) => {
                self.speed_over_ground = Some(v);
            },
            None => {},
        }
        match d.true_course {
            Some(v) => {
                self.true_course = Some(v);
            },
            None => {},
        }
    }

    fn process_gll(&mut self, d: GllData)
        ensures
            gll_applied(*old(self), *final(self), d),
            same_gate(*old(self), *final(self)),
    {
        match d.fix_time {
            Some(t) => {
                self.fix_time = Some(t);
            },
            None => {},
        }
        match d.latitude {
            Some(v) => {
                self.latitude = Some(v);
            },
            None => {},
        }
        match d.longitude {
            Some(v) => {
                self.longitude = Some(v);
            },
            None => {},
        }
    }

    fn process_vtg(&mut self, d: VtgData)
        ensures
            vtg_applied(*old(self), *final(self), d),
            same_gate(*old(self), *final(self)),
    {
        match d.true_course {
            Some(v) => {
                self.true_course = Some(v);
            },
            None => {},
        }
        match d.speed_over_ground {
            Some(v) => {
                self.speed_over_ground = Some(v);
            },
            None => {},
        }
    }

    fn process_gsa(&mut self, d: GsaData)
        ensures
            gsa_applied(*old(self), *final(self), d),
            same_gate(*old(self), *final(self)),
    {
        match d.pdop {
            Some(v) => {
                self.pdop = Some(v);
            },
            None => {},
        }
        match d.hdop {
            Some(v) => {
                self.hdop = Some(v);
            },
            None => {},
        }
        match d.vdop {
            Some(v) => {
                self.vdop = Some(v);
            },
            None => {},
        }
    }

    fn process_gsv(&mut self, talker: GnssType, total: u32, part: u32, sats: &Vec<Satellite>)
        requires
            1 <= part <= total,
        ensures
            gsv_applied(
                *old(self),
                *final(self),
                talker,
                total as int,
                part as int,
                sats@,
            ),
            same_gate(*old(self), *final(self)),
    {
        match talker {
            GnssType::Gps => self.gps_scan.merge_part(total, part, sats),
            GnssType::Glonass => self.glonass_scan.merge_part(total, part, sats),
            GnssType::Galileo => self.galileo_scan.merge_part(total, part, sats),
            GnssType::Beidou => self.beidou_scan.merge_part(total, part, sats),
            GnssType::Unknown => self.other_scan.merge_part(total, part, sats),
        }
    }

    fn apply_sentence(&mut self, s: NmeaSentence) -> (r: Result<Option<Time>, Error>)
        ensures
            sent_applied(*old(self), *final(self), s.talker_id, s.message_id, s.data@),
            same_gate(*old(self), *final(self)),
            r == spec_sent_result(s.message_id, s.data@, s.talker_id),
    {
        match s.message_id {
            SentenceType::GGA => match parse_gga(s.data.as_slice()) {
                Err(e) => Err(e),
                Ok(g) => if g.fix_type == FixType::Invalid {
                    Err(Error::InvalidFixQuality)
                } else {
                    self.process_gga(g);
                    Ok(g.fix_time)
                },
            },
            SentenceType::RMC => match parse_rmc(s.data.as_slice()) {
                Err(e) => Err(e),
                Ok(d) => if !d.status_active {
                    Err(Error::InvalidFixQuality)
                } else {
                    self.process_rmc(d);
                    Ok(d.fix_time)
                },
            },
            SentenceType::GLL => match parse_gll(s.data.as_slice()) {
                Err(e) => Err(e),
                Ok(d) => if !d.status_active {
                    Err(Error::InvalidFixQuality)
                } else {
                    self.process_gll(d);
                    Ok(d.fix_time)
                },
            },
            SentenceType::VTG => match parse_vtg(s.data.as_slice()) {
                Err(e) => Err(e),
                Ok(d) => {
                    self.process_vtg(d);
                    Ok(None)
                },
            },
            SentenceType::GSA => match parse_gsa(s.data.as_slice()) {
                Err(e) => Err(e),
                Ok(d) => {
                    self.process_gsa(d);
                    Ok(None)
                },
            },
            SentenceType::GSV => match parse_gsv(s.data.as_slice(), s.talker_id) {
                Err(e) => Err(e),
                Ok(g) => {
                    self.process_gsv(s.talker_id, g.total_parts, g.part_index, &g.sats);
                    Ok(None)
                },
            },
            SentenceType::GST => match do_parse_gst(s.data.as_slice()) {
                Err(e) => Err(e),
                Ok(_) => Ok(None),
            },
        }
    }

    /// Feeds one raw line into the aggregate. The recognized message type
    /// comes back on success; every failure leaves the state exactly as it
    /// was.
    pub fn parse(&mut self, line: &[u8]) -> (r: Result<SentenceType, Error>)
        ensures
            parse_transition(*old(self), *final(self), line@, r),
    {
        let s = match parse_nmea_sentence(line) {
            Err(e) => {
                return Err(e);
            },
            Ok(s) => s,
        };
        let msg = s.message_id;
        match self.apply_sentence(s) {
            Err(e) => Err(e),
            Ok(_) => Ok(msg),
        }
    }

    fn opt_time_eq(a: &Option<Time>, b: &Option<Time>) -> (r: bool)
        ensures
            r == (a == b),
    {
        match (a, b) {
            (None, None) => true,
            (Some(x), Some(y)) => x.hour == y.hour && x.minute == y.minute && x.second == y.second
                && x.millisecond == y.millisecond,
            _ => false,
        }
    }

    fn gate_apply(&mut self, st: SentenceType, rt: Option<Time>) -> (complete: bool)
        ensures
            same_aggregate(*old(self), *final(self)),
            final(self).required == old(self).required,
            (final(self).seen, final(self).cycle_time, complete) == gate_step(
                old(self).required,
                old(self).seen,
                old(self).cycle_time,
                st,
                rt,
            ),
    {
        let eligible: bool = match st {
            SentenceType::GGA => self.required.gga,
            SentenceType::GLL => self.required.gll,
            SentenceType::RMC => self.required.rmc,
            _ => false,
        };
        if !eligible {
            return false;
        }
        if !Self::opt_time_eq(&rt, &self.cycle_time) {
            self.seen = GateConfig { gga: false, gll: false, rmc: false };
        }
        self.cycle_time = rt;
        match st {
            SentenceType::GGA => {
                self.seen = GateConfig { gga: true, gll: self.seen.gll, rmc: self.seen.rmc };
            },
            SentenceType::GLL => {
                self.seen = GateConfig { gga: self.seen.gga, gll: true, rmc: self.seen.rmc };
            },
            SentenceType::RMC => {
                self.seen = GateConfig { gga: self.seen.gga, gll: self.seen.gll, rmc: true };
            },
            _ => {},
        }
        let done = (!self.required.gga || self.seen.gga) && (!self.required.gll || self.seen.gll)
            && (!self.required.rmc || self.seen.rmc);
        if done {
            self.seen = GateConfig { gga: false, gll: false, rmc: false };
        }
        done
    }

    /// Feeds one raw line in navigation mode: the aggregate is updated as
    /// under `parse`, and the call reports the aggregate's fix type only
    /// once every required message type has reported for the current time
    /// instant; until then it reports "invalid".
    pub fn parse_for_fix(&mut self, line: &[u8]) -> (r: Result<FixType, Error>)
        ensures
            fix_transition(*old(self), *final(self), line@, r),
    {
        let s = match parse_nmea_sentence(line) {
            Err(e) => {
                return Err(e);
            },
            Ok(s) => s,
        };
        let msg = s.message_id;
        let rt = match self.apply_sentence(s) {
            Err(e) => {
                return Err(e);
            },
            Ok(rt) => rt,
        };
        let complete = self.gate_apply(msg, rt);
        if complete {
            match self.fix_type {
                Some(ft) => Ok(ft),
                None => Ok(FixType::Invalid),
            }
        } else {
            Ok(FixType::Invalid)
        }
    }

    pub fn fix_timestamp(&self) -> (r: Option<Time>)
        ensures
            r == self.fix_time,
    {
        self.fix_time
    }

    pub fn fix_type(&self) -> (r: Option<FixType>)
        ensures
            r == self.fix_type,
    {
        self.fix_type
    }

    pub fn latitude(&self) -> (r: Option<Coordinate>)
        ensures
            r == self.latitude,
    {
        self.latitude
    }

    pub fn longitude(&self) -> (r: Option<Coordinate>)
        ensures
            r == self.longitude,
    {
        self.longitude
    }

    pub fn altitude(&self) -> (r: Option<Decimal>)
        ensures
            r == self.altitude,
    {
        self.altitude
    }

    pub fn geoid_separation(&self) -> (r: Option<Decimal>)
        ensures
            r == self.geoid_separation,
    {
        self.geoid_separation
    }

    pub fn fix_satellites(&self) -> (r: Option<u32>)
        ensures
            r == self.num_of_fix_satellites,
    {
        self.num_of_fix_satellites
    }

    pub fn hdop(&self) -> (r: Option<Decimal>)
        ensures
            r == self.hdop,
    {
        self.hdop
    }

    pub fn vdop(&self) -> (r: Option<Decimal>)
        ensures
            r == self.vdop,
    {
        self.vdop
    }

    pub fn pdop(&self) -> (r: Option<Decimal>)
        ensures
            r == self.pdop,
    {
        self.pdop
    }

    pub fn speed_over_ground(&self) -> (r: Option<Decimal>)
        ensures
            r == self.speed_over_ground,
    {
        self.speed_over_ground
    }

    pub fn true_course(&self) -> (r: Option<Decimal>)
        ensures
            r == self.true_course,
    {
        self.true_course
    }

    /// The current visibility snapshot, every system's slots in a fixed
    /// order; the order is stable for a given state.
    pub fn satellites(&self) -> (r: Vec<Satellite>)
        ensures
            r@ == spec_satellites(*self),
    {
        let mut out: Vec<Satellite> = Vec::new();
        append_scan(&mut out, &self.gps_scan);
        append_scan(&mut out, &self.glonass_scan);
        append_scan(&mut out, &self.galileo_scan);
        append_scan(&mut out, &self.beidou_scan);
        append_scan(&mut out, &self.other_scan);
        out
    }
}

impl Default for Nmea {
    /// An engine with nothing known and no required set.
    fn default() -> (r: Nmea)
        ensures
            nmea_fresh(r, gate_none()),
    {
        Nmea::fresh(GateConfig { gga: false, gll: false, rmc: false })
    }
}

/// A decimal as the decoders produce them: at most nine digits.
pub open spec fn small_dec(d: Decimal) -> bool {
    d.mantissa < 1000000000 && d.scale <= 9
}

/// The numerator of `d` brought to scale `s` (for `s >= d.scale`).
pub open spec fn dec_scaled(d: Decimal, s: u32) -> int {
    if d.negative {
        -(d.mantissa * pow10((s - d.scale) as nat))
    } else {
        d.mantissa * pow10((s - d.scale) as nat)
    }
}

/// The exact sum of two decimals, at the finer of the two scales.
pub open spec fn spec_dec_add(a: Decimal, b: Decimal) -> Decimal {
    let s = if a.scale >= b.scale {
        a.scale
    } else {
        b.scale
    };
    let v = dec_scaled(a, s) + dec_scaled(b, s);
    Decimal { negative: v < 0, mantissa: (if v < 0 { -v } else { v }) as u64, scale: s }
}

/// Adds two decimals exactly.
fn add_dec(a: Decimal, b: Decimal) -> (r: Decimal)
    requires
        small_dec(a),
        small_dec(b),
    ensures
        r == spec_dec_add(a, b),
{
    let s = if a.scale >= b.scale {
        a.scale
    } else {
        b.scale
    };
    proof {
        crate::text::lemma_pow10_mono((s - a.scale) as nat, 9);
        crate::text::lemma_pow10_mono((s - b.scale) as nat, 9);
        crate::text::lemma_pow10_pos((s - a.scale) as nat);
        crate::text::lemma_pow10_pos((s - b.scale) as nat);
        assert(pow10(9) == 1000000000) by {
            reveal_with_fuel(pow10, 10);
        }
    }
    let pa = pow10_u64(s - a.scale);
    let pb = pow10_u64(s - b.scale);
    proof {
        vstd::arithmetic::mul::lemma_mul_upper_bound(
            a.mantissa as int,
            999999999,
            pa as int,
            1000000000,
        );
        vstd::arithmetic::mul::lemma_mul_upper_bound(
            b.mantissa as int,
            999999999,
            pb as int,
            1000000000,
        );
    }
    let ma = a.mantissa * pa;
    let mb = b.mantissa * pb;
    if a.negative == b.negative {
        Decimal { negative: a.negative && ma + mb > 0, mantissa: ma + mb, scale: s }
    } else {
        let (pos, neg) = if a.negative {
            (mb, ma)
        } else {
            (ma, mb)
        };
        if pos >= neg {
            Decimal { negative: false, mantissa: pos - neg, scale: s }
        } else {
            Decimal { negative: true, mantissa: neg - pos, scale: s }
        }
    }
}

impl Nmea {
    /// Altitude above the ellipsoid: the exact sum of the altitude and the
    /// geoid separation, available only when both are known. The decoders
    /// only ever store values of at most nine digits, for which the sum
    /// always exists.
    pub fn geoid_altitude(&self) -> (r: Option<Decimal>)
        ensures
            r == (match (self.altitude, self.geoid_separation) {
                (Some(a), Some(g)) => if small_dec(a) && small_dec(g) {
                    Some(spec_dec_add(a, g))
                } else {
                    None::<Decimal>
                },
                _ => None::<Decimal>,
            }),
    {
        match (self.altitude, self.geoid_separation) {
            (Some(a), Some(g)) => {
                if a.mantissa < 1000000000 && a.scale <= 9 && g.mantissa < 1000000000 && g.scale
                    <= 9 {
                    Some(add_dec(a, g))
                } else {
                    None
                }
            },
            _ => None,
        }
    }
}

/// Field-absence law: a record field that is textually absent leaves the
/// aggregate's prior value untouched, field by field.
pub proof fn lemma_absent_fields_preserved(pre: Nmea, post: Nmea, g: GgaData)
    requires
        gga_applied(pre, post, g),
    ensures
        g.fix_time is None ==> post.fix_time == pre.fix_time,
        g.latitude is None ==> post.latitude == pre.latitude,
        g.longitude is None ==> post.longitude == pre.longitude,
        g.fix_satellites is None ==> post.num_of_fix_satellites == pre.num_of_fix_satellites,
        g.hdop is None ==> post.hdop == pre.hdop,
        g.altitude is None ==> post.altitude == pre.altitude,
        g.geoid_separation is None ==> post.geoid_separation == pre.geoid_separation,
{
}

/// Gate law: with two distinct required types and nothing else required,
/// the first arrival of a cycle reports "invalid", the second completes the
/// cycle; a later timestamp rolls the cycle over, whether or not the first
/// cycle completed, and a re-arrival of an already-seen type changes
/// nothing.
pub proof fn lemma_gate_cycle(
    a: SentenceType,
    b: SentenceType,
    ct0: Option<Time>,
    t1: Option<Time>,
    t2: Option<Time>,
)
    requires
        gate_eligible(a),
        gate_eligible(b),
        a != b,
        ct0 != t1,
        t1 != t2,
    ensures
        ({
            let req = seen_with(seen_with(gate_none(), a), b);
            let (s1, c1, f1) = gate_step(req, gate_none(), ct0, a, t1);
            let (s2, c2, f2) = gate_step(req, s1, c1, b, t1);
            let (s3, c3, f3) = gate_step(req, s2, c2, a, t2);
            let (s4, c4, f4) = gate_step(req, s3, c3, b, t2);
            let (s3r, c3r, f3r) = gate_step(req, s1, c1, a, t1);
            let (s4r, c4r, f4r) = gate_step(req, s3r, c3r, b, t1);
            let (s5, c5, f5) = gate_step(req, s1, c1, a, t2);
            let (s6, c6, f6) = gate_step(req, s5, c5, b, t2);
            &&& !f1
            &&& f2
            &&& !f3
            &&& f4
            &&& !f3r && s3r == s1 && c3r == c1
            &&& f4r
            &&& !f5
            &&& f6
        }),
{
}

} // verus!
