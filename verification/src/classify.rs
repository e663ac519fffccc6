//! Framing one raw line: start marker, checksum marker and digits, the
//! exclusive-or checksum itself, and the talker / message-type header.
use vstd::prelude::*;
use crate::types::Error;
use crate::types::FramingErrorKind;
use crate::types::GnssType;
use crate::types::SentenceType;
use crate::text::is_digit;
use crate::text::first_of;
use crate::text::lemma_first_of_is;
use crate::text::xor_sum;
use crate::text::subvec;
use crate::text::COMMA;
use crate::text::DOLLAR;
use crate::text::STAR;
use crate::text::CR;
use crate::text::LF;

verus! {

/// A framed and checksum-checked line: which system sent it, which message
/// type it is, and the payload text after the leading field.
pub struct NmeaSentence {
    pub talker_id: GnssType,
    pub message_id: SentenceType,
    pub data: Vec<u8>,
    pub checksum: u8,
}

/// The same, at the specification level.
pub struct ClassifiedLine {
    pub talker: GnssType,
    pub message: SentenceType,
    pub data: Seq<u8>,
    pub checksum: u8,
}

pub open spec fn has_byte(s: Seq<u8>, b: u8) -> bool {
    exists|i: int| 0 <= i < s.len() && s[i] == b
}

/// The largest index at which `b` occurs (meaningful only when it occurs).
pub open spec fn last_of(s: Seq<u8>, b: u8) -> int
    decreases s.len(),
{
    if s.len() == 0 {
        0
    } else if s.last() == b {
        s.len() - 1
    } else {
        last_of(s.drop_last(), b)
    }
}

pub proof fn lemma_last_of_props(s: Seq<u8>, b: u8)
    requires
        has_byte(s, b),
    ensures
        0 <= last_of(s, b) < s.len(),
        s[last_of(s, b)] == b,
        forall|j: int| last_of(s, b) < j < s.len() ==> s[j] != b,
    decreases s.len(),
{
    if s.len() > 0 && s.last() != b {
        assert(has_byte(s.drop_last(), b)) by {
            let i = choose|i: int| 0 <= i < s.len() && s[i] == b;
            assert(s.drop_last()[i] == b);
        }
        lemma_last_of_props(s.drop_last(), b);
        assert(forall|j: int|
            last_of(s, b) < j < s.len() - 1 ==> s.drop_last()[j] == #[trigger] s[j]);
    }
}

pub open spec fn is_hex(b: u8) -> bool {
    is_digit(b) || (65 <= b <= 70) || (97 <= b <= 102)
}

pub open spec fn hex_val(b: u8) -> int {
    if is_digit(b) {
        b - 48
    } else if 65 <= b <= 70 {
        b - 55
    } else {
        b - 87
    }
}

/// What may follow the two checksum digits: nothing, a line feed, or a
/// carriage return and line feed.
pub open spec fn checksum_tail_ok(t: Seq<u8>) -> bool {
    (t.len() == 2 || (t.len() == 3 && t[2] == LF) || (t.len() == 4 && t[2] == CR && t[3] == LF))
        && is_hex(t[0]) && is_hex(t[1])
}

/// The system a two-byte talker prefix names, when the prefix is known.
pub open spec fn spec_talker(a: u8, b: u8) -> Option<GnssType> {
    if a == 71 && b == 80 {
        Some(GnssType::Gps)
    } else if a == 71 && b == 76 {
        Some(GnssType::Glonass)
    } else if a == 71 && b == 65 {
        Some(GnssType::Galileo)
    } else if a == 71 && b == 66 {
        Some(GnssType::Beidou)
    } else if a == 66 && b == 68 {
        Some(GnssType::Beidou)
    } else if a == 71 && b == 78 {
        Some(GnssType::Unknown)
    } else {
        None
    }
}

/// The supported message type a three-byte tag names, if any.
pub open spec fn spec_tag(t0: u8, t1: u8, t2: u8) -> Option<SentenceType> {
    if t0 == 71 && t1 == 71 && t2 == 65 {
        Some(SentenceType::GGA)
    } else if t0 == 71 && t1 == 76 && t2 == 76 {
        Some(SentenceType::GLL)
    } else if t0 == 71 && t1 == 83 && t2 == 65 {
        Some(SentenceType::GSA)
    } else if t0 == 71 && t1 == 83 && t2 == 84 {
        Some(SentenceType::GST)
    } else if t0 == 71 && t1 == 83 && t2 == 86 {
        Some(SentenceType::GSV)
    } else if t0 == 82 && t1 == 77 && t2 == 67 {
        Some(SentenceType::RMC)
    } else if t0 == 86 && t1 == 84 && t2 == 71 {
        Some(SentenceType::VTG)
    } else {
        None
    }
}

/// Reads the leading field: a known five-byte header yields its system and
/// the trailing three bytes as the tag; otherwise the whole field is the
/// tag, under an unknown system, and matches a supported type only when it
/// is exactly three bytes long. Shorter fields cannot name a type at all.
pub open spec fn spec_header(h: Seq<u8>) -> Option<(GnssType, u8, u8, u8, bool)> {
    if h.len() == 5 && spec_talker(h[0], h[1]) is Some {
        Some((spec_talker(h[0], h[1]).unwrap(), h[2], h[3], h[4], true))
    } else if h.len() >= 3 {
        Some((GnssType::Unknown, h[0], h[1], h[2], h.len() == 3))
    } else {
        None
    }
}

/// Classification of one raw line, validated in order: start marker, a
/// checksum marker with two hexadecimal digits at the end, the checksum
/// itself over every byte between the two markers, then the header field.
/// An unrecognized tag is reported with its first three bytes.
pub open spec fn spec_classify(line: Seq<u8>) -> Result<ClassifiedLine, Error> {
    if line.len() == 0 || line[0] != DOLLAR {
        Err(Error::ParsingError(FramingErrorKind::NoStartMarker))
    } else if !has_byte(line, STAR) {
        Err(Error::ParsingError(FramingErrorKind::NoChecksumField))
    } else {
        let st = last_of(line, STAR);
        let tail = line.subrange(st + 1, line.len() as int);
        if !checksum_tail_ok(tail) {
            Err(Error::ParsingError(FramingErrorKind::BadChecksumDigits))
        } else {
            let found = (hex_val(tail[0]) * 16 + hex_val(tail[1])) as u8;
            let payload = line.subrange(1, st);
            let calc = xor_sum(payload);
            if calc != found {
                Err(Error::ChecksumMismatch { calculated: calc, found: found })
            } else {
                let h = first_of(payload, COMMA);
                let header = payload.subrange(0, h);
                let data = if h < payload.len() {
                    payload.subrange(h + 1, payload.len() as int)
                } else {
                    Seq::empty()
                };
                match spec_header(header) {
                    None => Err(Error::ParsingError(FramingErrorKind::BadHeaderField)),
                    Some((talker, t0, t1, t2, exact)) => if !exact {
                        Err(Error::Unsupported(t0, t1, t2))
                    } else {
                        match spec_tag(t0, t1, t2) {
                            None => Err(Error::Unsupported(t0, t1, t2)),
                            Some(msg) => Ok(
                                ClassifiedLine {
                                    talker: talker,
                                    message: msg,
                                    data: data,
                                    checksum: found,
                                },
                            ),
                        }
                    },
                }
            }
        }
    }
}

/// Checksum law: take any line that classifies successfully and corrupt any
/// single byte between the start marker and the checksum marker, to any
/// other byte that is not itself the checksum marker. Classification of the
/// corrupted line then fails with a checksum mismatch — the corrupted
/// payload is never decoded.
pub proof fn lemma_checksum_detects_corruption(line: Seq<u8>, i: int, b: u8)
    requires
        spec_classify(line) is Ok,
        1 <= i < last_of(line, STAR),
        b != line[i],
        b != STAR,
    ensures
        spec_classify(line.update(i, b)) matches Err(e) && (e matches Error::ChecksumMismatch {
            calculated,
            found,
        } && calculated != found),
{
    let l2 = line.update(i, b);
    let st = last_of(line, STAR);
    lemma_last_of_props(line, STAR);
    assert(l2[0] == line[0]);
    assert(l2[st] == STAR);
    assert(has_byte(l2, STAR));
    lemma_last_of_props(l2, STAR);
    let st2 = last_of(l2, STAR);
    assert forall|j: int| st < j < l2.len() implies l2[j] != STAR by {
        assert(l2[j] == line[j]);
    };
    assert(st2 == st);
    assert(l2.subrange(st + 1, l2.len() as int) =~= line.subrange(st + 1, line.len() as int));
    let p1 = line.subrange(1, st);
    let p2 = l2.subrange(1, st);
    assert(p2 =~= p1.update(i - 1, b));
    crate::text::lemma_xor_sum_update(p1, i - 1, b);
    let x = xor_sum(p1);
    let a = p1[i - 1];
    assert(p1[i - 1] == line[i]);
    assert(a != b ==> (x ^ a ^ b) != x) by (bit_vector);
}

/// Index of the last occurrence of `b`, or the length when it never occurs.
fn find_last(f: &[u8], b: u8) -> (r: usize)
    ensures
        r <= f@.len(),
        r < f@.len() ==> f@[r as int] == b,
        forall|j: int| r < j < f@.len() ==> f@[j] != b,
        r == f@.len() ==> forall|j: int| 0 <= j < f@.len() ==> f@[j] != b,
{
    let n = f.len();
    let mut i = n;
    while i > 0
        invariant
            i <= n,
            n == f@.len(),
            forall|j: int| i <= j < n ==> f@[j] != b,
        decreases i,
    {
        i = i - 1;
        if f[i] == b {
            return i;
        }
    }
    n
}

/// Index of the first occurrence of `b` in `f[from..to]`, or `to`.
fn find_first_upto(f: &[u8], from: usize, to: usize, b: u8) -> (r: usize)
    requires
        from <= to <= f@.len(),
    ensures
        from <= r <= to,
        r < to ==> f@[r as int] == b,
        forall|j: int| from <= j < r ==> f@[j] != b,
{
    let mut i = from;
    while i < to
        invariant
            from <= i <= to <= f@.len(),
            forall|j: int| from <= j < i ==> f@[j] != b,
        decreases to - i,
    {
        if f[i] == b {
            return i;
        }
        i = i + 1;
    }
    i
}

fn hex_byte(b: u8) -> (r: u8)
    requires
        is_hex(b),
    ensures
        r == hex_val(b),
        r <= 15,
{
    if b >= 48 && b <= 57 {
        b - 48
    } else if b >= 65 && b <= 70 {
        b - 55
    } else {
        b - 87
    }
}

fn exec_talker(a: u8, b: u8) -> (r: Option<GnssType>)
    ensures
        r == spec_talker(a, b),
{
    if a == 71 && b == 80 {
        Some(GnssType::Gps)
    } else if a == 71 && b == 76 {
        Some(GnssType::Glonass)
    } else if a == 71 && b == 65 {
        Some(GnssType::Galileo)
    } else if a == 71 && b == 66 {
        Some(GnssType::Beidou)
    } else if a == 66 && b == 68 {
        Some(GnssType::Beidou)
    } else if a == 71 && b == 78 {
        Some(GnssType::Unknown)
    } else {
        None
    }
}

fn exec_tag(t0: u8, t1: u8, t2: u8) -> (r: Option<SentenceType>)
    ensures
        r == spec_tag(t0, t1, t2),
{
    if t0 == 71 && t1 == 71 && t2 == 65 {
        Some(SentenceType::GGA)
    } else if t0 == 71 && t1 == 76 && t2 == 76 {
        Some(SentenceType::GLL)
    } else if t0 == 71 && t1 == 83 && t2 == 65 {
        Some(SentenceType::GSA)
    } else if t0 == 71 && t1 == 83 && t2 == 84 {
        Some(SentenceType::GST)
    } else if t0 == 71 && t1 == 83 && t2 == 86 {
        Some(SentenceType::GSV)
    } else if t0 == 82 && t1 == 77 && t2 == 67 {
        Some(SentenceType::RMC)
    } else if t0 == 86 && t1 == 84 && t2 == 71 {
        Some(SentenceType::VTG)
    } else {
        None
    }
}

/// Frames one raw line, mirroring `spec_classify` exactly.
#[verifier::rlimit(60)]
pub fn parse_nmea_sentence(line: &[u8]) -> (r: Result<NmeaSentence, Error>)
    ensures
        spec_classify(line@) matches Err(e) ==> (r matches Err(e2) && e2 == e),
        spec_classify(line@) matches Ok(c) ==> (r matches Ok(s) && s.talker_id == c.talker
            && s.message_id == c.message && s.data@ == c.data && s.checksum == c.checksum),
{
    let n = line.len();
    if n == 0 || line[0] != DOLLAR {
        return Err(Error::ParsingError(FramingErrorKind::NoStartMarker));
    }
    let st = find_last(line, STAR);
    if st == n {
        assert(!has_byte(line@, STAR));
        return Err(Error::ParsingError(FramingErrorKind::NoChecksumField));
    }
    proof {
        assert(has_byte(line@, STAR));
        lemma_last_of_props(line@, STAR);
        assert(last_of(line@, STAR) == st);
    }
    let ghost tail = line@.subrange(st + 1, n as int);
    let tl = n - st - 1;
    let tail_shape_ok: bool = if tl == 2 {
        true
    } else if tl == 3 {
        line[st + 3] == LF
    } else if tl == 4 {
        line[st + 3] == CR && line[st + 4] == LF
    } else {
        false
    };
    proof {
        assert(tail.len() == tl);
        if tl >= 1 {
            assert(tail[0] == line@[st + 1]);
        }
        if tl >= 2 {
            assert(tail[1] == line@[st + 2]);
        }
        if tl >= 3 {
            assert(tail[2] == line@[st + 3]);
        }
        if tl >= 4 {
            assert(tail[3] == line@[st + 4]);
        }
    }
    if !tail_shape_ok {
        return Err(Error::ParsingError(FramingErrorKind::BadChecksumDigits));
    }
    let h1 = line[st + 1];
    let h2 = line[st + 2];
    let h1_ok = (h1 >= 48 && h1 <= 57) || (h1 >= 65 && h1 <= 70) || (h1 >= 97 && h1 <= 102);
    let h2_ok = (h2 >= 48 && h2 <= 57) || (h2 >= 65 && h2 <= 70) || (h2 >= 97 && h2 <= 102);
    if !(h1_ok && h2_ok) {
        return Err(Error::ParsingError(FramingErrorKind::BadChecksumDigits));
    }
    let found = hex_byte(h1) * 16 + hex_byte(h2);
    let ghost payload = line@.subrange(1, st as int);
    let mut cs: u8 = 0;
    let mut i: usize = 1;
    while i < st
        invariant
            1 <= i <= st < n,
            n == line@.len(),
            payload == line@.subrange(1, st as int),
            cs == xor_sum(line@.subrange(1, i as int)),
        decreases st - i,
    {
        proof {
            let q = line@.subrange(1, i + 1 as int);
            assert(q.drop_last() =~= line@.subrange(1, i as int));
            assert(q.last() == line@[i as int]);
        }
        cs = cs ^ line[i];
        i = i + 1;
    }
    assert(line@.subrange(1, i as int) == payload);
    if cs != found {
        return Err(Error::ChecksumMismatch { calculated: cs, found: found });
    }
    let hc = find_first_upto(line, 1, st, COMMA);
    let ghost h = first_of(payload, COMMA);
    proof {
        assert forall|j: int| 0 <= j < hc - 1 implies payload[j] != COMMA by {
            assert(payload[j] == line@[1 + j]);
        };
        if hc < st {
            assert(payload[hc - 1] == line@[hc as int]);
        } else {
            assert forall|j: int| 0 <= j < payload.len() implies payload[j] != COMMA by {
                assert(payload[j] == line@[1 + j]);
            };
        }
        lemma_first_of_is(payload, COMMA, hc - 1);
    }
    let hl = hc - 1;
    let ghost header = payload.subrange(0, h);
    proof {
        assert forall|j: int| 0 <= j < hl implies header[j] == line@[1 + j] by {
            assert(header[j] == payload[j]);
        };
    }
    if hl < 3 {
        return Err(Error::ParsingError(FramingErrorKind::BadHeaderField));
    }
    let talker5: Option<GnssType> = if hl == 5 {
        exec_talker(line[1], line[2])
    } else {
        None
    };
    let (talker, t0, t1, t2): (GnssType, u8, u8, u8) = match talker5 {
        Some(g) => (g, line[3], line[4], line[5]),
        None => (GnssType::Unknown, line[1], line[2], line[3]),
    };
    let exact: bool = match talker5 {
        Some(_) => true,
        None => hl == 3,
    };
    if !exact {
        return Err(Error::Unsupported(t0, t1, t2));
    }
    match exec_tag(t0, t1, t2) {
        None => Err(Error::Unsupported(t0, t1, t2)),
        Some(msg) => {
            let data: Vec<u8> = if hc < st {
                subvec(line, hc + 1, st)
            } else {
                Vec::new()
            };
            proof {
                if hc < st {
                    assert(data@ =~= payload.subrange(h + 1, payload.len() as int));
                } else {
                    assert(data@ =~= Seq::<u8>::empty());
                }
            }
            Ok(
                NmeaSentence {
                    talker_id: talker,
                    message_id: msg,
                    data: data,
                    checksum: found,
                },
            )
        },
    }
}

} // verus!
