//! The textual grammar of sentence payloads: comma-separated fields, decimal
//! numbers, times, dates and coordinates, and the exclusive-or checksum.
//! Every executable routine is proved equal to a specification function over
//! the byte sequence it reads.
use vstd::prelude::*;
use crate::types::Decimal;
use crate::types::Time;
use crate::types::Date;
use crate::types::Coordinate;

verus! {

pub const DOLLAR: u8 = 36;

pub const STAR: u8 = 42;

pub const COMMA: u8 = 44;

pub const MINUS: u8 = 45;

pub const DOT: u8 = 46;

pub const CR: u8 = 13;

pub const LF: u8 = 10;

pub open spec fn is_digit(b: u8) -> bool {
    48 <= b && b <= 57
}

pub open spec fn all_digits(s: Seq<u8>) -> bool {
    forall|i: int| 0 <= i < s.len() ==> is_digit(#[trigger] s[i])
}

/// The number written by a sequence of decimal digit characters.
pub open spec fn digits_val(s: Seq<u8>) -> int
    decreases s.len(),
{
    if s.len() == 0 {
        0
    } else {
        10 * digits_val(s.drop_last()) + (s.last() - 48)
    }
}

pub open spec fn pow10(n: nat) -> int
    decreases n,
{
    if n == 0 {
        1
    } else {
        10 * pow10((n - 1) as nat)
    }
}

pub proof fn lemma_pow10_pos(n: nat)
    ensures
        pow10(n) >= 1,
    decreases n,
{
    if n > 0 {
        lemma_pow10_pos((n - 1) as nat);
    }
}

pub proof fn lemma_pow10_mono(a: nat, b: nat)
    requires
        a <= b,
    ensures
        pow10(a) <= pow10(b),
    decreases b,
{
    if a < b {
        lemma_pow10_mono(a, (b - 1) as nat);
        lemma_pow10_pos((b - 1) as nat);
    }
}

/// A digit string of length n writes a number below 10^n.
pub proof fn lemma_digits_val_bound(s: Seq<u8>)
    requires
        all_digits(s),
    ensures
        0 <= digits_val(s) < pow10(s.len()),
    decreases s.len(),
{
    if s.len() > 0 {
        assert(all_digits(s.drop_last()));
        lemma_digits_val_bound(s.drop_last());
    }
}

/// The first index at or after which `b` occurs in `s`, or `s.len()`.
pub open spec fn first_of(s: Seq<u8>, b: u8) -> int
    decreases s.len(),
{
    if s.len() == 0 {
        0
    } else if s[0] == b {
        0
    } else {
        1 + first_of(s.subrange(1, s.len() as int), b)
    }
}

/// `first_of` is pinned down by "k is an occurrence and nothing earlier is".
pub proof fn lemma_first_of_is(s: Seq<u8>, b: u8, k: int)
    requires
        0 <= k <= s.len(),
        k < s.len() ==> s[k] == b,
        forall|j: int| 0 <= j < k ==> s[j] != b,
        k == s.len() ==> forall|j: int| 0 <= j < s.len() ==> s[j] != b,
    ensures
        first_of(s, b) == k,
    decreases s.len(),
{
    if s.len() > 0 && s[0] != b {
        let t = s.subrange(1, s.len() as int);
        lemma_first_of_is(t, b, k - 1);
    }
}

/// The exclusive-or of all bytes of `s`.
pub open spec fn xor_sum(s: Seq<u8>) -> u8
    decreases s.len(),
{
    if s.len() == 0 {
        0
    } else {
        xor_sum(s.drop_last()) ^ s.last()
    }
}

/// Changing one byte of a sequence changes its exclusive-or sum by exactly
/// the difference of the two bytes.
pub proof fn lemma_xor_sum_update(s: Seq<u8>, i: int, b: u8)
    requires
        0 <= i < s.len(),
    ensures
        xor_sum(s.update(i, b)) == (xor_sum(s) ^ s[i] ^ b),
    decreases s.len(),
{
    let t = s.update(i, b);
    if i == s.len() - 1 {
        assert(t.drop_last() =~= s.drop_last());
        let x = xor_sum(s.drop_last());
        let a = s.last();
        assert((x ^ a ^ a ^ b) == (x ^ b)) by (bit_vector);
    } else {
        assert(t.drop_last() =~= s.drop_last().update(i, b));
        lemma_xor_sum_update(s.drop_last(), i, b);
        let x = xor_sum(s.drop_last());
        let a = s[i];
        let c = s.last();
        assert(((x ^ a ^ b) ^ c) == ((x ^ c) ^ a ^ b)) by (bit_vector);
        assert(s.drop_last()[i] == s[i]);
    }
}

/// The payload split at commas; an empty payload is one empty field.
pub open spec fn spec_fields(s: Seq<u8>) -> Seq<Seq<u8>>
    decreases s.len(),
{
    let c = first_of(s, COMMA);
    if 0 <= c < s.len() {
        seq![s.subrange(0, c)] + spec_fields(s.subrange(c + 1, s.len() as int))
    } else {
        seq![s]
    }
}

/// Index of the first occurrence of `b` at or after `from`, or the length.
pub fn find_first(f: &[u8], from: usize, b: u8) -> (r: usize)
    requires
        from <= f@.len(),
    ensures
        from <= r <= f@.len(),
        r < f@.len() ==> f@[r as int] == b,
        forall|j: int| from <= j < r ==> f@[j] != b,
{
    let n = f.len();
    let mut i = from;
    while i < n
        invariant
            from <= i <= n,
            n == f@.len(),
            forall|j: int| from <= j < i ==> f@[j] != b,
        decreases n - i,
    {
        if f[i] == b {
            return i;
        }
        i = i + 1;
    }
    i
}

/// Copies `f[a..b]` out as an owned vector.
pub fn subvec(f: &[u8], a: usize, b: usize) -> (r: Vec<u8>)
    requires
        a <= b <= f@.len(),
    ensures
        r@ == f@.subrange(a as int, b as int),
{
    let mut r: Vec<u8> = Vec::new();
    let mut i = a;
    while i < b
        invariant
            a <= i <= b <= f@.len(),
            r@ == f@.subrange(a as int, i as int),
        decreases b - i,
    {
        r.push(f[i]);
        assert(r@ =~= f@.subrange(a as int, i + 1 as int));
        i = i + 1;
    }
    r
}

/// Splits `f[start..]` at commas, mirroring `spec_fields`.
pub fn split_fields_from(f: &[u8], start: usize) -> (r: Vec<Vec<u8>>)
    requires
        start <= f@.len(),
    ensures
        r@.len() == spec_fields(f@.subrange(start as int, f@.len() as int)).len(),
        forall|i: int|
            0 <= i < r@.len() ==> #[trigger] r@[i]@ == spec_fields(
                f@.subrange(start as int, f@.len() as int),
            )[i],
    decreases f@.len() - start,
{
    let n = f.len();
    let ghost s = f@.subrange(start as int, n as int);
    let c = find_first(f, start, COMMA);
    proof {
        lemma_first_of_is(s, COMMA, c - start);
    }
    if c == n {
        let head = subvec(f, start, n);
        assert(head@ =~= s);
        let mut r: Vec<Vec<u8>> = Vec::new();
        r.push(head);
        r
    } else {
        let head = subvec(f, start, c);
        assert(head@ =~= s.subrange(0, c - start));
        let mut r = split_fields_from(f, c + 1);
        let ghost tail = f@.subrange(c + 1 as int, n as int);
        assert(tail =~= s.subrange(c - start + 1, s.len() as int));
        r.insert(0, head);
        assert(forall|i: int|
            0 <= i < r@.len() ==> #[trigger] r@[i]@ == spec_fields(s)[i]) by {
            assert(forall|i: int|
                1 <= i < r@.len() ==> #[trigger] r@[i]@ == spec_fields(tail)[i - 1]);
        }
        r
    }
}

/// Whether every byte of `f[a..b]` is a decimal digit.
pub fn all_digits_range(f: &[u8], a: usize, b: usize) -> (r: bool)
    requires
        a <= b <= f@.len(),
    ensures
        r == all_digits(f@.subrange(a as int, b as int)),
{
    let ghost s = f@.subrange(a as int, b as int);
    let mut i = a;
    while i < b
        invariant
            a <= i <= b <= f@.len(),
            s == f@.subrange(a as int, b as int),
            forall|j: int| a <= j < i ==> is_digit(#[trigger] f@[j]),
        decreases b - i,
    {
        if !(f[i] >= 48 && f[i] <= 57) {
            assert(s[i - a] == f@[i as int]);
            return false;
        }
        i = i + 1;
    }
    assert forall|j: int| 0 <= j < s.len() implies is_digit(#[trigger] s[j]) by {
        assert(s[j] == f@[a + j]);
    };
    true
}

/// The number written by the digits `f[a..b]`.
pub fn digits_value(f: &[u8], a: usize, b: usize) -> (r: u64)
    requires
        a <= b <= f@.len(),
        b - a <= 18,
        all_digits(f@.subrange(a as int, b as int)),
    ensures
        r == digits_val(f@.subrange(a as int, b as int)),
{
    let ghost s = f@.subrange(a as int, b as int);
    let mut r: u64 = 0;
    let mut i = a;
    while i < b
        invariant
            a <= i <= b <= f@.len(),
            b - a <= 18,
            s == f@.subrange(a as int, b as int),
            all_digits(s),
            r == digits_val(f@.subrange(a as int, i as int)),
        decreases b - i,
    {
        let ghost p = f@.subrange(a as int, i as int);
        proof {
            assert(p =~= s.subrange(0, i - a));
            assert forall|j: int| 0 <= j < p.len() implies is_digit(#[trigger] p[j]) by {
                assert(p[j] == s[j]);
            };
            lemma_digits_val_bound(p);
            lemma_pow10_mono(p.len(), 18);
            assert(pow10(18) == 1000000000000000000) by {
                reveal_with_fuel(pow10, 19);
            }
            assert(s[i - a] == f@[i as int]);
        }
        let d = f[i];
        r = r * 10 + (d - 48) as u64;
        proof {
            let q = f@.subrange(a as int, i + 1 as int);
            assert(q.drop_last() =~= p);
        }
        i = i + 1;
    }
    r
}

/// 10 raised to `e`, executably.
pub fn pow10_u64(e: u32) -> (r: u64)
    requires
        e <= 18,
    ensures
        r == pow10(e as nat),
{
    let mut r: u64 = 1;
    let mut i: u32 = 0;
    while i < e
        invariant
            i <= e <= 18,
            r == pow10(i as nat),
        decreases e - i,
    {
        proof {
            lemma_pow10_pos(i as nat);
            lemma_pow10_mono(i as nat, 17);
            assert(pow10(17) == 100000000000000000) by {
                reveal_with_fuel(pow10, 18);
            }
        }
        r = r * 10;
        i = i + 1;
    }
    r
}


/// An unsigned integer field: one to nine digits.
pub open spec fn spec_uint(s: Seq<u8>) -> Option<u32> {
    if 1 <= s.len() <= 9 && all_digits(s) {
        Some(digits_val(s) as u32)
    } else {
        None
    }
}

/// An optional unsigned integer field; an empty field is "absent".
pub open spec fn spec_opt_uint(s: Seq<u8>) -> Option<Option<u32>> {
    if s.len() == 0 {
        Some(None)
    } else {
        match spec_uint(s) {
            Some(v) => Some(Some(v)),
            None => None,
        }
    }
}

/// A decimal number field: an optional minus sign, then digits with at most
/// one decimal point, at most nine digits in all.
pub open spec fn spec_decimal(s: Seq<u8>) -> Option<Decimal> {
    let neg = s.len() > 0 && s[0] == MINUS;
    let b = if neg {
        s.subrange(1, s.len() as int)
    } else {
        s
    };
    let d = first_of(b, DOT);
    if d == b.len() {
        if 1 <= b.len() <= 9 && all_digits(b) {
            Some(Decimal { negative: neg, mantissa: digits_val(b) as u64, scale: 0 })
        } else {
            None
        }
    } else {
        let ip = b.subrange(0, d);
        let fp = b.subrange(d + 1, b.len() as int);
        if 1 <= ip.len() && 1 <= fp.len() && ip.len() + fp.len() <= 9 && all_digits(ip)
            && all_digits(fp) {
            Some(
                Decimal {
                    negative: neg,
                    mantissa: (digits_val(ip) * pow10(fp.len()) + digits_val(fp)) as u64,
                    scale: fp.len() as u32,
                },
            )
        } else {
            None
        }
    }
}

/// An optional decimal field; an empty field is "absent".
pub open spec fn spec_opt_decimal(s: Seq<u8>) -> Option<Option<Decimal>> {
    if s.len() == 0 {
        Some(None)
    } else {
        match spec_decimal(s) {
            Some(v) => Some(Some(v)),
            None => None,
        }
    }
}

/// A time-of-day field, `hhmmss` with an optional fractional second whose
/// first three digits are kept as milliseconds.
pub open spec fn spec_time(s: Seq<u8>) -> Option<Time> {
    if s.len() < 6 || !all_digits(s.subrange(0, 6)) {
        None
    } else {
        let h = digits_val(s.subrange(0, 2));
        let mi = digits_val(s.subrange(2, 4));
        let se = digits_val(s.subrange(4, 6));
        let ms = if s.len() == 6 {
            Some(0int)
        } else if s[6] == DOT && s.len() >= 8 && all_digits(s.subrange(7, s.len() as int)) {
            let fd = s.subrange(7, s.len() as int);
            if fd.len() >= 3 {
                Some(digits_val(fd.subrange(0, 3)))
            } else {
                Some(digits_val(fd) * pow10((3 - fd.len()) as nat))
            }
        } else {
            None
        };
        match ms {
            Some(m) => if h < 24 && mi < 60 && se < 60 {
                Some(
                    Time {
                        hour: h as u32,
                        minute: mi as u32,
                        second: se as u32,
                        millisecond: m as u32,
                    },
                )
            } else {
                None
            },
            None => None,
        }
    }
}

/// An optional time field; an empty field is "absent".
pub open spec fn spec_opt_time(s: Seq<u8>) -> Option<Option<Time>> {
    if s.len() == 0 {
        Some(None)
    } else {
        match spec_time(s) {
            Some(v) => Some(Some(v)),
            None => None,
        }
    }
}

/// A date field, `ddmmyy`; the year is stored in the 2000s.
pub open spec fn spec_date(s: Seq<u8>) -> Option<Date> {
    if s.len() == 6 && all_digits(s) {
        let d = digits_val(s.subrange(0, 2));
        let mo = digits_val(s.subrange(2, 4));
        let y = digits_val(s.subrange(4, 6));
        if 1 <= d <= 31 && 1 <= mo <= 12 {
            Some(Date { year: (2000 + y) as u32, month: mo as u32, day: d as u32 })
        } else {
            None
        }
    } else {
        None
    }
}

/// An optional date field; an empty field is "absent".
pub open spec fn spec_opt_date(s: Seq<u8>) -> Option<Option<Date>> {
    if s.len() == 0 {
        Some(None)
    } else {
        match spec_date(s) {
            Some(v) => Some(Some(v)),
            None => None,
        }
    }
}

/// A coordinate magnitude: degrees then two whole-minute digits, with an
/// optional decimal-minute fraction. The hemisphere sign is applied by the
/// caller; `negative` is false here.
pub open spec fn spec_coord_mag(s: Seq<u8>) -> Option<Coordinate> {
    let d = first_of(s, DOT);
    if d == s.len() {
        if 3 <= s.len() <= 5 && all_digits(s) && digits_val(
            s.subrange(s.len() - 2, s.len() as int),
        ) < 60 {
            Some(
                Coordinate {
                    negative: false,
                    degrees: digits_val(s.subrange(0, s.len() - 2)) as u32,
                    minutes_mantissa: digits_val(s.subrange(s.len() - 2, s.len() as int)) as u64,
                    minutes_scale: 0,
                },
            )
        } else {
            None
        }
    } else {
        let ip = s.subrange(0, d);
        let fp = s.subrange(d + 1, s.len() as int);
        if 3 <= ip.len() <= 5 && 1 <= fp.len() <= 7 && all_digits(ip) && all_digits(fp)
            && digits_val(ip.subrange(ip.len() - 2, ip.len() as int)) < 60 {
            Some(
                Coordinate {
                    negative: false,
                    degrees: digits_val(ip.subrange(0, ip.len() - 2)) as u32,
                    minutes_mantissa: (digits_val(ip.subrange(ip.len() - 2, ip.len() as int))
                        * pow10(fp.len()) + digits_val(fp)) as u64,
                    minutes_scale: fp.len() as u32,
                },
            )
        } else {
            None
        }
    }
}

/// A hemisphere letter; `Some(true)` means the negative hemisphere.
pub open spec fn spec_hemi(h: Seq<u8>, lat: bool) -> Option<bool> {
    if h.len() == 1 {
        if lat && h[0] == 78 {
            Some(false)
        } else if lat && h[0] == 83 {
            Some(true)
        } else if !lat && h[0] == 69 {
            Some(false)
        } else if !lat && h[0] == 87 {
            Some(true)
        } else {
            None
        }
    } else {
        None
    }
}

/// A coordinate field pair (magnitude and hemisphere). Both empty means the
/// coordinate is absent; otherwise both must parse.
pub open spec fn spec_latlon(cf: Seq<u8>, hf: Seq<u8>, lat: bool) -> Option<Option<Coordinate>> {
    if cf.len() == 0 && hf.len() == 0 {
        Some(None)
    } else {
        match (spec_coord_mag(cf), spec_hemi(hf, lat)) {
            (Some(c), Some(neg)) => Some(
                Some(
                    Coordinate {
                        negative: neg,
                        degrees: c.degrees,
                        minutes_mantissa: c.minutes_mantissa,
                        minutes_scale: c.minutes_scale,
                    },
                ),
            ),
            _ => None,
        }
    }
}

/// Executable twin of `spec_uint`.
pub fn parse_uint(f: &[u8]) -> (r: Option<u32>)
    ensures
        r == spec_uint(f@),
{
    let n = f.len();
    assert(f@.subrange(0, n as int) =~= f@);
    if 1 <= n && n <= 9 && all_digits_range(f, 0, n) {
        proof {
            lemma_digits_val_bound(f@);
            lemma_pow10_mono(f@.len(), 9);
            assert(pow10(9) == 1000000000) by {
                reveal_with_fuel(pow10, 10);
            }
        }
        let v = digits_value(f, 0, n);
        Some(v as u32)
    } else {
        None
    }
}

/// Executable twin of `spec_opt_uint`.
pub fn parse_opt_uint(f: &[u8]) -> (r: Option<Option<u32>>)
    ensures
        r == spec_opt_uint(f@),
{
    if f.len() == 0 {
        Some(None)
    } else {
        match parse_uint(f) {
            Some(v) => Some(Some(v)),
            None => None,
        }
    }
}

/// Executable twin of `spec_decimal`.
#[verifier::rlimit(60)]
pub fn parse_decimal(f: &[u8]) -> (r: Option<Decimal>)
    ensures
        r == spec_decimal(f@),
{
    let n = f.len();
    let neg = n > 0 && f[0] == MINUS;
    let s0: usize = if neg {
        1
    } else {
        0
    };
    let ghost b = f@.subrange(s0 as int, n as int);
    proof {
        if !neg {
            assert(b =~= f@);
        }
    }
    let d = find_first(f, s0, DOT);
    proof {
        assert forall|j: int| 0 <= j < d - s0 implies b[j] != DOT by {
            assert(b[j] == f@[s0 + j]);
        };
        if d < n {
            assert(b[d - s0] == f@[d as int]);
        } else {
            assert forall|j: int| 0 <= j < b.len() implies b[j] != DOT by {
                assert(b[j] == f@[s0 + j]);
            };
        }
        lemma_first_of_is(b, DOT, d - s0);
    }
    if d == n {
        if 1 <= n - s0 && n - s0 <= 9 && all_digits_range(f, s0, n) {
            proof {
                lemma_digits_val_bound(b);
                lemma_pow10_mono(b.len(), 9);
                assert(pow10(9) == 1000000000) by {
                    reveal_with_fuel(pow10, 10);
                }
            }
            let m = digits_value(f, s0, n);
            Some(Decimal { negative: neg, mantissa: m, scale: 0 })
        } else {
            None
        }
    } else {
        let il = d - s0;
        let fl = n - d - 1;
        let ghost ip = b.subrange(0, il as int);
        let ghost fp = b.subrange(il + 1, b.len() as int);
        proof {
            assert(ip =~= f@.subrange(s0 as int, d as int));
            assert(fp =~= f@.subrange(d + 1, n as int));
        }
        if 1 <= il && 1 <= fl && il + fl <= 9 && all_digits_range(f, s0, d) && all_digits_range(
            f,
            d + 1,
            n,
        ) {
            proof {
                lemma_digits_val_bound(ip);
                lemma_digits_val_bound(fp);
                lemma_pow10_mono(ip.len(), 8);
                lemma_pow10_mono(fp.len(), 8);
                assert(pow10(8) == 100000000) by {
                    reveal_with_fuel(pow10, 9);
                }
            }
            let mi = digits_value(f, s0, d);
            let mf = digits_value(f, d + 1, n);
            let p = pow10_u64(fl as u32);
            proof {
                assert(mi as int * p as int <= (100000000 - 1) * 100000000) by (nonlinear_arith)
                    requires
                        mi < 100000000,
                        0 <= p <= 100000000,
                        0 <= mi,
                ;
            }
            Some(Decimal { negative: neg, mantissa: mi * p + mf, scale: fl as u32 })
        } else {
            None
        }
    }
}

/// Executable twin of `spec_opt_decimal`.
pub fn parse_opt_decimal(f: &[u8]) -> (r: Option<Option<Decimal>>)
    ensures
        r == spec_opt_decimal(f@),
{
    if f.len() == 0 {
        Some(None)
    } else {
        match parse_decimal(f) {
            Some(v) => Some(Some(v)),
            None => None,
        }
    }
}

/// Executable twin of `spec_time`.
pub fn parse_time(f: &[u8]) -> (r: Option<Time>)
    ensures
        r == spec_time(f@),
{
    let n = f.len();
    if n < 6 || !all_digits_range(f, 0, 6) {
        return None;
    }
    let ghost s6 = f@.subrange(0, 6);
    proof {
        assert forall|j: int| 0 <= j < 2 implies is_digit(#[trigger] f@.subrange(0, 2)[j]) by {
            assert(f@.subrange(0, 2)[j] == s6[j]);
        };
        assert forall|j: int| 0 <= j < 2 implies is_digit(#[trigger] f@.subrange(2, 4)[j]) by {
            assert(f@.subrange(2, 4)[j] == s6[j + 2]);
        };
        assert forall|j: int| 0 <= j < 2 implies is_digit(#[trigger] f@.subrange(4, 6)[j]) by {
            assert(f@.subrange(4, 6)[j] == s6[j + 4]);
        };
        lemma_digits_val_bound(f@.subrange(0, 2));
        lemma_digits_val_bound(f@.subrange(2, 4));
        lemma_digits_val_bound(f@.subrange(4, 6));
        assert(pow10(2) == 100) by {
            reveal_with_fuel(pow10, 3);
        }
    }
    let h = digits_value(f, 0, 2);
    let mi = digits_value(f, 2, 4);
    let se = digits_value(f, 4, 6);
    let ms: u64 = if n == 6 {
        0
    } else if f[6] == DOT && n >= 8 && all_digits_range(f, 7, n) {
        let ghost fd = f@.subrange(7, n as int);
        if n - 7 >= 3 {
            proof {
                assert forall|j: int| 0 <= j < 3 implies is_digit(
                    #[trigger] f@.subrange(7, 10)[j],
                ) by {
                    assert(f@.subrange(7, 10)[j] == fd[j]);
                };
                assert(f@.subrange(7, 10) =~= fd.subrange(0, 3));
                lemma_digits_val_bound(f@.subrange(7, 10));
                assert(pow10(3) == 1000) by {
                    reveal_with_fuel(pow10, 4);
                }
            }
            digits_value(f, 7, 10)
        } else {
            proof {
                lemma_digits_val_bound(fd);
                assert(pow10(1) == 10 && pow10(2) == 100) by {
                    reveal_with_fuel(pow10, 3);
                }
            }
            let base = digits_value(f, 7, n);
            if n - 7 == 1 {
                base * 100
            } else {
                base * 10
            }
        }
    } else {
        return None;
    };
    if h < 24 && mi < 60 && se < 60 {
        Some(
            Time {
                hour: h as u32,
                minute: mi as u32,
                second: se as u32,
                millisecond: ms as u32,
            },
        )
    } else {
        None
    }
}

/// Executable twin of `spec_opt_time`.
pub fn parse_opt_time(f: &[u8]) -> (r: Option<Option<Time>>)
    ensures
        r == spec_opt_time(f@),
{
    if f.len() == 0 {
        Some(None)
    } else {
        match parse_time(f) {
            Some(v) => Some(Some(v)),
            None => None,
        }
    }
}

/// Executable twin of `spec_date`.
pub fn parse_date(f: &[u8]) -> (r: Option<Date>)
    ensures
        r == spec_date(f@),
{
    let n = f.len();
    assert(f@.subrange(0, n as int) =~= f@);
    if n == 6 && all_digits_range(f, 0, n) {
        proof {
            assert forall|j: int| 0 <= j < 2 implies is_digit(#[trigger] f@.subrange(0, 2)[j]) by {
                assert(f@.subrange(0, 2)[j] == f@[j]);
            };
            assert forall|j: int| 0 <= j < 2 implies is_digit(#[trigger] f@.subrange(2, 4)[j]) by {
                assert(f@.subrange(2, 4)[j] == f@[j + 2]);
            };
            assert forall|j: int| 0 <= j < 2 implies is_digit(#[trigger] f@.subrange(4, 6)[j]) by {
                assert(f@.subrange(4, 6)[j] == f@[j + 4]);
            };
            lemma_digits_val_bound(f@.subrange(0, 2));
            lemma_digits_val_bound(f@.subrange(2, 4));
            lemma_digits_val_bound(f@.subrange(4, 6));
            assert(pow10(2) == 100) by {
                reveal_with_fuel(pow10, 3);
            }
        }
        let d = digits_value(f, 0, 2);
        let mo = digits_value(f, 2, 4);
        let y = digits_value(f, 4, 6);
        if 1 <= d && d <= 31 && 1 <= mo && mo <= 12 {
            Some(Date { year: 2000 + y as u32, month: mo as u32, day: d as u32 })
        } else {
            None
        }
    } else {
        None
    }
}

/// Executable twin of `spec_opt_date`.
pub fn parse_opt_date(f: &[u8]) -> (r: Option<Option<Date>>)
    ensures
        r == spec_opt_date(f@),
{
    if f.len() == 0 {
        Some(None)
    } else {
        match parse_date(f) {
            Some(v) => Some(Some(v)),
            None => None,
        }
    }
}

/// Executable twin of `spec_coord_mag`.
pub fn parse_coord_mag(f: &[u8]) -> (r: Option<Coordinate>)
    ensures
        r == spec_coord_mag(f@),
{
    let n = f.len();
    let d = find_first(f, 0, DOT);
    proof {
        lemma_first_of_is(f@, DOT, d as int);
    }
    if d == n {
        let ghost s = f@;
        if 3 <= n && n <= 5 && all_digits_range(f, 0, n) {
            proof {
                assert(f@.subrange(0, n as int) =~= s);
                assert forall|j: int| 0 <= j < 2 implies is_digit(
                    #[trigger] s.subrange(s.len() - 2, s.len() as int)[j],
                ) by {
                    assert(s.subrange(s.len() - 2, s.len() as int)[j] == s[s.len() - 2 + j]);
                };
                assert forall|j: int| 0 <= j < s.len() - 2 implies is_digit(
                    #[trigger] s.subrange(0, s.len() - 2)[j],
                ) by {
                    assert(s.subrange(0, s.len() - 2)[j] == s[j]);
                };
                lemma_digits_val_bound(s.subrange(s.len() - 2, s.len() as int));
                lemma_digits_val_bound(s.subrange(0, s.len() - 2));
                lemma_pow10_mono((s.len() - 2) as nat, 3);
                assert(pow10(2) == 100 && pow10(3) == 1000) by {
                    reveal_with_fuel(pow10, 4);
                }
            }
            let mm = digits_value(f, n - 2, n);
            if mm < 60 {
                let deg = digits_value(f, 0, n - 2);
                Some(
                    Coordinate {
                        negative: false,
                        degrees: deg as u32,
                        minutes_mantissa: mm,
                        minutes_scale: 0,
                    },
                )
            } else {
                None
            }
        } else {
            None
        }
    } else {
        let il = d;
        let fl = n - d - 1;
        if 3 <= il && il <= 5 && 1 <= fl && fl <= 7 && all_digits_range(f, 0, d)
            && all_digits_range(f, d + 1, n) {
            let ghost ip = f@.subrange(0, d as int);
            let ghost fp = f@.subrange(d + 1, n as int);
            proof {
                assert forall|j: int| 0 <= j < 2 implies is_digit(
                    #[trigger] ip.subrange(ip.len() - 2, ip.len() as int)[j],
                ) by {
                    assert(ip.subrange(ip.len() - 2, ip.len() as int)[j] == ip[ip.len() - 2 + j]);
                };
                assert forall|j: int| 0 <= j < ip.len() - 2 implies is_digit(
                    #[trigger] ip.subrange(0, ip.len() - 2)[j],
                ) by {
                    assert(ip.subrange(0, ip.len() - 2)[j] == ip[j]);
                };
                assert(ip.subrange(ip.len() - 2, ip.len() as int) =~= f@.subrange(
                    d - 2,
                    d as int,
                ));
                assert(ip.subrange(0, ip.len() - 2) =~= f@.subrange(0, d - 2));
                lemma_digits_val_bound(ip.subrange(ip.len() - 2, ip.len() as int));
                lemma_digits_val_bound(ip.subrange(0, ip.len() - 2));
                lemma_digits_val_bound(fp);
                lemma_pow10_mono(fp.len(), 7);
                lemma_pow10_mono((ip.len() - 2) as nat, 3);
                assert(pow10(2) == 100 && pow10(3) == 1000 && pow10(7) == 10000000) by {
                    reveal_with_fuel(pow10, 8);
                }
            }
            let mm = digits_value(f, d - 2, d);
            if mm < 60 {
                let deg = digits_value(f, 0, d - 2);
                let mf = digits_value(f, d + 1, n);
                let p = pow10_u64(fl as u32);
                proof {
                    assert(mm as int * p as int <= 59 * 10000000) by (nonlinear_arith)
                        requires
                            mm < 60,
                            0 <= p <= 10000000,
                            0 <= mm,
                    ;
                }
                Some(
                    Coordinate {
                        negative: false,
                        degrees: deg as u32,
                        minutes_mantissa: mm * p + mf,
                        minutes_scale: fl as u32,
                    },
                )
            } else {
                None
            }
        } else {
            None
        }
    }
}

/// Executable twin of `spec_hemi`.
pub fn parse_hemi(h: &[u8], lat: bool) -> (r: Option<bool>)
    ensures
        r == spec_hemi(h@, lat),
{
    if h.len() == 1 {
        let c = h[0];
        if lat && c == 78 {
            Some(false)
        } else if lat && c == 83 {
            Some(true)
        } else if !lat && c == 69 {
            Some(false)
        } else if !lat && c == 87 {
            Some(true)
        } else {
            None
        }
    } else {
        None
    }
}

/// Executable twin of `spec_latlon`.
pub fn parse_latlon(cf: &[u8], hf: &[u8], lat: bool) -> (r: Option<Option<Coordinate>>)
    ensures
        r == spec_latlon(cf@, hf@, lat),
{
    if cf.len() == 0 && hf.len() == 0 {
        Some(None)
    } else {
        match (parse_coord_mag(cf), parse_hemi(hf, lat)) {
            (Some(c), Some(neg)) => Some(
                Some(
                    Coordinate {
                        negative: neg,
                        degrees: c.degrees,
                        minutes_mantissa: c.minutes_mantissa,
                        minutes_scale: c.minutes_scale,
                    },
                ),
            ),
            _ => None,
        }
    }
}

} // verus!
