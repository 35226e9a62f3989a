//! Capture timestamps and the grammar of timestamp strings found in
//! media metadata.
//!
//! A timestamp string holds a wall-clock date and time in one of two
//! separator conventions (`YYYY-MM-DD` or `YYYY:MM:DD`), a space or a
//! literal `T` between date and time, an optional fractional-seconds
//! suffix after the last `.`, and an optional trailing six-character
//! timezone offset beginning with `+` or `-`, which is stripped and
//! discarded: the wall-clock value is taken as UTC.

use vstd::prelude::*;
use vstd::string::StrSliceExecFns;

use crate::strutil::{
    digit_val, is_digit_char, spec_trim, trim_str,
};

verus! {

/// An instant in UTC with a millisecond fraction: when the media was
/// captured, as opposed to any filesystem timestamp.
#[derive(Clone, Copy, Debug, PartialEq, Eq, Structural)]
pub struct CaptureTimestamp {
    pub year: u32,
    pub month: u32,
    pub day: u32,
    pub hour: u32,
    pub minute: u32,
    pub second: u32,
    /// Millisecond fraction, always in `0..=999`.
    pub millis: u16,
}

pub open spec fn spec_is_leap_year(y: int) -> bool {
    (y % 4 == 0 && y % 100 != 0) || y % 400 == 0
}

pub open spec fn spec_days_in_month(y: int, m: int) -> int {
    if m == 2 {
        if spec_is_leap_year(y) {
            29
        } else {
            28
        }
    } else if m == 4 || m == 6 || m == 9 || m == 11 {
        30
    } else {
        31
    }
}

impl CaptureTimestamp {
    /// The fields form a real calendar date and time with a millisecond
    /// fraction in range.
    pub open spec fn valid(self) -> bool {
        &&& self.year <= 9999
        &&& 1 <= self.month <= 12
        &&& 1 <= self.day <= spec_days_in_month(self.year as int, self.month as int)
        &&& self.hour <= 23
        &&& self.minute <= 59
        &&& self.second <= 59
        &&& self.millis <= 999
    }
}

impl CaptureTimestamp {
    /// Checks validity at run time, for callers outside the proof.
    pub fn is_valid(&self) -> (r: bool)
        ensures
            r == self.valid(),
    {
        self.year <= 9999 && 1 <= self.month && self.month <= 12 && 1 <= self.day && self.day
            <= days_in_month(self.year, self.month) && self.hour <= 23 && self.minute <= 59
            && self.second <= 59 && self.millis <= 999
    }
}

pub fn is_leap_year(y: u32) -> (r: bool)
    ensures
        r == spec_is_leap_year(y as int),
{
    (y % 4 == 0 && y % 100 != 0) || y % 400 == 0
}

pub fn days_in_month(y: u32, m: u32) -> (r: u32)
    ensures
        r == spec_days_in_month(y as int, m as int),
{
    if m == 2 {
        if is_leap_year(y) {
            29
        } else {
            28
        }
    } else if m == 4 || m == 6 || m == 9 || m == 11 {
        30
    } else {
        31
    }
}

/// `c` opens or closes a timezone offset.
pub open spec fn is_sign_char(c: char) -> bool {
    c == '+' || c == '-'
}

/// Index of the first timezone sign in `s`, if any.
pub open spec fn first_sign(s: Seq<char>) -> Option<int>
    decreases s.len(),
{
    if s.len() == 0 {
        None
    } else if is_sign_char(s[0]) {
        Some(0)
    } else {
        match first_sign(s.drop_first()) {
            Some(i) => Some(i + 1),
            None => None,
        }
    }
}

pub proof fn lemma_first_sign(s: Seq<char>)
    ensures
        match first_sign(s) {
            Some(i) => {
                &&& 0 <= i < s.len()
                &&& is_sign_char(s[i])
                &&& forall|j: int| 0 <= j < i ==> !is_sign_char(s[j])
            },
            None => forall|j: int| 0 <= j < s.len() ==> !is_sign_char(s[j]),
        },
    decreases s.len(),
{
    if s.len() == 0 {
    } else if is_sign_char(s[0]) {
    } else {
        let d = s.drop_first();
        lemma_first_sign(d);
        match first_sign(d) {
            Some(i) => {
                assert(s[i + 1] == d[i]);
                assert forall|j: int| 0 <= j < i + 1 implies !is_sign_char(s[j]) by {
                    if j > 0 {
                        assert(s[j] == d[j - 1]);
                    }
                }
            },
            None => {
                assert forall|j: int| 0 <= j < s.len() implies !is_sign_char(s[j]) by {
                    if j > 0 {
                        assert(s[j] == d[j - 1]);
                    }
                }
            },
        }
    }
}

/// A trailing six-character timezone offset, if present, removed.
pub open spec fn strip_timezone(s: Seq<char>) -> Seq<char> {
    if s.len() >= 6 && is_sign_char(s[s.len() - 6]) {
        s.take(s.len() - 6)
    } else {
        s
    }
}

/// The 19-character date and time grammar: four digits of year, a `-`
/// or `:` separator repeated between month and day, two digits each for
/// month, day, hour, minute and second, a space or `T` between date and
/// time, and `:` within the time.  Month, day, hour, minute and second
/// must be in calendar range.
pub open spec fn parse_datetime(s: Seq<char>) -> Option<(int, int, int, int, int, int)> {
    if s.len() == 19 && is_digit_char(s[0]) && is_digit_char(s[1]) && is_digit_char(s[2])
        && is_digit_char(s[3]) && (s[4] == '-' || s[4] == ':') && is_digit_char(s[5])
        && is_digit_char(s[6]) && s[7] == s[4] && is_digit_char(s[8]) && is_digit_char(s[9]) && (
    s[10] == ' ' || s[10] == 'T') && is_digit_char(s[11]) && is_digit_char(s[12]) && s[13] == ':'
        && is_digit_char(s[14]) && is_digit_char(s[15]) && s[16] == ':' && is_digit_char(s[17])
        && is_digit_char(s[18]) {
        let y = digit_val(s[0]) * 1000 + digit_val(s[1]) * 100 + digit_val(s[2]) * 10 + digit_val(
            s[3],
        );
        let mo = digit_val(s[5]) * 10 + digit_val(s[6]);
        let da = digit_val(s[8]) * 10 + digit_val(s[9]);
        let h = digit_val(s[11]) * 10 + digit_val(s[12]);
        let mi = digit_val(s[14]) * 10 + digit_val(s[15]);
        let se = digit_val(s[17]) * 10 + digit_val(s[18]);
        if 1 <= mo && mo <= 12 && 1 <= da && da <= spec_days_in_month(y, mo) && h <= 23 && mi <= 59
            && se <= 59 {
            Some((y, mo, da, h, mi, se))
        } else {
            None
        }
    } else {
        None
    }
}

/// Leading `"` quote characters removed.
pub open spec fn trim_quote_start(s: Seq<char>) -> Seq<char>
    decreases s.len(),
{
    if s.len() > 0 && s[0] == '"' {
        trim_quote_start(s.drop_first())
    } else {
        s
    }
}

/// Trailing `"` quote characters removed.
pub open spec fn trim_quote_end(s: Seq<char>) -> Seq<char>
    decreases s.len(),
{
    if s.len() > 0 && s.last() == '"' {
        trim_quote_end(s.drop_last())
    } else {
        s
    }
}

pub open spec fn pow10(k: int) -> int
    decreases k,
{
    if k <= 0 {
        1
    } else {
        10 * pow10(k - 1)
    }
}

/// Millisecond value of a fractional-seconds string: digits beyond the
/// third are truncated, surrounding quotes are stripped, and what
/// remains is right-padded with zeros to three digits.  `None` when a
/// non-digit remains.
pub open spec fn fraction_millis(f: Seq<char>) -> Option<int> {
    let t = if f.len() <= 3 {
        f
    } else {
        f.take(3)
    };
    let u = trim_quote_end(trim_quote_start(t));
    if crate::strutil::all_digit_chars(u) {
        Some(crate::strutil::digits_val(u) * pow10(3 - u.len()))
    } else {
        None
    }
}

/// What a timestamp string denotes, if anything: the string is trimmed
/// of whitespace; the text after the last `.` (up to any timezone sign)
/// is the fractional part; the rest, with any trailing timezone offset
/// stripped, must meet the date and time grammar.
pub open spec fn spec_parse_timestamp(raw: Seq<char>) -> Option<CaptureTimestamp> {
    let s = spec_trim(raw);
    let dot = s.index_of_last('.');
    let main = match dot {
        Some(d) => s.take(d),
        None => s,
    };
    let millis = match dot {
        Some(d) => {
            let after = s.skip(d + 1);
            let frac = match first_sign(after) {
                Some(p) => after.take(p),
                None => after,
            };
            fraction_millis(frac)
        },
        None => Some(0),
    };
    match (parse_datetime(strip_timezone(main)), millis) {
        (Some((y, mo, da, h, mi, se)), Some(ms)) => Some(
            CaptureTimestamp {
                year: y as u32,
                month: mo as u32,
                day: da as u32,
                hour: h as u32,
                minute: mi as u32,
                second: se as u32,
                millis: ms as u16,
            },
        ),
        _ => None,
    }
}

/// A parsed timestamp is always a valid calendar instant.
pub proof fn lemma_parse_timestamp_valid(raw: Seq<char>)
    ensures
        spec_parse_timestamp(raw) matches Some(ct) ==> ct.valid(),
{
    if spec_parse_timestamp(raw) is Some {
        let s = spec_trim(raw);
        let dot = s.index_of_last('.');
        match dot {
            Some(d) => {
                let after = s.skip(d + 1);
                let frac = match first_sign(after) {
                    Some(p) => after.take(p),
                    None => after,
                };
                lemma_fraction_millis_range(frac);
            },
            None => {},
        }
    }
}

pub proof fn lemma_fraction_millis_range(f: Seq<char>)
    ensures
        fraction_millis(f) matches Some(ms) ==> 0 <= ms <= 999,
{
    let t = if f.len() <= 3 {
        f
    } else {
        f.take(3)
    };
    let u = trim_quote_end(trim_quote_start(t));
    lemma_trim_quote_len(t);
    if crate::strutil::all_digit_chars(u) {
        lemma_digits_val_range(u);
        let ul = u.len() as int;
        lemma_pow10_pos(3 - ul);
        lemma_pow10_add(ul, 3 - ul);
        let dv = crate::strutil::digits_val(u);
        assert(dv * pow10(3 - ul) < pow10(ul) * pow10(3 - ul)) by (nonlinear_arith)
            requires
                0 <= dv < pow10(ul),
                pow10(3 - ul) >= 1,
        ;
        assert(0 <= dv * pow10(3 - ul)) by (nonlinear_arith)
            requires
                0 <= dv,
                pow10(3 - ul) >= 1,
        ;
        reveal_with_fuel(pow10, 4);
        assert(pow10(3) == 1000);
    } else {
        assert(fraction_millis(f) is None);
    }
}

pub proof fn lemma_pow10_pos(k: int)
    ensures
        pow10(k) >= 1,
    decreases k,
{
    if k > 0 {
        lemma_pow10_pos(k - 1);
    }
}

pub proof fn lemma_pow10_add(a: int, b: int)
    requires
        a >= 0,
        b >= 0,
    ensures
        pow10(a) * pow10(b) == pow10(a + b),
    decreases a,
{
    if a == 0 {
    } else {
        lemma_pow10_add(a - 1, b);
        assert(pow10(a) * pow10(b) == 10 * (pow10(a - 1) * pow10(b))) by (nonlinear_arith)
            requires
                pow10(a) == 10 * pow10(a - 1),
        ;
    }
}

/// A digit string's value is nonnegative and below the power of ten of
/// its length.
pub proof fn lemma_digits_val_range(s: Seq<char>)
    requires
        forall|i: int| 0 <= i < s.len() ==> is_digit_char(#[trigger] s[i]),
    ensures
        0 <= crate::strutil::digits_val(s) < pow10(s.len() as int),
    decreases s.len(),
{
    if s.len() == 0 {
    } else {
        assert(forall|i: int|
            0 <= i < s.drop_last().len() ==> is_digit_char(#[trigger] s.drop_last()[i]));
        lemma_digits_val_range(s.drop_last());
        let v = crate::strutil::digits_val(s.drop_last());
        let p = pow10(s.len() - 1);
        assert(is_digit_char(s.last()));
        assert(0 <= crate::strutil::digit_val(s.last()) <= 9);
        assert(v * 10 + crate::strutil::digit_val(s.last()) < p * 10) by (nonlinear_arith)
            requires
                0 <= v < p,
                crate::strutil::digit_val(s.last()) <= 9,
        ;
    }
}

proof fn lemma_trim_quote_start_len(t: Seq<char>)
    ensures
        trim_quote_start(t).len() <= t.len(),
    decreases t.len(),
{
    if t.len() > 0 && t[0] == '"' {
        lemma_trim_quote_start_len(t.drop_first());
    }
}

proof fn lemma_trim_quote_end_len(t: Seq<char>)
    ensures
        trim_quote_end(t).len() <= t.len(),
    decreases t.len(),
{
    if t.len() > 0 && t.last() == '"' {
        lemma_trim_quote_end_len(t.drop_last());
    }
}

proof fn lemma_trim_quote_len(t: Seq<char>)
    ensures
        trim_quote_end(trim_quote_start(t)).len() <= t.len(),
{
    lemma_trim_quote_start_len(t);
    lemma_trim_quote_end_len(trim_quote_start(t));
}


/// First timezone sign at or after `fs`, or `n` when there is none.
fn find_sign_end(t: &str, fs: usize, n: usize) -> (fe: usize)
    requires
        fs <= n,
        n == t@.len(),
    ensures
        fs <= fe <= n,
        match first_sign(t@.skip(fs as int)) {
            Some(p) => fe == fs + p,
            None => fe == n,
        },
{
    let ghost after = t@.skip(fs as int);
    proof {
        lemma_first_sign(after);
    }
    let mut i: usize = fs;
    while i < n
        invariant
            fs <= i <= n,
            n == t@.len(),
            after == t@.skip(fs as int),
            forall|j: int| fs <= j < i ==> !is_sign_char(t@[j]),
        decreases n - i,
    {
        let c = t.get_char(i);
        if c == '+' || c == '-' {
            proof {
                lemma_first_sign(after);
                assert(after[i - fs] == t@[i as int]);
                assert forall|j: int| 0 <= j < i - fs implies !is_sign_char(after[j]) by {
                    assert(after[j] == t@[j + fs]);
                }
                match first_sign(after) {
                    Some(p) => {
                        assert(after[p] == t@[p + fs]);
                        assert(p >= i - fs);
                        assert(p <= i - fs);
                    },
                    None => {
                        assert(!is_sign_char(after[i - fs]));
                    },
                }
            }
            return i;
        }
        i = i + 1;
    }
    proof {
        lemma_first_sign(after);
        match first_sign(after) {
            Some(p) => {
                assert(after[p] == t@[p + fs]);
            },
            None => {},
        }
    }
    n
}

/// Millisecond value of the fraction written in `t` at `fs..fe`.
#[verifier::loop_isolation(false)]
#[verifier::rlimit(60)]
fn fraction_value(t: &str, fs: usize, fe: usize) -> (r: Option<u16>)
    requires
        fs <= fe,
        fe <= t@.len(),
    ensures
        match r {
            Some(v) => fraction_millis(t@.subrange(fs as int, fe as int)) == Some(v as int) && v
                <= 999,
            None => fraction_millis(t@.subrange(fs as int, fe as int)) is None,
        },
{
    let ghost f = t@.subrange(fs as int, fe as int);
    let fe2: usize = if fe - fs <= 3 {
        fe
    } else {
        fs + 3
    };
    let ghost t3 = if f.len() <= 3 {
        f
    } else {
        f.take(3)
    };
    proof {
        assert(t@.subrange(fs as int, fe2 as int) =~= t3);
    }
    let mut qs: usize = fs;
    while qs < fe2 && t.get_char(qs) == '"'
        invariant
            fs <= qs <= fe2,
            fe2 <= t@.len(),
            t3 == t@.subrange(fs as int, fe2 as int),
            trim_quote_start(t3) == trim_quote_start(t@.subrange(qs as int, fe2 as int)),
        decreases fe2 - qs,
    {
        proof {
            assert(t@.subrange(qs as int, fe2 as int)[0] == t@[qs as int]);
            assert(t@.subrange(qs as int, fe2 as int).drop_first() =~= t@.subrange(
                qs as int + 1,
                fe2 as int,
            ));
        }
        qs = qs + 1;
    }
    proof {
        if qs < fe2 {
            assert(t@.subrange(qs as int, fe2 as int)[0] == t@[qs as int]);
            assert(trim_quote_start(t@.subrange(qs as int, fe2 as int)) == t@.subrange(
                qs as int,
                fe2 as int,
            ));
        } else {
            assert(t@.subrange(qs as int, fe2 as int) =~= Seq::<char>::empty());
        }
    }
    let mut qe: usize = fe2;
    while qe > qs && t.get_char(qe - 1) == '"'
        invariant
            qs <= qe <= fe2,
            fe2 <= t@.len(),
            trim_quote_start(t3) == t@.subrange(qs as int, fe2 as int),
            trim_quote_end(t@.subrange(qs as int, fe2 as int)) == trim_quote_end(
                t@.subrange(qs as int, qe as int),
            ),
        decreases qe,
    {
        proof {
            assert(t@.subrange(qs as int, qe as int).last() == t@[qe - 1]);
            assert(t@.subrange(qs as int, qe as int).drop_last() =~= t@.subrange(
                qs as int,
                qe as int - 1,
            ));
        }
        qe = qe - 1;
    }
    let ghost u = trim_quote_end(trim_quote_start(t3));
    proof {
        if qe > qs {
            assert(t@.subrange(qs as int, qe as int).last() == t@[qe - 1]);
            assert(trim_quote_end(t@.subrange(qs as int, qe as int)) == t@.subrange(
                qs as int,
                qe as int,
            ));
        } else {
            assert(t@.subrange(qs as int, qe as int) =~= Seq::<char>::empty());
        }
        assert(u == t@.subrange(qs as int, qe as int));
        assert(u.len() == qe - qs <= 3);
    }
    let mut v: u32 = 0;
    let mut k: usize = qs;
    while k < qe
        invariant
            qs <= k <= qe,
            qe <= t@.len(),
            u == t@.subrange(qs as int, qe as int),
            u.len() <= 3,
            crate::strutil::all_digit_chars(u.take(k - qs)),
            v == crate::strutil::digits_val(u.take(k - qs)),
            v <= 999,
        decreases qe - k,
    {
        let c = t.get_char(k);
        proof {
            assert(u[k - qs] == t@[k as int]);
        }
        if !('0' <= c && c <= '9') {
            proof {
                assert(!is_digit_char(u[k - qs]));
                assert(!crate::strutil::all_digit_chars(u));
                assert(fraction_millis(f) is None);
            }
            return None;
        }
        proof {
            let j = k - qs;
            assert(u.take(j + 1).drop_last() =~= u.take(j));
            assert(u.take(j + 1).last() == u[j]);
            assert(crate::strutil::all_digit_chars(u.take(j + 1)));
            lemma_digits_val_range(u.take(j + 1));
            reveal_with_fuel(pow10, 4);
        }
        v = v * 10 + (c as u32 - 48);
        k = k + 1;
    }
    proof {
        assert(u.take(qe - qs) =~= u);
        assert(crate::strutil::all_digit_chars(u));
        lemma_digits_val_range(u);
        reveal_with_fuel(pow10, 4);
    }
    let pad = 3 - (qe - qs);
    let mult: u32 = if pad == 0 {
        1
    } else if pad == 1 {
        10
    } else if pad == 2 {
        100
    } else {
        1000
    };
    proof {
        assert(mult == pow10(pad as int));
        let ul = u.len() as int;
        let dv = crate::strutil::digits_val(u);
        lemma_pow10_add(ul, 3 - ul);
        assert(dv * pow10(3 - ul) < pow10(ul) * pow10(3 - ul)) by (nonlinear_arith)
            requires
                0 <= dv < pow10(ul),
                pow10(3 - ul) >= 1,
        ;
        assert(0 <= dv * pow10(3 - ul)) by (nonlinear_arith)
            requires
                0 <= dv,
                pow10(3 - ul) >= 1,
        ;
    }
    Some((v * mult) as u16)
}

/// Parses the date and time grammar in `t` at `0..me`, attaching the
/// millisecond value `ms`.
fn parse_datetime_range(t: &str, me: usize, ms: u16) -> (r: Option<CaptureTimestamp>)
    requires
        me <= t@.len(),
        ms <= 999,
    ensures
        r == match parse_datetime(t@.subrange(0, me as int)) {
            Some(dt) => Some(
                CaptureTimestamp {
                    year: dt.0 as u32,
                    month: dt.1 as u32,
                    day: dt.2 as u32,
                    hour: dt.3 as u32,
                    minute: dt.4 as u32,
                    second: dt.5 as u32,
                    millis: ms,
                },
            ),
            None => None,
        },
{
    let ghost m = t@.subrange(0, me as int);
    proof {
        assert forall|i: int| 0 <= i < me implies m[i] == t@[i] by {}
    }
    if me != 19 {
        return None;
    }
    let c0 = t.get_char(0);
    let c1 = t.get_char(1);
    let c2 = t.get_char(2);
    let c3 = t.get_char(3);
    let c4 = t.get_char(4);
    let c5 = t.get_char(5);
    let c6 = t.get_char(6);
    let c7 = t.get_char(7);
    let c8 = t.get_char(8);
    let c9 = t.get_char(9);
    let c10 = t.get_char(10);
    let c11 = t.get_char(11);
    let c12 = t.get_char(12);
    let c13 = t.get_char(13);
    let c14 = t.get_char(14);
    let c15 = t.get_char(15);
    let c16 = t.get_char(16);
    let c17 = t.get_char(17);
    let c18 = t.get_char(18);
    let ok = is_digit(c0) && is_digit(c1) && is_digit(c2) && is_digit(c3) && (c4 == '-' || c4
        == ':') && is_digit(c5) && is_digit(c6) && c7 == c4 && is_digit(c8) && is_digit(c9) && (c10
        == ' ' || c10 == 'T') && is_digit(c11) && is_digit(c12) && c13 == ':' && is_digit(c14)
        && is_digit(c15) && c16 == ':' && is_digit(c17) && is_digit(c18);
    if !ok {
        return None;
    }
    let y = dv(c0) * 1000 + dv(c1) * 100 + dv(c2) * 10 + dv(c3);
    let mo = dv(c5) * 10 + dv(c6);
    let da = dv(c8) * 10 + dv(c9);
    let h = dv(c11) * 10 + dv(c12);
    let mi = dv(c14) * 10 + dv(c15);
    let se = dv(c17) * 10 + dv(c18);
    if 1 <= mo && mo <= 12 && 1 <= da && da <= days_in_month(y, mo) && h <= 23 && mi <= 59 && se
        <= 59 {
        Some(
            CaptureTimestamp {
                year: y,
                month: mo,
                day: da,
                hour: h,
                minute: mi,
                second: se,
                millis: ms,
            },
        )
    } else {
        None
    }
}

fn is_digit(c: char) -> (r: bool)
    ensures
        r == is_digit_char(c),
{
    '0' <= c && c <= '9'
}

/// Numeric value of a digit character.
fn dv(c: char) -> (r: u32)
    requires
        is_digit_char(c),
    ensures
        r == digit_val(c),
        r <= 9,
{
    c as u32 - 48
}

/// Parses a metadata timestamp string to a capture instant with its
/// millisecond fraction; `None` when the string does not meet the
/// grammar.
pub fn parse_timestamp_with_subseconds(timestamp_str: &str) -> (r: Option<CaptureTimestamp>)
    ensures
        r == spec_parse_timestamp(timestamp_str@),
{
    let t = trim_str(timestamp_str);
    let n = t.unicode_len();
    let ghost s = t@;
    proof {
        s.index_of_last_ensures('.');
    }
    let dot = crate::strutil::find_last_char(t, '.');
    let main_end: usize;
    let ms: u16;
    match dot {
        Some(d) => {
            let fe = find_sign_end(t, d + 1, n);
            proof {
                let after = s.skip(d + 1);
                match first_sign(after) {
                    Some(p) => {
                        assert(s.subrange(d + 1, fe as int) =~= after.take(p));
                    },
                    None => {
                        assert(s.subrange(d + 1, fe as int) =~= after);
                    },
                }
            }
            match fraction_value(t, d + 1, fe) {
                Some(v) => {
                    ms = v;
                },
                None => {
                    return None;
                },
            }
            main_end = d;
        },
        None => {
            main_end = n;
            ms = 0;
        },
    }
    let ghost main = match s.index_of_last('.') {
        Some(d) => s.take(d),
        None => s,
    };
    proof {
        assert(main =~= s.subrange(0, main_end as int));
        assert forall|i: int| 0 <= i < main_end implies main[i] == s[i] by {}
    }
    let me: usize = if main_end >= 6 {
        let c = t.get_char(main_end - 6);
        if c == '+' || c == '-' {
            main_end - 6
        } else {
            main_end
        }
    } else {
        main_end
    };
    proof {
        if main_end >= 6 {
            assert(main[main_end - 6] == s[main_end - 6]);
        }
        assert(strip_timezone(main) =~= s.subrange(0, me as int));
        assert(s.subrange(0, me as int) =~= t@.subrange(0, me as int));
    }
    parse_datetime_range(t, me, ms)
}

} // verus!
