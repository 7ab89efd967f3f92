//! Parser for human-readable byte sizes such as `"8 KiB"` or `"1.5 KiB"`.
//!
//! The input is split on ASCII whitespace into a decimal magnitude and a unit
//! suffix.  Suffixes map to successive powers of 1024 (B, KiB, MiB, GiB, TiB,
//! PiB, EiB).  The result is the magnitude scaled by the suffix multiplier,
//! rounded toward zero, saturating at `u64::MAX`.
//!
//! The magnitude grammar is plain decimal: digits with at most one decimal
//! point and at least one digit (no sign, no exponent, no locale handling).

use vstd::prelude::*;

use crate::num::{digit_val, digits_val, is_dec_digit};
use crate::strutil::{skip_spaces, spec_first_token, spec_second_token, str_eq, token_end};

verus! {

/// Why a size string failed to parse.
#[derive(Debug, Clone, PartialEq, Eq)]
pub enum SizeError {
    /// The input held no token at all.
    EmptyInput,
    /// The first token is not a plain decimal magnitude.
    InvalidMagnitude(String),
    /// There is no second token to act as a unit suffix.
    MissingSuffix,
    /// The second token is not one of the known unit suffixes.
    UnknownSuffix(String),
}

/// Mathematical model of a [`SizeError`].
pub enum SizeErrM {
    EmptyInput,
    InvalidMagnitude(Seq<char>),
    MissingSuffix,
    UnknownSuffix(Seq<char>),
}

impl View for SizeError {
    type V = SizeErrM;

    open spec fn view(&self) -> SizeErrM {
        match self {
            SizeError::EmptyInput => SizeErrM::EmptyInput,
            SizeError::InvalidMagnitude(t) => SizeErrM::InvalidMagnitude(t@),
            SizeError::MissingSuffix => SizeErrM::MissingSuffix,
            SizeError::UnknownSuffix(t) => SizeErrM::UnknownSuffix(t@),
        }
    }
}

impl SizeError {
    pub open spec fn spec_message(self) -> Seq<char> {
        match self@ {
            SizeErrM::EmptyInput => "Empty size string"@,
            SizeErrM::InvalidMagnitude(t) => "Failed to parse "@ + t + " as f64"@,
            SizeErrM::MissingSuffix => "Unable to find size suffix"@,
            SizeErrM::UnknownSuffix(t) => "Unable to find suffix "@ + t + " in suffixes list"@,
        }
    }

    /// Human-readable description of the failure.
    pub fn message(&self) -> (r: String)
        ensures
            r@ == self.spec_message(),
    {
        match self {
            SizeError::EmptyInput => "Empty size string".to_owned(),
            SizeError::InvalidMagnitude(t) => {
                let mut s = "Failed to parse ".to_owned();
                s.append(t.as_str());
                s.append(" as f64");
                s
            },
            SizeError::MissingSuffix => "Unable to find size suffix".to_owned(),
            SizeError::UnknownSuffix(t) => {
                let mut s = "Unable to find suffix ".to_owned();
                s.append(t.as_str());
                s.append(" in suffixes list");
                s
            },
        }
    }
}

/// The byte multiplier of a unit suffix: successive powers of 1024.
pub open spec fn suffix_mult(t: Seq<char>) -> Option<int> {
    if t == "B"@ {
        Some(1)
    } else if t == "KiB"@ {
        Some(0x400)
    } else if t == "MiB"@ {
        Some(0x100000)
    } else if t == "GiB"@ {
        Some(0x40000000)
    } else if t == "TiB"@ {
        Some(0x10000000000)
    } else if t == "PiB"@ {
        Some(0x4000000000000)
    } else if t == "EiB"@ {
        Some(0x1000000000000000)
    } else {
        None
    }
}

/// Index of the first `.` at or after `i`, or the length if there is none.
pub open spec fn spec_first_dot(t: Seq<char>, i: int) -> int
    decreases t.len() - i,
{
    if i < 0 || i >= t.len() {
        t.len() as int
    } else if t[i] == '.' {
        i
    } else {
        spec_first_dot(t, i + 1)
    }
}

pub open spec fn all_digits_range(t: Seq<char>, a: int, b: int) -> bool {
    forall|j: int| a <= j < b ==> is_dec_digit(#[trigger] t[j])
}

/// Whether a token is a valid decimal magnitude: digits with at most one
/// decimal point and at least one digit.
pub open spec fn valid_magnitude(t: Seq<char>) -> bool {
    let k = spec_first_dot(t, 0);
    all_digits_range(t, 0, k) && all_digits_range(t, k + 1, t.len() as int) && (k > 0 || k + 1
        < t.len())
}

pub open spec fn pow10(k: nat) -> int
    decreases k,
{
    if k == 0 {
        1
    } else {
        10 * pow10((k - 1) as nat)
    }
}

/// The fractional digits of a magnitude scaled by `m` and rounded toward
/// zero, one decimal digit at a time.
pub open spec fn frac_scaled(f: Seq<char>, m: int) -> int
    decreases f.len(),
{
    if f.len() == 0 {
        0
    } else {
        (digit_val(f[0]) * m + frac_scaled(f.drop_first(), m)) / 10
    }
}

/// The exact mathematical value of `magnitude * m`, rounded toward zero.
pub open spec fn magnitude_scaled(t: Seq<char>, m: int) -> int {
    let k = spec_first_dot(t, 0);
    let ipart = t.subrange(0, k);
    let fpart = if k < t.len() {
        t.subrange(k + 1, t.len() as int)
    } else {
        Seq::<char>::empty()
    };
    digits_val(ipart) * m + digits_val(fpart) * m / pow10(fpart.len())
}

pub open spec fn clamp_u64(v: int) -> u64 {
    if v > u64::MAX {
        u64::MAX
    } else {
        v as u64
    }
}

/// Everything [`parse`] does, as a function of the input characters.
pub open spec fn spec_size_parse(s: Seq<char>) -> Result<u64, SizeErrM> {
    match spec_first_token(s) {
        None => Err(SizeErrM::EmptyInput),
        Some(t1) => if !valid_magnitude(t1) {
            Err(SizeErrM::InvalidMagnitude(t1))
        } else {
            match spec_second_token(s) {
                None => Err(SizeErrM::MissingSuffix),
                Some(t2) => match suffix_mult(t2) {
                    None => Err(SizeErrM::UnknownSuffix(t2)),
                    Some(m) => Ok(clamp_u64(magnitude_scaled(t1, m))),
                },
            }
        },
    }
}

proof fn lemma_first_dot_bounds(t: Seq<char>, i: int)
    requires
        0 <= i <= t.len(),
    ensures
        i <= spec_first_dot(t, i) <= t.len(),
        spec_first_dot(t, i) < t.len() ==> t[spec_first_dot(t, i)] == '.',
        forall|j: int| i <= j < spec_first_dot(t, i) ==> t[j] != '.',
    decreases t.len() - i,
{
    if i < t.len() && t[i] != '.' {
        lemma_first_dot_bounds(t, i + 1);
    }
}

proof fn lemma_digits_val_nonneg(s: Seq<char>)
    requires
        all_digits_range(s, 0, s.len() as int),
    ensures
        digits_val(s) >= 0,
    decreases s.len(),
{
    if s.len() > 0 {
        assert(all_digits_range(s.drop_last(), 0, s.drop_last().len() as int)) by {
            assert(forall|j: int|
                0 <= j < s.drop_last().len() ==> s.drop_last()[j] == #[trigger] s[j]);
        }
        lemma_digits_val_nonneg(s.drop_last());
    }
}

/// Core division fact: `(a * p + r) / (10 * p) == a / 10` when `0 <= r < p`.
proof fn lemma_div_nested(a: int, p: int, r: int)
    requires
        a >= 0,
        p > 0,
        0 <= r < p,
    ensures
        (a * p + r) / (p * 10) == a / 10,
{
    let b = a / 10;
    let s = a % 10;
    vstd::arithmetic::div_mod::lemma_fundamental_div_mod(a, 10);
    assert(a * p + r == b * (p * 10) + (s * p + r)) by (nonlinear_arith)
        requires
            a == 10 * b + s,
    ;
    assert(0 <= s * p + r < p * 10) by (nonlinear_arith)
        requires
            0 <= s < 10,
            p > 0,
            0 <= r < p,
    ;
    vstd::arithmetic::div_mod::lemma_fundamental_div_mod_converse(
        a * p + r,
        p * 10,
        b,
        s * p + r,
    );
}

/// Most-significant-digit expansion of `digits_val`.
proof fn lemma_digits_val_first(s: Seq<char>)
    requires
        s.len() > 0,
    ensures
        digits_val(s) == digit_val(s[0]) * pow10((s.len() - 1) as nat) + digits_val(s.drop_first()),
    decreases s.len(),
{
    if s.len() == 1 {
        assert(s.drop_last() =~= Seq::<char>::empty());
        assert(s.drop_first() =~= Seq::<char>::empty());
        assert(digits_val(Seq::<char>::empty()) == 0);
        assert(digits_val(s) == digit_val(s.last()));
        assert(s.last() == s[0]);
        assert(pow10((s.len() - 1) as nat) == 1);
    } else {
        let h = s.drop_last();
        let f = s.drop_first();
        lemma_digits_val_first(h);
        assert(h.drop_first() =~= f.drop_last());
        assert(h[0] == s[0]);
        let n1 = (s.len() - 2) as nat;
        let d0 = digit_val(s[0]);
        let w = digits_val(f.drop_last());
        assert(digits_val(h) == d0 * pow10(n1) + w);
        assert(digits_val(s) == (d0 * pow10(n1) + w) * 10 + digit_val(s.last()));
        assert((d0 * pow10(n1) + w) * 10 == d0 * (pow10(n1) * 10) + w * 10) by (nonlinear_arith);
        assert(pow10((s.len() - 1) as nat) == 10 * pow10(n1));
        assert(d0 * (pow10(n1) * 10) == d0 * pow10((s.len() - 1) as nat)) by (nonlinear_arith)
            requires
                pow10((s.len() - 1) as nat) == 10 * pow10(n1),
        ;
        assert(f.last() == s.last());
        assert(digits_val(f) == w * 10 + digit_val(f.last()));
    }
}

proof fn lemma_pow10_pos(k: nat)
    ensures
        pow10(k) >= 1,
    decreases k,
{
    if k > 0 {
        lemma_pow10_pos((k - 1) as nat);
    }
}

/// The digit-at-a-time fractional scaling computes the exact floor.
proof fn lemma_frac_scaled(f: Seq<char>, m: int)
    requires
        m >= 0,
        all_digits_range(f, 0, f.len() as int),
    ensures
        frac_scaled(f, m) == digits_val(f) * m / pow10(f.len()),
        0 <= frac_scaled(f, m) <= m,
    decreases f.len(),
{
    lemma_pow10_pos(f.len());
    lemma_digits_val_nonneg(f);
    if f.len() == 0 {
        assert(digits_val(f) * m == 0);
    } else {
        let rest = f.drop_first();
        let d = digit_val(f[0]);
        let p = pow10(rest.len());
        assert(all_digits_range(rest, 0, rest.len() as int)) by {
            assert(forall|j: int| 0 <= j < rest.len() ==> rest[j] == #[trigger] f[j + 1]);
        }
        lemma_frac_scaled(rest, m);
        lemma_digits_val_nonneg(rest);
        lemma_pow10_pos(rest.len());
        let rv = digits_val(rest);
        let q = rv * m / p;
        let r = rv * m % p;
        assert(rv * m >= 0) by (nonlinear_arith)
            requires
                rv >= 0,
                m >= 0,
        ;
        vstd::arithmetic::div_mod::lemma_fundamental_div_mod(rv * m, p);
        assert(0 <= r < p);
        assert(q >= 0) by (nonlinear_arith)
            requires
                rv * m == p * q + r,
                rv * m >= 0,
                0 <= r < p,
                p > 0,
        ;
        lemma_digits_val_first(f);
        // digits_val(f) * m == (d * m + q) * p + r
        assert((d * p + rv) * m == (d * m + q) * p + r) by (nonlinear_arith)
            requires
                rv * m == p * q + r,
        ;
        lemma_div_nested(d * m + q, p, r);
        assert(pow10(f.len()) == 10 * p);
        assert((d * m + q) * p + r == digits_val(f) * m) by (nonlinear_arith)
            requires
                digits_val(f) == d * p + rv,
                rv * m == p * q + r,
        ;
        assert(p * 10 == 10 * p);
        assert(digits_val(f) * m / (10 * p) == (d * m + q) / 10);
        // bound: frac_scaled(f, m) == (d * m + frac_scaled(rest, m)) / 10 <= m
        assert(d * m + frac_scaled(rest, m) <= 10 * m) by (nonlinear_arith)
            requires
                0 <= d <= 9,
                m >= 0,
                0 <= frac_scaled(rest, m) <= m,
        ;
        assert((d * m + frac_scaled(rest, m)) / 10 <= m && (d * m + frac_scaled(rest, m)) / 10
            >= 0) by {
            vstd::arithmetic::div_mod::lemma_div_is_ordered(
                d * m + frac_scaled(rest, m),
                10 * m,
                10,
            );
            assert(10 * m / 10 == m) by (nonlinear_arith);
            vstd::arithmetic::div_mod::lemma_div_pos_is_pos(d * m + frac_scaled(rest, m), 10);
        }
    }
}

/// Matches the second token against the suffix table.
fn suffix_lookup(t: &str) -> (r: Option<u64>)
    ensures
        match r {
            Some(m) => suffix_mult(t@) == Some(m as int),
            None => suffix_mult(t@) is None,
        },
{
    if str_eq(t, "B") {
        Some(1)
    } else if str_eq(t, "KiB") {
        Some(0x400)
    } else if str_eq(t, "MiB") {
        Some(0x100000)
    } else if str_eq(t, "GiB") {
        Some(0x40000000)
    } else if str_eq(t, "TiB") {
        Some(0x10000000000)
    } else if str_eq(t, "PiB") {
        Some(0x4000000000000)
    } else if str_eq(t, "EiB") {
        Some(0x1000000000000000)
    } else {
        None
    }
}

/// Parses a size string such as `"1.5 KiB"` to a number of bytes.
///
/// The first whitespace-delimited token is the decimal magnitude, the second
/// the unit suffix; the result is the magnitude times the suffix's power of
/// 1024, rounded toward zero and saturating at `u64::MAX`.
#[verifier::loop_isolation(false)]
#[verifier::rlimit(100)]
pub fn parse(size: &str) -> (r: Result<u64, SizeError>)
    ensures
        match r {
            Ok(v) => spec_size_parse(size@) == Ok::<u64, SizeErrM>(v),
            Err(e) => spec_size_parse(size@) == Err::<u64, SizeErrM>(e@),
        },
{
    let n = size.unicode_len();
    let a = skip_spaces(size, 0, n);
    if a >= n {
        return Err(SizeError::EmptyInput);
    }
    let b = token_end(size, a, n);
    let ghost t1 = size@.subrange(a as int, b as int);
    proof {
        lemma_first_dot_bounds(t1, 0);
    }
    // locate the first dot of the magnitude token
    let mut kab: usize = a;
    while kab < b && size.get_char(kab) != '.'
        invariant
            a <= kab <= b <= n == size@.len(),
            t1 == size@.subrange(a as int, b as int),
            spec_first_dot(t1, 0) == spec_first_dot(t1, kab - a),
            forall|j: int| 0 <= j < kab - a ==> t1[j] != '.',
        decreases b - kab,
    {
        proof {
            assert(t1[kab - a] == size@[kab as int]);
        }
        kab = kab + 1;
    }
    proof {
        if kab < b {
            assert(t1[kab - a] == size@[kab as int]);
        }
        assert(spec_first_dot(t1, 0) == kab - a);
    }
    // every other character must be a digit
    let mut j: usize = a;
    while j < kab
        invariant
            a <= j <= kab <= b <= n == size@.len(),
            t1 == size@.subrange(a as int, b as int),
            forall|x: int| 0 <= x < j - a ==> is_dec_digit(#[trigger] t1[x]),
        decreases kab - j,
    {
        let c = size.get_char(j);
        proof {
            assert(t1[j - a] == size@[j as int]);
        }
        if !('0' <= c && c <= '9') {
            return Err(SizeError::InvalidMagnitude(size.substring_char(a, b).to_owned()));
        }
        j = j + 1;
    }
    let fs: usize = if kab < b {
        kab + 1
    } else {
        b
    };
    let mut j2: usize = fs;
    while j2 < b
        invariant
            fs <= j2 <= b <= n == size@.len(),
            a <= kab <= b,
            fs == if kab < b {
                kab + 1int
            } else {
                b as int
            },
            t1 == size@.subrange(a as int, b as int),
            forall|x: int| fs - a <= x < j2 - a ==> is_dec_digit(#[trigger] t1[x]),
        decreases b - j2,
    {
        let c = size.get_char(j2);
        proof {
            assert(t1[j2 - a] == size@[j2 as int]);
        }
        if !('0' <= c && c <= '9') {
            return Err(SizeError::InvalidMagnitude(size.substring_char(a, b).to_owned()));
        }
        j2 = j2 + 1;
    }
    if !(kab > a || kab + 1 < b) {
        return Err(SizeError::InvalidMagnitude(size.substring_char(a, b).to_owned()));
    }
    proof {
        assert(valid_magnitude(t1));
    }
    // the unit suffix
    let a2 = skip_spaces(size, b, n);
    if a2 >= n {
        return Err(SizeError::MissingSuffix);
    }
    let b2 = token_end(size, a2, n);
    let t2 = size.substring_char(a2, b2);
    let m: u64 = match suffix_lookup(t2) {
        None => {
            return Err(SizeError::UnknownSuffix(t2.to_owned()));
        },
        Some(m) => m,
    };
    proof {
        assert(1 <= m && m <= 0x1000000000000000);
    }
    let ghost ipart = t1.subrange(0, kab - a);
    let ghost fpart = if kab < b {
        t1.subrange(kab - a + 1, t1.len() as int)
    } else {
        Seq::<char>::empty()
    };
    // fractional part, processed least-significant digit first
    let mut t0: u64 = 0;
    let mut jf: usize = b;
    while jf > fs
        invariant
            fs <= jf <= b <= n == size@.len(),
            a <= kab <= b,
            fs == if kab < b {
                kab + 1int
            } else {
                b as int
            },
            m <= 0x1000000000000000,
            t1 == size@.subrange(a as int, b as int),
            fpart == t1.subrange(fs - a, t1.len() as int),
            t0 <= m,
            t0 == frac_scaled(fpart.subrange(jf - fs, fpart.len() as int), m as int),
            forall|x: int| fs - a <= x < b - a ==> is_dec_digit(#[trigger] t1[x]),
        decreases jf,
    {
        jf = jf - 1;
        let c = size.get_char(jf);
        proof {
            assert(t1[jf - a] == size@[jf as int]);
            assert(fpart[jf - fs] == t1[jf - a]);
        }
        let d: u64 = (c as u32 as u64) - ('0' as u32 as u64);
        proof {
            assert(d as int * m as int + t0 as int <= 11529215046068469760) by (nonlinear_arith)
                requires
                    0 <= d <= 9,
                    1 <= m <= 0x1000000000000000,
                    0 <= t0 <= m,
            ;
        }
        let next = (d * m + t0) / 10;
        proof {
            let sub = fpart.subrange(jf - fs, fpart.len() as int);
            assert(sub[0] == fpart[jf - fs]);
            assert(sub.drop_first() =~= fpart.subrange(jf - fs + 1, fpart.len() as int));
            assert((d * m + t0) / 10 <= m) by {
                assert(d * m + t0 <= 10 * (m as int)) by (nonlinear_arith)
                    requires
                        0 <= d <= 9,
                        0 <= t0 <= m,
                ;
                vstd::arithmetic::div_mod::lemma_div_is_ordered(
                    d as int * m as int + t0 as int,
                    10 * (m as int),
                    10,
                );
                assert(10 * (m as int) / 10 == m as int) by (nonlinear_arith);
            }
        }
        t0 = next;
    }
    proof {
        assert(fpart.subrange(0, fpart.len() as int) =~= fpart);
        assert(all_digits_range(fpart, 0, fpart.len() as int)) by {
            assert(forall|x: int| 0 <= x < fpart.len() ==> fpart[x] == #[trigger] t1[x + (fs - a)]);
        }
        lemma_frac_scaled(fpart, m as int);
    }
    // integer part, most significant digit first, saturating
    let mut acc: u64 = 0;
    let mut sat: bool = false;
    let mut ji: usize = a;
    while ji < kab
        invariant
            a <= ji <= kab <= b <= n == size@.len(),
            m >= 1,
            t1 == size@.subrange(a as int, b as int),
            ipart == t1.subrange(0, kab - a),
            forall|x: int| 0 <= x < kab - a ==> is_dec_digit(#[trigger] t1[x]),
            !sat ==> acc == digits_val(ipart.subrange(0, ji - a)),
            sat ==> digits_val(ipart.subrange(0, ji - a)) > u64::MAX,
        decreases kab - ji,
    {
        let c = size.get_char(ji);
        proof {
            assert(t1[ji - a] == size@[ji as int]);
            assert(ipart[ji - a] == t1[ji - a]);
            let p = ipart.subrange(0, ji - a);
            let q = ipart.subrange(0, ji - a + 1);
            assert(q.drop_last() =~= p);
            assert(q.last() == ipart[ji - a]);
        }
        let d: u64 = (c as u32 as u64) - ('0' as u32 as u64);
        if !sat {
            let limit: u64 = (u64::MAX - d) / 10;
            proof {
                vstd::arithmetic::div_mod::lemma_fundamental_div_mod(
                    u64::MAX as int - d as int,
                    10,
                );
            }
            if acc > limit {
                sat = true;
            } else {
                acc = acc * 10 + d;
            }
        } else {
            proof {
                let p = ipart.subrange(0, ji - a);
                let q = ipart.subrange(0, ji - a + 1);
                assert(all_digits_range(p, 0, p.len() as int)) by {
                    assert(forall|x: int| 0 <= x < p.len() ==> p[x] == #[trigger] ipart[x]);
                }
                lemma_digits_val_nonneg(p);
                assert(digits_val(q) == digits_val(p) * 10 + digit_val(q.last()));
                assert(digits_val(p) * 10 >= digits_val(p)) by (nonlinear_arith)
                    requires
                        digits_val(p) >= 0,
                ;
            }
        }
        ji = ji + 1;
    }
    proof {
        assert(ipart.subrange(0, ipart.len() as int) =~= ipart);
        assert(all_digits_range(ipart, 0, ipart.len() as int)) by {
            assert(forall|x: int| 0 <= x < ipart.len() ==> ipart[x] == #[trigger] t1[x]);
        }
        lemma_digits_val_nonneg(ipart);
        assert(magnitude_scaled(t1, m as int) == digits_val(ipart) * m + t0) by {
            assert(ipart =~= t1.subrange(0, spec_first_dot(t1, 0)));
            if kab < b {
                assert(fpart =~= t1.subrange(spec_first_dot(t1, 0) + 1, t1.len() as int));
            }
        }
    }
    if sat {
        proof {
            assert(digits_val(ipart) * m >= digits_val(ipart)) by (nonlinear_arith)
                requires
                    digits_val(ipart) >= 0,
                    m >= 1,
            ;
        }
        return Ok(u64::MAX);
    }
    // acc * m + t0, saturating
    let limit2: u64 = (u64::MAX - t0) / m;
    proof {
        vstd::arithmetic::div_mod::lemma_fundamental_div_mod(u64::MAX as int - t0 as int, m as int);
    }
    if acc > limit2 {
        proof {
            assert(acc as int * m as int + t0 > u64::MAX) by (nonlinear_arith)
                requires
                    acc >= limit2 + 1,
                    u64::MAX as int - t0 as int == m as int * limit2 as int + ((u64::MAX as int
                        - t0 as int) % (m as int)),
                    0 <= ((u64::MAX as int - t0 as int) % (m as int)) < (m as int),
                    m >= 1,
            ;
        }
        return Ok(u64::MAX);
    }
    proof {
        assert(acc as int * m as int <= u64::MAX as int - t0 as int) by (nonlinear_arith)
            requires
                acc <= limit2,
                u64::MAX as int - t0 as int == m as int * limit2 as int + ((u64::MAX as int
                    - t0 as int) % (m as int)),
                0 <= ((u64::MAX as int - t0 as int) % (m as int)),
                m >= 1,
                acc >= 0,
        ;
    }
    Ok(acc * m + t0)
}

} // verus!
