//! The host link: formatting published samples as text lines and
//! applying received command bytes to the noise knob.
//!
//! Each iteration of the link's loop serves exactly one of two events,
//! whichever is ready first: a published sample, turned into exactly one
//! output line, or one received byte, interpreted as a command. The
//! functions here decide everything about an event; only the waiting and
//! the byte transfer themselves live outside.

use vstd::prelude::*;
use crate::config::{NoiseConfig, level_step, spec_command};
use crate::sample::{PublishedSample, value_in_range};

verus! {

/// ASCII bytes the line format is built from.
pub const CH_S: u8 = 83;

pub const CH_I: u8 = 73;

pub const CH_N: u8 = 78;

pub const CH_E: u8 = 69;

pub const CH_Q: u8 = 81;

pub const CH_U: u8 = 85;

pub const CH_A: u8 = 65;

pub const CH_R: u8 = 82;

pub const CH_COMMA: u8 = 44;

pub const CH_MINUS: u8 = 45;

pub const CH_DOT: u8 = 46;

pub const CH_CR: u8 = 13;

pub const CH_LF: u8 = 10;

pub const CH_ZERO: u8 = 48;

pub const CH_NINE: u8 = 57;

/// Whether a byte is an ASCII decimal digit.
pub open spec fn digit_byte(b: u8) -> bool {
    CH_ZERO <= b <= CH_NINE
}

/// The ASCII digit for `d`.
pub open spec fn spec_digit(d: int) -> u8 {
    (CH_ZERO + d) as u8
}

/// The decimal digits of `n`, most significant first, no leading zeros
/// (a lone zero for `n == 0`).
pub open spec fn spec_dec_nat(n: nat) -> Seq<u8>
    decreases n,
{
    if n < 10 {
        seq![spec_digit(n as int)]
    } else {
        spec_dec_nat(n / 10).push(spec_digit((n % 10) as int))
    }
}

/// The last `width` decimal digits of `n`, most significant first,
/// padded with leading zeros.
pub open spec fn spec_digits_fixed(n: nat, width: nat) -> Seq<u8>
    decreases width,
{
    if width == 0 {
        Seq::empty()
    } else {
        spec_digits_fixed(n / 10, (width - 1) as nat).push(spec_digit((n % 10) as int))
    }
}

/// `s` with every trailing ASCII zero removed.
pub open spec fn spec_trim_zeros(s: Seq<u8>) -> Seq<u8>
    decreases s.len(),
{
    if s.len() > 0 && s.last() == CH_ZERO {
        spec_trim_zeros(s.drop_last())
    } else {
        s
    }
}

/// The decimal text of a nonnegative fixed-point value of `m`
/// micro-units: the integer part, then, unless the fraction is zero, a
/// point and the six fractional digits with trailing zeros removed.
pub open spec fn spec_micro_mag(m: nat) -> Seq<u8> {
    if m % 1_000_000 == 0 {
        spec_dec_nat(m / 1_000_000)
    } else {
        spec_dec_nat(m / 1_000_000) + seq![CH_DOT] + spec_trim_zeros(
            spec_digits_fixed(m % 1_000_000, 6),
        )
    }
}

/// The decimal text of a fixed-point value in micro-units, with a
/// leading minus sign when it is negative.
pub open spec fn spec_micro(v: int) -> Seq<u8> {
    if v < 0 {
        seq![CH_MINUS] + spec_micro_mag((-v) as nat)
    } else {
        spec_micro_mag(v as nat)
    }
}

/// The two comma-separated numeric fields and the line ending.
pub open spec fn spec_fields(raw: int, filtered: int) -> Seq<u8> {
    seq![CH_COMMA] + spec_micro(raw) + seq![CH_COMMA] + spec_micro(filtered) + seq![CH_CR, CH_LF]
}

/// The one output line a published sample is owed: its waveform tag,
/// then the raw and the filtered value.
pub open spec fn spec_line(s: PublishedSample) -> Seq<u8> {
    match s {
        PublishedSample::Sine(raw, filtered) => seq![CH_S, CH_I, CH_N, CH_E] + spec_fields(
            raw as int,
            filtered as int,
        ),
        PublishedSample::Square(raw, filtered) => seq![CH_S, CH_Q, CH_U, CH_A, CH_R, CH_E]
            + spec_fields(raw as int, filtered as int),
    }
}

/// The number a sequence of ASCII digits denotes in decimal.
pub open spec fn spec_dec_value(s: Seq<u8>) -> int
    decreases s.len(),
{
    if s.len() == 0 {
        0
    } else {
        spec_dec_value(s.drop_last()) * 10 + (s.last() - CH_ZERO)
    }
}

/// The emitted digits denote exactly the number that was formatted:
/// reading `spec_dec_nat(n)` back as a decimal gives `n`, so no two
/// numbers ever print the same digits.
pub proof fn lemma_dec_digits_denote(n: nat)
    ensures
        spec_dec_value(spec_dec_nat(n)) == n,
    decreases n,
{
    reveal_with_fuel(spec_dec_value, 3);
    if n < 10 {
        assert(spec_dec_nat(n).drop_last() =~= Seq::<u8>::empty());
    } else {
        lemma_dec_digits_denote(n / 10);
        assert(spec_dec_nat(n).drop_last() =~= spec_dec_nat(n / 10));
        vstd::arithmetic::div_mod::lemma_fundamental_div_mod(n as int, 10);
    }
}

/// The zero-padded fractional digits denote the fraction: reading
/// `spec_digits_fixed(n, w)` back as a decimal gives `n` modulo `10^w`.
pub proof fn lemma_fixed_digits_denote(n: nat, width: nat)
    ensures
        spec_dec_value(spec_digits_fixed(n, width)) == (n as int) % vstd::arithmetic::power::pow(
            10,
            width,
        ),
    decreases width,
{
    if width == 0 {
        assert((n as int) % vstd::arithmetic::power::pow(10, 0) == 0) by {
            vstd::arithmetic::power::lemma_pow0(10);
        }
    } else {
        let m = (width - 1) as nat;
        lemma_fixed_digits_denote(n / 10, m);
        assert(spec_digits_fixed(n, width).drop_last() =~= spec_digits_fixed(n / 10, m));
        let p = vstd::arithmetic::power::pow(10, m);
        vstd::arithmetic::power::lemma_pow_positive(10, m);
        assert(vstd::arithmetic::power::pow(10, width) == 10 * p) by {
            vstd::arithmetic::power::lemma_pow_adds(10, 1, m);
            vstd::arithmetic::power::lemma_pow1(10);
        }
        assert((n as int) % (10 * p) == 10 * (((n / 10) as int) % p) + (n as int) % 10) by {
            vstd::arithmetic::div_mod::lemma_mod_breakdown(n as int, 10, p);
        }
    }
}

/// Every byte `spec_dec_nat` emits is a decimal digit, and there is
/// always at least one.
pub proof fn lemma_dec_nat_digits(n: nat)
    ensures
        spec_dec_nat(n).len() >= 1,
        forall|i: int| 0 <= i < spec_dec_nat(n).len() ==> digit_byte(#[trigger] spec_dec_nat(n)[i]),
    decreases n,
{
    if n >= 10 {
        lemma_dec_nat_digits(n / 10);
    }
}

/// Every byte `spec_digits_fixed` emits is a decimal digit.
pub proof fn lemma_fixed_digits_are_digits(n: nat, width: nat)
    ensures
        spec_digits_fixed(n, width).len() == width,
        forall|i: int|
            0 <= i < width ==> digit_byte(#[trigger] spec_digits_fixed(n, width)[i]),
    decreases width,
{
    if width > 0 {
        lemma_fixed_digits_are_digits(n / 10, (width - 1) as nat);
    }
}

/// Trimming keeps a prefix: every trimmed byte was in the original, at
/// the same place.
pub proof fn lemma_trim_zeros_prefix(s: Seq<u8>)
    ensures
        spec_trim_zeros(s).len() <= s.len(),
        spec_trim_zeros(s) == s.subrange(0, spec_trim_zeros(s).len() as int),
    decreases s.len(),
{
    if s.len() > 0 && s.last() == CH_ZERO {
        lemma_trim_zeros_prefix(s.drop_last());
        assert(s.drop_last() =~= s.subrange(0, s.len() - 1));
        assert(s.drop_last().subrange(0, spec_trim_zeros(s).len() as int) =~= s.subrange(
            0,
            spec_trim_zeros(s).len() as int,
        ));
    } else {
        assert(spec_trim_zeros(s) =~= s.subrange(0, s.len() as int));
    }
}

/// A nonzero fraction keeps at least one digit after trimming.
pub proof fn lemma_trim_of_nonzero_fraction_nonempty(fp: nat)
    requires
        0 < fp < 1_000_000,
    ensures
        spec_trim_zeros(spec_digits_fixed(fp, 6)).len() >= 1,
{
    let s = spec_digits_fixed(fp, 6);
    lemma_fixed_digits_denote(fp, 6);
    assert(vstd::arithmetic::power::pow(10, 6) == 1_000_000) by {
        reveal_with_fuel(vstd::arithmetic::power::pow, 7);
    }
    vstd::arithmetic::div_mod::lemma_small_mod(fp, 1_000_000);
    assert(spec_dec_value(s) == fp);
    lemma_trim_zeros_denotes(s);
    if spec_trim_zeros(s).len() == 0 {
        assert(spec_dec_value(spec_trim_zeros(s)) == 0);
        assert(0 * vstd::arithmetic::power::pow(
            10,
            (s.len() - spec_trim_zeros(s).len()) as nat,
        ) == 0) by (nonlinear_arith);
    }
}

/// Trimming trailing zeros loses nothing: the trimmed digits, scaled
/// back by ten for every digit removed, denote the original value, so
/// the shortened fraction still determines the number it came from.
pub proof fn lemma_trim_zeros_denotes(s: Seq<u8>)
    ensures
        spec_trim_zeros(s).len() <= s.len(),
        spec_dec_value(s) == spec_dec_value(spec_trim_zeros(s)) * vstd::arithmetic::power::pow(
            10,
            (s.len() - spec_trim_zeros(s).len()) as nat,
        ),
    decreases s.len(),
{
    if s.len() > 0 && s.last() == CH_ZERO {
        lemma_trim_zeros_denotes(s.drop_last());
        let t = spec_trim_zeros(s);
        let k = (s.len() - 1 - t.len()) as nat;
        let p = vstd::arithmetic::power::pow(10, k);
        assert(vstd::arithmetic::power::pow(10, k + 1) == 10 * p) by {
            vstd::arithmetic::power::lemma_pow_adds(10, 1, k);
            vstd::arithmetic::power::lemma_pow1(10);
        }
        assert(spec_dec_value(s) == spec_dec_value(s.drop_last()) * 10);
        assert((spec_dec_value(t) * p) * 10 == spec_dec_value(t) * (10 * p)) by (nonlinear_arith);
    } else {
        vstd::arithmetic::power::lemma_pow0(10);
    }
}

/// No two magnitudes print the same text: the digits before the point
/// pin the integer part down, the trimmed digits after it the fraction.
pub proof fn lemma_micro_mag_injective(m1: nat, m2: nat)
    requires
        spec_micro_mag(m1) == spec_micro_mag(m2),
    ensures
        m1 == m2,
{
    let s = spec_micro_mag(m1);
    let ip1 = m1 / 1_000_000;
    let fp1 = m1 % 1_000_000;
    let ip2 = m2 / 1_000_000;
    let fp2 = m2 % 1_000_000;
    let d1 = spec_dec_nat(ip1);
    let d2 = spec_dec_nat(ip2);
    lemma_dec_nat_digits(ip1);
    lemma_dec_nat_digits(ip2);
    lemma_dec_digits_denote(ip1);
    lemma_dec_digits_denote(ip2);
    vstd::arithmetic::div_mod::lemma_fundamental_div_mod(m1 as int, 1_000_000);
    vstd::arithmetic::div_mod::lemma_fundamental_div_mod(m2 as int, 1_000_000);
    if fp1 == 0 && fp2 == 0 {
        assert(d1 == d2);
    } else if fp1 == 0 && fp2 != 0 {
        let t2 = spec_trim_zeros(spec_digits_fixed(fp2, 6));
        lemma_trim_of_nonzero_fraction_nonempty(fp2);
        assert(s[d2.len() as int] == CH_DOT);
        assert(digit_byte(s[d2.len() as int]));
        assert(false);
    } else if fp1 != 0 && fp2 == 0 {
        let t1 = spec_trim_zeros(spec_digits_fixed(fp1, 6));
        lemma_trim_of_nonzero_fraction_nonempty(fp1);
        assert(s[d1.len() as int] == CH_DOT);
        assert(digit_byte(s[d1.len() as int]));
        assert(false);
    } else {
        let t1 = spec_trim_zeros(spec_digits_fixed(fp1, 6));
        let t2 = spec_trim_zeros(spec_digits_fixed(fp2, 6));
        lemma_trim_of_nonzero_fraction_nonempty(fp1);
        lemma_trim_of_nonzero_fraction_nonempty(fp2);
        if d1.len() < d2.len() {
            assert(s[d1.len() as int] == CH_DOT);
            assert(s[d1.len() as int] == d2[d1.len() as int]);
            assert(digit_byte(d2[d1.len() as int]));
            assert(false);
        }
        if d2.len() < d1.len() {
            assert(s[d2.len() as int] == CH_DOT);
            assert(s[d2.len() as int] == d1[d2.len() as int]);
            assert(digit_byte(d1[d2.len() as int]));
            assert(false);
        }
        assert(d1.len() == d2.len());
        assert(d1 =~= d2) by {
            assert forall|i: int| 0 <= i < d1.len() implies d1[i] == d2[i] by {
                assert(s[i] == d1[i]);
                assert(s[i] == d2[i]);
            }
        }
        assert(ip1 == ip2);
        assert(s.len() == d1.len() + 1 + t1.len());
        assert(s.len() == d2.len() + 1 + t2.len());
        assert(t1 =~= t2) by {
            assert forall|i: int| 0 <= i < t1.len() implies t1[i] == t2[i] by {
                assert(s[d1.len() + 1 + i] == t1[i]);
                assert(s[d2.len() + 1 + i] == t2[i]);
            }
        }
        lemma_fixed_digits_denote(fp1, 6);
        lemma_fixed_digits_denote(fp2, 6);
        assert(vstd::arithmetic::power::pow(10, 6) == 1_000_000) by {
            reveal_with_fuel(vstd::arithmetic::power::pow, 7);
        }
        vstd::arithmetic::div_mod::lemma_small_mod(fp1, 1_000_000);
        vstd::arithmetic::div_mod::lemma_small_mod(fp2, 1_000_000);
        lemma_trim_zeros_denotes(spec_digits_fixed(fp1, 6));
        lemma_trim_zeros_denotes(spec_digits_fixed(fp2, 6));
        lemma_fixed_digits_are_digits(fp1, 6);
        lemma_fixed_digits_are_digits(fp2, 6);
        assert(fp1 == fp2);
    }
}

/// A magnitude's text starts with a digit, and every byte of it is a
/// digit or the decimal point.
pub proof fn lemma_micro_mag_bytes(m: nat)
    ensures
        spec_micro_mag(m).len() >= 1,
        digit_byte(spec_micro_mag(m)[0]),
        forall|i: int|
            0 <= i < spec_micro_mag(m).len() ==> digit_byte(#[trigger] spec_micro_mag(m)[i])
                || spec_micro_mag(m)[i] == CH_DOT,
{
    let ip = m / 1_000_000;
    let fp = m % 1_000_000;
    let d = spec_dec_nat(ip);
    lemma_dec_nat_digits(ip);
    if fp != 0 {
        let p = spec_digits_fixed(fp, 6);
        let t = spec_trim_zeros(p);
        lemma_fixed_digits_are_digits(fp, 6);
        lemma_trim_zeros_prefix(p);
        let s = spec_micro_mag(m);
        assert forall|i: int|
            0 <= i < s.len() implies digit_byte(#[trigger] s[i]) || s[i] == CH_DOT by {
            if i < d.len() {
                assert(s[i] == d[i]);
            } else if i == d.len() {
                assert(s[i] == CH_DOT);
            } else {
                assert(s[i] == t[i - d.len() - 1]);
                assert(t[i - d.len() - 1] == p[i - d.len() - 1]);
            }
        }
    }
}

/// A value's text is a digit run, optionally signed and pointed; no two
/// values print the same text.
pub proof fn lemma_micro_injective(v1: int, v2: int)
    requires
        spec_micro(v1) == spec_micro(v2),
    ensures
        v1 == v2,
{
    lemma_micro_mag_bytes(if v1 < 0 {
        (-v1) as nat
    } else {
        v1 as nat
    });
    lemma_micro_mag_bytes(if v2 < 0 {
        (-v2) as nat
    } else {
        v2 as nat
    });
    let s = spec_micro(v1);
    if v1 < 0 && v2 >= 0 {
        assert(s[0] == CH_MINUS);
        assert(digit_byte(s[0]));
        assert(false);
    } else if v1 >= 0 && v2 < 0 {
        assert(s[0] == CH_MINUS);
        assert(digit_byte(s[0]));
        assert(false);
    } else if v1 < 0 && v2 < 0 {
        let m1 = spec_micro_mag((-v1) as nat);
        let m2 = spec_micro_mag((-v2) as nat);
        assert(m1 =~= m2) by {
            assert(s.len() == 1 + m1.len());
            assert(s.len() == 1 + m2.len());
            assert forall|i: int| 0 <= i < m1.len() implies m1[i] == m2[i] by {
                assert(s[1 + i] == m1[i]);
                assert(s[1 + i] == m2[i]);
            }
        }
        lemma_micro_mag_injective((-v1) as nat, (-v2) as nat);
    } else {
        lemma_micro_mag_injective(v1 as nat, v2 as nat);
    }
}

/// Every byte of a value's text is a digit, the point or the sign —
/// never a comma and never part of the line ending.
pub proof fn lemma_micro_bytes(v: int)
    ensures
        spec_micro(v).len() >= 1,
        forall|i: int|
            0 <= i < spec_micro(v).len() ==> digit_byte(#[trigger] spec_micro(v)[i]) || spec_micro(
                v,
            )[i] == CH_DOT || spec_micro(v)[i] == CH_MINUS,
{
    let s = spec_micro(v);
    if v < 0 {
        let m = spec_micro_mag((-v) as nat);
        lemma_micro_mag_bytes((-v) as nat);
        assert forall|i: int|
            0 <= i < s.len() implies digit_byte(#[trigger] s[i]) || s[i] == CH_DOT || s[i]
            == CH_MINUS by {
            if i > 0 {
                assert(s[i] == m[i - 1]);
            }
        }
    } else {
        lemma_micro_mag_bytes(v as nat);
    }
}

/// The two numeric fields of a line pin both values down: equal field
/// texts mean equal raw and equal filtered values.
pub proof fn lemma_fields_injective(r1: int, f1: int, r2: int, f2: int)
    requires
        spec_fields(r1, f1) == spec_fields(r2, f2),
    ensures
        r1 == r2,
        f1 == f2,
{
    let s = spec_fields(r1, f1);
    let a1 = spec_micro(r1);
    let b1 = spec_micro(f1);
    let a2 = spec_micro(r2);
    let b2 = spec_micro(f2);
    lemma_micro_bytes(r1);
    lemma_micro_bytes(r2);
    lemma_micro_bytes(f1);
    lemma_micro_bytes(f2);
    if a1.len() < a2.len() {
        assert(s[1 + a1.len() as int] == CH_COMMA);
        assert(s[1 + a1.len() as int] == a2[a1.len() as int]);
        assert(false);
    }
    if a2.len() < a1.len() {
        assert(s[1 + a2.len() as int] == CH_COMMA);
        assert(s[1 + a2.len() as int] == a1[a2.len() as int]);
        assert(false);
    }
    assert(a1 =~= a2) by {
        assert forall|i: int| 0 <= i < a1.len() implies a1[i] == a2[i] by {
            assert(s[1 + i] == a1[i]);
            assert(s[1 + i] == a2[i]);
        }
    }
    lemma_micro_injective(r1, r2);
    assert(s.len() == 1 + a1.len() + 1 + b1.len() + 2);
    assert(s.len() == 1 + a2.len() + 1 + b2.len() + 2);
    assert(b1 =~= b2) by {
        assert forall|i: int| 0 <= i < b1.len() implies b1[i] == b2[i] by {
            assert(s[2 + a1.len() + i] == b1[i]);
            assert(s[2 + a2.len() + i] == b2[i]);
        }
    }
    lemma_micro_injective(f1, f2);
}

/// Distinct samples always print distinct lines: the line determines its
/// sample's tag and both of its values, so no two published samples can
/// ever be confused in the output.
pub proof fn lemma_line_injective(s1: PublishedSample, s2: PublishedSample)
    requires
        spec_line(s1) == spec_line(s2),
    ensures
        s1 == s2,
{
    let s = spec_line(s1);
    match (s1, s2) {
        (PublishedSample::Sine(r1, f1), PublishedSample::Sine(r2, f2)) => {
            let e1 = spec_fields(r1 as int, f1 as int);
            let e2 = spec_fields(r2 as int, f2 as int);
            assert(e1 =~= e2) by {
                assert(s.len() == 4 + e1.len());
                assert(s.len() == 4 + e2.len());
                assert forall|i: int| 0 <= i < e1.len() implies e1[i] == e2[i] by {
                    assert(s[4 + i] == e1[i]);
                    assert(s[4 + i] == e2[i]);
                }
            }
            lemma_fields_injective(r1 as int, f1 as int, r2 as int, f2 as int);
        },
        (PublishedSample::Square(r1, f1), PublishedSample::Square(r2, f2)) => {
            let e1 = spec_fields(r1 as int, f1 as int);
            let e2 = spec_fields(r2 as int, f2 as int);
            assert(e1 =~= e2) by {
                assert(s.len() == 6 + e1.len());
                assert(s.len() == 6 + e2.len());
                assert forall|i: int| 0 <= i < e1.len() implies e1[i] == e2[i] by {
                    assert(s[6 + i] == e1[i]);
                    assert(s[6 + i] == e2[i]);
                }
            }
            lemma_fields_injective(r1 as int, f1 as int, r2 as int, f2 as int);
        },
        (PublishedSample::Sine(_, _), PublishedSample::Square(_, _)) => {
            lemma_lines_of_distinct_tags_differ(s1, s2);
        },
        (PublishedSample::Square(_, _), PublishedSample::Sine(_, _)) => {
            lemma_lines_of_distinct_tags_differ(s2, s1);
        },
    }
}

/// Append the decimal digits of `n`.
fn push_dec_u64(out: &mut Vec<u8>, n: u64)
    ensures
        final(out)@ == old(out)@ + spec_dec_nat(n as nat),
    decreases n,
{
    if n < 10 {
        out.push(CH_ZERO + (n as u8));
        assert(final(out)@ =~= old(out)@ + spec_dec_nat(n as nat));
    } else {
        push_dec_u64(out, n / 10);
        out.push(CH_ZERO + ((n % 10) as u8));
        assert(final(out)@ =~= old(out)@ + spec_dec_nat(n as nat));
    }
}

/// Append exactly `width` decimal digits of `n`, zero padded.
fn push_fixed_digits(out: &mut Vec<u8>, n: u64, width: u64)
    ensures
        final(out)@ == old(out)@ + spec_digits_fixed(n as nat, width as nat),
    decreases width,
{
    if width == 0 {
        assert(final(out)@ =~= old(out)@ + spec_digits_fixed(n as nat, 0));
    } else {
        push_fixed_digits(out, n / 10, width - 1);
        out.push(CH_ZERO + ((n % 10) as u8));
        assert(final(out)@ =~= old(out)@ + spec_digits_fixed(n as nat, width as nat));
    }
}

/// Append the six fractional digits of `fp`, trailing zeros removed.
fn push_frac_digits(out: &mut Vec<u8>, fp: u64)
    requires
        fp < 1_000_000,
    ensures
        final(out)@ == old(out)@ + spec_trim_zeros(spec_digits_fixed(fp as nat, 6)),
{
    let mut digits: Vec<u8> = Vec::new();
    push_fixed_digits(&mut digits, fp, 6);
    while digits.len() > 0 && digits[digits.len() - 1] == CH_ZERO
        invariant
            spec_trim_zeros(digits@) == spec_trim_zeros(spec_digits_fixed(fp as nat, 6)),
        decreases digits.len(),
    {
        let ghost pre = digits@;
        digits.pop();
        proof {
            assert(pre.last() == CH_ZERO);
            assert(digits@ =~= pre.drop_last());
            assert(spec_trim_zeros(pre) == spec_trim_zeros(pre.drop_last()));
        }
    }
    assert(digits@ == spec_trim_zeros(spec_digits_fixed(fp as nat, 6)));
    out.append(&mut digits);
}

/// Append the decimal text of a fixed-point value in micro-units.
fn push_micro(out: &mut Vec<u8>, v: i64)
    requires
        value_in_range(v as int),
    ensures
        final(out)@ == old(out)@ + spec_micro(v as int),
{
    let mag: u64 = if v < 0 {
        out.push(CH_MINUS);
        (-v) as u64
    } else {
        v as u64
    };
    let ip: u64 = mag / 1_000_000;
    let fp: u64 = mag % 1_000_000;
    push_dec_u64(out, ip);
    if fp != 0 {
        out.push(CH_DOT);
        push_frac_digits(out, fp);
    }
    assert(final(out)@ =~= old(out)@ + spec_micro(v as int));
}

/// Produce the one line a published sample is owed, exactly as
/// `spec_line` lays it out.
pub fn format_line(s: &PublishedSample) -> (line: Vec<u8>)
    requires
        s.wf(),
    ensures
        line@ == spec_line(*s),
{
    let mut out: Vec<u8> = Vec::new();
    match s {
        PublishedSample::Sine(raw, filtered) => {
            out.push(CH_S);
            out.push(CH_I);
            out.push(CH_N);
            out.push(CH_E);
            out.push(CH_COMMA);
            push_micro(&mut out, *raw);
            out.push(CH_COMMA);
            push_micro(&mut out, *filtered);
            out.push(CH_CR);
            out.push(CH_LF);
            assert(out@ =~= spec_line(*s));
        },
        PublishedSample::Square(raw, filtered) => {
            out.push(CH_S);
            out.push(CH_Q);
            out.push(CH_U);
            out.push(CH_A);
            out.push(CH_R);
            out.push(CH_E);
            out.push(CH_COMMA);
            push_micro(&mut out, *raw);
            out.push(CH_COMMA);
            push_micro(&mut out, *filtered);
            out.push(CH_CR);
            out.push(CH_LF);
            assert(out@ =~= spec_line(*s));
        },
    }
    out
}

/// The lines owed to a whole run of published samples: one line per
/// item, in exactly the order the items were produced.
pub open spec fn spec_lines(items: Seq<PublishedSample>) -> Seq<Seq<u8>> {
    items.map_values(|s: PublishedSample| spec_line(s))
}

/// Every published item is owed exactly one line, and the lines stand in
/// production order: the `i`-th line is the line of the `i`-th item.
pub proof fn lemma_one_line_per_item(items: Seq<PublishedSample>)
    ensures
        spec_lines(items).len() == items.len(),
        forall|i: int| 0 <= i < items.len() ==> spec_lines(items)[i] == spec_line(items[i]),
{
}

/// A line carries its waveform tag faithfully: the lines of a sine
/// sample and of a square sample can never be confused.
pub proof fn lemma_lines_of_distinct_tags_differ(s1: PublishedSample, s2: PublishedSample)
    requires
        s1 is Sine,
        s2 is Square,
    ensures
        spec_line(s1) != spec_line(s2),
{
    assert(spec_line(s1)[1] == CH_I);
    assert(spec_line(s2)[1] == CH_Q);
}

/// One of the two events a host-link iteration can serve: the published
/// sample that became ready, or the byte that arrived on the transport.
#[derive(PartialEq, Eq, Structural, Clone, Copy, Debug)]
pub enum HostEvent {
    Published(PublishedSample),
    ByteReceived(u8),
}

/// What the host link asks its caller to do after one event: write one
/// line out, or nothing (commands act on the knob, not on the output).
pub enum HostAction {
    WriteLine(Vec<u8>),
    NoOutput,
}

/// The noise level after one event: a received byte acts as a command at
/// once, a published sample never touches the knob.
pub open spec fn spec_config_step(l: int, ev: HostEvent) -> int {
    match ev {
        HostEvent::Published(_) => l,
        HostEvent::ByteReceived(b) => level_step(l, spec_command(b)),
    }
}

/// The noise level after a whole sequence of events has been served in
/// order.
pub open spec fn spec_config_after(l: int, evs: Seq<HostEvent>) -> int
    decreases evs.len(),
{
    if evs.len() == 0 {
        l
    } else {
        spec_config_after(spec_config_step(l, evs[0]), evs.drop_first())
    }
}

/// Serve one event: a published sample yields exactly one formatted line
/// and leaves the knob alone; a received byte is applied to the knob at
/// once and yields no output.
pub fn handle_event(cfg: &mut NoiseConfig, ev: HostEvent) -> (a: HostAction)
    requires
        old(cfg).wf(),
        (ev matches HostEvent::Published(s) ==> s.wf()),
    ensures
        final(cfg).wf(),
        final(cfg).level == spec_config_step(old(cfg).level as int, ev),
        match ev {
            HostEvent::Published(s) => (a matches HostAction::WriteLine(line) && line@
                == spec_line(s)),
            HostEvent::ByteReceived(_) => a is NoOutput,
        },
{
    match ev {
        HostEvent::Published(s) => {
            let line = format_line(&s);
            HostAction::WriteLine(line)
        },
        HostEvent::ByteReceived(b) => {
            let c = crate::config::parse_command(b);
            cfg.apply_command(c);
            HostAction::NoOutput
        },
    }
}

/// Publish events never move the knob: whatever level a command left it
/// at still stands when the next samples are formatted.
pub proof fn lemma_publishes_preserve_level(l: int, evs: Seq<HostEvent>)
    requires
        forall|i: int| 0 <= i < evs.len() ==> evs[i] is Published,
    ensures
        spec_config_after(l, evs) == l,
    decreases evs.len(),
{
    if evs.len() > 0 {
        assert(evs[0] is Published);
        lemma_publishes_preserve_level(l, evs.drop_first());
    }
}

/// A command byte served between two publish events takes effect before
/// the later publish is formatted: after the byte and then any run of
/// publish events, the level is exactly the one the command set.
pub proof fn lemma_command_applied_before_next_publish(l: int, b: u8, evs: Seq<HostEvent>)
    requires
        forall|i: int| 0 <= i < evs.len() ==> evs[i] is Published,
    ensures
        spec_config_after(l, seq![HostEvent::ByteReceived(b)] + evs) == level_step(
            l,
            spec_command(b),
        ),
{
    let all = seq![HostEvent::ByteReceived(b)] + evs;
    assert(all[0] == HostEvent::ByteReceived(b));
    assert(all.drop_first() =~= evs);
    lemma_publishes_preserve_level(level_step(l, spec_command(b)), evs);
}

} // verus!
