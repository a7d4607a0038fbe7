//! Frequencies as text, and moving the received band.

use crate::decimal::{
    all_digits, digit, digits_value, is_digit, lemma_digits_bound, lemma_digits_concat,
    lemma_pow10_adds, lemma_pow10_increases, lemma_pow10_positive, pow10, push_decimal, push_padded,
};
use crate::double::{
    double, is_row, lemma_exact, lemma_finer, lemma_near, lemma_roughly, lemma_same_ratio,
    nearest_double, round_double, rounded, row_value, unit, PRECISION,
};
use crate::model::{IQ_RATE, MAX_RF_HZ, MIN_RF_HZ};
use crate::text::{characters, read_number, scan, trim_bounds, trimmed, with_points, Reading};
use crate::units::{clamped, nearest, round_div};
use vstd::arithmetic::power2::pow2;
use vstd::prelude::*;

verus! {

/// `digits` times ten to the power `exponent`: a numerator over a power of ten.
pub open spec fn fraction(digits: int, exponent: int) -> (int, int) {
    if exponent >= 0 {
        (digits * pow10(exponent as nat), 1)
    } else {
        (digits, pow10((-exponent) as nat) as int)
    }
}

/// `num / den` megahertz in hertz, in units of double precision: the number is rounded
/// when it is read, and once more when it is multiplied.
pub open spec fn hertz_units(num: int, den: int) -> int {
    rounded(double(num, den) * 1_000_000, 1)
}

/// The frequency that a number of megahertz denotes, rounded to whole hertz;
/// none outside the range of the hardware.
pub open spec fn hertz_of(reading: Reading) -> Option<int> {
    match reading {
        Reading::NotFinite => None,
        Reading::Finite { negative, digits, exponent } => {
            let (num, den) = fraction(digits, exponent);
            let hz = hertz_units(num, den);
            if !negative && MIN_RF_HZ * unit() <= hz <= MAX_RF_HZ * unit() {
                Some(nearest(hz, unit()))
            } else {
                None
            }
        },
    }
}

/// A frequency as text: megahertz with six decimals.
pub open spec fn mhz_text(hz: int) -> Seq<char> {
    let size = if hz < 0 {
        -hz
    } else {
        hz
    };
    (if hz < 0 {
        seq!['-']
    } else {
        Seq::empty()
    }) + crate::decimal::decimal((size / 1_000_000) as nat) + seq!['.'] + crate::decimal::padded(
        (size % 1_000_000) as nat,
        6,
    )
}

/// Writes a frequency as megahertz with six decimals.
pub fn format_mhz(hz: i64) -> (r: String)
    ensures
        r@ == mhz_text(hz as int),
{
    let mut out: String = String::new();
    proof {
        reveal_strlit("-");
        reveal_strlit(".");
    }
    let size: u64 = if hz < 0 {
        out.append("-");
        (-(hz as i128)) as u64
    } else {
        hz as u64
    };
    push_decimal(&mut out, size / 1_000_000);
    out.append(".");
    push_padded(&mut out, size % 1_000_000, 6);
    assert(out@ =~= mhz_text(hz as int));
    out
}

/// A row of digits that starts with another digit than zero.
proof fn lemma_leading_digit(s: Seq<char>)
    requires
        all_digits(s),
        s.len() > 0,
        s[0] != '0',
    ensures
        digits_value(s) >= pow10((s.len() - 1) as nat),
{
    let first = s.take(1);
    let rest = s.skip(1);
    assert(s =~= first + rest);
    lemma_digits_concat(first, rest);
    assert(first.drop_last() =~= Seq::empty());
    assert(digits_value(first) == digit(s[0])) by {
        assert(digits_value(first.drop_last()) == 0);
        assert(first.last() == s[0]);
    }
    assert(all_digits(rest)) by {
        assert forall|i: int| 0 <= i < rest.len() implies is_digit(#[trigger] rest[i]) by {
            assert(rest[i] == s[i + 1]);
        }
    }
    lemma_digits_bound(rest);
    assert(is_digit(s[0]));
    assert(digit(s[0]) >= 1);
    let w = pow10((s.len() - 1) as nat);
    let d = digit(s[0]);
    assert(d * w >= w) by (nonlinear_arith)
        requires
            d >= 1,
            w >= 0,
    ;
}

/// Leading zeros count nothing.
proof fn lemma_leading_zeros(s: Seq<char>, z: int)
    requires
        0 <= z <= s.len(),
        forall|i: int| 0 <= i < z ==> s[i] == '0',
    ensures
        digits_value(s) == digits_value(s.skip(z)),
{
    lemma_digits_concat(s.take(z), s.skip(z));
    assert(s =~= s.take(z) + s.skip(z));
    lemma_zeros(s.take(z));
    assert(0 * pow10(s.skip(z).len()) == 0);
}

/// A row of zeros counts nothing.
proof fn lemma_zeros(s: Seq<char>)
    requires
        forall|i: int| 0 <= i < s.len() ==> s[i] == '0',
    ensures
        digits_value(s) == 0,
    decreases s.len(),
{
    if s.len() > 0 {
        lemma_zeros(s.drop_last());
    }
}

/// The units are small.
proof fn lemma_unit()
    ensures
        unit() == pow2(60) * pow2(1014),
        pow2(60) == 0x1000_0000_0000_0000,
        pow2(1014) > 0,
        unit() >= 0x1000_0000_0000_0000,
{
    vstd::arithmetic::power2::lemma_pow2_adds(60, 1014);
    vstd::arithmetic::power2::lemma2_to64_rest();
    vstd::arithmetic::power2::lemma_pow2_pos(1014);
    let p = pow2(1014) as int;
    assert(0x1000_0000_0000_0000 * p >= 0x1000_0000_0000_0000) by (nonlinear_arith)
        requires
            p >= 1,
    ;
}

/// Less than a hundredth of a megahertz lies below the range of the hardware.
proof fn lemma_below(num: int, den: int)
    requires
        0 <= num,
        100 * num < den,
    ensures
        hertz_units(num, den) < MIN_RF_HZ * unit(),
{
    lemma_unit();
    let u = unit();
    assert(num * u >= 0) by (nonlinear_arith)
        requires
            num >= 0,
            u >= 0,
    ;
    lemma_roughly(num * u, den);
    let x = double(num, den);
    assert(50 * x <= u + 50) by (nonlinear_arith)
        requires
            x * den <= 2 * (num * u) + den,
            100 * num < den,
            den > 0,
            u >= 0,
    ;
    lemma_roughly(x * 1_000_000, 1);
}

/// Ten thousand megahertz lie above the range of the hardware.
proof fn lemma_above(num: int, den: int)
    requires
        den > 0,
        num >= 10_000 * den,
    ensures
        hertz_units(num, den) > MAX_RF_HZ * unit(),
{
    lemma_unit();
    let u = unit();
    assert(num * u >= 0) by (nonlinear_arith)
        requires
            num >= 0,
            u >= 0,
    ;
    lemma_roughly(num * u, den);
    let x = double(num, den);
    assert(2 * x >= 10_000 * u - 1) by (nonlinear_arith)
        requires
            2 * (x * den) >= num * u - den,
            num >= 10_000 * den,
            den > 0,
            u >= 0,
    ;
    lemma_roughly(x * 1_000_000, 1);
}

/// Between them the units of two to the power -60 are small enough.
proof fn lemma_between(num: int, den: int, x: int, y: int)
    requires
        den > 0,
        128 * num >= den,
        x == rounded(num * pow2(60), den),
        2 * x >= PRECISION,
        y == rounded(x * 1_000_000, 1),
    ensures
        hertz_units(num, den) == pow2(1014) * y,
        MIN_RF_HZ * unit() <= hertz_units(num, den) <==> MIN_RF_HZ * pow2(60) <= y,
        hertz_units(num, den) <= MAX_RF_HZ * unit() <==> y <= MAX_RF_HZ * pow2(60),
        nearest(hertz_units(num, den), unit()) == nearest(y, pow2(60) as int),
{
    lemma_unit();
    let (p, c) = (pow2(60) as int, pow2(1014) as int);
    assert(num * unit() == (num * p) * c) by (nonlinear_arith)
        requires
            unit() == p * c,
    ;
    assert(2 * (num * p) >= PRECISION * den) by (nonlinear_arith)
        requires
            128 * num >= den,
            p == 0x1000_0000_0000_0000,
            den > 0,
    ;
    lemma_finer(num * p, den, 1014);
    assert((c * x) * 1_000_000 == (x * 1_000_000) * c) by (nonlinear_arith);
    lemma_finer(x * 1_000_000, 1, 1014);
    let (lo, hi) = (MIN_RF_HZ as int, MAX_RF_HZ as int);
    assert(lo * (p * c) <= c * y <==> lo * p <= y) by (nonlinear_arith)
        requires
            c > 0,
    ;
    assert(c * y <= hi * (p * c) <==> y <= hi * p) by (nonlinear_arith)
        requires
            c > 0,
    ;
    crate::units::lemma_nearest_scaled(y, p, c);
    assert(p * c == c * p) by (nonlinear_arith);
}

/// Compares with a hundredth: below where there are too few places.
proof fn lemma_too_few_places(digits: int, n: nat, exponent: int)
    requires
        0 <= digits < pow10(n),
        n + exponent <= -2,
    ensures
        100 * fraction(digits, exponent).0 < fraction(digits, exponent).1,
{
    let q = (-exponent) as nat;
    lemma_pow10_small();
    lemma_pow10_adds(n, 2);
    lemma_pow10_increases(n + 2, q);
    let t = pow10(n) as int;
    assert(100 * t == t * pow10(2)) by (nonlinear_arith)
        requires
            pow10(2) == 100,
    ;
}

/// Compares with ten thousand: not below where there are too many places.
proof fn lemma_too_many_places(digits: int, n: nat, exponent: int)
    requires
        n > 0,
        pow10((n - 1) as nat) <= digits,
        n + exponent >= 5,
    ensures
        fraction(digits, exponent).1 > 0,
        fraction(digits, exponent).0 >= 10_000 * fraction(digits, exponent).1,
{
    lemma_pow10_small();
    let m = (n - 1) as nat;
    if exponent >= 0 {
        let p = exponent as nat;
        lemma_pow10_adds(m, p);
        lemma_pow10_increases(4, m + p);
        let (w, t) = (pow10(p) as int, pow10(m) as int);
        assert(digits * w >= t * w) by (nonlinear_arith)
            requires
                digits >= t,
                w >= 0,
        ;
    } else {
        let q = (-exponent) as nat;
        lemma_pow10_increases(4 + q, m);
        lemma_pow10_adds(4, q);
        lemma_pow10_positive(q);
        let w = pow10(q) as int;
        assert(pow10(4) * w == 10_000 * w) by (nonlinear_arith)
            requires
                pow10(4) == 10_000,
        ;
    }
}

/// Exponents that are far away on the same side denote the same frequency.
proof fn lemma_far_exponents(digits: Seq<char>, x: int, e: int, negative: bool)
    requires
        all_digits(digits),
        digits.len() <= 0xffff_ffff_ffff_ffff,
        crate::text::stands_for_loosely(x, e),
    ensures
        hertz_of(Reading::Finite { negative, digits: digits_value(digits), exponent: x })
            == hertz_of(Reading::Finite { negative, digits: digits_value(digits), exponent: e }),
{
    if x != e {
        lemma_digits_bound(digits);
        let value = digits_value(digits);
        if x > 0 {
            if value > 0 {
                lemma_far_above(value, x);
                lemma_far_above(value, e);
            } else {
                lemma_nothing(x);
                lemma_nothing(e);
            }
        } else {
            lemma_too_few_places(value, digits.len(), x);
            lemma_too_few_places(value, digits.len(), e);
            lemma_below(value, fraction(value, x).1);
            lemma_below(value, fraction(value, e).1);
        }
    }
}

proof fn lemma_far_above(value: int, x: int)
    requires
        value > 0,
        x > 10,
    ensures
        hertz_units(fraction(value, x).0, 1) > MAX_RF_HZ * unit(),
{
    lemma_pow10_small();
    lemma_pow10_increases(4, x as nat);
    let w = pow10(x as nat) as int;
    assert(value * w >= w) by (nonlinear_arith)
        requires
            value >= 1,
            w >= 0,
    ;
    lemma_above(value * w, 1);
}

/// No digits are no frequency, whatever the exponent.
proof fn lemma_nothing(e: int)
    ensures
        hertz_units(fraction(0, e).0, fraction(0, e).1) < MIN_RF_HZ * unit(),
{
    let (num, den) = fraction(0, e);
    if e >= 0 {
        assert(0 * pow10(e as nat) == 0);
    } else {
        lemma_pow10_positive((-e) as nat);
    }
    lemma_below(num, den);
}

proof fn lemma_pow10_small()
    ensures
        pow10(0) == 1,
        pow10(1) == 10,
        pow10(2) == 100,
        pow10(4) == 10_000,
        pow10(6) == 1_000_000,
{
    reveal_with_fuel(pow10, 7);
}

/// Reads the digits before the point, of which `places` are wanted: zeros stand for those
/// that are not written.
fn read_whole(digits: &[char], zeros: usize, places: usize) -> (whole: u64)
    requires
        all_digits(digits@),
        zeros <= digits@.len(),
        places <= 4,
    ensures
        whole < 10_000,
        ({
            let row = digits@.skip(zeros as int);
            whole == if places <= row.len() {
                digits_value(row.take(places as int))
            } else {
                digits_value(row) * pow10((places - row.len()) as nat)
            }
        }),
{
    let n: usize = digits.len() - zeros;
    let ghost row = digits@.skip(zeros as int);
    let mut whole: u64 = 0;
    let mut k: usize = 0;
    proof {
        lemma_pow10_small();
        assert(row.take(0) =~= Seq::empty());
    }
    while k < places
        invariant
            k <= places <= 4,
            n == row.len(),
            zeros + n == digits.len(),
            row == digits@.skip(zeros as int),
            all_digits(digits@),
            whole < pow10(k as nat),
            whole == if k <= n {
                digits_value(row.take(k as int))
            } else {
                digits_value(row) * pow10((k - n) as nat)
            },
        decreases places - k,
    {
        let d: u64 = if k < n {
            assert(row[k as int] == digits@[zeros + k]);
            (digits[zeros + k] as u32 - '0' as u32) as u64
        } else {
            0
        };
        proof {
            lemma_pow10_small();
            lemma_pow10_increases(k as nat, 4);
            if k < n {
                assert(row.take(k + 1).drop_last() =~= row.take(k as int));
                assert(row.take(k + 1).last() == row[k as int]);
            } else {
                if k == n {
                    assert(row.take(k as int) =~= row);
                }
                let (v, w) = (digits_value(row), pow10((k - n) as nat) as int);
                assert(v * (10 * w) == 10 * (v * w)) by (nonlinear_arith);
                assert(v * 1 == v) by (nonlinear_arith);
            }
        }
        whole = whole * 10 + d;
        k += 1;
    }
    proof {
        lemma_pow10_small();
        lemma_pow10_increases(places as nat, 4);
    }
    whole
}

/// Reads the digits behind the point, from the place `from` on; `gap` asks for a zero
/// before them.
fn read_rest(digits: &[char], from: usize, gap: bool) -> (row: Vec<u8>)
    requires
        all_digits(digits@),
        from <= digits@.len(),
    ensures
        is_row(row@),
        row@.len() == digits@.len() - from + (if gap {
            1int
        } else {
            0
        }),
        row_value(row@) == digits_value(digits@.skip(from as int)),
{
    let mut row: Vec<u8> = Vec::new();
    if gap {
        row.push(0);
        assert(row@.drop_last() =~= Seq::empty());
        assert(row_value(row@.drop_last()) == 0);
    }
    assert(row_value(row@) == 0);
    let ghost first = row@.len();
    let ghost rest = digits@.skip(from as int);
    let mut i: usize = from;
    assert(rest.take(0) =~= Seq::empty());
    while i < digits.len()
        invariant
            from <= i <= digits@.len(),
            all_digits(digits@),
            rest == digits@.skip(from as int),
            is_row(row@),
            row@.len() == first + (i - from),
            row_value(row@) == digits_value(rest.take(i - from)),
        decreases digits@.len() - i,
    {
        let ghost last = row@;
        assert(rest[i - from] == digits@[i as int]);
        let d: u8 = (digits[i] as u32 - '0' as u32) as u8;
        row.push(d);
        proof {
            assert(row@.drop_last() =~= last);
            assert(rest.take(i - from + 1).drop_last() =~= rest.take(i - from));
            assert(rest.take(i - from + 1).last() == rest[i - from]);
        }
        i += 1;
    }
    assert(rest.take(rest.len() as int) =~= rest);
    row
}

/// The frequency of `whole` megahertz and the part that `row` writes behind the point.
fn from_megahertz(whole: u64, row: Vec<u8>) -> (r: Option<i64>)
    requires
        whole < 10_000,
        is_row(row@),
        128 * (whole * pow10(row@.len()) + row_value(row@)) >= pow10(row@.len()),
    ensures
        ({
            let den = pow10(row@.len()) as int;
            let hz = hertz_units(whole * den + row_value(row@), den);
            if MIN_RF_HZ * unit() <= hz <= MAX_RF_HZ * unit() {
                let n = nearest(hz, unit());
                r == Some(n as i64) && MIN_RF_HZ <= n <= MAX_RF_HZ
            } else {
                r is None
            }
        }),
{
    let ghost den = pow10(row@.len()) as int;
    let ghost num = whole * den + row_value(row@);
    let x: u128 = nearest_double(whole, row);
    let y: u128 = round_double(x * 1_000_000, 1);
    proof {
        lemma_pow10_positive(row@.len());
        lemma_unit();
        lemma_between(num, den, x as int, y as int);
    }
    let one: u128 = 0x1000_0000_0000_0000;
    if y < MIN_RF_HZ as u128 * one || y > MAX_RF_HZ as u128 * one {
        None
    } else {
        Some(((2 * y + one) / (2 * one)) as i64)
    }
}

/// The frequency that `digits` times ten to the power `exponent` megahertz
/// denotes, rounded to whole hertz; none outside the range of the hardware.
fn to_hertz(digits: &[char], exponent: i128) -> (r: Option<i64>)
    requires
        all_digits(digits@),
        -0x100_0000_0000_0000_0000_0000_0000 <= exponent <= 0x100_0000_0000_0000_0000_0000_0000,
    ensures
        match hertz_of(
            Reading::Finite {
                negative: false,
                digits: digits_value(digits@),
                exponent: exponent as int,
            },
        ) {
            Some(hz) => r == Some(hz as i64) && MIN_RF_HZ <= hz <= MAX_RF_HZ,
            None => r is None,
        },
{
    let mut zeros: usize = 0;
    while zeros < digits.len() && digits[zeros] == '0'
        invariant
            zeros <= digits@.len(),
            forall|i: int| 0 <= i < zeros ==> digits@[i] == '0',
        decreases digits@.len() - zeros,
    {
        zeros += 1;
    }
    let ghost row = digits@.skip(zeros as int);
    let ghost value = digits_value(digits@);
    let ghost e = exponent as int;
    proof {
        lemma_leading_zeros(digits@, zeros as int);
        assert forall|i: int| 0 <= i < row.len() implies is_digit(#[trigger] row[i]) by {
            assert(row[i] == digits@[i + zeros]);
        }
        lemma_digits_bound(row);
    }
    let n: usize = digits.len() - zeros;
    let places: i128 = n as i128 + exponent;
    if n == 0 {
        proof {
            assert(row =~= Seq::empty());
            lemma_nothing(e);
        }
        return None;
    }
    if places < -1 {
        proof {
            lemma_too_few_places(value, row.len(), e);
            lemma_below(value, fraction(value, e).1);
        }
        return None;
    }
    proof {
        assert(row[0] == digits@[zeros as int]);
        lemma_leading_digit(row);
    }
    if places > 4 {
        proof {
            lemma_too_many_places(value, row.len(), e);
            lemma_above(fraction(value, e).0, fraction(value, e).1);
        }
        return None;
    }
    let gap: bool = places < 0;
    let before: usize = if gap {
        0
    } else {
        places as usize
    };
    let from: usize = if before < n {
        zeros + before
    } else {
        digits.len()
    };
    let whole: u64 = read_whole(digits, zeros, before);
    let rest: Vec<u8> = read_rest(digits, from, gap);
    proof {
        lemma_parts(digits@, zeros as int, e, whole as int, rest@);
    }
    from_megahertz(whole, rest)
}

/// The digits before and behind the point make up the whole number.
proof fn lemma_parts(digits: Seq<char>, zeros: int, e: int, whole: int, rest: Seq<u8>)
    requires
        all_digits(digits),
        0 <= zeros < digits.len(),
        digits_value(digits) == digits_value(digits.skip(zeros)),
        digits_value(digits) >= pow10((digits.len() - zeros - 1) as nat),
        ({
            let row = digits.skip(zeros);
            let places = row.len() + e;
            let before = if places < 0 {
                0
            } else {
                places
            };
            let from = if before < row.len() {
                zeros + before
            } else {
                digits.len() as int
            };
            &&& -1 <= places <= 4
            &&& whole == if before <= row.len() {
                digits_value(row.take(before))
            } else {
                digits_value(row) * pow10((before - row.len()) as nat)
            }
            &&& rest.len() == digits.len() - from + (if places < 0 {
                1int
            } else {
                0
            })
            &&& row_value(rest) == digits_value(digits.skip(from))
        }),
    ensures
        fraction(digits_value(digits), e) == (
            whole * pow10(rest.len()) + row_value(rest),
            pow10(rest.len()) as int,
        ),
        128 * (whole * pow10(rest.len()) + row_value(rest)) >= pow10(rest.len()),
{
    let row = digits.skip(zeros);
    let n = row.len() as int;
    let places = n + e;
    let value = digits_value(digits);
    lemma_pow10_small();
    lemma_pow10_positive((n - 1) as nat);
    if places >= n {
        assert(digits.skip(digits.len() as int) =~= Seq::empty());
        if places == n {
            assert(row.take(n) =~= row);
            assert(value * 1 == value) by (nonlinear_arith);
        }
        assert(rest.len() == 0);
        assert(whole * 1 == whole) by (nonlinear_arith);
        let w = pow10(e as nat) as int;
        lemma_pow10_positive(e as nat);
        assert(value * w >= 1) by (nonlinear_arith)
            requires
                value >= 1,
                w >= 1,
        ;
    } else {
        let before = if places < 0 {
            0
        } else {
            places
        };
        let (head, tail) = (row.take(before), row.skip(before));
        assert(row =~= head + tail);
        assert(tail =~= digits.skip(zeros + before));
        lemma_digits_concat(head, tail);
        if before == 0 {
            assert(head =~= Seq::empty());
            assert(whole * pow10(rest.len()) == 0) by (nonlinear_arith)
                requires
                    whole == 0,
            ;
            assert(digits_value(head) * pow10(tail.len()) == 0) by (nonlinear_arith)
                requires
                    digits_value(head) == 0,
            ;
        }
        assert(rest.len() == -e);
        lemma_pow10_increases((n - places) as nat, (n + 1) as nat);
        assert(pow10((n + 1) as nat) == 10 * pow10(n as nat));
        assert(pow10(n as nat) == 10 * pow10((n - 1) as nat));
    }
}

/// The message for a text that writes no number.
pub open spec fn invalid_frequency() -> Seq<char> {
    "Fréquence invalide : saisir des MHz, par exemple 156.800"@
}

/// The message for a number outside the range of the hardware.
pub open spec fn frequency_out_of_range() -> Seq<char> {
    "Fréquence hors plage : 0,500 à 1766 MHz (Blog V4)"@
}

/// What a text of megahertz denotes; a comma may stand for the point, and white
/// space may stand around the number.
pub open spec fn frequency_text(text: Seq<char>) -> Option<Reading> {
    read_number(with_points(trimmed(text)))
}

/// The frequency that a text denotes, in hertz, or why it denotes none.
pub open spec fn parsed(text: Seq<char>) -> Result<int, Seq<char>> {
    match frequency_text(text) {
        None => Err(invalid_frequency()),
        Some(reading) => match hertz_of(reading) {
            None => Err(frequency_out_of_range()),
            Some(hz) => Ok(hz),
        },
    }
}

/// Reads a frequency in megahertz.
pub fn parse_mhz(text: &str) -> (r: Result<i64, String>)
    ensures
        match parsed(text@) {
            Ok(hz) => r == Ok::<i64, String>(hz as i64) && MIN_RF_HZ <= hz <= MAX_RF_HZ,
            Err(message) => r matches Err(e) && e@ == message,
        },
{
    let all: Vec<char> = characters(text);
    let (from, to) = trim_bounds(all.as_slice());
    let ghost kept = trimmed(text@);
    let mut row: Vec<char> = Vec::new();
    let mut i: usize = from;
    while i < to
        invariant
            from <= i <= to <= all@.len(),
            kept == all@.subrange(from as int, to as int),
            row@ == with_points(kept).take(i - from),
        decreases to - i,
    {
        let c: char = if all[i] == ',' {
            '.'
        } else {
            all[i]
        };
        assert(kept[i - from] == all@[i as int]);
        row.push(c);
        assert(with_points(kept).take(i - from + 1) =~= with_points(kept).take(i - from).push(c));
        i += 1;
    }
    assert(row@ =~= with_points(kept));
    match scan(row.as_slice()) {
        None => Err("Fréquence invalide : saisir des MHz, par exemple 156.800".to_owned()),
        Some(number) => {
            let ghost reading = read_number(row@)->0;
            if number.not_finite || number.negative {
                return Err("Fréquence hors plage : 0,500 à 1766 MHz (Blog V4)".to_owned());
            }
            proof {
                assert(number.digits.len() == number.digits@.len());
                lemma_far_exponents(
                    number.digits@,
                    number.exponent as int,
                    reading->exponent,
                    false,
                );
            }
            match to_hertz(number.digits.as_slice(), number.exponent) {
                None => Err("Fréquence hors plage : 0,500 à 1766 MHz (Blog V4)".to_owned()),
                Some(hz) => Ok(hz),
            }
        },
    }
}

/// Every frequency that the hardware receives reads back from the text that
/// writes it.
pub proof fn frequencies_read_back(hz: int)
    requires
        MIN_RF_HZ <= hz <= MAX_RF_HZ,
    ensures
        parsed(mhz_text(hz)) == Ok::<int, Seq<char>>(hz),
{
    let whole = crate::decimal::decimal((hz / 1_000_000) as nat);
    let decimals = crate::decimal::padded((hz % 1_000_000) as nat, 6);
    lemma_pow10_small();
    crate::decimal::lemma_decimal_reads_back((hz / 1_000_000) as nat);
    crate::decimal::lemma_padded_reads_back((hz % 1_000_000) as nat, 6);
    let text = mhz_text(hz);
    assert(text =~= whole + seq!['.'] + decimals);
    let n = whole.len() as int;
    assert forall|i: int| 0 <= i < text.len() && i != n implies is_digit(text[i]) by {
        if i < n {
            assert(text[i] == whole[i]);
        } else {
            assert(text[i] == decimals[i - n - 1]);
        }
    }
    assert(text[n] == '.');
    assert(is_digit(text[0]));
    assert(is_digit(text.last()));
    assert(trimmed(text) == text);
    assert(with_points(text) =~= text);
    let first = text[0];
    assert(crate::text::lower(first) == first);
    assert(!crate::text::spells_not_finite(text));
    crate::text::lemma_no_exponent(text);
    assert(text.take(text.len() as int) =~= text);
    crate::text::lemma_first_of(text, '.', n);
    assert(text.take(n) =~= whole);
    assert(text.skip(n + 1) =~= decimals);
    let row = whole + decimals;
    assert(crate::text::row_of(text) == row);
    assert forall|i: int| 0 <= i < row.len() implies is_digit(#[trigger] row[i]) by {
        if i < n {
            assert(row[i] == whole[i]);
        } else {
            assert(row[i] == decimals[i - n]);
        }
    }
    lemma_digits_concat(whole, decimals);
    assert(digits_value(row) == hz);
    assert(fraction(hz, -6) == (hz, 1_000_000int));
    lemma_whole_hertz(hz);
}

/// The ends of the range are kept to the last digit.
proof fn lemma_ends()
    ensures
        hertz_units(MIN_RF_HZ as int, 1_000_000) == MIN_RF_HZ * unit(),
        hertz_units(MAX_RF_HZ as int, 1_000_000) == MAX_RF_HZ * unit(),
{
    lemma_unit();
    let u = unit();
    vstd::arithmetic::power2::lemma2_to64();
    vstd::arithmetic::power2::lemma2_to64_rest();
    vstd::arithmetic::power2::lemma_pow2_adds(53, 1021);
    vstd::arithmetic::power2::lemma_pow2_adds(34, 1040);
    vstd::arithmetic::power2::lemma_pow2_adds(42, 1032);
    vstd::arithmetic::power2::lemma_pow2_adds(22, 1052);
    lemma_exact(0x10_0000_0000_0000, 1021);
    lemma_same_ratio(MIN_RF_HZ * u, 1_000_000, 0x10_0000_0000_0000int * pow2(1021), 1);
    lemma_exact(500_000int * 0x4_0000_0000, 1040);
    lemma_exact(1_766int * 0x400_0000_0000, 1032);
    lemma_same_ratio(MAX_RF_HZ * u, 1_000_000, (1_766int * 0x400_0000_0000) * pow2(1032), 1);
    lemma_exact(1_766_000_000int * 0x40_0000, 1052);
}

/// A whole number of hertz is not changed by the precision of the numbers.
proof fn lemma_whole_hertz(hz: int)
    requires
        MIN_RF_HZ <= hz <= MAX_RF_HZ,
    ensures
        MIN_RF_HZ * unit() <= hertz_units(hz, 1_000_000) <= MAX_RF_HZ * unit(),
        nearest(hertz_units(hz, 1_000_000), unit()) == hz,
{
    lemma_unit();
    let u = unit();
    let a = hz * u;
    assert(MIN_RF_HZ * u <= a <= MAX_RF_HZ * u) by (nonlinear_arith)
        requires
            a == hz * u,
            MIN_RF_HZ <= hz <= MAX_RF_HZ,
            u > 0,
    ;
    lemma_near(a, 1_000_000);
    let product = double(hz, 1_000_000) * 1_000_000;
    lemma_near(product, 1);
    let y = hertz_units(hz, 1_000_000);
    assert(-u < 4 * (y - a) < u);
    lemma_ends();
    if hz > MIN_RF_HZ {
        assert(a >= (MIN_RF_HZ + 1) * u) by (nonlinear_arith)
            requires
                a == hz * u,
                hz >= MIN_RF_HZ + 1,
                u > 0,
        ;
    }
    if hz < MAX_RF_HZ {
        assert(a <= (MAX_RF_HZ - 1) * u) by (nonlinear_arith)
            requires
                a == hz * u,
                hz <= MAX_RF_HZ - 1,
                u > 0,
        ;
    }
    assert(hz * (2 * u) == 2 * a) by (nonlinear_arith)
        requires
            a == hz * u,
    ;
    vstd::arithmetic::div_mod::lemma_fundamental_div_mod_converse(
        2 * y + u,
        2 * u,
        hz,
        2 * (y - a) + u,
    );
}

/// The centre frequency after the band was dragged: `drag` against `width`, both
/// in the same unit of length, of which `pixel` make one pixel. The whole width
/// shows the whole band, and a width of less than one pixel counts as one.
pub open spec fn panned(start_hz: int, drag: int, width: int, pixel: int) -> int {
    let w = if width < pixel {
        pixel
    } else {
        width
    };
    clamped(nearest(start_hz * w - drag * IQ_RATE, w), MIN_RF_HZ as int, MAX_RF_HZ as int)
}

/// Thousandths of a pixel, in which drags and widths are counted.
pub const PIXEL: i64 = 1000;

/// The centre frequency after the band was dragged by `drag_pixels` on a plot of
/// `width`, both in thousandths of a pixel.
pub fn pan_center(start_hz: i64, drag_pixels: i32, width: i32) -> (r: i64)
    ensures
        r == panned(start_hz as int, drag_pixels as int, width as int, PIXEL as int),
        MIN_RF_HZ <= r <= MAX_RF_HZ,
{
    let w: i128 = if (width as i64) < PIXEL {
        PIXEL as i128
    } else {
        width as i128
    };
    let s: i128 = start_hz as i128;
    let d: i128 = drag_pixels as i128;
    let rate: i128 = IQ_RATE as i128;
    proof {
        assert(-0x1_0000_0000_0000_0000 <= d * rate <= 0x1_0000_0000_0000_0000) by (nonlinear_arith)
            requires
                -0x8000_0000 <= d <= 0x7fff_ffff,
                rate == 2_400_000,
        ;
        assert(-0x1_0000_0000_0000_0000_0000_0000 <= s * w <= 0x1_0000_0000_0000_0000_0000_0000)
            by (nonlinear_arith)
            requires
                -0x8000_0000_0000_0000 <= s <= 0x7fff_ffff_ffff_ffff,
                0 < w <= 0x7fff_ffff,
        ;
    }
    let centre: i128 = round_div(s * w - d * rate, w);
    crate::units::clamp(centre, MIN_RF_HZ as i128, MAX_RF_HZ as i128) as i64
}

/// Dragging by nothing leaves a centre frequency of the hardware's range as it is.
pub proof fn panning_by_nothing_stays(hz: int, width: int, pixel: int)
    requires
        MIN_RF_HZ <= hz <= MAX_RF_HZ,
        pixel > 0,
    ensures
        panned(hz, 0, width, pixel) == hz,
{
    let w = if width < pixel {
        pixel
    } else {
        width
    };
    assert(0 * IQ_RATE == 0);
    crate::units::lemma_nearest_multiple(hz, w);
}

/// Dragging moves the centre against the drag, to the left as to the right: within half a
/// hertz by the part of the band that the drag covers, as far as the hardware receives.
/// On a plot that is narrower than a pixel the drag counts as on one of a pixel.
pub proof fn dragging_moves_the_centre_against_the_drag(
    hz: int,
    drag: int,
    width: int,
    pixel: int,
)
    requires
        pixel > 0,
    ensures
        ({
            let w = if width >= pixel {
                width
            } else {
                pixel
            };
            let r = panned(hz, drag, width, pixel);
            let wanted = hz * w - drag * 2_400_000;
            &&& 500_000 <= r <= 1_766_000_000
            &&& r > 500_000 ==> 2 * (r * w) <= 2 * wanted + w
            &&& r < 1_766_000_000 ==> 2 * wanted - w < 2 * (r * w)
        }),
{
    let w = if width >= pixel {
        width
    } else {
        pixel
    };
    let wanted = hz * w - drag * 2_400_000;
    let n = nearest(wanted, w);
    crate::units::lemma_nearest_bounds(wanted, w);
    assert(2 * w * n == 2 * (n * w)) by (nonlinear_arith);
    let r = panned(hz, drag, width, pixel);
    assert(r == clamped(n, 500_000, 1_766_000_000));
    if n < r {
        assert(n * w <= r * w) by (nonlinear_arith)
            requires
                n < r,
                w > 0,
        ;
    }
    if n > r {
        assert(n * w >= r * w) by (nonlinear_arith)
            requires
                n > r,
                w > 0,
        ;
    }
}

/// Dragging by any number of whole widths moves the centre by as many bands, upwards to
/// the left and downwards to the right, as far as the hardware receives.
pub proof fn dragging_by_the_width_moves_by_the_band(hz: int, widths: int, width: int, pixel: int)
    requires
        pixel > 0,
        width >= pixel,
        500_000 <= hz - widths * 2_400_000 <= 1_766_000_000,
    ensures
        panned(hz, widths * width, width, pixel) == hz - widths * 2_400_000,
{
    let to = hz - widths * 2_400_000;
    assert(hz * width - (widths * width) * IQ_RATE == to * width) by (nonlinear_arith)
        requires
            to == hz - widths * 2_400_000,
            IQ_RATE == 2_400_000,
    ;
    crate::units::lemma_nearest_multiple(to, width);
}

/// The further the drag to the right, the lower the centre; and a drag from a higher
/// centre never ends lower.
pub proof fn dragging_keeps_the_order(
    hz: int,
    higher: int,
    drag: int,
    further: int,
    width: int,
    pixel: int,
)
    requires
        pixel > 0,
        hz <= higher,
        drag <= further,
    ensures
        panned(hz, further, width, pixel) <= panned(hz, drag, width, pixel) <= panned(
            higher,
            drag,
            width,
            pixel,
        ),
{
    let w = if width >= pixel {
        width
    } else {
        pixel
    };
    let (a, b, c) = (
        hz * w - further * IQ_RATE,
        hz * w - drag * IQ_RATE,
        higher * w - drag * IQ_RATE,
    );
    assert(hz * w <= higher * w) by (nonlinear_arith)
        requires
            hz <= higher,
            w > 0,
    ;
    vstd::arithmetic::div_mod::lemma_div_is_ordered(2 * a + w, 2 * b + w, 2 * w);
    vstd::arithmetic::div_mod::lemma_div_is_ordered(2 * b + w, 2 * c + w, 2 * w);
}

/// Rounding twice moves a frequency by a few parts in two to the power 53 at most.
proof fn lemma_hertz_near(num: int, den: int)
    requires
        den > 0,
        100 * num >= den,
    ensures
        ({
            let (a, b) = (1_000_000 * num * unit(), hertz_units(num, den) * den);
            &&& -3 * a <= PRECISION * (b - a) <= 3 * a
            &&& a > 0
            &&& unit() > 0
        }),
{
    lemma_unit();
    let u = unit();
    let n = num * u;
    let x = double(num, den);
    let y = hertz_units(num, den);
    assert(2 * n >= PRECISION * den && n >= 0x8_0000_0000_0000) by (nonlinear_arith)
        requires
            n == num * u,
            100 * num >= den,
            den >= 1,
            u >= 0x1000_0000_0000_0000,
            PRECISION == 0x20_0000_0000_0000,
    ;
    lemma_near(n, den);
    let xd = x * den;
    assert(x >= 0x8_0000_0000_0000) by (nonlinear_arith)
        requires
            xd == x * den,
            -n <= PRECISION * (xd - n),
            2 * n >= PRECISION * den,
            den >= 1,
            PRECISION == 0x20_0000_0000_0000,
    ;
    lemma_near(x * 1_000_000, 1);
    let e = y - x * 1_000_000;
    assert(PRECISION * (e * den) <= 1_000_000 * xd && PRECISION * (e * den) >= -1_000_000 * xd)
        by (nonlinear_arith)
        requires
            xd == x * den,
            -(x * 1_000_000) <= PRECISION * e <= x * 1_000_000,
            den >= 1,
    ;
    assert(y * den == e * den + 1_000_000 * xd) by (nonlinear_arith)
        requires
            xd == x * den,
            y == e + x * 1_000_000,
    ;
    assert(1_000_000 * num * u == 1_000_000 * n) by (nonlinear_arith)
        requires
            n == num * u,
    ;
}

/// A number of megahertz denotes its frequency, rounded to the nearest hertz but for less
/// than a thousandth of a hertz, within the range of the hardware; a negative number
/// denotes none, and any other number is refused only below or at most a hertz above the
/// lower end of the range, or above or at most a hertz below the upper one.
pub proof fn megahertz_denote_their_frequency(negative: bool, digits: int, exponent: int)
    requires
        digits >= 0,
    ensures
        ({
            let num = if exponent >= 0 {
                digits * pow10(exponent as nat)
            } else {
                digits
            };
            let den = if exponent >= 0 {
                1
            } else {
                pow10((-exponent) as nat) as int
            };
            match hertz_of(Reading::Finite { negative, digits, exponent }) {
                Some(hz) => {
                    &&& !negative
                    &&& 500_000 <= hz <= 1_766_000_000
                    &&& -1_001 * den <= 2_000 * (hz * den - num * 1_000_000) <= 1_001 * den
                },
                None => {
                    ||| negative
                    ||| num * 1_000_000 < 500_001 * den
                    ||| num * 1_000_000 > 1_765_999_999 * den
                },
            }
        }),
{
    let (num, den) = fraction(digits, exponent);
    if exponent >= 0 {
        let w = pow10(exponent as nat) as int;
        assert(digits * w >= 0) by (nonlinear_arith)
            requires
                digits >= 0,
                w >= 0,
        ;
    } else {
        lemma_pow10_positive((-exponent) as nat);
    }
    if 100 * num < den {
        lemma_below(num, den);
    } else if !negative {
        lemma_hertz_near(num, den);
        let (u, y) = (unit(), hertz_units(num, den));
        let (a, b, d) = (1_000_000 * num * u, y * den, u * den);
        let m = num * 1_000_000;
        assert(a == m * u) by (nonlinear_arith)
            requires
                a == 1_000_000 * num * u,
                m == num * 1_000_000,
        ;
        assert(d > 0) by (nonlinear_arith)
            requires
                d == u * den,
                u > 0,
                den > 0,
        ;
        if y < MIN_RF_HZ * u {
            lemma_less(y, MIN_RF_HZ as int, u, den);
            assert(a < 500_001 * d);
            assert(m < 500_001 * den) by (nonlinear_arith)
                requires
                    m * u < 500_001 * d,
                    d == u * den,
                    u > 0,
            ;
        } else if y > MAX_RF_HZ * u {
            lemma_more(y, MAX_RF_HZ as int, u, den);
            assert(a > 1_765_999_999 * d);
            assert(m > 1_765_999_999 * den) by (nonlinear_arith)
                requires
                    m * u > 1_765_999_999 * d,
                    d == u * den,
                    u > 0,
            ;
        } else {
            let hz = nearest(y, u);
            crate::units::lemma_nearest_bounds(y, u);
            assert(2 * u * hz == 2 * (hz * u)) by (nonlinear_arith);
            assert(500_000 <= hz <= 1_766_000_000) by (nonlinear_arith)
                requires
                    2 * y - u < 2 * (hz * u) <= 2 * y + u,
                    500_000 * u <= y <= 1_766_000_000 * u,
                    u > 0,
            ;
            assert(b <= 1_766_000_000 * d) by (nonlinear_arith)
                requires
                    b == y * den,
                    d == u * den,
                    y <= 1_766_000_000 * u,
                    den > 0,
            ;
            assert(-d <= 2_000 * (b - a) <= d);
            let h = hz * u * den;
            assert(-d <= 2 * (h - b) <= d) by (nonlinear_arith)
                requires
                    h == hz * u * den,
                    b == y * den,
                    d == u * den,
                    2 * y - u < 2 * (hz * u) <= 2 * y + u,
                    den > 0,
            ;
            assert(-1_001 * d <= 2_000 * (h - a) <= 1_001 * d);
            let off = hz * den - m;
            assert(off * u == h - a) by (nonlinear_arith)
                requires
                    off == hz * den - m,
                    h == hz * u * den,
                    a == m * u,
            ;
            assert(-1_001 * den <= 2_000 * off <= 1_001 * den) by (nonlinear_arith)
                requires
                    -1_001 * d <= 2_000 * (off * u) <= 1_001 * d,
                    d == u * den,
                    u > 0,
            ;
        }
    }
}

proof fn lemma_less(y: int, k: int, u: int, den: int)
    requires
        y < k * u,
        den > 0,
    ensures
        y * den < k * (u * den),
{
    assert(y * den < k * (u * den)) by (nonlinear_arith)
        requires
            y < k * u,
            den > 0,
    ;
}

proof fn lemma_more(y: int, k: int, u: int, den: int)
    requires
        y > k * u,
        den > 0,
    ensures
        y * den > k * (u * den),
{
    assert(y * den > k * (u * den)) by (nonlinear_arith)
        requires
            y > k * u,
            den > 0,
    ;
}

/// White space around a frequency does not count, and a comma is a point.
pub proof fn spaces_and_commas_do_not_matter(text: Seq<char>, c: char, i: int)
    requires
        crate::text::is_white_space(c),
        0 <= i < text.len(),
    ensures
        parsed(seq![c] + text) == parsed(text),
        parsed(text.push(c)) == parsed(text),
        text[i] == ',' ==> parsed(text.update(i, '.')) == parsed(text),
{
    crate::text::white_space_around_does_not_count(text, c);
    if text[i] == ',' {
        let pointed = text.update(i, '.');
        crate::text::lemma_trimmed_points(text, pointed);
    }
}

/// A frequency is written as a number with six decimals is.
pub proof fn frequencies_are_written_with_six_decimals(hz: int)
    ensures
        mhz_text(hz) == crate::decimal::fixed(hz, 6, 6, false),
{
    lemma_pow10_small();
    let size = if hz < 0 {
        -hz
    } else {
        hz
    };
    assert(size / 1 == size && size % 1 == 0);
    assert(crate::decimal::nearest_even(size, 1) == size);
    assert(mhz_text(hz) =~= crate::decimal::fixed(hz, 6, 6, false));
}

/// Megahertz that are typed in with a point are read as they are written: the frequency is
/// that number, rounded to the nearest hertz but for less than a thousandth; it is refused
/// as out of range only where the number is, to within a hertz.
pub proof fn typed_megahertz_are_read(whole: Seq<char>, decimals: Seq<char>)
    requires
        all_digits(whole),
        all_digits(decimals),
        whole.len() + decimals.len() > 0,
    ensures
        ({
            let num = digits_value(whole + decimals) * 1_000_000;
            let den = pow10(decimals.len()) as int;
            match parsed(whole + seq!['.'] + decimals) {
                Ok(hz) => {
                    &&& 500_000 <= hz <= 1_766_000_000
                    &&& -1_001 * den <= 2_000 * (hz * den - num) <= 1_001 * den
                },
                Err(message) => {
                    &&& message == frequency_out_of_range()
                    &&& num < 500_001 * den || num > 1_765_999_999 * den
                },
            }
        }),
{
    let text = whole + seq!['.'] + decimals;
    let n = whole.len() as int;
    assert(text[n] == '.');
    assert forall|i: int| 0 <= i < text.len() implies text[i] == '.' || is_digit(
        #[trigger] text[i],
    ) by {
        if i < n {
            assert(text[i] == whole[i]);
        } else if i > n {
            assert(text[i] == decimals[i - n - 1]);
        }
    }
    assert(text[0] == '.' || is_digit(text[0]));
    assert(text.last() == '.' || is_digit(text.last()));
    assert(trimmed(text) == text);
    assert(with_points(text) =~= text);
    let sign = Seq::<char>::empty();
    crate::text::plain_numbers_are_read(whole, decimals, sign);
    assert(sign + whole + seq!['.'] + decimals =~= text);
    assert(sign != seq!['-']) by {
        assert(seq!['-'].len() == 1);
    }
    let row = whole + decimals;
    assert(all_digits(row)) by {
        assert forall|i: int| 0 <= i < row.len() implies is_digit(#[trigger] row[i]) by {
            if i < n {
                assert(row[i] == whole[i]);
            } else {
                assert(row[i] == decimals[i - n]);
            }
        }
    }
    lemma_digits_bound(row);
    megahertz_denote_their_frequency(false, digits_value(row), -(decimals.len() as int));
    if decimals.len() == 0 {
        lemma_pow10_small();
        let (d, w) = (digits_value(row), pow10(0) as int);
        assert(d * w == d) by (nonlinear_arith)
            requires
                w == 1,
        ;
    }
}

/// A text without a digit is no frequency, nor is a negative number.
pub proof fn what_is_no_positive_number_is_refused(text: Seq<char>)
    ensures
        (forall|i: int| 0 <= i < text.len() ==> !('0' <= #[trigger] text[i] && text[i] <= '9'))
            ==> parsed(text) is Err,
        trimmed(text).len() > 0 && trimmed(text)[0] == '-' ==> parsed(text) is Err,
        hertz_of(Reading::NotFinite) is None,
{
    let kept = trimmed(text);
    let s = with_points(kept);
    if parsed(text) is Ok {
        let (sign, whole, rest, tail) = crate::text::numbers_have_one_form(s);
        let k = if whole.len() > 0 {
            sign.len() as int
        } else {
            sign.len() as int + 1
        };
        assert(is_digit(s[k])) by {
            if whole.len() > 0 {
                assert(s[k] == whole[0]);
            } else {
                assert(s[k] == rest[1]);
                assert(rest.skip(1)[0] == rest[1]);
            }
        }
        assert(s[k] == kept[k]);
        crate::text::lemma_trimmed_within(text, k);
        let i = choose|i: int| 0 <= i < text.len() && text[i] == kept[k];
        assert('0' <= text[i] && text[i] <= '9');
        if kept.len() > 0 && kept[0] == '-' {
            assert(s[0] == '-');
        }
    }
}

/// What is read as a frequency holds nothing but digits, points, commas, signs, exponent marks
/// and white space.
pub proof fn frequencies_hold_no_other_characters(text: Seq<char>, i: int)
    requires
        parsed(text) is Ok,
        0 <= i < text.len(),
    ensures
        ({
            let c = text[i];
            ||| '0' <= c && c <= '9'
            ||| c == '.' || c == ','
            ||| c == '+' || c == '-'
            ||| c == 'e' || c == 'E'
            ||| crate::text::is_white_space(c)
        }),
{
    crate::text::lemma_trimmed_keeps(text, i);
    let kept = trimmed(text);
    if kept.contains(text[i]) {
        let k = choose|k: int| 0 <= k < kept.len() && kept[k] == text[i];
        crate::text::only_numbers_are_read(with_points(kept), k);
        assert(with_points(kept)[k] == (if text[i] == ',' {
            '.'
        } else {
            text[i]
        }));
    }
}

} // verus!
