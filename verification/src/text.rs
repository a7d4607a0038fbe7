//! Reading numbers out of text.

use crate::decimal::{all_digits, digits_value, is_digit};
use vstd::prelude::*;

verus! {

/// The characters of Unicode's `White_Space` property.
pub open spec fn is_white_space(c: char) -> bool {
    let u = c as u32;
    ||| 0x09 <= u <= 0x0d
    ||| u == 0x20
    ||| u == 0x85
    ||| u == 0xa0
    ||| u == 0x1680
    ||| 0x2000 <= u <= 0x200a
    ||| u == 0x2028
    ||| u == 0x2029
    ||| u == 0x202f
    ||| u == 0x205f
    ||| u == 0x3000
}

/// `s` without the white space at its start.
pub open spec fn trimmed_start(s: Seq<char>) -> Seq<char>
    decreases s.len(),
{
    if s.len() > 0 && is_white_space(s[0]) {
        trimmed_start(s.skip(1))
    } else {
        s
    }
}

/// `s` without the white space at its end.
pub open spec fn trimmed_end(s: Seq<char>) -> Seq<char>
    decreases s.len(),
{
    if s.len() > 0 && is_white_space(s.last()) {
        trimmed_end(s.drop_last())
    } else {
        s
    }
}

/// `s` without the white space around it.
pub open spec fn trimmed(s: Seq<char>) -> Seq<char> {
    trimmed_end(trimmed_start(s))
}

/// `s` with a point in place of each comma.
pub open spec fn with_points(s: Seq<char>) -> Seq<char> {
    s.map_values(|c: char| if c == ',' { '.' } else { c })
}

/// Whether `s` is `word`, whatever the case of its ASCII letters; `word` is in
/// lower case.
pub open spec fn is_word(s: Seq<char>, word: Seq<char>) -> bool {
    &&& s.len() == word.len()
    &&& forall|i: int| 0 <= i < s.len() ==> lower(#[trigger] s[i]) == word[i]
}

/// An ASCII capital in lower case; any other character as it is.
pub open spec fn lower(c: char) -> char {
    if 'A' <= c && c <= 'Z' {
        (c as u32 + 32) as char
    } else {
        c
    }
}

/// Where `c` first stands in `s`; the length of `s` where it does not.
pub open spec fn first_of(s: Seq<char>, c: char) -> int
    decreases s.len(),
{
    if s.len() == 0 || s[0] == c {
        0
    } else {
        1 + first_of(s.skip(1), c)
    }
}

/// What a text denotes as a number.
pub enum Reading {
    /// An infinity or "not a number".
    NotFinite,
    /// `digits` times ten to the power `exponent`, with the sign.
    Finite { negative: bool, digits: int, exponent: int },
}

/// Whether a sign stands at the start of `s`.
pub open spec fn has_sign(s: Seq<char>) -> bool {
    s.len() > 0 && (s[0] == '+' || s[0] == '-')
}

/// `s` behind its sign, where it has one.
pub open spec fn behind_sign(s: Seq<char>) -> Seq<char> {
    if has_sign(s) {
        s.skip(1)
    } else {
        s
    }
}

/// Whether `s` spells an infinity or "not a number".
pub open spec fn spells_not_finite(s: Seq<char>) -> bool {
    is_word(s, seq!['i', 'n', 'f']) || is_word(
        s,
        seq!['i', 'n', 'f', 'i', 'n', 'i', 't', 'y'],
    ) || is_word(s, seq!['n', 'a', 'n'])
}

/// Where the exponent mark of `s` stands; the length of `s` where it has none.
pub open spec fn exponent_mark(s: Seq<char>) -> int {
    let small = first_of(s, 'e');
    let capital = first_of(s, 'E');
    if small < capital {
        small
    } else {
        capital
    }
}

/// The value of an integer with an optional sign.
pub open spec fn read_integer(s: Seq<char>) -> Option<int> {
    let body = behind_sign(s);
    if body.len() > 0 && all_digits(body) {
        if s[0] == '-' {
            Some(-digits_value(body))
        } else {
            Some(digits_value(body))
        }
    } else {
        None
    }
}

/// The digits of a mantissa behind its point; none where it has no point.
pub open spec fn fraction_of(mantissa: Seq<char>) -> Seq<char> {
    let point = first_of(mantissa, '.');
    if point < mantissa.len() {
        mantissa.skip(point + 1)
    } else {
        Seq::empty()
    }
}

/// The characters of a mantissa without its point.
pub open spec fn row_of(mantissa: Seq<char>) -> Seq<char> {
    mantissa.take(first_of(mantissa, '.')) + fraction_of(mantissa)
}

/// The exponent behind the mark of `body`; zero where it has no mark.
pub open spec fn exponent_of(body: Seq<char>) -> Option<int> {
    let mark = exponent_mark(body);
    if mark < body.len() {
        read_integer(body.skip(mark + 1))
    } else {
        Some(0)
    }
}

/// The decimal number that `s` writes: an optional sign, digits with at most one
/// point among or beside them, and an optional exponent; or the name of an
/// infinity or of "not a number".
pub open spec fn read_number(s: Seq<char>) -> Option<Reading> {
    let body = behind_sign(s);
    let mantissa = body.take(exponent_mark(body));
    let row = row_of(mantissa);
    if spells_not_finite(body) {
        Some(Reading::NotFinite)
    } else if all_digits(row) && row.len() > 0 && exponent_of(body) is Some {
        Some(
            Reading::Finite {
                negative: s[0] == '-',
                digits: digits_value(row),
                exponent: exponent_of(body)->0 - fraction_of(mantissa).len(),
            },
        )
    } else {
        None
    }
}

pub proof fn lemma_first_of(s: Seq<char>, c: char, i: int)
    requires
        0 <= i <= s.len(),
        forall|j: int| 0 <= j < i ==> s[j] != c,
        i < s.len() ==> s[i] == c,
    ensures
        first_of(s, c) == i,
    decreases s.len(),
{
    if i > 0 {
        let t = s.skip(1);
        assert forall|j: int| 0 <= j < i - 1 implies t[j] != c by {
            assert(t[j] == s[j + 1]);
        }
        if i < s.len() {
            assert(t[i - 1] == s[i]);
        }
        lemma_first_of(t, c, i - 1);
    }
}

proof fn lemma_trimmed_start(s: Seq<char>, i: int)
    requires
        0 <= i <= s.len(),
        forall|j: int| 0 <= j < i ==> is_white_space(s[j]),
        i < s.len() ==> !is_white_space(s[i]),
    ensures
        trimmed_start(s) == s.skip(i),
    decreases i,
{
    if i == 0 {
        assert(s.skip(0) =~= s);
    } else {
        let t = s.skip(1);
        assert forall|j: int| 0 <= j < i - 1 implies is_white_space(t[j]) by {
            assert(t[j] == s[j + 1]);
        }
        if i < s.len() {
            assert(t[i - 1] == s[i]);
        }
        assert(is_white_space(s[0]));
        lemma_trimmed_start(t, i - 1);
        assert(t.skip(i - 1) =~= s.skip(i));
    }
}

proof fn lemma_trimmed_end(s: Seq<char>, n: int)
    requires
        0 <= n <= s.len(),
        forall|j: int| n <= j < s.len() ==> is_white_space(s[j]),
        n > 0 ==> !is_white_space(s[n - 1]),
    ensures
        trimmed_end(s) == s.take(n),
    decreases s.len() - n,
{
    if n == s.len() {
        assert(s.take(n) =~= s);
    } else {
        lemma_trimmed_end(s.drop_last(), n);
        assert(s.drop_last().take(n) =~= s.take(n));
    }
}

/// Whether `c` has Unicode's `White_Space` property.
pub fn white_space(c: char) -> (r: bool)
    ensures
        r == is_white_space(c),
{
    let u: u32 = c as u32;
    (0x09 <= u && u <= 0x0d) || u == 0x20 || u == 0x85 || u == 0xa0 || u == 0x1680 || (0x2000 <= u
        && u <= 0x200a) || u == 0x2028 || u == 0x2029 || u == 0x202f || u == 0x205f || u == 0x3000
}

/// The characters of `text`.
pub fn characters(text: &str) -> (r: Vec<char>)
    ensures
        r@ == text@,
{
    let mut out: Vec<char> = Vec::new();
    for c in it: text.chars()
        invariant
            out@ == it.seq().take(it.index() as int),
            it.seq() == text@,
    {
        out.push(c);
        assert(it.seq().take(it.index() + 1) =~= it.seq().take(it.index() as int).push(c));
    }
    assert(text@.take(text@.len() as int) =~= text@);
    out
}

/// The bounds of `s` without the white space around it.
pub fn trim_bounds(s: &[char]) -> (r: (usize, usize))
    ensures
        r.0 <= r.1 <= s@.len(),
        s@.subrange(r.0 as int, r.1 as int) == trimmed(s@),
{
    let mut start: usize = 0;
    while start < s.len() && white_space(s[start])
        invariant
            start <= s@.len(),
            forall|j: int| 0 <= j < start ==> is_white_space(#[trigger] s@[j]),
        decreases s@.len() - start,
    {
        start += 1;
    }
    proof {
        lemma_trimmed_start(s@, start as int);
    }
    let mut end: usize = s.len();
    while end > start && white_space(s[end - 1])
        invariant
            start <= end <= s@.len(),
            forall|j: int| end <= j < s@.len() ==> is_white_space(#[trigger] s@[j]),
        decreases end,
    {
        end -= 1;
    }
    proof {
        let t = s@.skip(start as int);
        let n = end - start;
        assert forall|j: int| n <= j < t.len() implies is_white_space(t[j]) by {
            assert(t[j] == s@[j + start]);
        }
        if n > 0 {
            assert(t[n - 1] == s@[end - 1]);
        }
        lemma_trimmed_end(t, n);
        assert(t.take(n) =~= s@.subrange(start as int, end as int));
    }
    (start, end)
}

/// An exponent beyond this bound puts any number out of every practical range.
pub const FAR: i128 = 0x8_0000_0000_0000_0000_0000_0000;

/// Whether `x` stands for the exponent `e`: equal to it, or as far away on the
/// same side.
pub open spec fn stands_for(x: int, e: int) -> bool {
    x == e || (x > FAR && e > FAR) || (x < -FAR && e < -FAR)
}

/// Whether `c` is the letter `small` or its capital.
fn is_letter(c: char, small: char) -> (r: bool)
    requires
        'a' <= small && small <= 'z',
    ensures
        r == (lower(c) == small),
{
    let u: u32 = c as u32;
    c == small || (0x41 <= u && u <= 0x5a && u + 32 == small as u32)
}

/// Whether `v` behind `from` spells an infinity or "not a number".
fn names_not_finite(v: &[char], from: usize) -> (r: bool)
    requires
        from <= v@.len(),
    ensures
        r == spells_not_finite(v@.skip(from as int)),
{
    let n: usize = v.len() - from;
    let ghost s = v@.skip(from as int);
    assert(forall|i: int| 0 <= i < n ==> s[i] == v@[from + i]);
    if n == 3 {
        let inf: bool = is_letter(v[from], 'i') && is_letter(v[from + 1], 'n') && is_letter(
            v[from + 2],
            'f',
        );
        let nan: bool = is_letter(v[from], 'n') && is_letter(v[from + 1], 'a') && is_letter(
            v[from + 2],
            'n',
        );
        proof {
            let (winf, wnan) = (seq!['i', 'n', 'f'], seq!['n', 'a', 'n']);
            assert(inf ==> is_word(s, winf));
            assert(nan ==> is_word(s, wnan));
            assert(is_word(s, winf) ==> lower(s[0]) == 'i' && lower(s[1]) == 'n' && lower(s[2])
                == 'f');
            assert(is_word(s, wnan) ==> lower(s[0]) == 'n' && lower(s[1]) == 'a' && lower(s[2])
                == 'n');
        }
        inf || nan
    } else if n == 8 {
        let r: bool = is_letter(v[from], 'i') && is_letter(v[from + 1], 'n') && is_letter(
            v[from + 2],
            'f',
        ) && is_letter(v[from + 3], 'i') && is_letter(v[from + 4], 'n') && is_letter(
            v[from + 5],
            'i',
        ) && is_letter(v[from + 6], 't') && is_letter(v[from + 7], 'y');
        proof {
            let w = seq!['i', 'n', 'f', 'i', 'n', 'i', 't', 'y'];
            assert(r ==> is_word(s, w));
            assert(is_word(s, w) ==> lower(s[0]) == 'i' && lower(s[1]) == 'n' && lower(s[2]) == 'f'
                && lower(s[3]) == 'i' && lower(s[4]) == 'n' && lower(s[5]) == 'i' && lower(s[6])
                == 't' && lower(s[7]) == 'y');
        }
        r
    } else {
        false
    }
}

/// Reads the integer with an optional sign that `v` holds behind `from`.
fn read_exponent(v: &[char], from: usize) -> (r: Option<i128>)
    requires
        from <= v@.len(),
    ensures
        r is Some <==> read_integer(v@.skip(from as int)) is Some,
        r matches Some(x) ==> stands_for(x as int, read_integer(v@.skip(from as int))->0) && -16
            * FAR <= x <= 16 * FAR,
{
    let ghost s = v@.skip(from as int);
    if from == v.len() {
        return None;
    }
    assert(s[0] == v@[from as int]);
    let negative: bool = v[from] == '-';
    let start: usize = if negative || v[from] == '+' {
        from + 1
    } else {
        from
    };
    let ghost body = behind_sign(s);
    assert(body =~= v@.skip(start as int));
    if start == v.len() {
        return None;
    }
    let mut i: usize = start;
    let mut value: i128 = 0;
    assert(body.take(0) =~= Seq::empty());
    while i < v.len()
        invariant
            start <= i <= v@.len(),
            s == v@.skip(from as int),
            body == behind_sign(s),
            body == v@.skip(start as int),
            all_digits(body.take(i - start)),
            0 <= value <= 16 * FAR,
            value == digits_value(body.take(i - start)) || (value > FAR && digits_value(
                body.take(i - start),
            ) > FAR),
        decreases v@.len() - i,
    {
        let c: char = v[i];
        assert(body[i - start] == c);
        if !('0' <= c && c <= '9') {
            return None;
        }
        let d: u32 = c as u32 - '0' as u32;
        proof {
            let next = body.take(i - start + 1);
            assert(next.drop_last() =~= body.take(i - start));
            assert(next.last() == c);
            assert forall|j: int| 0 <= j < next.len() implies is_digit(#[trigger] next[j]) by {
                if j < i - start {
                    assert(next[j] == body.take(i - start)[j]);
                }
            }
            crate::decimal::lemma_digits_bound(body.take(i - start));
        }
        if value <= FAR {
            value = value * 10 + d as i128;
        }
        i += 1;
    }
    assert(body.take(i - start) =~= body);
    if negative {
        Some(-value)
    } else {
        Some(value)
    }
}

/// A decimal number as it was read.
pub struct Scan {
    pub not_finite: bool,
    pub negative: bool,
    pub digits: Vec<char>,
    pub exponent: i128,
}

impl Scan {
    /// Whether this is what the text denotes; an exponent beyond all practical
    /// range may have another one of the same kind in its place.
    pub open spec fn denotes(self, reading: Reading) -> bool {
        match reading {
            Reading::NotFinite => self.not_finite,
            Reading::Finite { negative, digits, exponent } => {
                &&& !self.not_finite
                &&& self.negative == negative
                &&& all_digits(self.digits@)
                &&& digits_value(self.digits@) == digits
                &&& stands_for_loosely(self.exponent as int, exponent)
                &&& -32 * FAR <= self.exponent <= 32 * FAR
            },
        }
    }
}

/// As `stands_for`, with a smaller bound.
pub open spec fn stands_for_loosely(x: int, e: int) -> bool {
    x == e || (x > FAR / 2 && e > FAR / 2) || (x < -FAR / 2 && e < -FAR / 2)
}

/// Reads the digits of the mantissa that `v` holds from `start` to `mark`, and
/// counts those behind the point.
fn read_row(v: &[char], start: usize, mark: usize) -> (r: Option<(Vec<char>, usize)>)
    requires
        start <= mark <= v@.len(),
    ensures
        r is Some <==> all_digits(row_of(v@.subrange(start as int, mark as int))),
        r matches Some(x) ==> x.0@ == row_of(v@.subrange(start as int, mark as int)) && x.1
            == fraction_of(v@.subrange(start as int, mark as int)).len(),
{
    let ghost mantissa = v@.subrange(start as int, mark as int);
    let mut point: usize = start;
    while point < mark && v[point] != '.'
        invariant
            start <= point <= mark <= v@.len(),
            mantissa == v@.subrange(start as int, mark as int),
            forall|j: int| 0 <= j < point - start ==> mantissa[j] != '.',
        decreases mark - point,
    {
        assert(mantissa[point - start] == v@[point as int]);
        point += 1;
    }
    proof {
        if point < mark {
            assert(mantissa[point - start] == v@[point as int]);
        }
        lemma_first_of(mantissa, '.', point - start);
    }
    let ghost row = row_of(mantissa);
    let mut digits: Vec<char> = Vec::new();
    let mut i: usize = start;
    while i < mark
        invariant
            start <= i <= mark <= v@.len(),
            start <= point <= mark,
            mantissa == v@.subrange(start as int, mark as int),
            first_of(mantissa, '.') == point - start,
            row == row_of(mantissa),
            digits@ == row.take(
                if i <= point {
                    i - start
                } else {
                    i - start - 1
                },
            ),
            all_digits(digits@),
        decreases mark - i,
    {
        let c: char = v[i];
        if i != point {
            let ghost k = if i < point {
                i - start
            } else {
                i - start - 1
            };
            proof {
                assert(mantissa[i - start] == c);
                assert(row[k] == c);
            }
            if !('0' <= c && c <= '9') {
                assert(!is_digit(row[k]));
                return None;
            }
            digits.push(c);
            assert(row.take(k + 1) =~= row.take(k).push(c));
        }
        i += 1;
    }
    assert(row.take(row.len() as int) =~= row);
    let behind: usize = if point < mark {
        mark - point - 1
    } else {
        0
    };
    Some((digits, behind))
}

/// Reads the decimal number that `v` writes.
pub fn scan(v: &[char]) -> (r: Option<Scan>)
    ensures
        r is Some <==> read_number(v@) is Some,
        r matches Some(x) ==> x.denotes(read_number(v@)->0),
{
    let negative: bool = v.len() > 0 && v[0] == '-';
    let start: usize = if negative || (v.len() > 0 && v[0] == '+') {
        1
    } else {
        0
    };
    let ghost body = behind_sign(v@);
    assert(body =~= v@.skip(start as int));
    if names_not_finite(v, start) {
        return Some(Scan { not_finite: true, negative, digits: Vec::new(), exponent: 0 });
    }
    let mut mark: usize = start;
    while mark < v.len() && v[mark] != 'e' && v[mark] != 'E'
        invariant
            start <= mark <= v@.len(),
            body == v@.skip(start as int),
            forall|j: int| 0 <= j < mark - start ==> body[j] != 'e' && body[j] != 'E',
        decreases v@.len() - mark,
    {
        assert(body[mark - start] == v@[mark as int]);
        mark += 1;
    }
    proof {
        if mark < v.len() {
            assert(body[mark - start] == v@[mark as int]);
        }
        lemma_exponent_mark(body, mark - start);
        assert(body.take(mark - start) =~= v@.subrange(start as int, mark as int));
        assert(mark < v.len() ==> v@.skip(mark + 1) =~= body.skip(mark - start + 1));
    }
    match read_row(v, start, mark) {
        None => None,
        Some((digits, behind)) => {
            if digits.len() == 0 {
                return None;
            }
            let exponent: i128 = if mark < v.len() {
                match read_exponent(v, mark + 1) {
                    None => {
                        return None;
                    },
                    Some(e) => e,
                }
            } else {
                0
            };
            Some(Scan { not_finite: false, negative, digits, exponent: exponent - behind as i128 })
        },
    }
}

proof fn lemma_exponent_mark(s: Seq<char>, i: int)
    requires
        0 <= i <= s.len(),
        forall|j: int| 0 <= j < i ==> s[j] != 'e' && s[j] != 'E',
        i < s.len() ==> s[i] == 'e' || s[i] == 'E',
    ensures
        exponent_mark(s) == i,
{
    if i == s.len() {
        lemma_first_of(s, 'e', i);
        lemma_first_of(s, 'E', i);
    } else if s[i] == 'e' {
        lemma_first_of(s, 'e', i);
        lemma_first_of_behind(s, 'E', i);
    } else {
        lemma_first_of(s, 'E', i);
        lemma_first_of_behind(s, 'e', i);
    }
}

/// A character that does not stand before `i` is first found at `i` or later.
proof fn lemma_first_of_behind(s: Seq<char>, c: char, i: int)
    requires
        0 <= i <= s.len(),
        forall|j: int| 0 <= j < i ==> s[j] != c,
    ensures
        i <= first_of(s, c) <= s.len(),
    decreases s.len(),
{
    if s.len() > 0 && s[0] != c && i == 0 {
        lemma_first_of_behind(s.skip(1), c, 0);
    }
    if i > 0 {
        let t = s.skip(1);
        assert forall|j: int| 0 <= j < i - 1 implies t[j] != c by {
            assert(t[j] == s[j + 1]);
        }
        lemma_first_of_behind(t, c, i - 1);
    }
}

/// A text of digits and points has no exponent.
pub proof fn lemma_no_exponent(s: Seq<char>)
    requires
        forall|i: int| 0 <= i < s.len() ==> is_digit(#[trigger] s[i]) || s[i] == '.',
    ensures
        exponent_mark(s) == s.len(),
{
    lemma_exponent_mark(s, s.len() as int);
}

/// Spaces of all widths, tabs and the ends of lines, pages and paragraphs are white space; no
/// visible ASCII character is, nor is a mark without width.
pub proof fn white_space_is_invisible(c: char)
    ensures
        c == ' ' || c == '\t' || c == '\n' || c == '\r' || c == '\u{b}' || c == '\u{c}'
            ==> is_white_space(c),
        c == '\u{85}' || c == '\u{a0}' || c == '\u{1680}' || '\u{2000}' <= c && c <= '\u{200a}'
            ==> is_white_space(c),
        c == '\u{2028}' || c == '\u{2029}' || c == '\u{202f}' || c == '\u{205f}' || c == '\u{3000}'
            ==> is_white_space(c),
        '!' <= c && c <= '~' ==> !is_white_space(c),
        c == '\u{200b}' || c == '\u{200d}' || c == '\u{2060}' || c == '\u{feff}'
            ==> !is_white_space(c),
        c < '\t' || '\r' < c && c < ' ' ==> !is_white_space(c),
{
}

/// A trimmed text is the part between the first and the last character that is no white
/// space: nothing is lost but white space, and none is left at either end.
pub proof fn trimming_loses_only_white_space(s: Seq<char>, a: int, b: int)
    requires
        0 <= a <= b <= s.len(),
        forall|i: int| 0 <= i < a || b <= i < s.len() ==> is_white_space(#[trigger] s[i]),
        a < b ==> !is_white_space(s[a]) && !is_white_space(s[b - 1]),
        a == b ==> a == s.len(),
    ensures
        trimmed(s) == s.subrange(a, b),
{
    lemma_trimmed_start(s, a);
    let t = s.skip(a);
    assert forall|j: int| b - a <= j < t.len() implies is_white_space(t[j]) by {
        assert(t[j] == s[j + a]);
    }
    if a < b {
        assert(t[b - a - 1] == s[b - 1]);
    }
    lemma_trimmed_end(t, b - a);
    assert(t.take(b - a) =~= s.subrange(a, b));
}

/// White space around a text changes nothing.
pub proof fn white_space_around_does_not_count(s: Seq<char>, c: char)
    requires
        is_white_space(c),
    ensures
        trimmed(seq![c] + s) == trimmed(s),
        trimmed(s.push(c)) == trimmed(s),
{
    let t = seq![c] + s;
    assert(t.skip(1) =~= s);
    assert(t[0] == c);
    lemma_trimmed_behind(s, c);
}

proof fn lemma_trimmed_behind(s: Seq<char>, c: char)
    requires
        is_white_space(c),
    ensures
        trimmed(s.push(c)) == trimmed(s),
    decreases s.len(),
{
    let t = s.push(c);
    if s.len() == 0 {
        assert(t.skip(1) =~= Seq::empty());
        assert(trimmed_start(t) == trimmed_start(t.skip(1)));
        assert(s =~= Seq::empty());
        assert(trimmed_start(s) =~= s);
    } else if is_white_space(s[0]) {
        assert(t.skip(1) =~= s.skip(1).push(c));
        assert(t[0] == s[0]);
        lemma_trimmed_behind(s.skip(1), c);
    } else {
        assert(t[0] == s[0]);
        assert(trimmed_start(t) == t);
        assert(t.drop_last() =~= s);
    }
}

/// A number in its plain form is read as it is written: the digits before and behind the
/// point, in which either may be missing, count together, less one power of ten for each
/// behind the point; a minus before them makes the number negative, and a plus changes
/// nothing.
pub proof fn plain_numbers_are_read(whole: Seq<char>, decimals: Seq<char>, sign: Seq<char>)
    requires
        all_digits(whole),
        all_digits(decimals),
        whole.len() + decimals.len() > 0,
        sign.len() == 0 || sign == seq!['+'] || sign == seq!['-'],
    ensures
        read_number(sign + whole + seq!['.'] + decimals) == Some(
            Reading::Finite {
                negative: sign == seq!['-'],
                digits: digits_value(whole + decimals),
                exponent: -(decimals.len() as int),
            },
        ),
{
    let body = whole + seq!['.'] + decimals;
    let s = sign + whole + seq!['.'] + decimals;
    let n = whole.len() as int;
    assert(body[n] == '.');
    assert forall|i: int| 0 <= i < body.len() && i != n implies is_digit(#[trigger] body[i]) by {
        if i < n {
            assert(body[i] == whole[i]);
        } else {
            assert(body[i] == decimals[i - n - 1]);
        }
    }
    lemma_behind_sign(sign, body);
    assert(s =~= sign + body);
    lemma_plain_body(body, n);
    assert(body.take(n) =~= whole);
    assert(body.skip(n + 1) =~= decimals);
    let row = whole + decimals;
    assert forall|i: int| 0 <= i < row.len() implies is_digit(#[trigger] row[i]) by {
        if i < n {
            assert(row[i] == whole[i]);
        } else {
            assert(row[i] == decimals[i - n]);
        }
    }
}

/// What stands behind an optional sign.
proof fn lemma_behind_sign(sign: Seq<char>, body: Seq<char>)
    requires
        sign.len() == 0 || sign == seq!['+'] || sign == seq!['-'],
        body.len() > 0,
        body[0] == '.' || is_digit(body[0]),
    ensures
        behind_sign(sign + body) == body,
        (sign + body)[0] == '-' <==> sign == seq!['-'],
{
    let s = sign + body;
    if sign.len() == 0 {
        assert(s =~= body);
        assert(sign != seq!['-']) by {
            assert(seq!['-'].len() == 1);
        }
    } else {
        assert(s[0] == sign[0]);
        assert(s.skip(1) =~= body);
        assert(seq!['-'][0] == '-');
        assert(seq!['+'][0] == '+');
    }
}

/// A body of digits with one point, at `n`, has no exponent and is no word.
proof fn lemma_plain_body(body: Seq<char>, n: int)
    requires
        0 <= n < body.len(),
        body[n] == '.',
        forall|i: int| 0 <= i < body.len() && i != n ==> is_digit(#[trigger] body[i]),
    ensures
        !spells_not_finite(body),
        exponent_mark(body) == body.len(),
        body.take(exponent_mark(body)) == body,
        first_of(body, '.') == n,
        exponent_of(body) == Some(0int),
{
    let first = body[0];
    assert(first == '.' || is_digit(first));
    assert(lower(first) == first);
    lemma_first_of(body, 'e', body.len() as int);
    lemma_first_of(body, 'E', body.len() as int);
    lemma_first_of(body, '.', n);
    assert(body.take(body.len() as int) =~= body);
}

/// An integer is read as its digits say, negative behind a minus; a plus changes nothing.
pub proof fn integers_are_read(sign: Seq<char>, digits: Seq<char>)
    requires
        sign.len() == 0 || sign == seq!['+'] || sign == seq!['-'],
        all_digits(digits),
        digits.len() > 0,
    ensures
        read_integer(sign + digits) == Some(
            if sign == seq!['-'] {
                -digits_value(digits)
            } else {
                digits_value(digits)
            },
        ),
{
    assert(is_digit(digits[0]));
    lemma_behind_sign(sign, digits);
}

/// A number with an exponent is read as the number before the mark, small or capital, with
/// that many powers of ten more.
pub proof fn exponents_shift_the_point(
    mantissa: Seq<char>,
    mark: char,
    tail: Seq<char>,
    plain: Reading,
    shift: int,
)
    requires
        read_number(mantissa) == Some(plain),
        plain is Finite,
        mark == 'e' || mark == 'E',
        forall|i: int| 0 <= i < mantissa.len() ==> mantissa[i] != 'e' && mantissa[i] != 'E',
        read_integer(tail) == Some(shift),
    ensures
        read_number(mantissa + seq![mark] + tail) == Some(
            Reading::Finite {
                negative: plain->negative,
                digits: plain->digits,
                exponent: plain->exponent + shift,
            },
        ),
{
    let s = mantissa + seq![mark] + tail;
    let body = behind_sign(mantissa);
    lemma_without_mark(mantissa);
    let long = body + seq![mark] + tail;
    lemma_sign_stays(mantissa, seq![mark] + tail);
    assert(s =~= mantissa + (seq![mark] + tail));
    assert(long =~= body + (seq![mark] + tail));
    lemma_with_mark(body, mark, tail);
    lemma_not_a_word(body, long);
}

/// What is known of a number without an exponent.
proof fn lemma_without_mark(mantissa: Seq<char>)
    requires
        read_number(mantissa) is Some,
        read_number(mantissa)->0 is Finite,
        forall|i: int| 0 <= i < mantissa.len() ==> mantissa[i] != 'e' && mantissa[i] != 'E',
    ensures
        ({
            let body = behind_sign(mantissa);
            &&& mantissa.len() > 0
            &&& forall|i: int| 0 <= i < body.len() ==> body[i] != 'e' && body[i] != 'E'
            &&& all_digits(row_of(body))
            &&& row_of(body).len() > 0
            &&& read_number(mantissa) == Some(
                Reading::Finite {
                    negative: mantissa[0] == '-',
                    digits: digits_value(row_of(body)),
                    exponent: -(fraction_of(body).len() as int),
                },
            )
        }),
{
    let body = behind_sign(mantissa);
    let n = body.len() as int;
    assert forall|i: int| 0 <= i < n implies body[i] != 'e' && body[i] != 'E' by {
        if has_sign(mantissa) {
            assert(body[i] == mantissa[i + 1]);
        } else {
            assert(body[i] == mantissa[i]);
        }
    }
    lemma_exponent_mark(body, n);
    assert(body.take(n) =~= body);
    lemma_first_of_place(body, '.');
    if mantissa.len() == 0 {
        assert(row_of(body).len() == 0);
    }
}

/// What follows a text does not change its sign.
proof fn lemma_sign_stays(a: Seq<char>, b: Seq<char>)
    requires
        a.len() > 0,
    ensures
        behind_sign(a + b) == behind_sign(a) + b,
        (a + b)[0] == a[0],
{
    assert((a + b)[0] == a[0]);
    if has_sign(a) {
        assert((a + b).skip(1) =~= a.skip(1) + b);
    }
}

/// The parts of a body with an exponent.
proof fn lemma_with_mark(body: Seq<char>, mark: char, tail: Seq<char>)
    requires
        mark == 'e' || mark == 'E',
        forall|i: int| 0 <= i < body.len() ==> body[i] != 'e' && body[i] != 'E',
    ensures
        ({
            let long = body + seq![mark] + tail;
            &&& exponent_mark(long) == body.len()
            &&& long.take(exponent_mark(long)) == body
            &&& exponent_of(long) == read_integer(tail)
            &&& body.len() <= long.len()
            &&& forall|i: int| 0 <= i < body.len() ==> long[i] == body[i]
        }),
{
    let long = body + seq![mark] + tail;
    let n = body.len() as int;
    assert(long[n] == mark);
    assert forall|i: int| 0 <= i < n implies long[i] != 'e' && long[i] != 'E' by {
        assert(long[i] == body[i]);
    }
    lemma_exponent_mark(long, n);
    assert(long.take(n) =~= body);
    assert(long.skip(n + 1) =~= tail);
}

/// A text that starts like a number is no word.
proof fn lemma_not_a_word(body: Seq<char>, long: Seq<char>)
    requires
        all_digits(row_of(body)),
        row_of(body).len() > 0,
        body.len() <= long.len(),
        forall|i: int| 0 <= i < body.len() ==> long[i] == body[i],
    ensures
        !spells_not_finite(long),
{
    lemma_first_of_place(body, '.');
    let point = first_of(body, '.');
    let row = row_of(body);
    if point == 0 && body.len() > 0 {
        assert(body[0] == '.');
    } else {
        assert(point > 0 && body.len() > 0);
        assert(row[0] == body[0]);
        assert(is_digit(row[0]));
    }
    let first = long[0];
    assert(first == '.' || is_digit(first));
    assert(lower(first) == first);
}

proof fn lemma_first_of_place(s: Seq<char>, c: char)
    ensures
        0 <= first_of(s, c) <= s.len(),
        first_of(s, c) < s.len() ==> s[first_of(s, c)] == c,
    decreases s.len(),
{
    if s.len() > 0 && s[0] != c {
        lemma_first_of_place(s.skip(1), c);
    }
}

/// A whole number is read as its digits say.
pub proof fn whole_numbers_are_read(sign: Seq<char>, whole: Seq<char>)
    requires
        sign.len() == 0 || sign == seq!['+'] || sign == seq!['-'],
        all_digits(whole),
        whole.len() > 0,
    ensures
        read_number(sign + whole) == Some(
            Reading::Finite {
                negative: sign == seq!['-'],
                digits: digits_value(whole),
                exponent: 0,
            },
        ),
{
    let n = whole.len() as int;
    assert(is_digit(whole[0]));
    lemma_behind_sign(sign, whole);
    assert forall|i: int| 0 <= i < n implies is_digit(#[trigger] whole[i]) || whole[i] == '.' by {}
    lemma_no_exponent(whole);
    assert(whole.take(n) =~= whole);
    lemma_first_of(whole, '.', n);
    assert(row_of(whole) =~= whole);
    lemma_not_a_word(whole, whole);
}

/// What is read as a number is made of digits, points, signs and exponent marks alone.
pub proof fn only_numbers_are_read(s: Seq<char>, i: int)
    requires
        read_number(s) is Some,
        read_number(s)->0 is Finite,
        0 <= i < s.len(),
    ensures
        '0' <= s[i] && s[i] <= '9' || s[i] == '.' || s[i] == '+' || s[i] == '-' || s[i] == 'e' || s[i]
            == 'E',
{
    let body = behind_sign(s);
    let signs = s.len() - body.len();
    let j = i - signs;
    if j >= 0 {
        assert(body[j] == s[i]);
        let mark = exponent_mark(body);
        lemma_first_of_place(body, 'e');
        lemma_first_of_place(body, 'E');
        let mantissa = body.take(mark);
        lemma_first_of_place(mantissa, '.');
        let point = first_of(mantissa, '.');
        let row = row_of(mantissa);
        if j < mark {
            assert(mantissa[j] == body[j]);
            if j < point {
                assert(row[j] == mantissa[j]);
                assert(is_digit(row[j]));
            } else if j > point {
                assert(row[j - 1] == mantissa[j]);
                assert(is_digit(row[j - 1]));
            }
        } else if j > mark {
            let tail = body.skip(mark + 1);
            let k = j - mark - 1;
            assert(tail[k] == body[j]);
            let digits = behind_sign(tail);
            if has_sign(tail) {
                if k > 0 {
                    assert(digits[k - 1] == tail[k]);
                    assert(is_digit(digits[k - 1]));
                }
            } else {
                assert(is_digit(digits[k]));
            }
        }
    }
}

/// A point in place of a comma leaves the same text, once all commas are points.
pub proof fn lemma_trimmed_points(a: Seq<char>, b: Seq<char>)
    requires
        a.len() == b.len(),
        forall|i: int|
            0 <= i < a.len() ==> #[trigger] a[i] == b[i] || a[i] == ',' && b[i] == '.',
    ensures
        with_points(trimmed(a)) == with_points(trimmed(b)),
    decreases a.len(),
{
    if a.len() == 0 {
        assert(a =~= b);
    } else {
        assert(a[0] == b[0] || a[0] == ',' && b[0] == '.');
        if is_white_space(a[0]) {
            let (s, t) = (a.skip(1), b.skip(1));
            assert forall|i: int| 0 <= i < s.len() implies #[trigger] s[i] == t[i] || s[i] == ','
                && t[i] == '.' by {
                assert(s[i] == a[i + 1]);
                assert(t[i] == b[i + 1]);
            }
            lemma_trimmed_points(s, t);
        } else {
            assert(trimmed_start(a) == a && trimmed_start(b) == b);
            lemma_ended_points(a, b);
        }
    }
}

proof fn lemma_ended_points(a: Seq<char>, b: Seq<char>)
    requires
        a.len() == b.len(),
        forall|i: int|
            0 <= i < a.len() ==> #[trigger] a[i] == b[i] || a[i] == ',' && b[i] == '.',
    ensures
        with_points(trimmed_end(a)) == with_points(trimmed_end(b)),
    decreases a.len(),
{
    if a.len() > 0 {
        let last = a.len() - 1;
        assert(a[last] == b[last] || a[last] == ',' && b[last] == '.');
        if is_white_space(a[last]) {
            let (s, t) = (a.drop_last(), b.drop_last());
            assert forall|i: int| 0 <= i < s.len() implies #[trigger] s[i] == t[i] || s[i] == ','
                && t[i] == '.' by {
                assert(s[i] == a[i]);
                assert(t[i] == b[i]);
            }
            lemma_ended_points(s, t);
        } else {
            assert(trimmed_end(a) == a && trimmed_end(b) == b);
            assert(with_points(a) =~= with_points(b));
        }
    } else {
        assert(a =~= b);
    }
}

/// What is read as an integer is a row of digits, behind a sign or not.
pub proof fn integers_have_one_form(s: Seq<char>) -> (r: (Seq<char>, Seq<char>))
    requires
        read_integer(s) is Some,
    ensures
        s == r.0 + r.1,
        r.0.len() == 0 || r.0 == seq!['+'] || r.0 == seq!['-'],
        all_digits(r.1),
        r.1.len() > 0,
{
    let digits = behind_sign(s);
    if has_sign(s) {
        let sign = s.take(1);
        assert(sign =~= seq![s[0]]);
        assert(s =~= sign + digits);
        (sign, digits)
    } else {
        assert(s =~= Seq::<char>::empty() + digits);
        (Seq::empty(), digits)
    }
}

/// What is read as a number is a sign or none, digits, a point with digits behind it or
/// none, and an exponent mark with an integer behind it or none; and it has a digit before
/// the exponent.
pub proof fn numbers_have_one_form(s: Seq<char>) -> (r: (
    Seq<char>,
    Seq<char>,
    Seq<char>,
    Seq<char>,
))
    requires
        read_number(s) is Some,
        read_number(s)->0 is Finite,
    ensures
        s == r.0 + r.1 + r.2 + r.3,
        r.0.len() == 0 || r.0 == seq!['+'] || r.0 == seq!['-'],
        all_digits(r.1),
        r.2.len() == 0 || r.2[0] == '.' && all_digits(r.2.skip(1)),
        r.3.len() == 0 || (r.3[0] == 'e' || r.3[0] == 'E') && read_integer(r.3.skip(1)) is Some,
        r.1.len() > 0 || r.2.len() > 1,
{
    let body = behind_sign(s);
    let sign = if has_sign(s) {
        s.take(1)
    } else {
        Seq::<char>::empty()
    };
    assert(s =~= sign + body);
    if has_sign(s) {
        assert(sign =~= seq![s[0]]);
    }
    let mark = exponent_mark(body);
    lemma_first_of_place(body, 'e');
    lemma_first_of_place(body, 'E');
    let mantissa = body.take(mark);
    let tail = body.skip(mark);
    assert(body =~= mantissa + tail);
    lemma_first_of_place(mantissa, '.');
    let point = first_of(mantissa, '.');
    let whole = mantissa.take(point);
    let rest = mantissa.skip(point);
    assert(mantissa =~= whole + rest);
    let row = row_of(mantissa);
    assert forall|i: int| 0 <= i < whole.len() implies is_digit(#[trigger] whole[i]) by {
        assert(row[i] == whole[i]);
        assert(is_digit(row[i]));
    }
    if rest.len() > 0 {
        let decimals = rest.skip(1);
        assert(decimals =~= fraction_of(mantissa));
        assert forall|i: int| 0 <= i < decimals.len() implies is_digit(#[trigger] decimals[i]) by {
            assert(row[point + i] == decimals[i]);
            assert(is_digit(row[point + i]));
        }
    }
    if tail.len() > 0 {
        assert(tail.skip(1) =~= body.skip(mark + 1));
        assert(tail[0] == body[mark]);
    }
    assert(s =~= sign + whole + rest + tail);
    (sign, whole, rest, tail)
}

/// A trimmed text holds no other characters than the text.
pub proof fn lemma_trimmed_within(s: Seq<char>, k: int)
    requires
        0 <= k < trimmed(s).len(),
    ensures
        s.contains(trimmed(s)[k]),
    decreases s.len(),
{
    if s.len() > 0 && is_white_space(s[0]) {
        let t = s.skip(1);
        lemma_trimmed_within(t, k);
        let i = choose|i: int| 0 <= i < t.len() && t[i] == trimmed(t)[k];
        assert(s[i + 1] == trimmed(s)[k]);
    } else {
        lemma_ended_within(s, k);
    }
}

proof fn lemma_ended_within(s: Seq<char>, k: int)
    requires
        0 <= k < trimmed_end(s).len(),
    ensures
        k < s.len(),
        s[k] == trimmed_end(s)[k],
    decreases s.len(),
{
    if s.len() > 0 && is_white_space(s.last()) {
        lemma_ended_within(s.drop_last(), k);
    }
}

/// Every character of a text is white space or stays in the trimmed text.
pub proof fn lemma_trimmed_keeps(s: Seq<char>, i: int)
    requires
        0 <= i < s.len(),
    ensures
        is_white_space(s[i]) || trimmed(s).contains(s[i]),
    decreases s.len(),
{
    if is_white_space(s[0]) {
        if i > 0 {
            assert(s.skip(1)[i - 1] == s[i]);
            lemma_trimmed_keeps(s.skip(1), i - 1);
        }
    } else {
        lemma_ended_keeps(s, i);
    }
}

proof fn lemma_ended_keeps(s: Seq<char>, i: int)
    requires
        0 <= i < s.len(),
    ensures
        is_white_space(s[i]) || trimmed_end(s).contains(s[i]),
    decreases s.len(),
{
    if is_white_space(s.last()) {
        if i < s.len() - 1 {
            assert(s.drop_last()[i] == s[i]);
            lemma_ended_keeps(s.drop_last(), i);
        }
    } else {
        assert(trimmed_end(s)[i] == s[i]);
    }
}

/// A trimmed text neither begins nor ends with white space, and trimming it again changes
/// nothing.
pub proof fn trimmed_texts_have_no_white_space_around(s: Seq<char>)
    ensures
        trimmed(s).len() > 0 ==> !is_white_space(trimmed(s)[0]) && !is_white_space(trimmed(s).last()),
        trimmed(trimmed(s)) == trimmed(s),
    decreases s.len(),
{
    if s.len() > 0 && is_white_space(s[0]) {
        trimmed_texts_have_no_white_space_around(s.skip(1));
    } else {
        lemma_ended(s);
        let t = trimmed_end(s);
        if t.len() > 0 {
            lemma_ended_within(s, 0);
        }
    }
}

proof fn lemma_ended(s: Seq<char>)
    ensures
        trimmed_end(s).len() > 0 ==> !is_white_space(trimmed_end(s).last()),
    decreases s.len(),
{
    if s.len() > 0 && is_white_space(s.last()) {
        lemma_ended(s.drop_last());
    }
}

} // verus!
