//! Positions as the packet formats carry them: the uncompressed
//! `ddmm.hhN/dddmm.hhW` form, the base-91 compressed form and the Mic-E
//! destination/information encoding.  Every decoded position is held as the
//! exact integers or decimal numerals of the wire format; the conversion to
//! degrees is left to the user of the library.

use vstd::prelude::*;
use crate::text::{lossy, lossy_spec};

verus! {

/// A decimal numeral `±mantissa × 10^exponent`, as written in a text field.
#[derive(Clone, Copy, Debug, PartialEq, Eq)]
pub struct Decimal {
    pub negative: bool,
    pub mantissa: u64,
    pub exponent: i64,
}

/// A number as `f64::from_str` reads it: a decimal numeral, or the words
/// `inf` and `nan` (any case).
#[derive(Clone, Copy, Debug, PartialEq, Eq)]
pub enum Numeral {
    Finite(Decimal),
    Infinite { negative: bool },
    NotANumber,
}

/// One uncompressed coordinate: `degrees + minutes / 60`, negated on the
/// southern or western hemisphere.
#[derive(Clone, Copy, Debug, PartialEq, Eq)]
pub struct Coordinate {
    pub degrees: Numeral,
    pub minutes: Numeral,
    pub negative: bool,
}

/// Mic-E latitude: `degrees + (minutes + hundredths / 100) / 60`.
#[derive(Clone, Copy, Debug, PartialEq, Eq)]
pub struct MicELatitude {
    pub degrees: u8,
    pub minutes: u8,
    pub hundredths: u8,
}

/// Mic-E longitude: `degrees + (minutes + hundredths / 100) / 60`, negated
/// when `west`.
#[derive(Clone, Copy, Debug, PartialEq, Eq)]
pub struct MicELongitude {
    pub degrees: u8,
    pub minutes: u8,
    pub hundredths: u8,
    pub west: bool,
}

/// A decoded position.
#[derive(Clone, Copy, Debug, PartialEq, Eq)]
pub enum Position {
    /// Latitude and longitude as written in an uncompressed report.
    Uncompressed { lat: Coordinate, lon: Coordinate },
    /// Base-91 values: latitude `90 - y / 380926`, longitude `-180 + x / 190463`.
    Compressed { y: u32, x: u32 },
    /// Mic-E latitude (negated unless `north`) and longitude.
    MicE { lat: MicELatitude, north: bool, lon: MicELongitude },
}

pub open spec fn is_digit(b: u8) -> bool {
    48 <= b <= 57
}

/// End of the run of ASCII digits that starts at `i`.
pub open spec fn digit_run(s: Seq<u8>, i: int) -> int
    decreases s.len() - i,
{
    if 0 <= i < s.len() && is_digit(s[i]) {
        digit_run(s, i + 1)
    } else {
        i
    }
}

/// The value of a string of ASCII digits.
pub open spec fn digits_value(s: Seq<u8>) -> nat
    decreases s.len(),
{
    if s.len() == 0 {
        0
    } else {
        digits_value(s.drop_last()) * 10 + (s.last() - 48) as nat
    }
}

pub open spec fn pow10(n: nat) -> nat
    decreases n,
{
    if n == 0 {
        1
    } else {
        10 * pow10((n - 1) as nat)
    }
}

pub open spec fn all_digits(s: Seq<u8>) -> bool {
    forall|i: int| 0 <= i < s.len() ==> is_digit(#[trigger] s[i])
}

/// ASCII letters in lower case.
pub open spec fn ascii_lower(c: u8) -> u8 {
    if 65 <= c <= 90 {
        (c + 32) as u8
    } else {
        c
    }
}

/// The field spells the three-letter word `w`, in any case.
pub open spec fn is_word3(s: Seq<u8>, w: Seq<u8>) -> bool {
    s.len() == 3 && w.len() == 3 && ascii_lower(s[0]) == w[0] && ascii_lower(s[1]) == w[1]
        && ascii_lower(s[2]) == w[2]
}

/// A text field of at most five bytes read with the grammar of
/// `f64::from_str`: an optional sign and `inf` or `nan` in any case (the
/// only special words that fit), or a decimal numeral.
pub open spec fn float_syntax(s: Seq<u8>) -> Option<Numeral> {
    let signed = s.len() > 0 && (s[0] == 43u8 || s[0] == 45u8);
    let word = if signed { s.drop_first() } else { s };
    if is_word3(word, seq![105u8, 110u8, 102u8]) {
        Some(Numeral::Infinite { negative: signed && s[0] == 45u8 })
    } else if is_word3(word, seq![110u8, 97u8, 110u8]) {
        Some(Numeral::NotANumber)
    } else {
        match decimal_syntax(s) {
            Some(d) => Some(Numeral::Finite(d)),
            None => None,
        }
    }
}

/// The exponent `[eE] [+-]? digits` that starts at `p3` and ends the field.
pub open spec fn exponent_syntax(s: Seq<u8>, p3: int) -> Option<int> {
    let p4 = p3 + 1;
    let exp_negative = p4 < s.len() && s[p4] == 45u8;
    let p5 = if p4 < s.len() && (s[p4] == 43u8 || s[p4] == 45u8) { p4 + 1 } else { p4 };
    let p6 = digit_run(s, p5);
    if p6 > p5 && p6 == s.len() {
        let e = digits_value(s.subrange(p5, p6));
        Some(if exp_negative { -e } else { e as int })
    } else {
        None
    }
}

/// A decimal numeral:
/// `[+-]? (digits | digits '.' digits? | '.' digits) ([eE] [+-]? digits)?`.
pub open spec fn decimal_syntax(s: Seq<u8>) -> Option<Decimal> {
    let p0: int = if s.len() > 0 && (s[0] == 43u8 || s[0] == 45u8) { 1 } else { 0 };
    let negative = p0 == 1 && s[0] == 45u8;
    let p1 = digit_run(s, p0);
    let dot = p1 < s.len() && s[p1] == 46u8;
    let p2 = if dot { p1 + 1 } else { p1 };
    let p3 = if dot { digit_run(s, p2) } else { p2 };
    let frac = p3 - p2;
    let mantissa = digits_value(s.subrange(p0, p1) + s.subrange(p2, p3));
    if (p1 - p0) + frac == 0 {
        None
    } else if p3 == s.len() {
        Some(Decimal { negative, mantissa: mantissa as u64, exponent: (-frac) as i64 })
    } else if s[p3] == 101u8 || s[p3] == 69u8 {
        match exponent_syntax(s, p3) {
            Some(e) => Some(Decimal { negative, mantissa: mantissa as u64, exponent: (e - frac) as i64 }),
            None => None,
        }
    } else {
        None
    }
}

pub proof fn lemma_digit_run(s: Seq<u8>, i: int)
    requires
        0 <= i <= s.len(),
    ensures
        i <= digit_run(s, i) <= s.len(),
        all_digits(s.subrange(i, digit_run(s, i))),
        digit_run(s, i) < s.len() ==> !is_digit(s[digit_run(s, i)]),
    decreases s.len() - i,
{
    if i < s.len() && is_digit(s[i]) {
        lemma_digit_run(s, i + 1);
        let j = digit_run(s, i);
        assert forall|k: int| 0 <= k < s.subrange(i, j).len() implies is_digit(
            #[trigger] s.subrange(i, j)[k],
        ) by {
            if k > 0 {
                assert(s.subrange(i, j)[k] == s.subrange(i + 1, j)[k - 1]);
            }
        }
    }
}

pub proof fn lemma_digits_value_bound(s: Seq<u8>)
    requires
        all_digits(s),
    ensures
        digits_value(s) < pow10(s.len()),
    decreases s.len(),
{
    if s.len() > 0 {
        assert(all_digits(s.drop_last()));
        lemma_digits_value_bound(s.drop_last());
        assert(is_digit(s.last()));
    }
}

pub(crate) proof fn lemma_pow10_small()
    ensures
        pow10(0) == 1,
        pow10(1) == 10,
        pow10(2) == 100,
        pow10(3) == 1000,
        pow10(4) == 10000,
        pow10(5) == 100000,
        pow10(6) == 1000000,
        pow10(7) == 10000000,
        pow10(8) == 100000000,
        pow10(9) == 1000000000,
{
    reveal_with_fuel(pow10, 10);
}

/// Running value of the digits `s[a..i]` appended to `acc`.
fn accumulate_digits(s: &[u8], a: usize, b: usize, acc: u64, Ghost(prefix): Ghost<Seq<u8>>) -> (r:
    u64)
    requires
        a <= b <= s@.len(),
        all_digits(s@.subrange(a as int, b as int)),
        acc == digits_value(prefix),
        prefix.len() + (b - a) <= 9,
        all_digits(prefix),
    ensures
        r == digits_value(prefix + s@.subrange(a as int, b as int)),
        r < 1000000000,
{
    let mut v = acc;
    let mut i = a;
    proof {
        assert(prefix + s@.subrange(a as int, a as int) == prefix);
    }
    while i < b
        invariant
            a <= i <= b,
            b <= s@.len(),
            all_digits(s@.subrange(a as int, b as int)),
            all_digits(prefix),
            prefix.len() + (b - a) <= 9,
            v == digits_value(prefix + s@.subrange(a as int, i as int)),
        decreases b - i,
    {
        let ghost t = prefix + s@.subrange(a as int, i as int);
        assert(s@.subrange(a as int, b as int)[i - a] == s@[i as int]);
        assert(all_digits(t)) by {
            assert forall|k: int| 0 <= k < t.len() implies is_digit(#[trigger] t[k]) by {
                if k >= prefix.len() {
                    assert(t[k] == s@.subrange(a as int, b as int)[k - prefix.len()]);
                }
            }
        }
        proof {
            lemma_digits_value_bound(t);
            lemma_pow10_small();
            lemma_pow10_mono(t.len(), 8);
        }
        let d = s[i] - 48;
        v = v * 10 + d as u64;
        i = i + 1;
        assert((prefix + s@.subrange(a as int, i as int)).drop_last() == t);
    }
    proof {
        let t = prefix + s@.subrange(a as int, b as int);
        assert(all_digits(t)) by {
            assert forall|k: int| 0 <= k < t.len() implies is_digit(#[trigger] t[k]) by {
                if k >= prefix.len() {
                    assert(t[k] == s@.subrange(a as int, b as int)[k - prefix.len()]);
                }
            }
        }
        lemma_digits_value_bound(t);
        lemma_pow10_small();
        lemma_pow10_mono(t.len(), 9);
    }
    v
}

pub(crate) proof fn lemma_pow10_mono(m: nat, n: nat)
    requires
        m <= n,
    ensures
        pow10(m) <= pow10(n),
    decreases n,
{
    if m < n {
        lemma_pow10_mono(m, (n - 1) as nat);
    }
}

fn digit_run_exec(s: &[u8], i: usize) -> (r: usize)
    requires
        i <= s@.len(),
    ensures
        r == digit_run(s@, i as int),
{
    let mut j = i;
    while j < s.len() && 48 <= s[j] && s[j] <= 57
        invariant
            i <= j <= s@.len(),
            digit_run(s@, j as int) == digit_run(s@, i as int),
        decreases s.len() - j,
    {
        j = j + 1;
    }
    j
}

fn lower(c: u8) -> (r: u8)
    ensures
        r == ascii_lower(c),
{
    if 65 <= c && c <= 90 {
        c + 32
    } else {
        c
    }
}

/// Reads a short numeric text field the way `f64::from_str` accepts it.
pub fn parse_float_field(s: &[u8]) -> (r: Option<Numeral>)
    requires
        s@.len() <= 5,
    ensures
        r == float_syntax(s@),
{
    let signed = s.len() > 0 && (s[0] == 43 || s[0] == 45);
    let w: usize = if signed {
        1
    } else {
        0
    };
    assert(s@.drop_first() == s@.subrange(1, s@.len() as int));
    if s.len() == w + 3 {
        let (a, b, c) = (lower(s[w]), lower(s[w + 1]), lower(s[w + 2]));
        if a == 105 && b == 110 && c == 102 {
            return Some(Numeral::Infinite { negative: signed && s[0] == 45 });
        }
        if a == 110 && b == 97 && c == 110 {
            return Some(Numeral::NotANumber);
        }
    }
    match parse_decimal(s) {
        Some(d) => Some(Numeral::Finite(d)),
        None => None,
    }
}

fn parse_exponent(s: &[u8], p3: usize) -> (r: Option<i64>)
    requires
        s@.len() <= 9,
        p3 < s@.len(),
    ensures
        match exponent_syntax(s@, p3 as int) {
            Some(e) => r == Some(e as i64) && -1000000000 < e < 1000000000,
            None => r is None,
        },
{
    let len = s.len();
    let p4 = p3 + 1;
    let exp_negative = p4 < len && s[p4] == 45;
    let p5 = if p4 < len && (s[p4] == 43 || s[p4] == 45) {
        p4 + 1
    } else {
        p4
    };
    let p6 = digit_run_exec(s, p5);
    proof {
        lemma_digit_run(s@, p5 as int);
    }
    if p6 > p5 && p6 == len {
        let e = accumulate_digits(s, p5, p6, 0, Ghost(Seq::<u8>::empty()));
        assert(Seq::<u8>::empty() + s@.subrange(p5 as int, p6 as int) == s@.subrange(
            p5 as int,
            p6 as int,
        ));
        if exp_negative {
            Some(0 - (e as i64))
        } else {
            Some(e as i64)
        }
    } else {
        None
    }
}

fn parse_decimal(s: &[u8]) -> (r: Option<Decimal>)
    requires
        s@.len() <= 9,
    ensures
        r == decimal_syntax(s@),
{
    let len = s.len();
    let p0: usize = if len > 0 && (s[0] == 43 || s[0] == 45) {
        1
    } else {
        0
    };
    let negative = p0 == 1 && s[0] == 45;
    let p1 = digit_run_exec(s, p0);
    let dot = p1 < len && s[p1] == 46;
    let p2 = if dot {
        p1 + 1
    } else {
        p1
    };
    let p3 = if dot {
        digit_run_exec(s, p2)
    } else {
        p2
    };
    proof {
        lemma_digit_run(s@, p0 as int);
        if dot {
            lemma_digit_run(s@, p2 as int);
        }
        assert(all_digits(s@.subrange(p2 as int, p3 as int)));
        assert(s@.subrange(0, 0) == Seq::<u8>::empty());
    }
    let frac = p3 - p2;
    if (p1 - p0) + frac == 0 {
        return None;
    }
    let m1 = accumulate_digits(s, p0, p1, 0, Ghost(Seq::<u8>::empty()));
    assert(Seq::<u8>::empty() + s@.subrange(p0 as int, p1 as int) == s@.subrange(
        p0 as int,
        p1 as int,
    ));
    let mantissa = accumulate_digits(s, p2, p3, m1, Ghost(s@.subrange(p0 as int, p1 as int)));
    if p3 == len {
        return Some(Decimal { negative, mantissa, exponent: 0 - (frac as i64) });
    }
    if s[p3] == 101 || s[p3] == 69 {
        return match parse_exponent(s, p3) {
            Some(e) => Some(Decimal { negative, mantissa, exponent: e - (frac as i64) }),
            None => None,
        };
    }
    None
}


/// The field with every space read as `0`.
pub open spec fn zero_spaces(s: Seq<u8>) -> Seq<u8> {
    Seq::new(s.len(), |i: int| if s[i] == 32u8 { 48u8 } else { s[i] })
}

fn zero_spaces_exec(s: &[u8]) -> (r: Vec<u8>)
    ensures
        r@ == zero_spaces(s@),
{
    let mut r: Vec<u8> = Vec::new();
    let mut i: usize = 0;
    while i < s.len()
        invariant
            i <= s.len(),
            r@ == zero_spaces(s@).take(i as int),
        decreases s.len() - i,
    {
        let c = if s[i] == 32 {
            48
        } else {
            s[i]
        };
        r.push(c);
        i = i + 1;
        assert(r@ == zero_spaces(s@).take(i as int));
    }
    assert(zero_spaces(s@).take(s.len() as int) == zero_spaces(s@));
    r
}

/// An uncompressed coordinate field: `width` degree characters, five
/// minute characters (spaces read as zeros) and a hemisphere letter,
/// `negative_letter` marking the negative hemisphere.
pub open spec fn coordinate_spec(b: Seq<u8>, width: int, positive_letter: u8, negative_letter: u8) -> Option<Coordinate> {
    let deg = float_syntax(b.subrange(0, width));
    let min = float_syntax(zero_spaces(b.subrange(width, width + 5)));
    let hemi = b[width + 5];
    if deg is Some && min is Some && (hemi == positive_letter || hemi == negative_letter) {
        Some(Coordinate { degrees: deg.unwrap(), minutes: min.unwrap(), negative: hemi == negative_letter })
    } else {
        None
    }
}

/// Latitude field `ddmm.hh[NS]` (8 bytes).
pub open spec fn lat_spec(b: Seq<u8>) -> Option<Coordinate> {
    coordinate_spec(b, 2, 78u8, 83u8)
}

/// Longitude field `dddmm.hh[EW]` (9 bytes).
pub open spec fn lon_spec(b: Seq<u8>) -> Option<Coordinate> {
    coordinate_spec(b, 3, 69u8, 87u8)
}

fn parse_coordinate(b: &[u8], width: usize, positive_letter: u8, negative_letter: u8) -> (r: Option<Coordinate>)
    requires
        b@.len() == width + 6,
        width <= 3,
    ensures
        r == coordinate_spec(b@, width as int, positive_letter, negative_letter),
{
    let deg = parse_float_field(&b[0..width]);
    let min_field = zero_spaces_exec(&b[width..width + 5]);
    let min = parse_float_field(min_field.as_slice());
    let hemi = b[width + 5];
    match (deg, min) {
        (Some(d), Some(m)) => {
            if hemi == positive_letter || hemi == negative_letter {
                Some(Coordinate { degrees: d, minutes: m, negative: hemi == negative_letter })
            } else {
                None
            }
        },
        _ => None,
    }
}

/// `std::str::from_utf8`: succeeds exactly when the bytes are well-formed
/// UTF-8 (vstd's `valid_utf8`); only which of the two it is matters here.
#[verifier::external_body]
fn is_utf8(b: &[u8]) -> (r: bool)
    ensures
        r == vstd::utf8::valid_utf8(b@),
{
    match std::str::from_utf8(b) {
        Ok(_) => true,
        Err(_) => false,
    }
}

/// A latitude field as read from text: the bytes must be UTF-8, and the
/// first eight hold `ddmm.hh` and the hemisphere.
pub open spec fn lat_field_spec(b: Seq<u8>) -> Option<Coordinate> {
    if b.len() >= 8 && vstd::utf8::valid_utf8(b) {
        lat_spec(b.take(8))
    } else {
        None
    }
}

/// A longitude field as read from text: the bytes must be UTF-8, and the
/// first nine hold `dddmm.hh` and the hemisphere.
pub open spec fn lon_field_spec(b: Seq<u8>) -> Option<Coordinate> {
    if b.len() >= 9 && vstd::utf8::valid_utf8(b) {
        lon_spec(b.take(9))
    } else {
        None
    }
}

/// Reads the latitude field of an uncompressed report.
pub fn parse_lat(b: &[u8]) -> (r: Option<Coordinate>)
    ensures
        r == lat_field_spec(b@),
{
    if b.len() < 8 || !is_utf8(b) {
        return None;
    }
    assert(b@.subrange(0, 8) == b@.take(8));
    parse_coordinate(&b[0..8], 2, 78, 83)
}

/// Reads the longitude field of an uncompressed report.
pub fn parse_lon(b: &[u8]) -> (r: Option<Coordinate>)
    ensures
        r == lon_field_spec(b@),
{
    if b.len() < 9 || !is_utf8(b) {
        return None;
    }
    assert(b@.subrange(0, 9) == b@.take(9));
    parse_coordinate(&b[0..9], 3, 69, 87)
}

/// A position with its symbol (table id, symbol code) and the comment that
/// follows it.
pub type Located = (Position, (u8, u8), Seq<char>);

pub open spec fn located_matches(r: Option<(Position, (u8, u8), Vec<char>)>, s: Option<Located>) -> bool {
    match (r, s) {
        (Some(x), Some(y)) => x.0 == y.0 && x.1 == y.1 && x.2@ == y.2,
        (None, None) => true,
        _ => false,
    }
}

/// Uncompressed position `ddmm.hhN` `T` `dddmm.hhW` `C` followed by a comment.
pub open spec fn uncompressed_spec(b: Seq<u8>) -> Option<Located> {
    if b.len() < 19 {
        None
    } else {
        match (lat_field_spec(b.subrange(0, 8)), lon_field_spec(b.subrange(9, 18))) {
            (Some(lat), Some(lon)) => Some(
                (Position::Uncompressed { lat, lon }, (b[8], b[18]), lossy_spec(b.skip(19))),
            ),
            _ => None,
        }
    }
}

pub fn parse_uncompressed(b: &[u8]) -> (r: Option<(Position, (u8, u8), Vec<char>)>)
    ensures
        located_matches(r, uncompressed_spec(b@)),
{
    if b.len() < 19 {
        return None;
    }
    let lat = parse_lat(&b[0..8]);
    let lon = parse_lon(&b[9..18]);
    match (lat, lon) {
        (Some(lat), Some(lon)) => {
            let comment = lossy(&b[19..b.len()]);
            assert(b@.subrange(19, b@.len() as int) == b@.skip(19));
            Some((Position::Uncompressed { lat, lon }, (b[8], b[18]), comment))
        },
        _ => None,
    }
}

pub open spec fn in_base91(c: u8) -> bool {
    33 <= c <= 123
}

pub open spec fn base91_value(s: Seq<u8>) -> nat
    decreases s.len(),
{
    if s.len() == 0 {
        0
    } else {
        base91_value(s.drop_last()) * 91 + (s.last() - 33) as nat
    }
}

/// Four base-91 characters (`!` to `{`) and their value.
pub open spec fn base91_spec(s: Seq<u8>) -> Option<u32> {
    if s.len() == 4 && forall|i: int| 0 <= i < 4 ==> in_base91(#[trigger] s[i]) {
        Some(base91_value(s) as u32)
    } else {
        None
    }
}

/// Decodes four base-91 characters.
pub fn base91(b: &[u8]) -> (r: Option<u32>)
    ensures
        r == base91_spec(b@),
        r matches Some(v) ==> v <= 68574960,
{
    if b.len() != 4 {
        return None;
    }
    let mut v: u32 = 0;
    let mut i: usize = 0;
    while i < 4
        invariant
            b@.len() == 4,
            i <= 4,
            v == base91_value(b@.take(i as int)),
            forall|k: int| 0 <= k < i ==> in_base91(#[trigger] b@[k]),
            i == 0 ==> v == 0,
            i == 1 ==> v <= 90,
            i == 2 ==> v <= 8280,
            i == 3 ==> v <= 753570,
            i == 4 ==> v <= 68574960,
        decreases 4 - i,
    {
        let c = b[i];
        if !(33 <= c && c <= 123) {
            return None;
        }
        assert(b@.take(i + 1).drop_last() == b@.take(i as int));
        v = v * 91 + (c - 33) as u32;
        i = i + 1;
    }
    assert(b@.take(4) == b@);
    Some(v)
}

/// The largest base-91 value that stays within ±90° latitude and ±180°
/// longitude: `180 × 380926 = 360 × 190463`.  The range test on the
/// degrees is exactly this bound: the next value lies `1/380926` beyond.
pub open spec fn max_compressed_value() -> u32 {
    68566680
}

/// Compressed position `T yyyy xxxx C cs t` followed by a comment.
pub open spec fn compressed_spec(b: Seq<u8>) -> Option<Located> {
    if b.len() < 13 {
        None
    } else {
        match (base91_spec(b.subrange(1, 5)), base91_spec(b.subrange(5, 9))) {
            (Some(y), Some(x)) => if y <= max_compressed_value() && x <= max_compressed_value() {
                Some((Position::Compressed { y, x }, (b[0], b[9]), lossy_spec(b.skip(13))))
            } else {
                None
            },
            _ => None,
        }
    }
}

pub fn parse_compressed(b: &[u8]) -> (r: Option<(Position, (u8, u8), Vec<char>)>)
    ensures
        located_matches(r, compressed_spec(b@)),
{
    if b.len() < 13 {
        return None;
    }
    let y = base91(&b[1..5]);
    let x = base91(&b[5..9]);
    match (y, x) {
        (Some(y), Some(x)) => {
            if y <= 68566680 && x <= 68566680 {
                let comment = lossy(&b[13..b.len()]);
                assert(b@.subrange(13, b@.len() as int) == b@.skip(13));
                Some((Position::Compressed { y, x }, (b[0], b[9]), comment))
            } else {
                None
            }
        },
        _ => None,
    }
}

/// An uncompressed position, or else a compressed one.
pub open spec fn locate_spec(b: Seq<u8>) -> Option<Located> {
    match uncompressed_spec(b) {
        Some(r) => Some(r),
        None => compressed_spec(b),
    }
}

pub fn locate(b: &[u8]) -> (r: Option<(Position, (u8, u8), Vec<char>)>)
    ensures
        located_matches(r, locate_spec(b@)),
{
    match parse_uncompressed(b) {
        Some(r) => Some(r),
        None => parse_compressed(b),
    }
}

proof fn lemma_base91_bound(s: Seq<u8>)
    requires
        s.len() == 4,
        forall|i: int| 0 <= i < 4 ==> in_base91(#[trigger] s[i]),
    ensures
        base91_value(s) <= 68574960,
{
    let s3 = s.drop_last();
    let s2 = s3.drop_last();
    let s1 = s2.drop_last();
    let s0 = s1.drop_last();
    assert(s0.len() == 0);
    assert(base91_value(s0) == 0);
    assert(base91_value(s1) == base91_value(s0) * 91 + (s1.last() - 33) as nat);
    assert(base91_value(s2) == base91_value(s1) * 91 + (s2.last() - 33) as nat);
    assert(base91_value(s3) == base91_value(s2) * 91 + (s3.last() - 33) as nat);
    assert(base91_value(s) == base91_value(s3) * 91 + (s.last() - 33) as nat);
    assert(s1.last() == s[0] && s2.last() == s[1] && s3.last() == s[2] && s.last() == s[3]);
    assert(in_base91(s[0]) && in_base91(s[1]) && in_base91(s[2]) && in_base91(s[3]));
    assert(base91_value(s1) <= 90);
    assert(base91_value(s2) <= 8280);
    assert(base91_value(s3) <= 753570);
}

/// A compressed position decodes exactly when both base-91 fields are
/// valid and within the globe: latitude `90 - y / 380926` in [-90, 90]
/// (so `y <= 180 * 380926`) and longitude `-180 + x / 190463` in
/// [-180, 180] (so `x <= 360 * 190463`); south and east included. Then it
/// is that position, with the symbol and the comment after byte 13.
pub proof fn compressed_decodes_whole_globe(b: Seq<u8>)
    requires
        b.len() >= 13,
        forall|i: int| 1 <= i < 9 ==> in_base91(#[trigger] b[i]),
    ensures
        ({
            let y = base91_value(b.subrange(1, 5));
            let x = base91_value(b.subrange(5, 9));
            &&& (compressed_spec(b) is Some <==> (y <= 180 * 380926 && x <= 360 * 190463))
            &&& (y <= 180 * 380926 && x <= 360 * 190463) ==> compressed_spec(b) == Some(
                (Position::Compressed { y: y as u32, x: x as u32 }, (b[0], b[9]), lossy_spec(b.skip(13))),
            )
        }),
{
    let ys = b.subrange(1, 5);
    let xs = b.subrange(5, 9);
    assert(forall|i: int| 0 <= i < 4 ==> in_base91(#[trigger] ys[i]) && ys[i] == b[i + 1]);
    assert(forall|i: int| 0 <= i < 4 ==> in_base91(#[trigger] xs[i]) && xs[i] == b[i + 5]);
    assert(base91_spec(ys) == Some(base91_value(ys) as u32));
    assert(base91_spec(xs) == Some(base91_value(xs) as u32));
    lemma_base91_bound(ys);
    lemma_base91_bound(xs);
}

} // verus!
