//! Mic-E: the latitude and flags in the destination address, the longitude,
//! speed and course in the information field, and the altitude and radio
//! extras in the comment.

use vstd::prelude::*;
use crate::position::{MicELatitude, MicELongitude};
use crate::text::{
    copy_range, find_char, is_ws, lemma_no_controls_concat, lemma_no_controls_subrange,
    lemma_no_controls_trim, lemma_trim, lossy, lossy_has_no_controls, lossy_spec, no_controls,
    trim, trim_chars,
};

verus! {

/// What the destination address encodes.
#[derive(Clone, Copy, Debug, PartialEq, Eq)]
pub struct MicEDest {
    /// Latitude magnitude.
    pub lat: MicELatitude,
    /// Northern hemisphere.
    pub north: bool,
    /// Longitude degrees offset by 100.
    pub offset: bool,
    /// Western hemisphere.
    pub west: bool,
}

/// One destination character as a latitude digit: `0`-`9`, `A`-`J`,
/// `P`-`Y`, and `K`, `L`, `Z` (ambiguity/space) as zero.
pub open spec fn dest_digit(c: u8) -> Option<u8> {
    if 48 <= c <= 57 {
        Some((c - 48) as u8)
    } else if 65 <= c <= 74 {
        Some((c - 65) as u8)
    } else if 80 <= c <= 89 {
        Some((c - 80) as u8)
    } else if c == 75 || c == 76 || c == 90 {
        Some(0)
    } else {
        None
    }
}

/// `P` to `Z`: the character also carries a set flag.
pub open spec fn is_high(c: u8) -> bool {
    80 <= c <= 90
}

/// The six destination characters, decoded; `None` when a character is not
/// a latitude digit or the latitude exceeds 90°.
pub open spec fn mic_e_dest_spec(d: Seq<u8>) -> Option<MicEDest> {
    if d.len() == 6 && forall|i: int| 0 <= i < 6 ==> (#[trigger] dest_digit(d[i])) is Some {
        let deg = dest_digit(d[0]).unwrap() * 10 + dest_digit(d[1]).unwrap();
        let min = dest_digit(d[2]).unwrap() * 10 + dest_digit(d[3]).unwrap();
        let hun = dest_digit(d[4]).unwrap() * 10 + dest_digit(d[5]).unwrap();
        if deg * 6000 + min * 100 + hun > 540000 {
            None
        } else {
            Some(
                MicEDest {
                    lat: MicELatitude { degrees: deg as u8, minutes: min as u8, hundredths: hun as u8 },
                    north: is_high(d[3]),
                    offset: is_high(d[4]),
                    west: is_high(d[5]),
                },
            )
        }
    } else {
        None
    }
}

fn dest_digit_exec(c: u8) -> (r: Option<u8>)
    ensures
        r == dest_digit(c),
{
    if 48 <= c && c <= 57 {
        Some(c - 48)
    } else if 65 <= c && c <= 74 {
        Some(c - 65)
    } else if 80 <= c && c <= 89 {
        Some(c - 80)
    } else if c == 75 || c == 76 || c == 90 {
        Some(0)
    } else {
        None
    }
}

/// Decodes the six-character Mic-E destination.
pub fn decode_mic_e_dest(d: &[u8]) -> (r: Option<MicEDest>)
    requires
        d@.len() >= 6,
    ensures
        r == mic_e_dest_spec(d@.take(6)),
        r matches Some(m) ==> m.lat.degrees as int * 6000 + m.lat.minutes as int * 100
            + m.lat.hundredths as int <= 540000,
{
    let mut digits: Vec<u8> = Vec::new();
    let mut i: usize = 0;
    while i < 6
        invariant
            d@.len() >= 6,
            i <= 6,
            digits@.len() == i,
            forall|k: int| 0 <= k < i ==> (#[trigger] dest_digit(d@[k])) == Some(digits@[k]),
        decreases 6 - i,
    {
        match dest_digit_exec(d[i]) {
            Some(v) => digits.push(v),
            None => return None,
        }
        i = i + 1;
    }
    assert(forall|k: int| 0 <= k < 6 ==> (#[trigger] dest_digit(d@[k])) is Some);
    assert(forall|k: int| 0 <= k < 6 ==> d@.take(6)[k] == d@[k]);
    assert(forall|k: int| 0 <= k < 6 ==> (#[trigger] dest_digit(d@[k])) == Some(digits@[k]));
    let deg: u32 = digits[0] as u32 * 10 + digits[1] as u32;
    let min: u32 = digits[2] as u32 * 10 + digits[3] as u32;
    let hun: u32 = digits[4] as u32 * 10 + digits[5] as u32;
    if deg * 6000 + min * 100 + hun > 540000 {
        return None;
    }
    Some(
        MicEDest {
            lat: MicELatitude { degrees: deg as u8, minutes: min as u8, hundredths: hun as u8 },
            north: 80 <= d[3] && d[3] <= 90,
            offset: 80 <= d[4] && d[4] <= 90,
            west: 80 <= d[5] && d[5] <= 90,
        },
    )
}

/// Integer division rounding toward zero, as Rust's `/` on signed values.
pub open spec fn tdiv(a: int, b: int) -> int {
    if a >= 0 {
        a / b
    } else {
        -((-a) / b)
    }
}

/// Remainder with the sign of the dividend, as Rust's `%` on signed values.
pub open spec fn trem(a: int, b: int) -> int {
    a - tdiv(a, b) * b
}

fn div10(a: i32) -> (r: i32)
    requires
        -1000 <= a <= 1000,
    ensures
        r == tdiv(a as int, 10),
        -100 <= r <= 100,
{
    if a >= 0 {
        ((a as u32) / 10) as i32
    } else {
        0 - (((0 - a) as u32) / 10) as i32
    }
}

/// A printable, non-space ASCII character.
pub open spec fn printable(c: u8) -> bool {
    33 <= c <= 126
}

pub open spec fn altitude_at(b: Seq<u8>, i: int) -> bool {
    b[i] == 125u8 && printable(b[i - 3]) && printable(b[i - 2]) && printable(b[i - 1])
}

/// First `i` in `3..min(len, 7)` where three printable characters and `}`
/// end: the altitude group.
pub open spec fn find_altitude(b: Seq<u8>, i: int) -> Option<int>
    decreases 7 - i,
{
    if 3 <= i && i < b.len() && i < 7 {
        if altitude_at(b, i) {
            Some(i)
        } else {
            find_altitude(b, i + 1)
        }
    } else {
        None
    }
}

/// Metres encoded by the three base-91 characters before `}` at `i`
/// (relative to -10000 m).
pub open spec fn altitude_value(b: Seq<u8>, i: int) -> int {
    (b[i - 3] - 33) * 8281 + (b[i - 2] - 33) * 91 + (b[i - 1] - 33) - 10000
}

/// The altitude, when the comment starts with one, and the clean comment.
pub open spec fn mic_e_comment_spec(b: Seq<u8>) -> (Option<int>, Seq<char>) {
    match find_altitude(b, 3) {
        Some(i) => (Some(altitude_value(b, i)), strip_spec(lossy_spec(b.skip(i + 1)))),
        None => (None, strip_spec(lossy_spec(b))),
    }
}

/// Pulls an optional altitude out of the Mic-E comment tail and returns the
/// clean text.
pub fn parse_mic_e_comment(b: &[u8]) -> (r: (Option<i32>, Vec<char>))
    ensures
        r.0 matches Some(a) ==> mic_e_comment_spec(b@).0 == Some(a as int),
        r.0 is None ==> mic_e_comment_spec(b@).0 is None,
        r.1@ == mic_e_comment_spec(b@).1,
{
    let end = if b.len() < 7 {
        b.len()
    } else {
        7
    };
    let mut i: usize = 3;
    while i < end
        invariant
            3 <= i,
            end <= b@.len(),
            end == (if b@.len() < 7 { b@.len() as int } else { 7 }),
            find_altitude(b@, i as int) == find_altitude(b@, 3),
        decreases end - i,
    {
        if b[i] == 125 && 33 <= b[i - 3] && b[i - 3] <= 126 && 33 <= b[i - 2] && b[i - 2] <= 126
            && 33 <= b[i - 1] && b[i - 1] <= 126 {
            let alt: i32 = (b[i - 3] as i32 - 33) * 8281 + (b[i - 2] as i32 - 33) * 91 + (b[i
                - 1] as i32 - 33) - 10000;
            let rest = lossy(&b[i + 1..b.len()]);
            assert(b@.subrange(i + 1, b@.len() as int) == b@.skip(i + 1));
            return (Some(alt), strip_mic_e_extras(rest.as_slice()));
        }
        i = i + 1;
    }
    let all = lossy(b);
    (None, strip_mic_e_extras(all.as_slice()))
}

/// Bytes of a character in UTF-8.
pub open spec fn utf8_width(c: char) -> int {
    if (c as u32) <= 0x7F {
        1
    } else if (c as u32) <= 0x7FF {
        2
    } else if (c as u32) <= 0xFFFF {
        3
    } else {
        4
    }
}

/// Characters, from `k`, of a five-byte DAO extension `!`, `w` or `W`,
/// two bytes of datum, `!`; zero when there is none at `k`.
pub open spec fn dao_len(s: Seq<char>, k: int) -> int {
    if 0 <= k && k + 3 < s.len() && s[k] == '!' && (s[k + 1] == 'w' || s[k + 1] == 'W') {
        if utf8_width(s[k + 2]) == 1 && k + 4 < s.len() && utf8_width(s[k + 3]) == 1 && s[k + 4]
            == '!' {
            5
        } else if utf8_width(s[k + 2]) == 2 && s[k + 3] == '!' {
            4
        } else {
            0
        }
    } else {
        0
    }
}

pub open spec fn find_dao(s: Seq<char>, k: int) -> Option<int>
    decreases s.len() - k,
{
    if 0 <= k < s.len() {
        if dao_len(s, k) > 0 {
            Some(k)
        } else {
            find_dao(s, k + 1)
        }
    } else {
        None
    }
}

/// Last `k < j - 1` with `s[k..k+2] == " _"`.
pub open spec fn rfind_space_underscore(s: Seq<char>, j: int) -> Option<int>
    decreases j,
{
    if 2 <= j <= s.len() {
        if s[j - 2] == ' ' && s[j - 1] == '_' {
            Some(j - 2)
        } else {
            rfind_space_underscore(s, j - 1)
        }
    } else {
        None
    }
}

/// A leading Kenwood (`>`, `]`) or Yaesu (`` ` ``, `'`) radio type byte.
pub open spec fn is_radio_type(c: char) -> bool {
    c == '>' || c == ']' || c == '`' || c == '\''
}

/// The Mic-E comment without the extras radios append: a leading radio
/// type byte, everything from the first `|` (base-91 telemetry), the first
/// DAO extension `!w..!`, a space-separated trailing `_X` symbol token, and a
/// lone `_X` token; trimmed.
pub open spec fn strip_spec(s: Seq<char>) -> Seq<char> {
    let s1 = if s.len() > 0 && is_radio_type(s[0]) { s.drop_first() } else { s };
    let s2 = match find_char(s1, '|', 0) {
        Some(a) => s1.take(a),
        None => s1,
    };
    let s3 = match find_dao(s2, 0) {
        Some(k) => s2.take(k) + s2.skip(k + dao_len(s2, k)),
        None => s2,
    };
    let s4 = trim(s3);
    let s5 = match rfind_space_underscore(s4, s4.len() as int) {
        Some(idx) => if s4.len() - (idx + 2) <= 1 { s4.take(idx) } else { s4 },
        None => s4,
    };
    let s6 = trim(s5);
    if s6.len() > 0 && s6[0] == '_' && s6.len() <= 2 {
        seq![]
    } else {
        s6
    }
}

fn utf8_width_exec(c: char) -> (r: usize)
    ensures
        r == utf8_width(c),
{
    let u = c as u32;
    if u <= 0x7F {
        1
    } else if u <= 0x7FF {
        2
    } else if u <= 0xFFFF {
        3
    } else {
        4
    }
}

fn dao_len_exec(s: &[char], k: usize) -> (r: usize)
    ensures
        r == dao_len(s@, k as int),
{
    if k < s.len() && s.len() - k > 3 && s[k] == '!' && (s[k + 1] == 'w' || s[k + 1] == 'W') {
        if utf8_width_exec(s[k + 2]) == 1 && s.len() - k > 4 && utf8_width_exec(s[k + 3]) == 1
            && s[k + 4] == '!' {
            5
        } else if utf8_width_exec(s[k + 2]) == 2 && s[k + 3] == '!' {
            4
        } else {
            0
        }
    } else {
        0
    }
}

fn cut_at_telemetry(s1: &[char]) -> (r: Vec<char>)
    ensures
        r@ == (match find_char(s1@, '|', 0) {
            Some(a) => s1@.take(a),
            None => s1@,
        }),
{
    let mut a: usize = 0;
    while a < s1.len() && s1[a] != '|'
        invariant
            a <= s1@.len(),
            find_char(s1@, '|', a as int) == find_char(s1@, '|', 0),
        decreases s1.len() - a,
    {
        a = a + 1;
    }
    assert(s1@.subrange(0, a as int) == s1@.take(a as int));
    assert(a == s1@.len() ==> s1@.take(a as int) == s1@);
    copy_range(s1, 0, a)
}

fn remove_dao(s2: &[char]) -> (r: Vec<char>)
    ensures
        r@ == (match find_dao(s2@, 0) {
            Some(k) => s2@.take(k) + s2@.skip(k + dao_len(s2@, k)),
            None => s2@,
        }),
{
    let mut k: usize = 0;
    while k < s2.len() && dao_len_exec(s2, k) == 0
        invariant
            k <= s2@.len(),
            find_dao(s2@, k as int) == find_dao(s2@, 0),
        decreases s2.len() - k,
    {
        k = k + 1;
    }
    if k < s2.len() {
        let n = dao_len_exec(s2, k);
        proof {
            lemma_find_dao(s2@, 0);
        }
        let mut t = copy_range(s2, 0, k);
        let tail = copy_range(s2, k + n, s2.len());
        crate::text::push_all(&mut t, tail.as_slice());
        assert(s2@.subrange(0, k as int) == s2@.take(k as int));
        assert(s2@.subrange(k + n, s2@.len() as int) == s2@.skip(k + n));
        t
    } else {
        assert(s2@.subrange(0, s2@.len() as int) == s2@);
        copy_range(s2, 0, s2.len())
    }
}

fn drop_symbol_token(s4: &[char]) -> (r: Vec<char>)
    ensures
        r@ == (match rfind_space_underscore(s4@, s4@.len() as int) {
            Some(idx) => if s4@.len() - (idx + 2) <= 1 { s4@.take(idx) } else { s4@ },
            None => s4@,
        }),
{
    let mut j: usize = s4.len();
    while j >= 2 && !(s4[j - 2] == ' ' && s4[j - 1] == '_')
        invariant
            j <= s4@.len(),
            rfind_space_underscore(s4@, j as int) == rfind_space_underscore(
                s4@,
                s4@.len() as int,
            ),
        decreases j,
    {
        j = j - 1;
    }
    assert(s4@.subrange(0, s4@.len() as int) == s4@);
    if j >= 2 && s4.len() - j <= 1 {
        assert(s4@.subrange(0, j - 2) == s4@.take(j - 2));
        copy_range(s4, 0, j - 2)
    } else {
        copy_range(s4, 0, s4.len())
    }
}

/// Removes the Mic-E extras that some radios append after the human
/// comment: base-91 telemetry (`|..|`) and the DAO datum/precision
/// extension (`!w..!`).
pub fn strip_mic_e_extras(s: &[char]) -> (r: Vec<char>)
    ensures
        r@ == strip_spec(s@),
{
    // leading Mic-E radio/type byte
    let s1: Vec<char> = if s.len() > 0 && (s[0] == '>' || s[0] == ']' || s[0] == '`' || s[0]
        == '\'') {
        copy_range(s, 1, s.len())
    } else {
        copy_range(s, 0, s.len())
    };
    assert(s@.subrange(1, s@.len() as int) == s@.drop_first());
    assert(s@.subrange(0, s@.len() as int) == s@);
    // telemetry and other extras sit at the end: cut from the first '|'
    let s2 = cut_at_telemetry(s1.as_slice());
    let s3 = remove_dao(s2.as_slice());
    let s4 = trim_chars(s3.as_slice());
    // a clearly space-separated trailing "_X" symbol token
    let s5 = drop_symbol_token(s4.as_slice());
    let s6 = trim_chars(s5.as_slice());
    // a lone "_X" token as the whole comment is just noise
    if s6.len() > 0 && s6[0] == '_' && s6.len() <= 2 {
        Vec::new()
    } else {
        s6
    }
}

/// The longitude, speed (knots), course (degrees), altitude and comment of
/// a Mic-E information field.
pub struct MicEReport {
    pub lon: MicELongitude,
    pub speed: i32,
    pub course: i32,
    pub altitude: Option<i32>,
    pub comment: Vec<char>,
}

/// Longitude degrees from the first information byte.
pub open spec fn lon_degrees(c: u8, offset: bool) -> int {
    let x = c - 28 + if offset { 100int } else { 0 };
    if 180 <= x <= 189 {
        x - 80
    } else if 190 <= x <= 199 {
        x - 190
    } else {
        x
    }
}

pub open spec fn lon_minutes(c: u8) -> int {
    let m = c - 28;
    if m >= 60 {
        m - 60
    } else {
        m
    }
}

pub open spec fn mic_e_speed(c3: u8, c4: u8) -> int {
    let s = (c3 - 28) * 10 + tdiv(c4 - 28, 10);
    if s >= 800 {
        s - 800
    } else {
        s
    }
}

pub open spec fn mic_e_course(c4: u8, c5: u8) -> int {
    let c = trem(c4 - 28, 10) * 100 + (c5 - 28);
    if c >= 400 {
        c - 400
    } else {
        c
    }
}

/// The decoded information field, `None` when it is shorter than eight bytes
/// or the longitude is out of range.
pub open spec fn mic_e_info_spec(info: Seq<u8>, offset: bool, west: bool) -> Option<
    (MicELongitude, int, int, Option<int>, Seq<char>),
> {
    if info.len() < 8 {
        None
    } else {
        let deg = lon_degrees(info[0], offset);
        let min = lon_minutes(info[1]);
        let hun = info[2] - 28;
        if !(0 <= deg <= 179) || !(0 <= min <= 59) || !(0 <= hun <= 99) {
            None
        } else {
            let tail = if info.len() > 8 {
                mic_e_comment_spec(info.skip(8))
            } else {
                (None, seq![])
            };
            Some(
                (
                    MicELongitude { degrees: deg as u8, minutes: min as u8, hundredths: hun as u8, west },
                    mic_e_speed(info[3], info[4]),
                    mic_e_course(info[4], info[5]),
                    tail.0,
                    tail.1,
                ),
            )
        }
    }
}

pub open spec fn report_matches(r: Option<MicEReport>, s: Option<(MicELongitude, int, int, Option<int>, Seq<char>)>) -> bool {
    match (r, s) {
        (Some(x), Some(y)) => {
            &&& x.lon == y.0
            &&& x.speed as int == y.1
            &&& x.course as int == y.2
            &&& (match x.altitude {
                Some(a) => y.3 == Some(a as int),
                None => y.3 is None,
            })
            &&& x.comment@ == y.4
        },
        (None, None) => true,
        _ => false,
    }
}

/// Decodes the Mic-E information field.
pub fn decode_mic_e_info(info: &[u8], offset: bool, west: bool) -> (r: Option<MicEReport>)
    ensures
        report_matches(r, mic_e_info_spec(info@, offset, west)),
{
    if info.len() < 8 {
        return None;
    }
    let mut lon_deg: i32 = info[0] as i32 - 28;
    if offset {
        lon_deg = lon_deg + 100;
    }
    if 180 <= lon_deg && lon_deg <= 189 {
        lon_deg = lon_deg - 80;
    } else if 190 <= lon_deg && lon_deg <= 199 {
        lon_deg = lon_deg - 190;
    }
    if !(0 <= lon_deg && lon_deg <= 179) {
        return None;
    }
    let mut lon_min: i32 = info[1] as i32 - 28;
    if lon_min >= 60 {
        lon_min = lon_min - 60;
    }
    if !(0 <= lon_min && lon_min <= 59) {
        return None;
    }
    let lon_hun: i32 = info[2] as i32 - 28;
    if !(0 <= lon_hun && lon_hun <= 99) {
        return None;
    }
    let c4: i32 = info[4] as i32 - 28;
    let q = div10(c4);
    let mut speed: i32 = (info[3] as i32 - 28) * 10 + q;
    if speed >= 800 {
        speed = speed - 800;
    }
    let mut course: i32 = (c4 - q * 10) * 100 + (info[5] as i32 - 28);
    if course >= 400 {
        course = course - 400;
    }
    let (altitude, comment) = if info.len() > 8 {
        let r = parse_mic_e_comment(&info[8..info.len()]);
        assert(info@.subrange(8, info@.len() as int) == info@.skip(8));
        r
    } else {
        (None, Vec::new())
    };
    Some(
        MicEReport {
            lon: MicELongitude {
                degrees: lon_deg as u8,
                minutes: lon_min as u8,
                hundredths: lon_hun as u8,
                west,
            },
            speed,
            course,
            altitude,
            comment,
        },
    )
}


proof fn lemma_find_char(s: Seq<char>, c: char, k: int)
    requires
        0 <= k,
    ensures
        find_char(s, c, k) matches Some(a) ==> k <= a < s.len() && s[a] == c && forall|j: int|
            k <= j < a ==> s[j] != c,
        find_char(s, c, k) is None ==> forall|j: int| k <= j < s.len() ==> s[j] != c,
    decreases s.len() - k,
{
    if k < s.len() && s[k] != c {
        lemma_find_char(s, c, k + 1);
    }
}

proof fn lemma_find_dao(s: Seq<char>, k: int)
    requires
        0 <= k,
    ensures
        find_dao(s, k) matches Some(a) ==> k <= a < s.len() && 4 <= dao_len(s, a) <= 5 && a
            + dao_len(s, a) <= s.len(),
    decreases s.len() - k,
{
    if k < s.len() && dao_len(s, k) == 0 {
        lemma_find_dao(s, k + 1);
    }
}

proof fn lemma_rfind(s: Seq<char>, j: int)
    ensures
        rfind_space_underscore(s, j) matches Some(a) ==> 0 <= a && a + 2 <= j,
    decreases j,
{
    if 2 <= j <= s.len() && !(s[j - 2] == ' ' && s[j - 1] == '_') {
        lemma_rfind(s, j - 1);
    }
}

/// The cleaned Mic-E comment keeps no telemetry (`|`), starts and ends
/// with a non-space, and adds no character that was not in the input.
pub proof fn strip_mic_e_extras_is_clean(s: Seq<char>)
    ensures
        forall|i: int| 0 <= i < strip_spec(s).len() ==> #[trigger] strip_spec(s)[i] != '|',
        strip_spec(s).len() > 0 ==> !is_ws(strip_spec(s)[0]) && !is_ws(
            strip_spec(s)[strip_spec(s).len() - 1],
        ),
        no_controls(s) ==> no_controls(strip_spec(s)),
{
    let s1 = if s.len() > 0 && is_radio_type(s[0]) { s.drop_first() } else { s };
    lemma_find_char(s1, '|', 0);
    let s2 = match find_char(s1, '|', 0) {
        Some(a) => s1.take(a),
        None => s1,
    };
    assert forall|i: int| 0 <= i < s2.len() implies #[trigger] s2[i] != '|' by {
        assert(s2[i] == s1[i]);
    }
    lemma_find_dao(s2, 0);
    let s3 = match find_dao(s2, 0) {
        Some(k) => s2.take(k) + s2.skip(k + dao_len(s2, k)),
        None => s2,
    };
    assert forall|i: int| 0 <= i < s3.len() implies #[trigger] s3[i] != '|' by {
        if let Some(k) = find_dao(s2, 0) {
            if i < k {
                assert(s3[i] == s2[i]);
            } else {
                assert(s3[i] == s2[i - k + k + dao_len(s2, k)]);
            }
        }
    }
    let s4 = trim(s3);
    lemma_trim(s3);
    assert forall|i: int| 0 <= i < s4.len() implies #[trigger] s4[i] != '|' by {
        assert(s4[i] == s3[i + crate::text::skip_ws(s3, 0)]);
    }
    lemma_rfind(s4, s4.len() as int);
    let s5 = match rfind_space_underscore(s4, s4.len() as int) {
        Some(idx) => if s4.len() - (idx + 2) <= 1 { s4.take(idx) } else { s4 },
        None => s4,
    };
    assert forall|i: int| 0 <= i < s5.len() implies #[trigger] s5[i] != '|' by {
        assert(s5[i] == s4[i]);
    }
    let s6 = trim(s5);
    lemma_trim(s5);
    assert forall|i: int| 0 <= i < s6.len() implies #[trigger] s6[i] != '|' by {
        assert(s6[i] == s5[i + crate::text::skip_ws(s5, 0)]);
    }
    if no_controls(s) {
        if s.len() > 0 && is_radio_type(s[0]) {
            lemma_no_controls_subrange(s, 1, s.len() as int);
            assert(s.drop_first() == s.subrange(1, s.len() as int));
        }
        if let Some(a) = find_char(s1, '|', 0) {
            lemma_no_controls_subrange(s1, 0, a);
            assert(s1.take(a) == s1.subrange(0, a));
        }
        if let Some(k) = find_dao(s2, 0) {
            lemma_no_controls_subrange(s2, 0, k);
            lemma_no_controls_subrange(s2, k + dao_len(s2, k), s2.len() as int);
            assert(s2.take(k) == s2.subrange(0, k));
            assert(s2.skip(k + dao_len(s2, k)) == s2.subrange(k + dao_len(s2, k), s2.len() as int));
            lemma_no_controls_concat(s2.take(k), s2.skip(k + dao_len(s2, k)));
        }
        lemma_no_controls_trim(s3);
        if let Some(idx) = rfind_space_underscore(s4, s4.len() as int) {
            if s4.len() - (idx + 2) <= 1 {
                lemma_no_controls_subrange(s4, 0, idx);
                assert(s4.take(idx) == s4.subrange(0, idx));
            }
        }
        lemma_no_controls_trim(s5);
    }
}

/// The Mic-E comment text holds no control characters.
pub proof fn mic_e_comment_is_clean(b: Seq<u8>)
    ensures
        no_controls(mic_e_comment_spec(b).1),
{
    match find_altitude(b, 3) {
        Some(i) => {
            lossy_has_no_controls(b.skip(i + 1));
            strip_mic_e_extras_is_clean(lossy_spec(b.skip(i + 1)));
        },
        None => {
            lossy_has_no_controls(b);
            strip_mic_e_extras_is_clean(lossy_spec(b));
        },
    }
}

proof fn lemma_find_altitude(b: Seq<u8>, i: int)
    ensures
        find_altitude(b, i) matches Some(k) ==> 3 <= k < 7 && k < b.len() && altitude_at(b, k),
    decreases 7 - i,
{
    if 3 <= i && i < b.len() && i < 7 && !altitude_at(b, i) {
        lemma_find_altitude(b, i + 1);
    }
}

/// A decoded altitude lies between -10000 m and 93·8281 + 93·91 + 93 - 10000 = 768689 m.
pub proof fn mic_e_altitude_range(b: Seq<u8>)
    ensures
        mic_e_comment_spec(b).0 matches Some(a) ==> -10000 <= a <= 768689,
{
    lemma_find_altitude(b, 3);
}

/// The first information byte that the APRS Mic-E format assigns to a
/// longitude of `d` degrees: `d + 118` for 0-9, `d + 28` for 10-99,
/// `d + 8` for 100-109 and `d - 72` for 110-179.
pub open spec fn mic_e_lon_byte(d: int) -> int {
    if d <= 9 {
        d + 118
    } else if d <= 99 {
        d + 28
    } else if d <= 109 {
        d + 8
    } else {
        d - 72
    }
}

/// Whether the destination's longitude-offset flag is set for `d` degrees:
/// for 0-9 and for 100-179.
pub open spec fn mic_e_lon_offset(d: int) -> bool {
    d <= 9 || d >= 100
}

/// Every longitude of the Mic-E format decodes: an information field whose
/// first three bytes carry `d` degrees (with the offset flag the format
/// assigns to `d`), `m` minutes and `h` hundredths gives that longitude,
/// whatever the rest of the field holds.
pub proof fn mic_e_longitude_round_trip(info: Seq<u8>, west: bool, d: int, m: int, h: int)
    requires
        info.len() >= 8,
        0 <= d <= 179,
        0 <= m <= 59,
        0 <= h <= 99,
        info[0] as int == mic_e_lon_byte(d),
        info[1] as int == m + 28,
        info[2] as int == h + 28,
    ensures
        mic_e_info_spec(info, mic_e_lon_offset(d), west) is Some,
        mic_e_info_spec(info, mic_e_lon_offset(d), west).unwrap().0 == (MicELongitude {
            degrees: d as u8,
            minutes: m as u8,
            hundredths: h as u8,
            west,
        }),
{
    assert(lon_degrees(info[0], mic_e_lon_offset(d)) == d);
    assert(lon_minutes(info[1]) == m);
}

} // verus!
