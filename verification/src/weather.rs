//! APRS weather reports: the common fields in a short readable summary.

use vstd::prelude::*;
use crate::position::{all_digits, digits_value, is_digit};
use crate::text::{
    lemma_int_chars_clean, lemma_join_clean, lemma_nat_chars_digits, lemma_no_controls_concat,
    no_controls, copy_range, int_chars, int_chars_zero_pad, join, join_spec, nat_chars, push_int,
    push_int_zero_pad, push_nat, utf8_of, views,
};
use vstd::utf8::encode_utf8;

verus! {

/// A single-byte whitespace character.
pub open spec fn ws_byte(c: u8) -> bool {
    (9 <= c <= 13) || c == 32
}

/// The two-byte encodings of the whitespace characters U+0085 and U+00A0.
pub open spec fn ws_pair(x: Seq<u8>, i: int) -> bool {
    0 <= i && i + 1 < x.len() && x[i] == 0xC2u8 && (x[i + 1] == 0x85u8 || x[i + 1] == 0xA0u8)
}

/// The three-byte encodings of the whitespace characters U+1680,
/// U+2000..U+200A, U+2028, U+2029, U+202F, U+205F and U+3000.
pub open spec fn ws_triple(x: Seq<u8>, i: int) -> bool {
    &&& 0 <= i && i + 2 < x.len()
    &&& {
        ||| (x[i] == 0xE1u8 && x[i + 1] == 0x9Au8 && x[i + 2] == 0x80u8)
        ||| (x[i] == 0xE2u8 && x[i + 1] == 0x80u8 && ((0x80u8 <= x[i + 2] <= 0x8Au8) || x[i + 2]
            == 0xA8u8 || x[i + 2] == 0xA9u8 || x[i + 2] == 0xAFu8))
        ||| (x[i] == 0xE2u8 && x[i + 1] == 0x81u8 && x[i + 2] == 0x9Fu8)
        ||| (x[i] == 0xE3u8 && x[i + 1] == 0x80u8 && x[i + 2] == 0x80u8)
    }
}

/// End of the whitespace that starts at `i`.
pub open spec fn ws_forward(x: Seq<u8>, i: int) -> int
    decreases x.len() - i,
{
    if 0 <= i < x.len() && ws_byte(x[i]) {
        ws_forward(x, i + 1)
    } else if 0 <= i && ws_pair(x, i) {
        ws_forward(x, i + 2)
    } else if 0 <= i && ws_triple(x, i) {
        ws_forward(x, i + 3)
    } else {
        i
    }
}

/// Start of the whitespace that ends at `j`, not before `lo`.
pub open spec fn ws_backward(x: Seq<u8>, j: int, lo: int) -> int
    decreases j - lo,
{
    if lo < j && j <= x.len() && ws_byte(x[j - 1]) {
        ws_backward(x, j - 1, lo)
    } else if lo + 1 < j && ws_pair(x, j - 2) {
        ws_backward(x, j - 2, lo)
    } else if lo + 2 < j && ws_triple(x, j - 3) {
        ws_backward(x, j - 3, lo)
    } else {
        j
    }
}

/// An optional sign and at least one ASCII digit.
pub open spec fn signed_int(m: Seq<u8>) -> Option<int> {
    let signed = m.len() > 0 && (m[0] == 43u8 || m[0] == 45u8);
    let digits = if signed { m.drop_first() } else { m };
    if digits.len() >= 1 && all_digits(digits) {
        Some(if signed && m[0] == 45u8 { -(digits_value(digits) as int) } else { digits_value(digits) as int })
    } else {
        None
    }
}

/// A numeric weather field: the bytes `x` read as UTF-8, trimmed of
/// whitespace and parsed as an `i32` (`from_utf8`, `trim`, `parse`).  Only
/// whitespace, an optional sign and ASCII digits can make up such a field.
pub open spec fn int_text(x: Seq<u8>) -> Option<int> {
    let a = ws_forward(x, 0);
    let b = ws_backward(x, x.len() as int, a);
    signed_int(x.subrange(a, b))
}

/// `n` bytes at `at` read as a number, when they are all there.
pub open spec fn field_int(b: Seq<u8>, at: int, n: int) -> Option<i32> {
    if at + n <= b.len() {
        match int_text(b.subrange(at, at + n)) {
            Some(v) => Some(v as i32),
            None => None,
        }
    } else {
        None
    }
}

/// The fields a weather report sets; a later field of a kind replaces an
/// earlier one.
#[derive(Clone, Copy, Debug, PartialEq, Eq)]
pub struct WxFields {
    pub temp: Option<i32>,
    pub gust: Option<i32>,
    pub hum: Option<i32>,
    pub baro: Option<i32>,
    pub cdir: Option<i32>,
    pub cspd: Option<i32>,
}

pub open spec fn no_fields() -> WxFields {
    WxFields { temp: None, gust: None, hum: None, baro: None, cdir: None, cspd: None }
}

/// Reads the weather fields from `i` on: a letter, then its digits.
pub open spec fn scan(b: Seq<u8>, i: int, f: WxFields) -> WxFields
    decreases b.len() + 8 - i,
{
    if 0 <= i < b.len() {
        let c = b[i];
        if c == 99u8 {
            scan(b, i + 4, WxFields { cdir: field_int(b, i + 1, 3), ..f })
        } else if c == 115u8 {
            scan(b, i + 4, WxFields { cspd: field_int(b, i + 1, 3), ..f })
        } else if c == 103u8 {
            scan(b, i + 4, WxFields { gust: field_int(b, i + 1, 3), ..f })
        } else if c == 116u8 {
            scan(b, i + 4, WxFields { temp: field_int(b, i + 1, 3), ..f })
        } else if c == 104u8 {
            scan(b, i + 3, WxFields { hum: field_int(b, i + 1, 2), ..f })
        } else if c == 98u8 {
            scan(b, i + 6, WxFields { baro: field_int(b, i + 1, 5), ..f })
        } else if c == 114u8 || c == 112u8 || c == 80u8 || c == 76u8 || c == 108u8 || c == 83u8 {
            scan(b, i + 4, f)
        } else {
            scan(b, i + 1, f)
        }
    } else {
        f
    }
}

/// A leading `ddd/sss` wind course and speed.
pub open spec fn leading_wind(b: Seq<u8>) -> bool {
    b.len() >= 7 && b[3] == 47u8 && all_digits(b.subrange(0, 3)) && all_digits(b.subrange(4, 7))
}

/// `format!("{:.1}")` of `v / 10`.
pub open spec fn tenths_chars(v: int) -> Seq<char> {
    let m = if v < 0 { -v } else { v };
    (if v < 0 { seq!['-'] } else { seq![] }) + nat_chars((m / 10) as nat) + seq!['.', digit((m % 10) as int)]
}

pub open spec fn digit(d: int) -> char {
    (d + 48) as char
}

pub open spec fn temp_part(t: int) -> Seq<char> {
    int_chars(t) + seq!['°', 'F']
}

pub open spec fn wind_part(d: int, sp: int, gust: Option<i32>) -> Seq<char> {
    seq!['w', 'i', 'n', 'd', ' '] + int_chars(sp) + seq!['m', 'p', 'h', '@'] + int_chars_zero_pad(d, 3)
        + match gust {
        Some(g) => if g > 0 { seq![' ', 'g'] + int_chars(g as int) } else { seq![] },
        None => seq![],
    }
}

pub open spec fn hum_part(h: int) -> Seq<char> {
    seq!['h', 'u', 'm', ' '] + int_chars(if h == 0 { 100 } else { h }) + seq!['%']
}

pub open spec fn baro_part(bp: int) -> Seq<char> {
    tenths_chars(bp) + seq!['h', 'P', 'a']
}

/// The summary pieces of the report in `b`, in order.
pub open spec fn weather_parts(b: Seq<u8>) -> Seq<Seq<char>> {
    let lead = leading_wind(b);
    let wdir = if lead { field_int(b, 0, 3) } else { None };
    let wspd = if lead { field_int(b, 4, 3) } else { None };
    let f = scan(b, if lead { 7 } else { 0 }, no_fields());
    let dir = if wdir is Some { wdir } else { f.cdir };
    let spd = if wspd is Some { wspd } else { f.cspd };
    let p1: Seq<Seq<char>> = match f.temp {
        Some(t) => seq![temp_part(t as int)],
        None => seq![],
    };
    let p2 = match (dir, spd) {
        (Some(d), Some(sp)) => p1.push(wind_part(d as int, sp as int, f.gust)),
        _ => p1,
    };
    let p3 = match f.hum {
        Some(h) => p2.push(hum_part(h as int)),
        None => p2,
    };
    match f.baro {
        Some(bp) => p3.push(baro_part(bp as int)),
        None => p3,
    }
}

/// The readable summary of a weather string (empty when no field reads).
pub open spec fn parse_weather_spec(s: Seq<char>) -> Seq<char> {
    join_spec(weather_parts(encode_utf8(s)), seq![' ', ' '])
}

/// The summary, or the raw text when nothing reads.
pub open spec fn format_weather_spec(s: Seq<char>) -> Seq<char> {
    if parse_weather_spec(s).len() == 0 {
        s
    } else {
        parse_weather_spec(s)
    }
}

fn is_ws_triple(x: &[u8], i: usize) -> (r: bool)
    requires
        i + 2 < x@.len(),
    ensures
        r == ws_triple(x@, i as int),
{
    let (a, b, c) = (x[i], x[i + 1], x[i + 2]);
    (a == 0xE1 && b == 0x9A && c == 0x80) || (a == 0xE2 && b == 0x80 && ((0x80 <= c && c <= 0x8A)
        || c == 0xA8 || c == 0xA9 || c == 0xAF)) || (a == 0xE2 && b == 0x81 && c == 0x9F) || (a
        == 0xE3 && b == 0x80 && c == 0x80)
}

fn ws_forward_exec(x: &[u8]) -> (r: usize)
    ensures
        r == ws_forward(x@, 0),
        r <= x@.len(),
{
    let mut i: usize = 0;
    loop
        invariant
            i <= x@.len(),
            ws_forward(x@, i as int) == ws_forward(x@, 0),
        decreases x@.len() - i,
    {
        if i < x.len() && ((9 <= x[i] && x[i] <= 13) || x[i] == 32) {
            i = i + 1;
        } else if x.len() - i > 1 && x[i] == 0xC2 && (x[i + 1] == 0x85 || x[i + 1] == 0xA0) {
            i = i + 2;
        } else if x.len() - i > 2 && is_ws_triple(x, i) {
            i = i + 3;
        } else {
            return i;
        }
    }
}

fn ws_backward_exec(x: &[u8], lo: usize) -> (r: usize)
    requires
        lo <= x@.len(),
    ensures
        r == ws_backward(x@, x@.len() as int, lo as int),
        lo <= r <= x@.len(),
{
    let mut j: usize = x.len();
    loop
        invariant
            lo <= j <= x@.len(),
            ws_backward(x@, j as int, lo as int) == ws_backward(x@, x@.len() as int, lo as int),
        decreases j,
    {
        if lo < j && ((9 <= x[j - 1] && x[j - 1] <= 13) || x[j - 1] == 32) {
            j = j - 1;
        } else if j > lo && j - lo > 1 && x[j - 2] == 0xC2 && (x[j - 1] == 0x85 || x[j - 1] == 0xA0) {
            j = j - 2;
        } else if j > lo && j - lo > 2 && is_ws_triple(x, j - 3) {
            j = j - 3;
        } else {
            return j;
        }
    }
}

fn all_digits_exec(m: &[u8], from: usize) -> (r: bool)
    requires
        from <= m@.len(),
    ensures
        r == all_digits(m@.subrange(from as int, m@.len() as int)),
{
    let mut i = from;
    while i < m.len()
        invariant
            from <= i <= m@.len(),
            forall|k: int| from <= k < i ==> is_digit(#[trigger] m@[k]),
        decreases m.len() - i,
    {
        if !(48 <= m[i] && m[i] <= 57) {
            assert(!is_digit(m@.subrange(from as int, m@.len() as int)[i - from]));
            return false;
        }
        i = i + 1;
    }
    assert forall|k: int| 0 <= k < m@.len() - from implies is_digit(
        #[trigger] m@.subrange(from as int, m@.len() as int)[k],
    ) by {
        assert(m@.subrange(from as int, m@.len() as int)[k] == m@[k + from]);
    }
    true
}

fn digits_value_exec(m: &[u8], from: usize) -> (r: u32)
    requires
        from <= m@.len(),
        m@.len() - from <= 5,
        all_digits(m@.subrange(from as int, m@.len() as int)),
    ensures
        r == digits_value(m@.subrange(from as int, m@.len() as int)),
        r < 100000,
{
    let mut v: u32 = 0;
    let mut i = from;
    assert(m@.subrange(from as int, from as int).len() == 0);
    while i < m.len()
        invariant
            from <= i <= m@.len(),
            m@.len() - from <= 5,
            all_digits(m@.subrange(from as int, m@.len() as int)),
            v == digits_value(m@.subrange(from as int, i as int)),
            v < crate::position::pow10((i - from) as nat),
        decreases m.len() - i,
    {
        assert(m@.subrange(from as int, m@.len() as int)[i - from] == m@[i as int]);
        assert(m@.subrange(from as int, i + 1).drop_last() == m@.subrange(from as int, i as int));
        proof {
            crate::position::lemma_pow10_mono((i - from) as nat, 4);
            reveal_with_fuel(crate::position::pow10, 6);
        }
        v = v * 10 + (m[i] - 48) as u32;
        i = i + 1;
        proof {
            reveal_with_fuel(crate::position::pow10, 2);
        }
    }
    proof {
        crate::position::lemma_pow10_mono((m@.len() - from) as nat, 5);
        reveal_with_fuel(crate::position::pow10, 6);
    }
    v
}

fn signed_int_exec(m: &[u8]) -> (r: Option<i32>)
    requires
        m@.len() <= 5,
    ensures
        match signed_int(m@) {
            Some(v) => r == Some(v as i32) && -100000 < v < 100000,
            None => r is None,
        },
{
    let signed = m.len() > 0 && (m[0] == 43 || m[0] == 45);
    let from: usize = if signed {
        1
    } else {
        0
    };
    assert(m@.subrange(1, m@.len() as int) == m@.drop_first());
    assert(m@.subrange(0, m@.len() as int) == m@);
    if m.len() - from >= 1 && all_digits_exec(m, from) {
        let v = digits_value_exec(m, from) as i32;
        if signed && m[0] == 45 {
            Some(0 - v)
        } else {
            Some(v)
        }
    } else {
        None
    }
}

fn field_int_exec(b: &[u8], at: usize, n: usize) -> (r: Option<i32>)
    requires
        n <= 5,
    ensures
        r == field_int(b@, at as int, n as int),
        r matches Some(v) ==> -100000 < v < 100000,
{
    if at > b.len() || b.len() - at < n {
        return None;
    }
    let x = &b[at..at + n];
    let a = ws_forward_exec(x);
    let e = ws_backward_exec(x, a);
    let m = &x[a..e];
    signed_int_exec(m)
}

fn scan_exec(b: &[u8], start: usize) -> (f: WxFields)
    requires
        start <= 7,
    ensures
        f == scan(b@, start as int, no_fields()),
{
    let mut f = WxFields { temp: None, gust: None, hum: None, baro: None, cdir: None, cspd: None };
    let mut i: usize = if start <= b.len() {
        start
    } else {
        b.len()
    };
    while i < b.len()
        invariant
            i <= b@.len(),
            scan(b@, i as int, f) == scan(b@, start as int, no_fields()),
        decreases b@.len() - i,
    {
        let ghost old_i = i;
        let ghost old_f = f;
        let c = b[i];
        let step: usize;
        if c == 99 {
            f = WxFields { cdir: field_int_exec(b, i + 1, 3), ..f };
            step = 4;
        } else if c == 115 {
            f = WxFields { cspd: field_int_exec(b, i + 1, 3), ..f };
            step = 4;
        } else if c == 103 {
            f = WxFields { gust: field_int_exec(b, i + 1, 3), ..f };
            step = 4;
        } else if c == 116 {
            f = WxFields { temp: field_int_exec(b, i + 1, 3), ..f };
            step = 4;
        } else if c == 104 {
            f = WxFields { hum: field_int_exec(b, i + 1, 2), ..f };
            step = 3;
        } else if c == 98 {
            f = WxFields { baro: field_int_exec(b, i + 1, 5), ..f };
            step = 6;
        } else if c == 114 || c == 112 || c == 80 || c == 76 || c == 108 || c == 83 {
            step = 4;
        } else {
            step = 1;
        }
        assert(scan(b@, old_i as int, old_f) == scan(b@, old_i + step, f));
        if step >= b.len() - i {
            i = b.len();
            assert(scan(b@, old_i + step, f) == f);
        } else {
            i = i + step;
        }
    }
    f
}

fn temp_part_exec(t: i32) -> (r: Vec<char>)
    ensures
        r@ == temp_part(t as int),
{
    let mut part: Vec<char> = Vec::new();
    push_int(&mut part, t as i64);
    part.push('°');
    part.push('F');
    assert(part@ =~= temp_part(t as int));
    part
}

fn wind_part_exec(d: i32, sp: i32, gust: Option<i32>) -> (r: Vec<char>)
    ensures
        r@ == wind_part(d as int, sp as int, gust),
{
    let mut part: Vec<char> = Vec::new();
    part.push('w');
    part.push('i');
    part.push('n');
    part.push('d');
    part.push(' ');
    push_int(&mut part, sp as i64);
    part.push('m');
    part.push('p');
    part.push('h');
    part.push('@');
    push_int_zero_pad(&mut part, d as i64, 3);
    if let Some(g) = gust {
        if g > 0 {
            part.push(' ');
            part.push('g');
            push_int(&mut part, g as i64);
        }
    }
    assert(part@ =~= wind_part(d as int, sp as int, gust));
    part
}

fn hum_part_exec(h: i32) -> (r: Vec<char>)
    ensures
        r@ == hum_part(h as int),
{
    let mut part: Vec<char> = Vec::new();
    part.push('h');
    part.push('u');
    part.push('m');
    part.push(' ');
    let shown: i64 = if h == 0 {
        100
    } else {
        h as i64
    };
    push_int(&mut part, shown);
    part.push('%');
    assert(part@ =~= hum_part(h as int));
    part
}

fn baro_part_exec(bp: i32) -> (r: Vec<char>)
    ensures
        r@ == baro_part(bp as int),
{
    let mut part: Vec<char> = Vec::new();
    if bp < 0 {
        part.push('-');
    }
    let m: u64 = if bp < 0 {
        (0 - (bp as i64)) as u64
    } else {
        bp as u64
    };
    push_nat(&mut part, m / 10);
    part.push('.');
    part.push(((m % 10) as u8 + 48) as char);
    part.push('h');
    part.push('P');
    part.push('a');
    assert(part@ =~= baro_part(bp as int));
    part
}

/// The wind course and speed and the fields of a report.
fn read_fields(b: &[u8]) -> (r: (Option<i32>, Option<i32>, WxFields))
    ensures
        ({
            let lead = leading_wind(b@);
            let wdir = if lead { field_int(b@, 0, 3) } else { None };
            let wspd = if lead { field_int(b@, 4, 3) } else { None };
            let f = scan(b@, if lead { 7 } else { 0 }, no_fields());
            &&& r.0 == (if wdir is Some { wdir } else { f.cdir })
            &&& r.1 == (if wspd is Some { wspd } else { f.cspd })
            &&& r.2 == f
        }),
{
    let lead = b.len() >= 7 && b[3] == 47 && all_digits_exec(&b[0..3], 0) && all_digits_exec(
        &b[4..7],
        0,
    );
    proof {
        if b@.len() >= 7 {
            assert(b@.subrange(0, 3).subrange(0, 3) == b@.subrange(0, 3));
            assert(b@.subrange(4, 7).subrange(0, 3) == b@.subrange(4, 7));
        }
    }
    assert(lead == leading_wind(b@));
    let wdir = if lead {
        field_int_exec(b, 0, 3)
    } else {
        None
    };
    let wspd = if lead {
        field_int_exec(b, 4, 3)
    } else {
        None
    };
    let f = scan_exec(
        b,
        if lead {
            7
        } else {
            0
        },
    );
    let dir = if wdir.is_some() {
        wdir
    } else {
        f.cdir
    };
    let spd = if wspd.is_some() {
        wspd
    } else {
        f.cspd
    };
    (dir, spd, f)
}

/// Parses the common APRS weather fields into a short readable summary.
pub fn parse_weather(s: &[char]) -> (r: Vec<char>)
    ensures
        r@ == parse_weather_spec(s@),
{
    let bytes = utf8_of(s);
    let b = bytes.as_slice();
    let (dir, spd, f) = read_fields(b);
    let mut parts: Vec<Vec<char>> = Vec::new();
    let ghost p0: Seq<Seq<char>> = seq![];
    assert(views(parts@) =~= p0);
    if let Some(t) = f.temp {
        parts.push(temp_part_exec(t));
    }
    let ghost p1: Seq<Seq<char>> = match f.temp {
        Some(t) => seq![temp_part(t as int)],
        None => seq![],
    };
    assert(views(parts@) =~= p1);
    match (dir, spd) {
        (Some(d), Some(sp)) => {
            parts.push(wind_part_exec(d, sp, f.gust));
        },
        _ => {},
    }
    let ghost p2 = match (dir, spd) {
        (Some(d), Some(sp)) => p1.push(wind_part(d as int, sp as int, f.gust)),
        _ => p1,
    };
    assert(views(parts@) =~= p2);
    if let Some(h) = f.hum {
        parts.push(hum_part_exec(h));
    }
    let ghost p3 = match f.hum {
        Some(h) => p2.push(hum_part(h as int)),
        None => p2,
    };
    assert(views(parts@) =~= p3);
    if let Some(bp) = f.baro {
        parts.push(baro_part_exec(bp));
    }
    assert(views(parts@) =~= weather_parts(b@));
    join(&parts, &[' ', ' '])
}

/// Formats an APRS weather string, falling back to the raw text if nothing
/// parses.
pub fn format_weather(raw: &[char]) -> (r: Vec<char>)
    ensures
        r@ == format_weather_spec(raw@),
{
    let s = parse_weather(raw);
    if s.len() == 0 {
        copy_range(raw, 0, raw.len())
    } else {
        s
    }
}


proof fn lemma_parts_clean(b: Seq<u8>)
    ensures
        forall|i: int| 0 <= i < weather_parts(b).len() ==> no_controls(#[trigger] weather_parts(b)[i]),
{
    let lead = leading_wind(b);
    let f = scan(b, if lead { 7 } else { 0 }, no_fields());
    let wdir = if lead { field_int(b, 0, 3) } else { None };
    let wspd = if lead { field_int(b, 4, 3) } else { None };
    let dir = if wdir is Some { wdir } else { f.cdir };
    let spd = if wspd is Some { wspd } else { f.cspd };
    let deg: Seq<char> = seq!['°', 'F'];
    assert(no_controls(deg));
    if let Some(t) = f.temp {
        lemma_int_chars_clean(t as int, 0);
        lemma_no_controls_concat(int_chars(t as int), deg);
    }
    if let (Some(d), Some(sp)) = (dir, spd) {
        let head: Seq<char> = seq!['w', 'i', 'n', 'd', ' '];
        let mid: Seq<char> = seq!['m', 'p', 'h', '@'];
        assert(no_controls(head));
        assert(no_controls(mid));
        lemma_int_chars_clean(sp as int, 0);
        lemma_int_chars_clean(d as int, 3);
        lemma_no_controls_concat(head, int_chars(sp as int));
        lemma_no_controls_concat(head + int_chars(sp as int), mid);
        lemma_no_controls_concat(head + int_chars(sp as int) + mid, int_chars_zero_pad(d as int, 3));
        let g: Seq<char> = match f.gust {
            Some(g) => if g > 0 { seq![' ', 'g'] + int_chars(g as int) } else { seq![] },
            None => seq![],
        };
        if let Some(gv) = f.gust {
            lemma_int_chars_clean(gv as int, 0);
            assert(no_controls(seq![' ', 'g']));
            lemma_no_controls_concat(seq![' ', 'g'], int_chars(gv as int));
        }
        assert(no_controls(g));
        lemma_no_controls_concat(
            head + int_chars(sp as int) + mid + int_chars_zero_pad(d as int, 3),
            g,
        );
        assert(wind_part(d as int, sp as int, f.gust) == head + int_chars(sp as int) + mid
            + int_chars_zero_pad(d as int, 3) + g);
    }
    if let Some(h) = f.hum {
        let head: Seq<char> = seq!['h', 'u', 'm', ' '];
        assert(no_controls(head));
        assert(no_controls(seq!['%']));
        lemma_int_chars_clean(if h == 0 { 100 } else { h as int }, 0);
        lemma_no_controls_concat(head, int_chars(if h == 0 { 100 } else { h as int }));
        lemma_no_controls_concat(head + int_chars(if h == 0 { 100 } else { h as int }), seq!['%']);
    }
    if let Some(bp) = f.baro {
        let v = bp as int;
        let m = if v < 0 { -v } else { v };
        let sign: Seq<char> = if v < 0 { seq!['-'] } else { seq![] };
        let tail: Seq<char> = seq!['.', digit((m % 10) as int)];
        assert(no_controls(sign));
        assert(no_controls(tail));
        lemma_nat_chars_digits((m / 10) as nat);
        lemma_no_controls_concat(sign, nat_chars((m / 10) as nat));
        lemma_no_controls_concat(sign + nat_chars((m / 10) as nat), tail);
        assert(no_controls(seq!['h', 'P', 'a']));
        lemma_no_controls_concat(tenths_chars(v), seq!['h', 'P', 'a']);
    }
}

/// The weather summary is made of digits, letters and `°`, `@`, `%`, `.`,
/// `-` and spaces: no control characters.
pub proof fn weather_summary_has_no_controls(s: Seq<char>)
    ensures
        no_controls(parse_weather_spec(s)),
        no_controls(s) ==> no_controls(format_weather_spec(s)),
{
    lemma_parts_clean(encode_utf8(s));
    assert(no_controls(seq![' ', ' ']));
    lemma_join_clean(weather_parts(encode_utf8(s)), seq![' ', ' ']);
}

/// The formatted weather text is empty only for empty raw text.
pub proof fn format_weather_keeps_text(s: Seq<char>)
    ensures
        format_weather_spec(s).len() == 0 ==> s.len() == 0,
        parse_weather_spec(s).len() > 0 ==> format_weather_spec(s) == parse_weather_spec(s),
{
}

} // verus!
