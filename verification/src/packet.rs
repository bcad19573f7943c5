//! A small, panic-free APRS packet parser and pretty printer.
//!
//! Decodes the common cases (uncompressed, compressed, and Mic-E position
//! reports, plus objects, messages, status) into a clean line, and labels
//! everything else.  Anything it cannot parse falls back to raw text.

use vstd::prelude::*;
use vstd::utf8::encode_utf8;
use crate::mice::{
    decode_mic_e_dest, decode_mic_e_info, mic_e_comment_is_clean, mic_e_dest_spec, mic_e_info_spec,
};
use crate::position::{locate, locate_spec, Position};
use crate::text::{
    chars_of, copy_range, find_char, find_char_exec, int_chars, int_chars_zero_pad, join, join_spec,
    lemma_int_chars_clean, lemma_join_clean, lemma_no_controls_concat, lossy, lossy_has_no_controls,
    lossy_spec, no_controls, pad_left, pad_right, push_all, push_int, push_int_zero_pad,
    push_padded_left, push_padded_right, push_spaces, push_str, spaces, string_of, trim, trim_chars, truncate,
    truncate_spec, utf8_of, views,
};
use crate::weather::{format_weather, format_weather_spec, weather_summary_has_no_controls};

verus! {

/// A decoded APRS packet (only the fields shown).
pub struct Packet {
    pub source: String,
    /// Short type label: pos, obj, item, msg, status, mic-e, wx, tlm, ...
    pub kind: &'static str,
    /// Object/item name or message addressee, if any.
    pub name: Option<String>,
    /// Decoded position, if present.
    pub position: Option<Position>,
    /// APRS symbol as (table id, symbol code) bytes, if present.
    pub symbol: Option<(u8, u8)>,
    /// Comment / message text / summary (lossy, trimmed).
    pub info: String,
}

/// The contents of a [`Packet`].
pub struct PacketModel {
    pub source: Seq<char>,
    pub kind: Seq<char>,
    pub name: Option<Seq<char>>,
    pub position: Option<Position>,
    pub symbol: Option<(u8, u8)>,
    pub info: Seq<char>,
}

impl View for Packet {
    type V = PacketModel;

    open spec fn view(&self) -> PacketModel {
        PacketModel {
            source: self.source@,
            kind: self.kind@,
            name: match self.name {
                Some(n) => Some(n@),
                None => None,
            },
            position: self.position,
            symbol: self.symbol,
            info: self.info@,
        }
    }
}

pub open spec fn new_spec(source: Seq<char>, kind: Seq<char>) -> PacketModel {
    PacketModel { source, kind, name: None, position: None, symbol: None, info: seq![] }
}

/// A packet of the given kind whose text is the rest of the payload.
pub open spec fn bare_info_spec(source: Seq<char>, kind: Seq<char>, rest: Seq<u8>) -> PacketModel {
    PacketModel { info: lossy_spec(rest), ..new_spec(source, kind) }
}

/// A position report; a weather-station symbol (`_`) makes it a weather
/// report whose comment is read as weather.
pub open spec fn position_spec(source: Seq<char>, rest: Seq<u8>) -> PacketModel {
    match locate_spec(rest) {
        Some((pos, sym, comment)) => PacketModel {
            kind: if sym.1 == 95u8 { "wx"@ } else { "pos"@ },
            position: Some(pos),
            symbol: Some(sym),
            info: if sym.1 == 95u8 { format_weather_spec(comment) } else { comment },
            ..new_spec(source, "pos"@)
        },
        None => bare_info_spec(source, "pos"@, rest),
    }
}

/// An object: name (9), live/killed flag (1), timestamp (7), position.
pub open spec fn object_spec(source: Seq<char>, rest: Seq<u8>) -> PacketModel {
    if rest.len() >= 18 {
        let name = Some(lossy_spec(rest.subrange(0, 9)));
        let posdata = rest.skip(17);
        match locate_spec(posdata) {
            Some((pos, sym, comment)) => PacketModel {
                name,
                position: Some(pos),
                symbol: Some(sym),
                info: comment,
                ..new_spec(source, "obj"@)
            },
            None => PacketModel { name, info: lossy_spec(posdata), ..new_spec(source, "obj"@) },
        }
    } else {
        bare_info_spec(source, "obj"@, rest)
    }
}

/// A message: addressee (9), `:`, text.
pub open spec fn message_spec(source: Seq<char>, rest: Seq<u8>) -> PacketModel {
    if rest.len() >= 10 && rest[9] == 58u8 {
        PacketModel {
            name: Some(lossy_spec(rest.subrange(0, 9))),
            info: lossy_spec(rest.skip(10)),
            ..new_spec(source, "msg"@)
        }
    } else {
        bare_info_spec(source, "msg"@, rest)
    }
}

/// `{speed}kt {course:03}°`
pub open spec fn motion_part(speed: int, course: int) -> Seq<char> {
    int_chars(speed) + seq!['k', 't', ' '] + int_chars_zero_pad(course, 3) + seq!['°']
}

/// `{alt}m`
pub open spec fn altitude_part(alt: int) -> Seq<char> {
    int_chars(alt) + seq!['m']
}

/// The summary pieces of a Mic-E report: motion when moving, a plausible
/// altitude, the comment.
pub open spec fn mic_e_parts(speed: int, course: int, alt: Option<int>, comment: Seq<char>) -> Seq<Seq<char>> {
    let p1: Seq<Seq<char>> = if speed > 0 { seq![motion_part(speed, course)] } else { seq![] };
    let p2 = match alt {
        Some(a) => if -1000 <= a <= 60000 { p1.push(altitude_part(a)) } else { p1 },
        None => p1,
    };
    if comment.len() > 0 { p2.push(comment) } else { p2 }
}

/// A Mic-E report: latitude in the destination address, the rest in the
/// information field.
pub open spec fn mic_e_spec(source: Seq<char>, dest: Seq<u8>, info: Seq<u8>) -> PacketModel {
    if dest.len() >= 6 && mic_e_dest_spec(dest.take(6)) is Some {
        let d = mic_e_dest_spec(dest.take(6)).unwrap();
        match mic_e_info_spec(info, d.offset, d.west) {
            Some((lon, speed, course, alt, comment)) => PacketModel {
                position: Some(Position::MicE { lat: d.lat, north: d.north, lon }),
                symbol: if info.len() >= 8 { Some((info[7], info[6])) } else { None },
                info: join_spec(mic_e_parts(speed, course, alt, comment), seq![' ', ' ']),
                ..new_spec(source, "mic-e"@)
            },
            None => bare_info_spec(source, "mic-e"@, info),
        }
    } else {
        bare_info_spec(source, "mic-e"@, info)
    }
}

/// Positionless weather report: `_MMDDHHMM` then weather fields.
pub open spec fn weather_report_spec(source: Seq<char>, rest: Seq<u8>) -> PacketModel {
    let data = if rest.len() > 8 { rest.skip(8) } else { rest };
    PacketModel { info: format_weather_spec(lossy_spec(data)), ..new_spec(source, "wx"@) }
}

/// A packet by its data type identifier, the first payload byte.
pub open spec fn payload_spec(source: Seq<char>, dest: Seq<u8>, b: Seq<u8>) -> PacketModel {
    let c = b[0];
    let rest = b.skip(1);
    if c == 33u8 || c == 61u8 {
        position_spec(source, rest)
    } else if c == 64u8 || c == 47u8 {
        if b.len() >= 8 {
            position_spec(source, b.skip(8))
        } else {
            new_spec(source, "pos"@)
        }
    } else if c == 59u8 {
        object_spec(source, rest)
    } else if c == 41u8 {
        bare_info_spec(source, "item"@, rest)
    } else if c == 58u8 {
        message_spec(source, rest)
    } else if c == 62u8 {
        bare_info_spec(source, "status"@, rest)
    } else if c == 60u8 {
        bare_info_spec(source, "caps"@, rest)
    } else if c == 84u8 {
        bare_info_spec(source, "tlm"@, rest)
    } else if c == 96u8 || c == 39u8 {
        mic_e_spec(source, dest, rest)
    } else if c == 95u8 {
        weather_report_spec(source, rest)
    } else if c == 36u8 {
        new_spec(source, "gps"@)
    } else if c == 63u8 {
        bare_info_spec(source, "query"@, rest)
    } else {
        bare_info_spec(source, "?"@, b)
    }
}

/// One APRS-IS line `SOURCE>DEST[,PATH...]:PAYLOAD`: `None` when it has no
/// `:`, no `>` before it, an empty source or an empty payload.
pub open spec fn parse_spec(line: Seq<char>) -> Option<PacketModel> {
    match find_char(line, ':', 0) {
        None => None,
        Some(i) => {
            let header = line.take(i);
            let payload = line.skip(i + 1);
            match find_char(header, '>', 0) {
                None => None,
                Some(j) => {
                    let source = header.take(j);
                    let after = header.skip(j + 1);
                    let dest = match find_char(after, ',', 0) {
                        Some(k) => after.take(k),
                        None => after,
                    };
                    if source.len() == 0 || payload.len() == 0 {
                        None
                    } else {
                        Some(payload_spec(source, encode_utf8(dest), encode_utf8(payload)))
                    }
                },
            }
        },
    }
}

fn new(source: &[char], kind: &'static str) -> (p: Packet)
    ensures
        p@ == new_spec(source@, kind@),
{
    Packet {
        source: string_of(source),
        kind,
        name: None,
        position: None,
        symbol: None,
        info: String::new(),
    }
}

fn bare(source: &[char], kind: &'static str) -> (p: Packet)
    ensures
        p@ == new_spec(source@, kind@),
{
    new(source, kind)
}

fn bare_info(source: &[char], kind: &'static str, rest: &[u8]) -> (p: Packet)
    ensures
        p@ == bare_info_spec(source@, kind@, rest@),
{
    let mut p = new(source, kind);
    p.info = string_of(lossy(rest).as_slice());
    p
}

fn text(source: &[char], kind: &'static str, rest: &[u8]) -> (p: Packet)
    ensures
        p@ == bare_info_spec(source@, kind@, rest@),
{
    let mut p = new(source, kind);
    p.info = string_of(lossy(rest).as_slice());
    p
}

fn position(source: &[char], rest: &[u8]) -> (p: Packet)
    ensures
        p@ == position_spec(source@, rest@),
{
    let mut p = new(source, "pos");
    match locate(rest) {
        Some((pos, sym, comment)) => {
            p.position = Some(pos);
            p.symbol = Some(sym);
            if sym.1 == 95u8 /* '_' */ {
                // weather station symbol: the comment is a weather report
                p.kind = "wx";
                p.info = string_of(format_weather(comment.as_slice()).as_slice());
            } else {
                p.info = string_of(comment.as_slice());
            }
        },
        None => {
            p.info = string_of(lossy(rest).as_slice());
        },
    }
    p
}

fn object(source: &[char], rest: &[u8]) -> (p: Packet)
    ensures
        p@ == object_spec(source@, rest@),
{
    // NAME(9) + flag(1) + timestamp(7) + position
    if rest.len() >= 18 {
        let mut p = new(source, "obj");
        p.name = Some(string_of(lossy(&rest[0..9]).as_slice()));
        let posdata = &rest[17..rest.len()];
        assert(posdata@ == rest@.skip(17));
        match locate(posdata) {
            Some((pos, sym, comment)) => {
                p.position = Some(pos);
                p.symbol = Some(sym);
                p.info = string_of(comment.as_slice());
            },
            None => p.info = string_of(lossy(posdata).as_slice()),
        }
        p
    } else {
        bare_info(source, "obj", rest)
    }
}

fn message(source: &[char], rest: &[u8]) -> (p: Packet)
    ensures
        p@ == message_spec(source@, rest@),
{
    // ADDRESSEE(9) + ':' + text
    if rest.len() >= 10 && rest[9] == 58u8 /* ':' */ {
        let mut p = new(source, "msg");
        p.name = Some(string_of(lossy(&rest[0..9]).as_slice()));
        let body = &rest[10..rest.len()];
        assert(body@ == rest@.skip(10));
        p.info = string_of(lossy(body).as_slice());
        p
    } else {
        bare_info(source, "msg", rest)
    }
}

fn motion_part_exec(speed: i32, course: i32) -> (r: Vec<char>)
    ensures
        r@ == motion_part(speed as int, course as int),
{
    let mut part: Vec<char> = Vec::new();
    push_int(&mut part, speed as i64);
    part.push('k');
    part.push('t');
    part.push(' ');
    push_int_zero_pad(&mut part, course as i64, 3);
    part.push('°');
    assert(part@ =~= motion_part(speed as int, course as int));
    part
}

fn altitude_part_exec(alt: i32) -> (r: Vec<char>)
    ensures
        r@ == altitude_part(alt as int),
{
    let mut part: Vec<char> = Vec::new();
    push_int(&mut part, alt as i64);
    part.push('m');
    assert(part@ =~= altitude_part(alt as int));
    part
}

fn mic_e(source: &[char], dest: &[u8], info: &[u8]) -> (p: Packet)
    ensures
        p@ == mic_e_spec(source@, dest@, info@),
{
    if dest.len() >= 6 {
        if let Some(d) = decode_mic_e_dest(dest) {
            if let Some(report) = decode_mic_e_info(info, d.offset, d.west) {
                let mut parts: Vec<Vec<char>> = Vec::new();
                let speed = report.speed;
                let course = report.course;
                let ghost alt: Option<int> = match report.altitude {
                    Some(a) => Some(a as int),
                    None => None,
                };
                if speed > 0 {
                    parts.push(motion_part_exec(speed, course));
                }
                let ghost p1: Seq<Seq<char>> = if speed > 0 {
                    seq![motion_part(speed as int, course as int)]
                } else {
                    seq![]
                };
                assert(views(parts@) =~= p1);
                if let Some(a) = report.altitude {
                    if -1000 <= a && a <= 60000 {
                        parts.push(altitude_part_exec(a));
                    }
                }
                let ghost p2 = match alt {
                    Some(a) => if -1000 <= a <= 60000 { p1.push(altitude_part(a)) } else { p1 },
                    None => p1,
                };
                assert(views(parts@) =~= p2);
                let comment = report.comment;
                let ghost comment_view = comment@;
                if comment.len() > 0 {
                    parts.push(comment);
                }
                assert(views(parts@) =~= mic_e_parts(speed as int, course as int, alt, comment_view));
                let mut p = new(source, "mic-e");
                p.position = Some(Position::MicE { lat: d.lat, north: d.north, lon: report.lon });
                if info.len() >= 8 {
                    // table id, symbol code
                    p.symbol = Some((info[7], info[6]));
                }
                p.info = string_of(join(&parts, &[' ', ' ']).as_slice());
                return p;
            }
        }
    }
    bare_info(source, "mic-e", info)
}

fn weather_report(source: &[char], rest: &[u8]) -> (p: Packet)
    ensures
        p@ == weather_report_spec(source@, rest@),
{
    let mut p = new(source, "wx");
    let data = if rest.len() > 8 {
        &rest[8..rest.len()]
    } else {
        rest
    };
    assert(rest@.len() > 8 ==> rest@.subrange(8, rest@.len() as int) == rest@.skip(8));
    p.info = string_of(format_weather(lossy(data).as_slice()).as_slice());
    p
}

fn payload_packet(source: &[char], dest: &[u8], b: &[u8]) -> (p: Packet)
    requires
        b@.len() > 0,
    ensures
        p@ == payload_spec(source@, dest@, b@),
{
    let rest = &b[1..b.len()];
    assert(rest@ == b@.skip(1));
    let c = b[0];
    if c == 33u8 /* '!' */ || c == 61u8 /* '=' */ {
        position(source, rest)
    } else if c == 64u8 /* '@' */ || c == 47u8 /* '/' */ {
        if b.len() >= 8 {
            // skip the 7-character timestamp
            let after = &b[8..b.len()];
            assert(after@ == b@.skip(8));
            position(source, after)
        } else {
            bare(source, "pos")
        }
    } else if c == 59u8 /* ';' */ {
        object(source, rest)
    } else if c == 41u8 /* ')' */ {
        bare_info(source, "item", rest)
    } else if c == 58u8 /* ':' */ {
        message(source, rest)
    } else if c == 62u8 /* '>' */ {
        text(source, "status", rest)
    } else if c == 60u8 /* '<' */ {
        text(source, "caps", rest)
    } else if c == 84u8 /* 'T' */ {
        bare_info(source, "tlm", rest)
    } else if c == 96u8 /* '`' */ || c == 39u8 /* '\'' */ {
        mic_e(source, dest, rest)
    } else if c == 95u8 /* '_' */ {
        weather_report(source, rest)
    } else if c == 36u8 /* '$' */ {
        bare(source, "gps")
    } else if c == 63u8 /* '?' */ {
        text(source, "query", rest)
    } else {
        bare_info(source, "?", b)
    }
}

/// Parses one APRS-IS line.  Returns `None` if it does not look like a packet.
pub fn parse(line: &str) -> (r: Option<Packet>)
    ensures
        match parse_spec(line@) {
            Some(m) => r matches Some(p) && p@ == m,
            None => r is None,
        },
{
    let chars = chars_of(line);
    let i = match find_char_exec(chars.as_slice(), ':') {
        Some(i) => i,
        None => return None,
    };
    assert(find_char(line@, ':', 0) == Some(i as int));
    assert(i < chars.len());
    let header = copy_range(chars.as_slice(), 0, i);
    assert(header@ == line@.take(i as int));
    let payload = copy_range(chars.as_slice(), i + 1, chars.len());
    assert(payload@ == line@.skip(i + 1));
    let j = match find_char_exec(header.as_slice(), '>') {
        Some(j) => j,
        None => return None,
    };
    assert(find_char(header@, '>', 0) == Some(j as int));
    let source = copy_range(header.as_slice(), 0, j);
    assert(source@ == header@.take(j as int));
    let after = copy_range(header.as_slice(), j + 1, header.len());
    assert(after@ == header@.skip(j + 1));
    let dest = match find_char_exec(after.as_slice(), ',') {
        Some(k) => {
            assert(after@.subrange(0, k as int) == after@.take(k as int));
            copy_range(after.as_slice(), 0, k)
        },
        None => {
            assert(after@.subrange(0, after@.len() as int) == after@);
            copy_range(after.as_slice(), 0, after.len())
        },
    };
    if source.len() == 0 || payload.len() == 0 {
        return None;
    }
    let dest_bytes = utf8_of(dest.as_slice());
    let payload_bytes = utf8_of(payload.as_slice());
    proof {
        vstd::utf8::encode_utf8_first_scalar(payload@);
    }
    Some(payload_packet(source.as_slice(), dest_bytes.as_slice(), payload_bytes.as_slice()))
}


/// The two-cell-wide emoji for an APRS symbol code (keyed on the code, for
/// both tables).  Only default emoji-presentation characters are used, so
/// every one is displayed two cells wide.
pub open spec fn icon_spec(code: u8) -> Seq<char> {
    match code {
        62u8 /* '>' */ => "🚗"@,
        106u8 /* 'j' */ | 82u8 /* 'R' */ => "🚙"@,
        118u8 /* 'v' */ => "🚐"@,
        107u8 /* 'k' */ | 117u8 /* 'u' */ => "🚛"@,
        85u8 /* 'U' */ => "🚌"@,
        60u8 /* '<' */ => "🛵"@,
        98u8 /* 'b' */ => "🚲"@,
        91u8 /* '[' */ => "🚶"@,
        95u8 /* '_' */ | 87u8 /* 'W' */ => "⛅"@,
        35u8 /* '#' */ => "📡"@,
        45u8 /* '-' */ | 121u8 /* 'y' */ => "🏠"@,
        39u8 /* ''' */ | 94u8 /* '^' */ => "🛫"@,
        88u8 /* 'X' */ => "🚁"@,
        79u8 /* 'O' */ => "🎈"@,
        115u8 /* 's' */ | 89u8 /* 'Y' */ | 67u8 /* 'C' */ => "⛵"@,
        97u8 /* 'a' */ => "🚑"@,
        102u8 /* 'f' */ => "🚒"@,
        58u8 /* ':' */ => "🔥"@,
        80u8 /* 'P' */ | 33u8 /* '!' */ => "👮"@,
        38u8 /* '&' */ | 73u8 /* 'I' */ => "🌐"@,
        114u8 /* 'r' */ => "📻"@,
        104u8 /* 'h' */ => "🏥"@,
        _ => "📍"@,
    }
}

/// The icon of a packet: its symbol's emoji, or two spaces without a symbol.
pub open spec fn packet_icon(symbol: Option<(u8, u8)>) -> Seq<char> {
    match symbol {
        Some((_table, code)) => icon_spec(code),
        None => "  "@,
    }
}

/// Maps an APRS symbol (table id, code) to a two-cell emoji.
pub fn symbol_icon(_table: u8, code: u8) -> (r: &'static str)
    ensures
        r@ == icon_spec(code),
{
    match code {
        62u8 /* '>' */ => "🚗",
        106u8 /* 'j' */ | 82u8 /* 'R' */ => "🚙",
        118u8 /* 'v' */ => "🚐",
        107u8 /* 'k' */ | 117u8 /* 'u' */ => "🚛",
        85u8 /* 'U' */ => "🚌",
        60u8 /* '<' */ => "🛵",
        98u8 /* 'b' */ => "🚲",
        91u8 /* '[' */ => "🚶",
        95u8 /* '_' */ | 87u8 /* 'W' */ => "⛅",
        35u8 /* '#' */ => "📡",
        45u8 /* '-' */ | 121u8 /* 'y' */ => "🏠",
        39u8 /* ''' */ | 94u8 /* '^' */ => "🛫",
        88u8 /* 'X' */ => "🚁",
        79u8 /* 'O' */ => "🎈",
        115u8 /* 's' */ | 89u8 /* 'Y' */ | 67u8 /* 'C' */ => "⛵",
        97u8 /* 'a' */ => "🚑",
        102u8 /* 'f' */ => "🚒",
        58u8 /* ':' */ => "🔥",
        80u8 /* 'P' */ | 33u8 /* '!' */ => "👮",
        38u8 /* '&' */ | 73u8 /* 'I' */ => "🌐",
        114u8 /* 'r' */ => "📻",
        104u8 /* 'h' */ => "🏥",
        _ => "📍",
    }
}

impl Packet {
    /// A two-cell-wide emoji for this station's APRS symbol, or two spaces
    /// if unknown.
    pub fn icon(&self) -> (r: &'static str)
        ensures
            r@ == packet_icon(self.symbol),
    {
        match self.symbol {
            Some((table, code)) => symbol_icon(table, code),
            None => "  ",
        }
    }
}

/// Two spaces between columns.
pub open spec fn gap() -> Seq<char> {
    seq![' ', ' ']
}

/// The info column: the trimmed name, two spaces, the info (or the name
/// alone when there is no info), cut to 52 characters.
pub open spec fn info_column(name: Option<Seq<char>>, info: Seq<char>) -> Seq<char> {
    let full = match name {
        Some(n) => if info.len() == 0 { trim(n) } else { trim(n) + gap() + info },
        None => info,
    };
    truncate_spec(full, 52)
}

/// One aligned line: time, icon, station (9), type (6), position (19),
/// distance (right-aligned, 6), info.
pub open spec fn format_line_spec(p: PacketModel, icon: Seq<char>, ts: Seq<char>, pos_col: Seq<char>, dist_col: Seq<char>) -> Seq<char> {
    ts + gap() + icon + gap() + pad_right(p.source, 9) + gap() + pad_right(p.kind, 6) + gap()
        + pad_right(pos_col, 19) + gap() + pad_left(dist_col, 6) + gap() + info_column(p.name, p.info)
}

fn info_column_exec(p: &Packet) -> (r: Vec<char>)
    ensures
        r@ == info_column(p@.name, p@.info),
{
    let mut info = chars_of(p.info.as_str());
    if let Some(n) = &p.name {
        let n = trim_chars(chars_of(n.as_str()).as_slice());
        if info.len() == 0 {
            info = n;
        } else {
            let mut joined = n;
            joined.push(' ');
            joined.push(' ');
            push_all(&mut joined, info.as_slice());
            assert(joined@ =~= trim(p@.name.unwrap()) + gap() + p@.info);
            info = joined;
        }
    }
    truncate(info.as_slice(), 52)
}

/// Renders a decoded packet as one aligned line, given the time stamp and
/// the already formatted position and distance columns.
pub fn format_line(p: &Packet, ts: &str, pos_col: &str, dist_col: &str) -> (r: String)
    ensures
        r@ == format_line_spec(p@, packet_icon(p.symbol), ts@, pos_col@, dist_col@),
{
    let info = info_column_exec(p);
    let mut out: Vec<char> = Vec::new();
    push_str(&mut out, ts);
    out.push(' ');
    out.push(' ');
    push_str(&mut out, p.icon());
    out.push(' ');
    out.push(' ');
    let ghost head = out@;
    push_padded_right(&mut out, chars_of(p.source.as_str()).as_slice(), 9);
    out.push(' ');
    out.push(' ');
    push_padded_right(&mut out, chars_of(p.kind).as_slice(), 6);
    out.push(' ');
    out.push(' ');
    push_padded_right(&mut out, chars_of(pos_col).as_slice(), 19);
    out.push(' ');
    out.push(' ');
    push_padded_left(&mut out, chars_of(dist_col).as_slice(), 6);
    out.push(' ');
    out.push(' ');
    push_all(&mut out, info.as_slice());
    assert(head =~= ts@ + gap() + packet_icon(p.symbol) + gap());
    assert(out@ =~= format_line_spec(p@, packet_icon(p.symbol), ts@, pos_col@, dist_col@));
    string_of(out.as_slice())
}

/// The column headers of [`format_line`], padded the same way, with a blank
/// two-cell icon column.
pub open spec fn header_spec() -> Seq<char> {
    pad_right("TIME"@, 8) + gap() + spaces(2) + gap() + pad_right("STATION"@, 9) + gap() + pad_right("TYPE"@, 6)
        + gap() + pad_right("POSITION"@, 19) + gap() + pad_left("DIST"@, 6) + gap() + "INFO"@
}

/// Column header matching `format_line`.
pub fn header() -> (r: String)
    ensures
        r@ == header_spec(),
{
    let mut out: Vec<char> = Vec::new();
    push_padded_right(&mut out, chars_of("TIME").as_slice(), 8);
    out.push(' ');
    out.push(' ');
    // the two cells of the icon column
    push_spaces(&mut out, 2);
    out.push(' ');
    out.push(' ');
    push_padded_right(&mut out, chars_of("STATION").as_slice(), 9);
    out.push(' ');
    out.push(' ');
    push_padded_right(&mut out, chars_of("TYPE").as_slice(), 6);
    out.push(' ');
    out.push(' ');
    push_padded_right(&mut out, chars_of("POSITION").as_slice(), 19);
    out.push(' ');
    out.push(' ');
    push_padded_left(&mut out, chars_of("DIST").as_slice(), 6);
    out.push(' ');
    out.push(' ');
    push_str(&mut out, "INFO");
    assert(out@ =~= header_spec());
    string_of(out.as_slice())
}


/// The header is the line [`format_line`] renders for a station `STATION`
/// of type `TYPE` with info `INFO`, position `POSITION`, distance `DIST`, no
/// symbol (a blank two-cell icon) at time `TIME`: every label stands where
/// rows put their field.
pub proof fn header_matches_lines()
    ensures
        header_spec() == format_line_spec(
            PacketModel {
                source: "STATION"@,
                kind: "TYPE"@,
                name: None,
                position: None,
                symbol: None,
                info: "INFO"@,
            },
            packet_icon(None),
            pad_right("TIME"@, 8),
            "POSITION"@,
            "DIST"@,
        ),
{
    reveal_strlit("INFO");
    reveal_strlit("  ");
    assert(packet_icon(None) =~= spaces(2));
    assert(info_column(None, "INFO"@) == "INFO"@);
}

/// The displayed text of a packet (info and name) holds no control
/// character.
pub open spec fn text_is_clean(p: PacketModel) -> bool {
    no_controls(p.info) && (p.name matches Some(n) ==> no_controls(n))
}

proof fn lemma_locate_clean(b: Seq<u8>)
    ensures
        locate_spec(b) matches Some(l) ==> no_controls(l.2),
{
    lossy_has_no_controls(b.skip(19));
    lossy_has_no_controls(b.skip(13));
}

proof fn lemma_position_clean(source: Seq<char>, rest: Seq<u8>)
    ensures
        text_is_clean(position_spec(source, rest)),
{
    lemma_locate_clean(rest);
    lossy_has_no_controls(rest);
    if let Some((pos, sym, comment)) = locate_spec(rest) {
        weather_summary_has_no_controls(comment);
    }
}

proof fn lemma_object_clean(source: Seq<char>, rest: Seq<u8>)
    ensures
        text_is_clean(object_spec(source, rest)),
{
    lossy_has_no_controls(rest);
    if rest.len() >= 18 {
        lossy_has_no_controls(rest.subrange(0, 9));
        lossy_has_no_controls(rest.skip(17));
        lemma_locate_clean(rest.skip(17));
    }
}

proof fn lemma_mic_e_clean(source: Seq<char>, dest: Seq<u8>, info: Seq<u8>)
    ensures
        text_is_clean(mic_e_spec(source, dest, info)),
{
    lossy_has_no_controls(info);
    if dest.len() >= 6 && mic_e_dest_spec(dest.take(6)) is Some {
        let d = mic_e_dest_spec(dest.take(6)).unwrap();
        if let Some((lon, speed, course, alt, comment)) = mic_e_info_spec(info, d.offset, d.west) {
            if info.len() > 8 {
                mic_e_comment_is_clean(info.skip(8));
            }
            assert(no_controls(comment));
            let parts = mic_e_parts(speed, course, alt, comment);
            lemma_int_chars_clean(speed, 0);
            lemma_int_chars_clean(course, 3);
            assert(no_controls(seq!['k', 't', ' ']));
            assert(no_controls(seq!['°']));
            assert(no_controls(seq!['m']));
            lemma_no_controls_concat(int_chars(speed), seq!['k', 't', ' ']);
            lemma_no_controls_concat(int_chars(speed) + seq!['k', 't', ' '], int_chars_zero_pad(course, 3));
            lemma_no_controls_concat(
                int_chars(speed) + seq!['k', 't', ' '] + int_chars_zero_pad(course, 3),
                seq!['°'],
            );
            if let Some(a) = alt {
                lemma_int_chars_clean(a, 0);
                lemma_no_controls_concat(int_chars(a), seq!['m']);
            }
            assert forall|i: int| 0 <= i < parts.len() implies no_controls(#[trigger] parts[i]) by {
            }
            assert(no_controls(seq![' ', ' ']));
            lemma_join_clean(parts, seq![' ', ' ']);
        }
    }
}

proof fn lemma_payload_clean(source: Seq<char>, dest: Seq<u8>, b: Seq<u8>)
    requires
        b.len() > 0,
    ensures
        text_is_clean(payload_spec(source, dest, b)),
{
    let rest = b.skip(1);
    lossy_has_no_controls(rest);
    lossy_has_no_controls(b);
    lemma_position_clean(source, rest);
    lemma_position_clean(source, b.skip(8));
    lemma_object_clean(source, rest);
    lossy_has_no_controls(rest.subrange(0, 9));
    lossy_has_no_controls(rest.skip(10));
    lemma_mic_e_clean(source, dest, rest);
    let data = if rest.len() > 8 { rest.skip(8) } else { rest };
    lossy_has_no_controls(data);
    weather_summary_has_no_controls(lossy_spec(data));
}

/// Whatever line comes in, the name and text of the parsed packet hold no
/// control character (C0 or C1): raw payload bytes can never move the cursor
/// or corrupt the terminal.
pub proof fn parsed_text_has_no_controls(line: Seq<char>)
    ensures
        parse_spec(line) matches Some(p) ==> text_is_clean(p),
{
    if let Some(i) = find_char(line, ':', 0) {
        let header = line.take(i);
        let payload = line.skip(i + 1);
        if let Some(j) = find_char(header, '>', 0) {
            let after = header.skip(j + 1);
            let dest = match find_char(after, ',', 0) {
                Some(k) => after.take(k),
                None => after,
            };
            if payload.len() > 0 {
                vstd::utf8::encode_utf8_first_scalar(payload);
                lemma_payload_clean(header.take(j), encode_utf8(dest), encode_utf8(payload));
            }
        }
    }
}

/// The data type identifiers the parser decodes.
pub open spec fn known_type(c: u8) -> bool {
    c == 33u8 || c == 61u8 || c == 64u8 || c == 47u8 || c == 59u8 || c == 41u8 || c == 58u8 || c
        == 62u8 || c == 60u8 || c == 84u8 || c == 96u8 || c == 39u8 || c == 95u8 || c == 36u8 || c
        == 63u8
}

/// Anything the parser cannot decode falls back to raw text: an unknown
/// data type is shown whole under `?`, and a position report whose position
/// does not decode shows its text without a position.
pub proof fn unparsed_payloads_fall_back_to_raw(source: Seq<char>, dest: Seq<u8>, b: Seq<u8>)
    requires
        b.len() > 0,
    ensures
        !known_type(b[0]) ==> payload_spec(source, dest, b) == bare_info_spec(source, "?"@, b),
        (b[0] == 33u8 || b[0] == 61u8) && locate_spec(b.skip(1)) is None ==> {
            &&& payload_spec(source, dest, b).info == lossy_spec(b.skip(1))
            &&& payload_spec(source, dest, b).position is None
        },
{
}

/// Rows line up: when station, type, position and distance fit their
/// columns, the info column starts 52 characters after the time stamp and
/// icon, whatever the packet.
pub proof fn line_columns_align(
    p: PacketModel,
    icon: Seq<char>,
    ts: Seq<char>,
    pos_col: Seq<char>,
    dist_col: Seq<char>,
)
    requires
        p.source.len() <= 9,
        p.kind.len() <= 6,
        pos_col.len() <= 19,
        dist_col.len() <= 6,
    ensures
        format_line_spec(p, icon, ts, pos_col, dist_col).len() == ts.len() + icon.len() + 52
            + info_column(p.name, p.info).len(),
        format_line_spec(p, icon, ts, pos_col, dist_col).skip((ts.len() + icon.len() + 52) as int)
            == info_column(p.name, p.info),
{
    let line = format_line_spec(p, icon, ts, pos_col, dist_col);
    let head = ts + gap() + icon + gap() + pad_right(p.source, 9) + gap() + pad_right(p.kind, 6)
        + gap() + pad_right(pos_col, 19) + gap() + pad_left(dist_col, 6) + gap();
    assert(line == head + info_column(p.name, p.info));
    assert(head.len() == ts.len() + icon.len() + 52);
    assert(line.skip(head.len() as int) =~= info_column(p.name, p.info));
}

/// Positions decoded from the compressed and Mic-E formats lie within ±90°
/// of latitude and ±180° of longitude.
pub open spec fn position_in_range(pos: Position) -> bool {
    match pos {
        Position::Uncompressed { .. } => true,
        Position::Compressed { y, x } => y <= 68566680 && x <= 68566680,
        Position::MicE { lat, north, lon } => {
            &&& lat.degrees as int * 6000 + lat.minutes as int * 100 + lat.hundredths as int <= 540000
            &&& lon.degrees <= 179
            &&& lon.minutes <= 59
            &&& lon.hundredths <= 99
        },
    }
}

proof fn lemma_locate_in_range(b: Seq<u8>)
    ensures
        locate_spec(b) matches Some(l) ==> position_in_range(l.0),
{
}

/// Every position that parsing yields from the compressed or Mic-E
/// encodings is within range.
pub proof fn parsed_positions_in_range(line: Seq<char>)
    ensures
        parse_spec(line) matches Some(p) ==> (p.position matches Some(pos) ==> position_in_range(pos)),
{
    if let Some(i) = find_char(line, ':', 0) {
        let header = line.take(i);
        let payload = line.skip(i + 1);
        if let Some(j) = find_char(header, '>', 0) {
            let b = encode_utf8(payload);
            if payload.len() > 0 {
                vstd::utf8::encode_utf8_first_scalar(payload);
                lemma_locate_in_range(b.skip(1));
                lemma_locate_in_range(b.skip(8));
                if b.skip(1).len() >= 18 {
                    lemma_locate_in_range(b.skip(1).skip(17));
                }
            }
        }
    }
}

/// The two timestamped position types decode alike: a payload of type `/`
/// reads as the same payload of type `@`, and its seven timestamp bytes
/// never reach the position decoder.
pub proof fn timestamped_positions_decode_alike(source: Seq<char>, dest: Seq<u8>, b: Seq<u8>)
    requires
        b.len() > 0,
        b[0] == 47u8,
    ensures
        payload_spec(source, dest, b) == payload_spec(source, dest, seq![64u8] + b.skip(1)),
        b.len() >= 8 ==> payload_spec(source, dest, b) == position_spec(source, b.skip(8)),
{
    let a = seq![64u8] + b.skip(1);
    assert(a[0] == 64u8);
    assert(a.len() == b.len());
    if b.len() >= 8 {
        assert(a.skip(8) =~= b.skip(8)) by {
            assert forall|i: int| 0 <= i < b.len() - 8 implies a.skip(8)[i] == b.skip(8)[i] by {
                assert(a[i + 8] == b.skip(1)[i + 7]);
            }
        }
    }
}

/// The timestamp of a `/` report does not matter: two payloads that differ
/// only in bytes 1 to 7 decode to the same packet.
pub proof fn timestamp_is_skipped(source: Seq<char>, dest: Seq<u8>, b1: Seq<u8>, b2: Seq<u8>)
    requires
        b1.len() == b2.len(),
        b1.len() > 0,
        b1[0] == 47u8,
        b2[0] == 47u8,
        forall|i: int| 8 <= i < b1.len() ==> b1[i] == b2[i],
    ensures
        payload_spec(source, dest, b1) == payload_spec(source, dest, b2),
{
    if b1.len() >= 8 {
        assert(b1.skip(8) =~= b2.skip(8));
    }
}

/// The object or item name is never dropped from the info column: with no
/// info the column shows the trimmed name as an info of that text would be
/// shown, otherwise the name, two spaces and the info; the column always
/// starts with the name (as far as the 52 cells allow).
pub proof fn info_column_keeps_name(n: Seq<char>, info: Seq<char>)
    ensures
        info_column(None, info) == truncate_spec(info, 52),
        info.len() == 0 ==> info_column(Some(n), info) == info_column(None, trim(n)),
        info.len() > 0 ==> info_column(Some(n), info) == info_column(None, trim(n) + seq![' ', ' '] + info),
        ({
            let k = if trim(n).len() <= 51 { trim(n).len() } else { 51 };
            &&& info_column(Some(n), info).len() >= k
            &&& info_column(Some(n), info).take(k as int) == trim(n).take(k as int)
        }),
{
    let full = if info.len() == 0 { trim(n) } else { trim(n) + gap() + info };
    let k = if trim(n).len() <= 51 { trim(n).len() } else { 51 };
    assert(full.take(k as int) =~= trim(n).take(k as int));
    if full.len() > 52 {
        let c = truncate_spec(full, 52);
        assert(c.take(k as int) =~= full.take(k as int));
    }
}

} // verus!
