use claprs::packet::{format_line, header, parse, symbol_icon};
use claprs::position::{Coordinate, Decimal, MicELatitude, MicELongitude, Numeral, Position};

fn dec(negative: bool, mantissa: u64, exponent: i64) -> Numeral {
    Numeral::Finite(Decimal { negative, mantissa, exponent })
}

#[test]
fn uncompressed_position_report() {
    let p = parse("N0CALL>APRS,TCPIP*:!4903.50N/07201.75W-Test 123").unwrap();
    assert_eq!(p.source, "N0CALL");
    assert_eq!(p.kind, "pos");
    assert_eq!(p.symbol, Some((b'/', b'-')));
    assert_eq!(p.info, "Test 123");
    assert_eq!(p.name, None);
    assert_eq!(
        p.position,
        Some(Position::Uncompressed {
            lat: Coordinate { degrees: dec(false, 49, 0), minutes: dec(false, 350, -2), negative: false },
            lon: Coordinate { degrees: dec(false, 72, 0), minutes: dec(false, 175, -2), negative: true },
        })
    );
    assert_eq!(p.icon(), "🏠");
}

#[test]
fn timestamped_position_with_ambiguity_spaces() {
    let p = parse("K1ABC>APRS:@092345z49 3.  N/072 1.  W>moving").unwrap();
    assert_eq!(p.kind, "pos");
    assert_eq!(p.info, "moving");
    assert_eq!(
        p.position,
        Some(Position::Uncompressed {
            lat: Coordinate { degrees: dec(false, 49, 0), minutes: dec(false, 300, -2), negative: false },
            lon: Coordinate { degrees: dec(false, 72, 0), minutes: dec(false, 100, -2), negative: true },
        })
    );
    assert_eq!(p.icon(), "🚗");
}

#[test]
fn infinite_longitude_degrees_read_like_f64() {
    // "inf".parse::<f64>() succeeds, so the field is a position
    let p = parse("K1ABC>APRS:!4903.50N/inf01.75W-x").unwrap();
    assert_eq!(
        p.position,
        Some(Position::Uncompressed {
            lat: Coordinate { degrees: dec(false, 49, 0), minutes: dec(false, 350, -2), negative: false },
            lon: Coordinate { degrees: Numeral::Infinite { negative: false }, minutes: dec(false, 175, -2), negative: true },
        })
    );
}

#[test]
fn short_timestamped_report_is_bare() {
    let p = parse("K1ABC>APRS:@0923").unwrap();
    assert_eq!(p.kind, "pos");
    assert_eq!(p.info, "");
    assert_eq!(p.position, None);
}

#[test]
fn compressed_position_report() {
    let p = parse("K1ABC>APRS:!/5L!!<*e7>7P[").unwrap();
    assert_eq!(p.kind, "pos");
    assert_eq!(p.position, Some(Position::Compressed { y: 15427503, x: 20427156 }));
    assert_eq!(p.symbol, Some((b'/', b'>')));
    assert_eq!(p.info, "");
}

#[test]
fn compressed_out_of_range_falls_back_to_raw() {
    // "{{{{" is the largest base-91 value, beyond -90 degrees
    let p = parse("K1ABC>APRS:!/{{{{<*e7>7P[ rest").unwrap();
    assert_eq!(p.position, None);
    assert_eq!(p.info, "/{{{{<*e7>7P[ rest");
}

#[test]
fn weather_station_symbol_reads_weather() {
    let p = parse("WX1>APRS:!4903.50N/07201.75W_220/004g005t077h50b09900").unwrap();
    assert_eq!(p.kind, "wx");
    assert_eq!(p.info, "77°F  wind 4mph@220 g5  hum 50%  990.0hPa");
}

#[test]
fn positionless_weather_report() {
    let p = parse("WX2>APRS:_10090556c220s004g005t077r000p000P000h00b10132").unwrap();
    assert_eq!(p.kind, "wx");
    assert_eq!(p.info, "77°F  wind 4mph@220 g5  hum 100%  1013.2hPa");
}

#[test]
fn weather_without_fields_keeps_raw_text() {
    let p = parse("WX3>APRS:_12345678 no data here").unwrap();
    assert_eq!(p.kind, "wx");
    assert_eq!(p.info, "no data here");
}

#[test]
fn message_packet() {
    let p = parse("N0CALL>APRS::W1AW     :Hello there{12").unwrap();
    assert_eq!(p.kind, "msg");
    assert_eq!(p.name.as_deref(), Some("W1AW"));
    assert_eq!(p.info, "Hello there{12");
}

#[test]
fn malformed_message_is_bare() {
    let p = parse("N0CALL>APRS::W1AW").unwrap();
    assert_eq!(p.kind, "msg");
    assert_eq!(p.name, None);
    assert_eq!(p.info, "W1AW");
}

#[test]
fn object_packet() {
    let p = parse("N0CALL>APRS:;LEADER   *092345z4903.50N/07201.75W>Chasing").unwrap();
    assert_eq!(p.kind, "obj");
    assert_eq!(p.name.as_deref(), Some("LEADER"));
    assert_eq!(p.symbol, Some((b'/', b'>')));
    assert_eq!(p.info, "Chasing");
    assert!(p.position.is_some());
}

#[test]
fn status_and_other_kinds() {
    assert_eq!(parse("A>B:>On the air").unwrap().kind, "status");
    assert_eq!(parse("A>B:>On the air").unwrap().info, "On the air");
    assert_eq!(parse("A>B:<IGATE,MSG_CNT=1").unwrap().kind, "caps");
    assert_eq!(parse("A>B:T#005,199,000,255").unwrap().kind, "tlm");
    assert_eq!(parse("A>B:)AID #2!4903.50N/07201.75WA").unwrap().kind, "item");
    assert_eq!(parse("A>B:$GPRMC,12").unwrap().kind, "gps");
    assert_eq!(parse("A>B:$GPRMC,12").unwrap().info, "");
    assert_eq!(parse("A>B:?APRS?").unwrap().kind, "query");
    let p = parse("A>B:xyz\u{1b}[2J").unwrap();
    assert_eq!(p.kind, "?");
    assert_eq!(p.info, "xyz [2J");
}

#[test]
fn mic_e_packet() {
    let p = parse("N0CALL>S32U6T:`(_fn\"Oj/").unwrap();
    assert_eq!(p.kind, "mic-e");
    assert_eq!(
        p.position,
        Some(Position::MicE {
            lat: MicELatitude { degrees: 33, minutes: 25, hundredths: 64 },
            north: true,
            lon: MicELongitude { degrees: 12, minutes: 7, hundredths: 74, west: true },
        })
    );
    assert_eq!(p.symbol, Some((b'/', b'j')));
    assert_eq!(p.info, "20kt 251°");
}

#[test]
fn mic_e_with_altitude_and_extras() {
    // altitude "\"4T}" = (1*8281 + 19*91 + 51) - 10000 = 61 m; telemetry after '|' is dropped
    let p = parse("N0CALL>S32U6T,WIDE1-1:`(_fn\"Oj/]\"4T}Hello world|!!|").unwrap();
    assert_eq!(p.kind, "mic-e");
    assert_eq!(p.info, "20kt 251°  61m  Hello world");
}

#[test]
fn mic_e_with_bad_destination_is_bare() {
    let p = parse("N0CALL>APRS:`(_fn\"Oj/").unwrap();
    assert_eq!(p.kind, "mic-e");
    assert_eq!(p.position, None);
    assert_eq!(p.info, "(_fn\"Oj/");
}

#[test]
fn lines_that_are_not_packets() {
    assert!(parse("# logresp N0CALL unverified").is_none());
    assert!(parse("N0CALL:!4903.50N/07201.75W-").is_none());
    assert!(parse(">APRS:!4903.50N/07201.75W-").is_none());
    assert!(parse("N0CALL>APRS:").is_none());
    assert!(parse("").is_none());
}

#[test]
fn header_columns() {
    let expected = format!(
        "{:<8}  {}  {:<9}  {:<6}  {:<19}  {:>6}  {}",
        "TIME", "  ", "STATION", "TYPE", "POSITION", "DIST", "INFO"
    );
    assert_eq!(header(), expected);
    let h: Vec<char> = header().chars().collect();
    assert_eq!(h[14..21].iter().collect::<String>(), "STATION");
    assert_eq!(h[25..29].iter().collect::<String>(), "TYPE");
    assert_eq!(h[33..41].iter().collect::<String>(), "POSITION");
    assert_eq!(h[56..60].iter().collect::<String>(), "DIST");
    assert_eq!(h[62..].iter().collect::<String>(), "INFO");
}

#[test]
fn header_labels_sit_over_row_fields() {
    let p = parse("N0CALL>APRS::W1AW     :Hello").unwrap();
    let line: Vec<char> = format_line(&p, "12:00:00", "", "").chars().collect();
    assert_eq!(line[14..20].iter().collect::<String>(), "N0CALL");
    assert_eq!(line[25..28].iter().collect::<String>(), "msg");
    assert_eq!(line[62..].iter().collect::<String>(), "W1AW  Hello");
}

#[test]
fn formatted_line() {
    let p = parse("N0CALL>APRS::W1AW     :Hello").unwrap();
    let line = format_line(&p, "12:34:56", "", "");
    assert_eq!(
        line,
        format!("12:34:56  {}  {:<9}  {:<6}  {:<19}  {:>6}  {}", "  ", "N0CALL", "msg", "", "", "W1AW  Hello")
    );
}

#[test]
fn rows_line_up_after_time_and_icon() {
    let a = parse("N0CALL>APRS::W1AW     :Hello").unwrap();
    let b = parse("K1ABC-10>APRS:!4903.50N/07201.75W>x").unwrap();
    let la = format_line(&a, "12:00:00", "", "");
    let lb = format_line(&b, "12:00:01", " 49.0583, -72.0292", "  12mi");
    let ia: Vec<char> = la.chars().collect();
    let ib: Vec<char> = lb.chars().collect();
    // 8 time characters, the icon (two spaces without a symbol, else one
    // emoji), then 52 columns
    assert_eq!(ia[62..].iter().collect::<String>(), "W1AW  Hello");
    assert_eq!(ib[61..].iter().collect::<String>(), "x");
}

#[test]
fn long_info_is_cut_to_52() {
    let long = "x".repeat(60);
    let p = parse(&format!("A>B:>{long}")).unwrap();
    let line = format_line(&p, "t", "", "");
    assert!(line.ends_with(&format!("{}…", "x".repeat(51))));
}

#[test]
fn no_control_characters_reach_the_text() {
    let p = parse("A>B::ADDR\u{7f}    :bell\u{7}\u{9b}2J").unwrap();
    assert!(p.info.chars().all(|c| !c.is_control()));
    assert!(p.name.unwrap().chars().all(|c| !c.is_control()));
}

#[test]
fn symbol_icons() {
    assert_eq!(symbol_icon(b'/', b'>'), "🚗");
    assert_eq!(symbol_icon(b'\\', b'j'), "🚙");
    assert_eq!(symbol_icon(b'/', b'_'), "⛅");
    assert_eq!(symbol_icon(b'/', b'W'), "⛅");
    assert_eq!(symbol_icon(b'/', b'\''), "🛫");
    assert_eq!(symbol_icon(b'/', b'h'), "🏥");
    assert_eq!(symbol_icon(b'/', b'~'), "📍");
}
