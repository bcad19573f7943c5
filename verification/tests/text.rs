use claprs::mice::{decode_mic_e_dest, decode_mic_e_info, parse_mic_e_comment, strip_mic_e_extras};
use claprs::position::{base91, parse_float_field, parse_lat, parse_lon, Decimal, Numeral};
use claprs::text::{lossy, truncate};
use claprs::weather::{format_weather, parse_weather};

fn s(v: Vec<char>) -> String {
    v.into_iter().collect()
}

fn chars(t: &str) -> Vec<char> {
    t.chars().collect()
}

#[test]
fn lossy_turns_controls_into_spaces() {
    assert_eq!(s(lossy(b"  hi\x1b[0m\x85there\xa0")), "hi [0m there");
    assert_eq!(s(lossy(&[0xe9, b'x'])), "éx");
    assert_eq!(s(lossy(b"\x00\x01")), "");
}

#[test]
fn truncate_adds_ellipsis() {
    assert_eq!(s(truncate(&chars("hello"), 5)), "hello");
    assert_eq!(s(truncate(&chars("hello!"), 5)), "hell…");
    assert_eq!(s(truncate(&chars("hello"), 0)), "…");
}

#[test]
fn base91_values() {
    assert_eq!(base91(b"!!!!"), Some(0));
    assert_eq!(base91(b"!!!\""), Some(1));
    assert_eq!(base91(b"{{{{"), Some(68574960));
    assert_eq!(base91(b"!!!|"), None);
    assert_eq!(base91(b"!!!"), None);
}

#[test]
fn float_fields_follow_f64_syntax() {
    let d = |n, m, e| Some(Numeral::Finite(Decimal { negative: n, mantissa: m, exponent: e }));
    assert_eq!(parse_float_field(b"49"), d(false, 49, 0));
    assert_eq!(parse_float_field(b"-4"), d(true, 4, 0));
    assert_eq!(parse_float_field(b"4."), d(false, 4, 0));
    assert_eq!(parse_float_field(b".5"), d(false, 5, -1));
    assert_eq!(parse_float_field(b"03.50"), d(false, 350, -2));
    assert_eq!(parse_float_field(b"1e-10"), d(false, 1, -10));
    assert_eq!(parse_float_field(b"2.5E3"), d(false, 25, 2));
    assert_eq!(parse_float_field(b"."), None);
    assert_eq!(parse_float_field(b"1e"), None);
    assert_eq!(parse_float_field(b"  "), None);
    assert_eq!(parse_float_field(b"1-"), None);
    assert_eq!(parse_float_field(b"InF"), Some(Numeral::Infinite { negative: false }));
    assert_eq!(parse_float_field(b"-Inf"), Some(Numeral::Infinite { negative: true }));
    assert_eq!(parse_float_field(b"nan"), Some(Numeral::NotANumber));
    // same answers as f64::from_str on these fields
    for f in ["49", "-4", "4.", ".5", "03.50", "1e-10", "2.5E3", ".", "1e", "  ", "1-", "+.5", "e5", "9e999", "inf", "NaN", "in", "+in", "iNf", "nana", "-inf"] {
        assert_eq!(parse_float_field(f.as_bytes()).is_some(), f.parse::<f64>().is_ok(), "{f}");
    }
}

#[test]
fn coordinates() {
    assert!(parse_lat(b"4903.50N").is_some());
    assert!(parse_lat(b"4903.50X").is_none());
    assert!(parse_lat(b"49o3.50N").is_none());
    assert!(parse_lon(b"07201.75W").unwrap().negative);
    assert!(!parse_lon(b"07201.75E").unwrap().negative);
}

#[test]
fn coordinate_fields_read_their_prefix() {
    // longer slices are read by their first bytes, as long as all is UTF-8
    let lat = parse_lat(b"4903.50N/rest").unwrap();
    assert!(!lat.negative);
    assert!(parse_lat(b"4903.50S/xx").unwrap().negative);
    assert!(parse_lon(b"07201.75W>comment").unwrap().negative);
    // too short, or not UTF-8 anywhere in the slice
    assert!(parse_lat(b"4903.50").is_none());
    assert!(parse_lon(b"07201.75").is_none());
    assert!(parse_lat(b"4903.50N\xff").is_none());
    assert!(parse_lon(b"07201.75W\xc3").is_none());
    assert!(parse_lat(b"").is_none());
}

#[test]
fn weather_summaries() {
    assert_eq!(s(parse_weather(&chars("090/010g015t-05h99b09800"))), "-5°F  wind 10mph@090 g15  hum 99%  980.0hPa");
    assert_eq!(s(parse_weather(&chars("c...s...t075"))), "75°F");
    assert_eq!(s(parse_weather(&chars("t 75"))), "75°F");
    assert_eq!(s(parse_weather(&chars("g000c010s002"))), "wind 2mph@010");
    assert_eq!(s(parse_weather(&chars("b-0005"))), "-0.5hPa");
    assert_eq!(s(parse_weather(&chars("nothing"))), "");
    assert_eq!(s(format_weather(&chars("nothing"))), "nothing");
}

#[test]
fn mic_e_destination() {
    let d = decode_mic_e_dest(b"S32U6T").unwrap();
    assert_eq!((d.lat.degrees, d.lat.minutes, d.lat.hundredths), (33, 25, 64));
    assert!(d.north && !d.offset && d.west);
    assert!(decode_mic_e_dest(b"S32U6!").is_none());
    // 99 degrees is beyond the pole
    assert!(decode_mic_e_dest(b"990000").is_none());
    assert!(decode_mic_e_dest(b"900000").is_some());
    // a longer destination is read by its first six characters
    let d = decode_mic_e_dest(b"S32U6TXYZ").unwrap();
    assert_eq!((d.lat.degrees, d.lat.minutes, d.lat.hundredths), (33, 25, 64));
    assert!(d.north && !d.offset && d.west);
}

#[test]
fn mic_e_information() {
    let r = decode_mic_e_info(b"(_fn\"Oj/", false, true).unwrap();
    assert_eq!((r.lon.degrees, r.lon.minutes, r.lon.hundredths, r.lon.west), (12, 7, 74, true));
    assert_eq!((r.speed, r.course), (20, 251));
    assert_eq!(r.altitude, None);
    // offset longitude 100 + 12 = 112
    assert_eq!(decode_mic_e_info(b"(_fn\"Oj/", true, false).unwrap().lon.degrees, 112);
    assert!(decode_mic_e_info(b"(_fn\"Oj", false, false).is_none());
    // negative course digits: ((0 - 28) % 10) * 100 = -800
    let r = decode_mic_e_info(b"(_fn\x00Oj/", false, false).unwrap();
    assert_eq!((r.speed, r.course), (18, -749));
}

#[test]
fn mic_e_comments() {
    let (alt, c) = parse_mic_e_comment(b"]\"4T}Hello |!!|");
    assert_eq!(alt, Some(61));
    assert_eq!(s(c), "Hello");
    let (alt, c) = parse_mic_e_comment(b">Going home !wAB! _4");
    assert_eq!(alt, None);
    assert_eq!(s(c), "Going home");
    assert_eq!(s(strip_mic_e_extras(&chars("_x"))), "");
    assert_eq!(s(strip_mic_e_extras(&chars("`ok !W\u{e9}!"))), "ok");
}

#[test]
fn weather_fields_read_like_from_utf8_trim_parse() {
    let alphabet = ['1', '7', '+', '-', ' ', '\u{a0}', '\u{3000}', '\u{85}', 'é', 'a', '\t'];
    let mut words: Vec<String> = vec![String::new()];
    for _ in 0..4 {
        let mut next = Vec::new();
        for w in &words {
            for c in alphabet {
                let mut v = w.clone();
                v.push(c);
                next.push(v);
            }
        }
        words.extend(next.clone());
        words = words.into_iter().filter(|w| w.chars().count() <= 4).collect();
        words.sort();
        words.dedup();
    }
    for w in words {
        let text = format!("t{w}");
        let b = text.as_bytes();
        let expected = b
            .get(1..4)
            .and_then(|x| std::str::from_utf8(x).ok())
            .and_then(|x| x.trim().parse::<i32>().ok());
        let got = s(parse_weather(&chars(&text)));
        let want = expected.map(|t| format!("{t}°F")).unwrap_or_default();
        assert_eq!(got, want, "{text:?}");
    }
}

fn numeral_value(n: Numeral) -> f64 {
    match n {
        Numeral::Finite(Decimal { negative, mantissa, exponent }) => {
            let sign = if negative { "-" } else { "" };
            format!("{sign}{mantissa}e{exponent}").parse().unwrap()
        }
        Numeral::Infinite { negative } => {
            if negative {
                f64::NEG_INFINITY
            } else {
                f64::INFINITY
            }
        }
        Numeral::NotANumber => f64::NAN,
    }
}

#[test]
fn float_fields_agree_with_f64_from_str() {
    let alphabet = ['0', '7', '.', 'e', 'E', '+', '-', 'i', 'n', 'f', 'a', 'N', ' '];
    let mut fields: Vec<String> = vec![String::new()];
    let mut frontier: Vec<String> = vec![String::new()];
    for _ in 0..4 {
        let mut next = Vec::new();
        for w in &frontier {
            for c in alphabet {
                next.push(format!("{w}{c}"));
            }
        }
        fields.extend(next.iter().cloned());
        frontier = next;
    }
    fields.extend(["12.34", "1e-99", "9e999", "+1.e5", "00000", ".5e-1", "-inf", "+NaN", "1.2.3"].map(String::from));
    for f in fields {
        let ours = parse_float_field(f.as_bytes());
        let std = f.parse::<f64>();
        assert_eq!(ours.is_some(), std.is_ok(), "{f:?}");
        if let (Some(n), Ok(v)) = (ours, std) {
            let w = numeral_value(n);
            assert!(w.to_bits() == v.to_bits() || (w.is_nan() && v.is_nan()), "{f:?}");
        }
    }
}
