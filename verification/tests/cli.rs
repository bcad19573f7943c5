use claprs::aprsfi::{check_reply, entry_lines, lookup_url, no_position_message};
use claprs::aprsis::{classify_line, login_line, ServerLine};
use claprs::cli::{
    call_filter, filter_for_call, filter_for_watchlist, parse_unit, unit_from_lowercase, watch_filter,
    DistanceUnit,
};

#[test]
fn call_filter_matches_all_ssids() {
    let (filter, label) = call_filter("w0odl");
    assert_eq!(filter, "b/W0ODL*");
    assert_eq!(label, "following W0ODL");
}

#[test]
fn watch_filter_joins_buddies() {
    let calls = vec!["W0ODL-7".to_string(), "n5oqt".to_string()];
    let (filter, label) = watch_filter(&calls).unwrap();
    assert_eq!(filter, "b/W0ODL-7*/N5OQT*");
    assert_eq!(label, "watching W0ODL-7, n5oqt");
    assert_eq!(
        watch_filter(&Vec::new()),
        Err("give at least one callsign, e.g. `claprs watch W0ODL-7 N5OQT`".to_string())
    );
}

#[test]
fn distance_units() {
    assert_eq!(parse_unit("mi"), Ok(DistanceUnit::Miles));
    assert_eq!(parse_unit("Miles"), Ok(DistanceUnit::Miles));
    assert_eq!(parse_unit("mile"), Ok(DistanceUnit::Miles));
    assert_eq!(parse_unit("KM"), Ok(DistanceUnit::Kilometers));
    assert_eq!(parse_unit("k"), Ok(DistanceUnit::Kilometers));
    assert_eq!(parse_unit("Furlong"), Err("unknown unit 'furlong': use mi or km".to_string()));
}

#[test]
fn login_is_read_only_with_filter() {
    assert_eq!(
        login_line("N0CALL", "0.1.0", "r/32.5300/-93.7000/80"),
        "user N0CALL pass -1 vers claprs 0.1.0 filter r/32.5300/-93.7000/80\r\n"
    );
}

#[test]
fn server_lines() {
    assert!(matches!(classify_line("W0ODL>APRS:>hi"), ServerLine::Packet));
    assert!(matches!(classify_line("# aprsc 2.1.4"), ServerLine::Comment(None)));
    match classify_line("# logresp N0CALL unverified, server T2TEST") {
        ServerLine::Comment(Some(t)) => assert_eq!(t, " logresp N0CALL unverified, server T2TEST"),
        _ => panic!("login response not echoed"),
    }
    assert!(matches!(classify_line(""), ServerLine::Packet));
}

#[test]
fn aprsfi_request_and_reply() {
    assert_eq!(
        lookup_url("KEY", "W0ODL-10"),
        "https://api.aprs.fi/api/get?name=W0ODL-10&what=loc&apikey=KEY&format=json"
    );
    assert_eq!(check_reply(Some("ok"), None), Ok(()));
    assert_eq!(check_reply(Some("fail"), Some("invalid key")), Err("aprs.fi error: invalid key".to_string()));
    assert_eq!(check_reply(None, None), Err("aprs.fi error: unknown error".to_string()));
    assert_eq!(no_position_message("W0ODL"), "no stored position found for W0ODL");
}

#[test]
fn aprsfi_entry_lines() {
    assert_eq!(
        entry_lines("", "32.5", "-93.7", "?", ""),
        vec!["?".to_string(), "  position : 32.5, -93.7".to_string(), "  heard    : ?".to_string()]
    );
    assert_eq!(entry_lines("W0ODL", "1", "2", "now", "hi").last().unwrap(), "  comment  : hi");
}

#[test]
fn filters_from_upper_case_calls() {
    let (f, l) = filter_for_call("W0ODL");
    assert_eq!(f, "b/W0ODL*");
    assert_eq!(l, "following W0ODL");
    assert_eq!(filter_for_watchlist(&vec!["A".to_string()]), "b/A*");
    assert_eq!(filter_for_watchlist(&Vec::new()), "b/");
    assert_eq!(unit_from_lowercase("miles"), Ok(DistanceUnit::Miles));
    // the name is expected in lower case already
    assert_eq!(unit_from_lowercase("KM"), Err("unknown unit 'KM': use mi or km".to_string()));
}
