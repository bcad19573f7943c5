use claprs::table::{
    callsign_base, is_listed_upper, is_mine_upper,
    clamp_selection, fmt_age, find_station, ingest, is_listed, is_mine, my_callsign, push_trail,
    rows_newest_first, take_report, type_filter, Action, Key, Mode, Station, UiState,
};

/// Takes a report in as the tracker does.
fn report(t: &mut Vec<Station<(i32, i32)>>, src: &str, kind: &'static str, pos: Option<(i32, i32)>, info: &str, tick: u64) {
    take_report(t, src, kind, "", pos, info.to_string(), tick);
}

#[test]
fn ages() {
    assert_eq!(fmt_age(0), "0s");
    assert_eq!(fmt_age(59), "59s");
    assert_eq!(fmt_age(60), "1m");
    assert_eq!(fmt_age(3599), "59m");
    assert_eq!(fmt_age(3600), "1h");
    assert_eq!(fmt_age(90000), "25h");
}

#[test]
fn own_callsign_rows() {
    assert_eq!(my_callsign("w0odl-7"), "W0ODL");
    assert_eq!(my_callsign("N0CALL"), "N0CALL");
    assert!(is_mine("W0ODL", "w0odl-10"));
    assert!(!is_mine("W0ODL", "N5OQT"));
    assert!(!is_mine("", "N5OQT"));
}

#[test]
fn search_and_type_filters() {
    assert!(is_listed("W0ODL-7", "mic-e", "", 0));
    assert!(is_listed("W0ODL-7", "mic-e", "odl", 1));
    assert!(!is_listed("W0ODL-7", "pos", "odl", 1));
    assert!(!is_listed("W0ODL-7", "mic-e", "xyz", 0));
    assert_eq!(type_filter(2), ("weather", Some("wx")));
    assert_eq!(type_filter(0), ("all", None));
}

#[test]
fn selection_is_clamped() {
    assert_eq!(clamp_selection(5, 0), 0);
    assert_eq!(clamp_selection(5, 3), 2);
    assert_eq!(clamp_selection(1, 3), 1);
}

#[test]
fn trail_keeps_twelve_newest() {
    let mut t: Vec<u32> = Vec::new();
    for i in 0..15 {
        push_trail(&mut t, i, true);
    }
    assert_eq!(t.len(), 12);
    assert_eq!(t[0], 3);
    assert_eq!(*t.last().unwrap(), 14);
    push_trail(&mut t, 99, false);
    assert_eq!(*t.last().unwrap(), 14);
}

#[test]
fn keys_in_normal_mode() {
    let list = vec!["A".to_string(), "B".to_string()];
    let mut s = UiState::new();
    assert!(matches!(s.handle_key(Key::Down, &list), Action::Continue));
    assert_eq!(s.selected, 1);
    s.handle_key(Key::Char('j'), &list);
    assert_eq!(s.selected, 1);
    s.handle_key(Key::Up, &list);
    s.handle_key(Key::Char('k'), &list);
    assert_eq!(s.selected, 0);
    s.handle_key(Key::Char('t'), &list);
    assert_eq!(s.type_idx, 1);
    for _ in 0..4 {
        s.handle_key(Key::Char('t'), &list);
    }
    assert_eq!(s.type_idx, 0);
    s.handle_key(Key::Char('s'), &list);
    assert!(s.sort_dist);
    s.handle_key(Key::Char('p'), &list);
    assert!(s.paused);
    match s.handle_key(Key::Char('o'), &list) {
        Action::OpenUrl(u) => assert_eq!(u, "https://aprs.fi/#!call=a%2FA"),
        _ => panic!("expected a url"),
    }
    assert!(matches!(s.handle_key(Key::Char('q'), &list), Action::Quit));
    assert!(matches!(s.handle_key(Key::Esc, &list), Action::Quit));
}

#[test]
fn search_and_detail_modes() {
    let list = vec!["W0ODL".to_string()];
    let mut s = UiState::new();
    s.handle_key(Key::Char('/'), &list);
    assert_eq!(s.mode, Mode::Search);
    s.handle_key(Key::Char('w'), &list);
    s.handle_key(Key::Char('0'), &list);
    s.handle_key(Key::Char('\u{7}'), &list);
    assert_eq!(s.query, "w0");
    s.handle_key(Key::Backspace, &list);
    assert_eq!(s.query, "w");
    s.handle_key(Key::Enter, &list);
    assert_eq!(s.mode, Mode::Normal);
    assert_eq!(s.query, "w");
    s.handle_key(Key::Char('/'), &list);
    s.handle_key(Key::Esc, &list);
    assert_eq!(s.query, "");
    assert_eq!(s.mode, Mode::Normal);
    s.handle_key(Key::Enter, &list);
    assert_eq!(s.mode, Mode::Detail);
    assert_eq!(s.detail_call.as_deref(), Some("W0ODL"));
    match s.handle_key(Key::Char('o'), &list) {
        Action::OpenUrl(u) => assert_eq!(u, "https://aprs.fi/#!call=a%2FW0ODL"),
        _ => panic!("expected a url"),
    }
    s.handle_key(Key::Char('q'), &list);
    assert_eq!(s.mode, Mode::Normal);
    assert_eq!(s.detail_call, None);
}

#[test]
fn enter_on_empty_list_stays() {
    let list: Vec<String> = Vec::new();
    let mut s = UiState::new();
    s.handle_key(Key::Enter, &list);
    assert_eq!(s.mode, Mode::Normal);
    s.handle_key(Key::Down, &list);
    assert_eq!(s.selected, 0);
}

#[test]
fn upper_case_helpers() {
    assert_eq!(callsign_base("w0odl-7"), "w0odl");
    assert_eq!(callsign_base("-7"), "");
    assert!(is_mine_upper("W0ODL", "W0ODL-9"));
    assert!(!is_mine_upper("W0ODL", "w0odl-9"));
    assert!(is_listed_upper("W0ODL-7", "wx", "ODL", 2));
    assert!(!is_listed_upper("W0ODL-7", "wx", "odl", 2));
}

#[test]
fn one_row_per_station_latest_wins() {
    let mut t: Vec<Station<(i32, i32)>> = Vec::new();
    report(&mut t, "W0ODL-7", "mic-e", Some((1, 1)), "first", 10);
    report(&mut t, "N5OQT", "wx", None, "75F", 20);
    report(&mut t, "W0ODL-7", "pos", Some((2, 2)), "second", 30);
    assert_eq!(t.len(), 2);
    assert_eq!(find_station(&t, "W0ODL-7"), Some(0));
    assert_eq!(find_station(&t, "N5OQT"), Some(1));
    assert_eq!(find_station(&t, "K1ABC"), None);
    let a = &t[0];
    assert_eq!(a.source, "W0ODL-7");
    assert_eq!(a.kind, "pos");
    assert_eq!(a.info, "second");
    assert_eq!(a.pos, Some((2, 2)));
    assert_eq!((a.first, a.last), (10, 30));
    assert_eq!(a.trail, vec![(1, 1), (2, 2)]);
    let b = &t[1];
    assert_eq!((b.kind, b.info.as_str(), b.pos, b.first, b.last), ("wx", "75F", None, 20, 20));
    assert!(b.trail.is_empty());
}

#[test]
fn report_without_position_keeps_trail() {
    let mut t: Vec<Station<(i32, i32)>> = Vec::new();
    report(&mut t, "A", "pos", Some((5, 5)), "", 1);
    report(&mut t, "A", "status", None, "hello", 2);
    assert_eq!(t.len(), 1);
    assert_eq!(t[0].pos, None);
    assert_eq!(t[0].info, "hello");
    assert_eq!(t[0].trail, vec![(5, 5)]);
}

#[test]
fn trail_over_a_run_drops_repeats_and_keeps_twelve() {
    let mut t: Vec<Station<(i32, i32)>> = Vec::new();
    for i in 0..20 {
        // every position arrives twice in a row
        report(&mut t, "A", "pos", Some((i, 0)), "", 2 * i as u64);
        report(&mut t, "A", "pos", Some((i, 0)), "", 2 * i as u64 + 1);
    }
    let trail = &t[0].trail;
    assert_eq!(trail.len(), 12);
    let expect: Vec<(i32, i32)> = (8..20).map(|i| (i, 0)).collect();
    assert_eq!(*trail, expect);
    // a return to an earlier point is a move again
    report(&mut t, "A", "pos", Some((18, 0)), "", 100);
    assert_eq!(t[0].trail.last(), Some(&(18, 0)));
    assert_eq!(t[0].trail.len(), 12);
    assert_eq!(t[0].trail[0], (9, 0));
}

#[test]
fn frame_rows_newest_first() {
    let mut t: Vec<Station<(i32, i32)>> = Vec::new();
    report(&mut t, "AAA", "pos", None, "", 5);
    report(&mut t, "BBB", "wx", None, "", 9);
    report(&mut t, "CCC", "pos", None, "", 7);
    report(&mut t, "ABC", "pos", None, "", 9);
    // newest first; BBB and ABC were heard at the same tick, BBB came first
    assert_eq!(rows_newest_first(&t, "", 0), vec![1, 3, 2, 0]);
    // the search is case-insensitive
    assert_eq!(rows_newest_first(&t, "a", 0), vec![3, 0]);
    // type filter "fixed" lists kind "pos" only
    assert_eq!(rows_newest_first(&t, "", 3), vec![3, 2, 0]);
    assert_eq!(rows_newest_first(&t, "", 2), vec![1]);
    assert_eq!(rows_newest_first(&t, "zzz", 0), Vec::<usize>::new());
    report(&mut t, "AAA", "pos", None, "", 12);
    assert_eq!(rows_newest_first(&t, "", 0), vec![0, 1, 3, 2]);
}

#[test]
fn ingest_follows_the_moved_flag() {
    let mut t: Vec<Station<u32>> = Vec::new();
    ingest(&mut t, "A", "pos", "", Some(1), true, String::new(), 1);
    // the caller says the same point is a move: it is taken again
    ingest(&mut t, "A", "pos", "", Some(1), true, String::new(), 2);
    assert_eq!(t[0].trail, vec![1, 1]);
    // not a move: the trail stays, the position is still updated
    ingest(&mut t, "A", "pos", "", Some(2), false, String::new(), 3);
    assert_eq!(t[0].trail, vec![1, 1]);
    assert_eq!(t[0].pos, Some(2));
}

#[test]
fn empty_search_lists_all() {
    let mut t: Vec<Station<u32>> = Vec::new();
    take_report(&mut t, "b", "wx", "", None, String::new(), 3);
    take_report(&mut t, "a", "pos", "", None, String::new(), 4);
    take_report(&mut t, "c", "obj", "", None, String::new(), 1);
    assert_eq!(rows_newest_first(&t, "", 0), vec![1, 0, 2]);
    assert!(is_listed("anything", "msg", "", 0));
}
