use claprs::config::{parse_config_key, Config, ConfigKey};

fn file(callsign: Option<&str>, server: Option<&str>) -> Config {
    Config {
        callsign: callsign.map(|s| s.to_string()),
        home: Some("32.53,-93.70".to_string()),
        aprsfi_key: None,
        server: server.map(|s| s.to_string()),
    }
}

#[test]
fn flag_wins_over_environment_and_file() {
    let c = file(Some("FILE1"), None);
    assert_eq!(c.resolve_callsign(Some("FLAG1".into()), Some("ENV1".into())), "FLAG1");
    assert_eq!(c.resolve_callsign(None, Some("ENV1".into())), "ENV1");
    assert_eq!(c.resolve_callsign(None, None), "FILE1");
    assert_eq!(Config::default().resolve_callsign(None, None), "N0CALL");
}

#[test]
fn server_defaults_to_rotate() {
    assert_eq!(Config::default().resolve_server(None, None), "rotate.aprs2.net:14580");
    let c = file(None, Some("euro.aprs2.net:14580"));
    assert_eq!(c.resolve_server(None, None), "euro.aprs2.net:14580");
    assert_eq!(c.resolve_server(None, Some("x:1".into())), "x:1");
}

#[test]
fn home_and_key_have_no_default() {
    let c = Config::default();
    assert_eq!(c.resolve_home(None, None), None);
    assert_eq!(c.resolve_aprsfi_key(None, None), None);
    let c = file(None, None);
    assert_eq!(c.resolve_home(None, None).as_deref(), Some("32.53,-93.70"));
    assert_eq!(c.resolve_home(Some("1,2".into()), None).as_deref(), Some("1,2"));
    assert_eq!(c.resolve_aprsfi_key(None, Some("k".into())).as_deref(), Some("k"));
}

#[test]
fn config_keys() {
    assert_eq!(parse_config_key("callsign"), Ok(ConfigKey::Callsign));
    assert_eq!(parse_config_key("aprsfi-key"), Ok(ConfigKey::AprsfiKey));
    assert_eq!(parse_config_key("aprsfi_key"), Ok(ConfigKey::AprsfiKey));
    assert_eq!(parse_config_key("home"), Ok(ConfigKey::Home));
    assert_eq!(parse_config_key("server"), Ok(ConfigKey::Server));
    assert_eq!(
        parse_config_key("call-sign"),
        Err("unknown key 'call_sign' (callsign|home|server|aprsfi-key)".to_string())
    );
}

#[test]
fn set_then_get() {
    let mut c = Config::default();
    c.set_value(ConfigKey::Callsign, "w0odl".to_string());
    assert_eq!(c.get_value(ConfigKey::Callsign).as_deref(), Some("W0ODL"));
    c.set_value(ConfigKey::AprsfiKey, "secret".to_string());
    assert_eq!(c.get_value(ConfigKey::AprsfiKey).as_deref(), Some("<set>"));
    assert_eq!(c.aprsfi_key.as_deref(), Some("secret"));
    assert_eq!(c.get_value(ConfigKey::Home), None);
    c.set_value(ConfigKey::Server, "host:1".to_string());
    assert_eq!(c.get_value(ConfigKey::Server).as_deref(), Some("host:1"));
    assert_eq!(c.get_value(ConfigKey::Callsign).as_deref(), Some("W0ODL"));
}

#[test]
fn show_lines_mark_unset_values() {
    let lines = Config::default().show_lines("/tmp/c.toml");
    assert_eq!(
        lines,
        vec![
            "config file : /tmp/c.toml".to_string(),
            "callsign    : (unset)".to_string(),
            "home        : (unset)".to_string(),
            "server      : (default) rotate.aprs2.net:14580".to_string(),
            "aprsfi-key  : (unset)".to_string(),
        ]
    );
    let mut c = file(Some("W0ODL"), Some("h:1"));
    c.aprsfi_key = Some("k".to_string());
    let lines = c.show_lines("p");
    assert_eq!(lines[1], "callsign    : W0ODL");
    assert_eq!(lines[2], "home        : 32.53,-93.70");
    assert_eq!(lines[3], "server      : h:1");
    assert_eq!(lines[4], "aprsfi-key  : <set>");
}
