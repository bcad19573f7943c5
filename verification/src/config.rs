//! Configuration values and how they resolve: for every value the command
//! line flag wins over the environment variable, which wins over the config
//! file.

use vstd::prelude::*;
use crate::text::{chars_of, same_text, string_of, to_upper, uppercase};

verus! {

/// The values kept in the config file.
pub struct Config {
    /// Callsign used for the (read-only) APRS-IS login.
    pub callsign: Option<String>,
    /// Default home location as "lat,lon".
    pub home: Option<String>,
    /// Optional aprs.fi API key (only used by `last`).
    pub aprsfi_key: Option<String>,
    /// Override the APRS-IS server (host:port).
    pub server: Option<String>,
}

/// The contents of a [`Config`].
pub struct ConfigModel {
    pub callsign: Option<Seq<char>>,
    pub home: Option<Seq<char>>,
    pub aprsfi_key: Option<Seq<char>>,
    pub server: Option<Seq<char>>,
}

pub open spec fn opt_view(o: Option<String>) -> Option<Seq<char>> {
    match o {
        Some(s) => Some(s@),
        None => None,
    }
}

impl View for Config {
    type V = ConfigModel;

    open spec fn view(&self) -> ConfigModel {
        ConfigModel {
            callsign: opt_view(self.callsign),
            home: opt_view(self.home),
            aprsfi_key: opt_view(self.aprsfi_key),
            server: opt_view(self.server),
        }
    }
}

/// The first value present: flag, then environment, then file.
pub open spec fn first_of(
    flag: Option<Seq<char>>,
    env: Option<Seq<char>>,
    file: Option<Seq<char>>,
) -> Option<Seq<char>> {
    if flag is Some {
        flag
    } else if env is Some {
        env
    } else {
        file
    }
}

fn clone_opt(o: &Option<String>) -> (r: Option<String>)
    ensures
        opt_view(r) == opt_view(*o),
{
    match o {
        Some(s) => Some(s.clone()),
        None => None,
    }
}

fn pick(flag: Option<String>, env: Option<String>, file: &Option<String>) -> (r: Option<String>)
    ensures
        opt_view(r) == first_of(opt_view(flag), opt_view(env), opt_view(*file)),
{
    match flag {
        Some(f) => Some(f),
        None => match env {
            Some(e) => Some(e),
            None => clone_opt(file),
        },
    }
}

/// The keys a user can get and set.
#[derive(Clone, Copy, Debug, PartialEq, Eq)]
pub enum ConfigKey {
    Callsign,
    Home,
    Server,
    AprsfiKey,
}

/// The key with `-` read as `_`.
pub open spec fn normalized_key(key: Seq<char>) -> Seq<char> {
    Seq::new(key.len(), |i: int| if key[i] == '-' { '_' } else { key[i] })
}

/// A key name, with `-` and `_` alike: `callsign`, `home`, `server`,
/// `aprsfi_key`.
pub open spec fn config_key_spec(key: Seq<char>) -> Option<ConfigKey> {
    let k = normalized_key(key);
    if k == "callsign"@ {
        Some(ConfigKey::Callsign)
    } else if k == "home"@ {
        Some(ConfigKey::Home)
    } else if k == "server"@ {
        Some(ConfigKey::Server)
    } else if k == "aprsfi_key"@ {
        Some(ConfigKey::AprsfiKey)
    } else {
        None
    }
}

/// The message for an unknown key.
pub open spec fn unknown_key_message(key: Seq<char>) -> Seq<char> {
    "unknown key '"@ + normalized_key(key) + "' (callsign|home|server|aprsfi-key)"@
}

/// Reads a key name given on the command line.
pub fn parse_config_key(key: &str) -> (r: Result<ConfigKey, String>)
    ensures
        match config_key_spec(key@) {
            Some(k) => r == Ok::<ConfigKey, String>(k),
            None => r matches Err(m) && m@ == unknown_key_message(key@),
        },
{
    let raw = chars_of(key);
    let mut k: Vec<char> = Vec::new();
    let mut i: usize = 0;
    while i < raw.len()
        invariant
            i <= raw@.len(),
            raw@ == key@,
            k@ == normalized_key(key@).take(i as int),
        decreases raw.len() - i,
    {
        let c = if raw[i] == '-' {
            '_'
        } else {
            raw[i]
        };
        k.push(c);
        i = i + 1;
        assert(k@ == normalized_key(key@).take(i as int));
    }
    assert(normalized_key(key@).take(raw@.len() as int) == normalized_key(key@));
    if same_text(k.as_slice(), "callsign") {
        Ok(ConfigKey::Callsign)
    } else if same_text(k.as_slice(), "home") {
        Ok(ConfigKey::Home)
    } else if same_text(k.as_slice(), "server") {
        Ok(ConfigKey::Server)
    } else if same_text(k.as_slice(), "aprsfi_key") {
        Ok(ConfigKey::AprsfiKey)
    } else {
        let mut m: Vec<char> = Vec::new();
        crate::text::push_str(&mut m, "unknown key '");
        crate::text::push_all(&mut m, k.as_slice());
        crate::text::push_str(&mut m, "' (callsign|home|server|aprsfi-key)");
        Err(string_of(m.as_slice()))
    }
}

/// What `config get` shows for a key: the value, with the API key hidden
/// as `<set>`.
pub open spec fn get_spec(c: ConfigModel, key: ConfigKey) -> Option<Seq<char>> {
    match key {
        ConfigKey::Callsign => c.callsign,
        ConfigKey::Home => c.home,
        ConfigKey::Server => c.server,
        ConfigKey::AprsfiKey => if c.aprsfi_key is Some { Some("<set>"@) } else { None },
    }
}

/// What `config set` stores for a value: callsigns in upper case, other
/// values as given.
pub open spec fn stored_value(key: ConfigKey, value: Seq<char>) -> Seq<char> {
    match key {
        ConfigKey::Callsign => uppercase(value),
        _ => value,
    }
}

/// The configuration after `config set`.
pub open spec fn set_spec(c: ConfigModel, key: ConfigKey, value: Seq<char>) -> ConfigModel {
    let v = Some(stored_value(key, value));
    match key {
        ConfigKey::Callsign => ConfigModel { callsign: v, ..c },
        ConfigKey::Home => ConfigModel { home: v, ..c },
        ConfigKey::Server => ConfigModel { server: v, ..c },
        ConfigKey::AprsfiKey => ConfigModel { aprsfi_key: v, ..c },
    }
}

/// The login callsign when none is configured.
pub open spec fn default_callsign() -> Seq<char> {
    "N0CALL"@
}

/// The APRS-IS server when none is configured.
pub open spec fn default_server() -> Seq<char> {
    "rotate.aprs2.net:14580"@
}

impl Config {
    /// The login callsign: flag, else environment (`CLAPRS_CALLSIGN`), else
    /// file, else `N0CALL`.
    pub fn resolve_callsign(&self, flag: Option<String>, env: Option<String>) -> (r: String)
        ensures
            r@ == (match first_of(opt_view(flag), opt_view(env), self@.callsign) {
                Some(v) => v,
                None => default_callsign(),
            }),
    {
        match pick(flag, env, &self.callsign) {
            Some(v) => v,
            None => String::from_str("N0CALL"),
        }
    }

    /// The server: flag, else environment (`CLAPRS_SERVER`), else file, else
    /// `rotate.aprs2.net:14580`.
    pub fn resolve_server(&self, flag: Option<String>, env: Option<String>) -> (r: String)
        ensures
            r@ == (match first_of(opt_view(flag), opt_view(env), self@.server) {
                Some(v) => v,
                None => default_server(),
            }),
    {
        match pick(flag, env, &self.server) {
            Some(v) => v,
            None => String::from_str("rotate.aprs2.net:14580"),
        }
    }

    /// The aprs.fi key: flag, else environment (`APRSFI_API_KEY`), else file.
    pub fn resolve_aprsfi_key(&self, flag: Option<String>, env: Option<String>) -> (r: Option<
        String,
    >)
        ensures
            opt_view(r) == first_of(opt_view(flag), opt_view(env), self@.aprsfi_key),
    {
        pick(flag, env, &self.aprsfi_key)
    }

    /// The home location: flag, else environment (`CLAPRS_HOME`), else file.
    pub fn resolve_home(&self, flag: Option<String>, env: Option<String>) -> (r: Option<String>)
        ensures
            opt_view(r) == first_of(opt_view(flag), opt_view(env), self@.home),
    {
        pick(flag, env, &self.home)
    }

    /// The value `config get` shows for a key.
    pub fn get_value(&self, key: ConfigKey) -> (r: Option<String>)
        ensures
            opt_view(r) == get_spec(self@, key),
    {
        match key {
            ConfigKey::Callsign => clone_opt(&self.callsign),
            ConfigKey::Home => clone_opt(&self.home),
            ConfigKey::Server => clone_opt(&self.server),
            ConfigKey::AprsfiKey => match &self.aprsfi_key {
                Some(_) => Some(String::from_str("<set>")),
                None => None,
            },
        }
    }

    /// Stores a value for a key (`config set`); callsigns are stored in
    /// upper case.
    pub fn set_value(&mut self, key: ConfigKey, value: String)
        ensures
            final(self)@ == set_spec(old(self)@, key, value@),
    {
        match key {
            ConfigKey::Callsign => self.callsign = Some(to_upper(value.as_str())),
            ConfigKey::Home => self.home = Some(value),
            ConfigKey::Server => self.server = Some(value),
            ConfigKey::AprsfiKey => self.aprsfi_key = Some(value),
        }
    }
}

/// The lines `config show` prints: the file, then every value, with unset
/// values marked, the default server named and the API key hidden.
pub open spec fn show_lines_spec(c: ConfigModel, path: Seq<char>) -> Seq<Seq<char>> {
    seq![
        "config file : "@ + path,
        "callsign    : "@ + (match c.callsign { Some(v) => v, None => "(unset)"@ }),
        "home        : "@ + (match c.home { Some(v) => v, None => "(unset)"@ }),
        "server      : "@ + (match c.server { Some(v) => v, None => "(default) rotate.aprs2.net:14580"@ }),
        "aprsfi-key  : "@ + (if c.aprsfi_key is Some { "<set>"@ } else { "(unset)"@ }),
    ]
}

pub open spec fn string_views(v: Seq<String>) -> Seq<Seq<char>> {
    Seq::new(v.len(), |i: int| v[i]@)
}

fn labelled(label: &str, value: &str) -> (r: String)
    ensures
        r@ == label@ + value@,
{
    let mut out: Vec<char> = Vec::new();
    crate::text::push_str(&mut out, label);
    crate::text::push_str(&mut out, value);
    string_of(out.as_slice())
}

impl Config {
    /// What `config show` prints for the configuration in the file at `path`.
    pub fn show_lines(&self, path: &str) -> (r: Vec<String>)
        ensures
            string_views(r@) == show_lines_spec(self@, path@),
    {
        let mut lines: Vec<String> = Vec::new();
        lines.push(labelled("config file : ", path));
        lines.push(
            labelled(
                "callsign    : ",
                match &self.callsign {
                    Some(v) => v.as_str(),
                    None => "(unset)",
                },
            ),
        );
        lines.push(
            labelled(
                "home        : ",
                match &self.home {
                    Some(v) => v.as_str(),
                    None => "(unset)",
                },
            ),
        );
        lines.push(
            labelled(
                "server      : ",
                match &self.server {
                    Some(v) => v.as_str(),
                    None => "(default) rotate.aprs2.net:14580",
                },
            ),
        );
        lines.push(
            labelled(
                "aprsfi-key  : ",
                if self.aprsfi_key.is_some() {
                    "<set>"
                } else {
                    "(unset)"
                },
            ),
        );
        assert(string_views(lines@) =~= show_lines_spec(self@, path@));
        lines
    }
}

impl Default for Config {
    /// An empty configuration (no config file yet).
    fn default() -> (c: Config)
        ensures
            c@.callsign is None && c@.home is None && c@.aprsfi_key is None && c@.server is None,
    {
        Config { callsign: None, home: None, aprsfi_key: None, server: None }
    }
}

impl Clone for Config {
    fn clone(&self) -> (c: Config)
        ensures
            c@ == self@,
    {
        Config {
            callsign: clone_opt(&self.callsign),
            home: clone_opt(&self.home),
            aprsfi_key: clone_opt(&self.aprsfi_key),
            server: clone_opt(&self.server),
        }
    }
}

/// A flag always wins; without a flag the environment wins over the file;
/// the file is used only when neither is given.
pub proof fn resolution_precedence(
    flag: Option<Seq<char>>,
    env: Option<Seq<char>>,
    file: Option<Seq<char>>,
)
    ensures
        flag is Some ==> first_of(flag, env, file) == flag,
        flag is None && env is Some ==> first_of(flag, env, file) == env,
        flag is None && env is None ==> first_of(flag, env, file) == file,
{
}

/// After `config set`, `config get` of the same key shows what was stored
/// (`<set>` for the API key) and every other key is unchanged.
pub proof fn get_after_set(c: ConfigModel, key: ConfigKey, other: ConfigKey, value: Seq<char>)
    ensures
        get_spec(set_spec(c, key, value), key) == (if key == ConfigKey::AprsfiKey {
            Some("<set>"@)
        } else {
            Some(stored_value(key, value))
        }),
        other != key ==> get_spec(set_spec(c, key, value), other) == get_spec(c, other),
{
}

} // verus!
