//! The decisions of the live table view: which stations a search and a
//! type filter show, which rows are the user's own, how old a report looks,
//! the movement trail of a station, and what every key does.

use vstd::prelude::*;
use vstd::std_specs::cmp::PartialEqSpec;
use crate::text::{
    chars_of, contains, contains_spec, copy_range, find_char_exec, find_char, push_nat,
    push_str, same_text, starts_with, starts_with_spec, string_of, to_upper, uppercase,
    char_is_control, is_control, nat_chars,
};

verus! {

/// The type filters cycled with `t`: a label and the packet kind shown
/// (`None`: everything).
pub open spec fn type_filter_spec(idx: nat) -> (Seq<char>, Option<Seq<char>>) {
    if idx == 0 {
        ("all"@, None)
    } else if idx == 1 {
        ("mobile"@, Some("mic-e"@))
    } else if idx == 2 {
        ("weather"@, Some("wx"@))
    } else if idx == 3 {
        ("fixed"@, Some("pos"@))
    } else {
        ("object"@, Some("obj"@))
    }
}

pub fn type_filter(idx: usize) -> (r: (&'static str, Option<&'static str>))
    requires
        idx < 5,
    ensures
        r.0@ == type_filter_spec(idx as nat).0,
        match r.1 {
            Some(k) => type_filter_spec(idx as nat).1 == Some(k@),
            None => type_filter_spec(idx as nat).1 is None,
        },
{
    if idx == 0 {
        ("all", None)
    } else if idx == 1 {
        ("mobile", Some("mic-e"))
    } else if idx == 2 {
        ("weather", Some("wx"))
    } else if idx == 3 {
        ("fixed", Some("pos"))
    } else {
        ("object", Some("obj"))
    }
}

/// A station is listed when the search text, in upper case, occurs in its
/// upper-case callsign, and its kind passes the type filter.
pub open spec fn listed_upper_spec(call_upper: Seq<char>, kind: Seq<char>, query_upper: Seq<char>, type_idx: nat) -> bool {
    &&& (query_upper.len() == 0 || contains_spec(call_upper, query_upper))
    &&& (match type_filter_spec(type_idx).1 {
        Some(k) => kind == k,
        None => true,
    })
}

/// The listing test on callsign and search text already in upper case.
pub fn is_listed_upper(call_upper: &str, kind: &str, query_upper: &str, type_idx: usize) -> (r: bool)
    requires
        type_idx < 5,
    ensures
        r == listed_upper_spec(call_upper@, kind@, query_upper@, type_idx as nat),
{
    let q = chars_of(query_upper);
    let c = chars_of(call_upper);
    let text_ok = q.len() == 0 || contains(c.as_slice(), q.as_slice());
    let kind_ok = match type_filter(type_idx).1 {
        Some(k) => same_text(chars_of(kind).as_slice(), k),
        None => true,
    };
    text_ok && kind_ok
}

/// A station is listed when the search is empty or its text occurs, case
/// ignored, in the callsign, and its kind passes the type filter.
pub open spec fn listed_spec(call: Seq<char>, kind: Seq<char>, query: Seq<char>, type_idx: nat) -> bool {
    &&& (query.len() == 0 || contains_spec(uppercase(call), uppercase(query)))
    &&& (match type_filter_spec(type_idx).1 {
        Some(k) => kind == k,
        None => true,
    })
}

pub fn is_listed(call: &str, kind: &str, query: &str, type_idx: usize) -> (r: bool)
    requires
        type_idx < 5,
    ensures
        r == listed_spec(call@, kind@, query@, type_idx as nat),
{
    let q = to_upper(query);
    let c = to_upper(call);
    is_listed_upper(c.as_str(), kind, q.as_str(), type_idx)
}

/// The login without its SSID: the text before the first `-`.
pub open spec fn callsign_base_spec(login: Seq<char>) -> Seq<char> {
    match find_char(login, '-', 0) {
        Some(i) => login.take(i),
        None => login,
    }
}

pub fn callsign_base(login: &str) -> (r: String)
    ensures
        r@ == callsign_base_spec(login@),
{
    let l = chars_of(login);
    let base = match find_char_exec(l.as_slice(), '-') {
        Some(i) => {
            assert(l@.subrange(0, i as int) == l@.take(i as int));
            copy_range(l.as_slice(), 0, i)
        },
        None => {
            assert(l@.subrange(0, l@.len() as int) == l@);
            copy_range(l.as_slice(), 0, l.len())
        },
    };
    string_of(base.as_slice())
}

/// The user's own base callsign: the login up to its SSID, in upper case.
pub open spec fn my_callsign_spec(login: Seq<char>) -> Seq<char> {
    uppercase(callsign_base_spec(login))
}

pub fn my_callsign(login: &str) -> (r: String)
    ensures
        r@ == my_callsign_spec(login@),
{
    let base = callsign_base(login);
    to_upper(base.as_str())
}

/// A row is the user's own when its upper-case callsign starts with the
/// user's base callsign (any SSID).
pub open spec fn mine_upper_spec(mycall: Seq<char>, call_upper: Seq<char>) -> bool {
    mycall.len() > 0 && starts_with_spec(call_upper, mycall)
}

pub fn is_mine_upper(mycall: &str, call_upper: &str) -> (r: bool)
    ensures
        r == mine_upper_spec(mycall@, call_upper@),
{
    let m = chars_of(mycall);
    if m.len() == 0 {
        return false;
    }
    let c = chars_of(call_upper);
    starts_with(c.as_slice(), m.as_slice())
}

pub open spec fn is_mine_spec(mycall: Seq<char>, call: Seq<char>) -> bool {
    mine_upper_spec(mycall, uppercase(call))
}

pub fn is_mine(mycall: &str, call: &str) -> (r: bool)
    ensures
        r == is_mine_spec(mycall@, call@),
{
    let c = to_upper(call);
    is_mine_upper(mycall, c.as_str())
}

/// A short age: seconds below a minute, minutes below an hour, else hours.
pub open spec fn fmt_age_spec(s: nat) -> Seq<char> {
    if s < 60 {
        nat_chars(s) + seq!['s']
    } else if s < 3600 {
        nat_chars(s / 60) + seq!['m']
    } else {
        nat_chars(s / 3600) + seq!['h']
    }
}

pub fn fmt_age(s: u64) -> (r: String)
    ensures
        r@ == fmt_age_spec(s as nat),
{
    let mut out: Vec<char> = Vec::new();
    if s < 60 {
        push_nat(&mut out, s);
        out.push('s');
    } else if s < 3600 {
        push_nat(&mut out, s / 60);
        out.push('m');
    } else {
        push_nat(&mut out, s / 3600);
        out.push('h');
    }
    assert(out@ =~= fmt_age_spec(s as nat));
    string_of(out.as_slice())
}

/// The selected row kept inside a list of `len` rows.
pub open spec fn clamp_spec(selected: nat, len: nat) -> nat {
    if len == 0 {
        0
    } else if selected < len {
        selected
    } else {
        (len - 1) as nat
    }
}

pub fn clamp_selection(selected: usize, len: usize) -> (r: usize)
    ensures
        r == clamp_spec(selected as nat, len as nat),
{
    if len == 0 {
        0
    } else if selected < len {
        selected
    } else {
        len - 1
    }
}

/// The trail after a report: a new position is appended only when the
/// station moved, and the oldest points beyond twelve are dropped.
pub open spec fn trail_spec<T>(trail: Seq<T>, pos: T, moved: bool) -> Seq<T> {
    if moved {
        let t = trail.push(pos);
        if t.len() > 12 {
            t.skip(t.len() - 12)
        } else {
            t
        }
    } else {
        trail
    }
}

pub fn push_trail<T: Copy>(trail: &mut Vec<T>, pos: T, moved: bool)
    ensures
        final(trail)@ == trail_spec(old(trail)@, pos, moved),
{
    if moved {
        trail.push(pos);
        let n = trail.len();
        if n > 12 {
            let kept = copy_range(trail.as_slice(), n - 12, n);
            assert(trail@.subrange((n - 12) as int, n as int) == trail@.skip(n - 12));
            *trail = kept;
        }
    }
}

/// A kept trail never grows past twelve points, and its last point is the
/// newest position.
pub proof fn trail_stays_bounded<T>(trail: Seq<T>, pos: T, moved: bool)
    requires
        trail.len() <= 12,
    ensures
        trail_spec(trail, pos, moved).len() <= 12,
        moved ==> trail_spec(trail, pos, moved).last() == pos,
        !moved ==> trail_spec(trail, pos, moved) == trail,
{
}

/// What the table shows: the list, a search line, or a station's details.
#[derive(Clone, Copy, Debug, PartialEq, Eq)]
pub enum Mode {
    Normal,
    Search,
    Detail,
}

/// A key press.
#[derive(Clone, Copy, Debug, PartialEq, Eq)]
pub enum Key {
    Char(char),
    Esc,
    Enter,
    Backspace,
    Up,
    Down,
    Other,
}

/// What the loop does after a key.
pub enum Action {
    Continue,
    Quit,
    /// Open this address in the browser.
    OpenUrl(String),
}

/// The state the keys change.
pub struct UiState {
    pub mode: Mode,
    pub sort_dist: bool,
    pub paused: bool,
    pub query: String,
    pub type_idx: usize,
    pub selected: usize,
    pub detail_call: Option<String>,
}

pub struct UiModel {
    pub mode: Mode,
    pub sort_dist: bool,
    pub paused: bool,
    pub query: Seq<char>,
    pub type_idx: nat,
    pub selected: nat,
    pub detail_call: Option<Seq<char>>,
}

impl View for UiState {
    type V = UiModel;

    open spec fn view(&self) -> UiModel {
        UiModel {
            mode: self.mode,
            sort_dist: self.sort_dist,
            paused: self.paused,
            query: self.query@,
            type_idx: self.type_idx as nat,
            selected: self.selected as nat,
            detail_call: match self.detail_call {
                Some(c) => Some(c@),
                None => None,
            },
        }
    }
}

pub enum ActionModel {
    Continue,
    Quit,
    OpenUrl(Seq<char>),
}

pub open spec fn action_view(a: Action) -> ActionModel {
    match a {
        Action::Continue => ActionModel::Continue,
        Action::Quit => ActionModel::Quit,
        Action::OpenUrl(u) => ActionModel::OpenUrl(u@),
    }
}

/// The aprs.fi page of a station.
pub open spec fn station_url(call: Seq<char>) -> Seq<char> {
    "https://aprs.fi/#!call=a%2F"@ + call
}

/// The state and action after a key; `list` holds the callsigns of the
/// rows in display order.
pub open spec fn key_spec(s: UiModel, key: Key, list: Seq<Seq<char>>) -> (UiModel, ActionModel) {
    match s.mode {
        Mode::Normal => match key {
            Key::Char('q') | Key::Esc => (s, ActionModel::Quit),
            Key::Char('s') => (UiModel { sort_dist: !s.sort_dist, ..s }, ActionModel::Continue),
            Key::Char('p') => (UiModel { paused: !s.paused, ..s }, ActionModel::Continue),
            Key::Char('/') => (UiModel { mode: Mode::Search, ..s }, ActionModel::Continue),
            Key::Enter => if s.selected < list.len() {
                (
                    UiModel { detail_call: Some(list[s.selected as int]), mode: Mode::Detail, ..s },
                    ActionModel::Continue,
                )
            } else {
                (s, ActionModel::Continue)
            },
            Key::Down | Key::Char('j') => if list.len() > 0 {
                (UiModel { selected: if s.selected + 1 < list.len() { s.selected + 1 } else { (list.len() - 1) as nat }, ..s }, ActionModel::Continue)
            } else {
                (s, ActionModel::Continue)
            },
            Key::Up | Key::Char('k') => (
                UiModel { selected: if s.selected > 0 { (s.selected - 1) as nat } else { 0 }, ..s },
                ActionModel::Continue,
            ),
            Key::Char('o') => if s.selected < list.len() {
                (s, ActionModel::OpenUrl(station_url(list[s.selected as int])))
            } else {
                (s, ActionModel::Continue)
            },
            Key::Char('t') => (UiModel { type_idx: (s.type_idx + 1) % 5, ..s }, ActionModel::Continue),
            _ => (s, ActionModel::Continue),
        },
        Mode::Search => match key {
            Key::Esc => (UiModel { query: seq![], mode: Mode::Normal, ..s }, ActionModel::Continue),
            Key::Enter => (UiModel { mode: Mode::Normal, ..s }, ActionModel::Continue),
            Key::Backspace => (
                UiModel { query: if s.query.len() > 0 { s.query.drop_last() } else { s.query }, ..s },
                ActionModel::Continue,
            ),
            Key::Char(c) => if !is_control(c) {
                (UiModel { query: s.query.push(c), ..s }, ActionModel::Continue)
            } else {
                (s, ActionModel::Continue)
            },
            _ => (s, ActionModel::Continue),
        },
        Mode::Detail => match key {
            Key::Esc | Key::Enter | Key::Char('q') => (
                UiModel { mode: Mode::Normal, detail_call: None, ..s },
                ActionModel::Continue,
            ),
            Key::Char('o') => match s.detail_call {
                Some(c) => (s, ActionModel::OpenUrl(station_url(c))),
                None => (s, ActionModel::Continue),
            },
            _ => (s, ActionModel::Continue),
        },
    }
}

pub open spec fn views_of(v: Seq<String>) -> Seq<Seq<char>> {
    Seq::new(v.len(), |i: int| v[i]@)
}

fn url_for(call: &str) -> (r: String)
    ensures
        r@ == station_url(call@),
{
    let mut out: Vec<char> = Vec::new();
    push_str(&mut out, "https://aprs.fi/#!call=a%2F");
    push_str(&mut out, call);
    assert(out@ =~= station_url(call@));
    string_of(out.as_slice())
}

fn clone_string(s: &String) -> (r: String)
    ensures
        r@ == s@,
{
    s.clone()
}

impl UiState {
    /// The state when the table opens.
    pub fn new() -> (s: UiState)
        ensures
            s@.mode == Mode::Normal,
            !s@.sort_dist,
            !s@.paused,
            s@.query.len() == 0,
            s@.type_idx == 0,
            s@.selected == 0,
            s@.detail_call is None,
    {
        UiState {
            mode: Mode::Normal,
            sort_dist: false,
            paused: false,
            query: String::new(),
            type_idx: 0,
            selected: 0,
            detail_call: None,
        }
    }

    /// Handles one key press against the rows listed (their callsigns).
    pub fn handle_key(&mut self, key: Key, list: &Vec<String>) -> (a: Action)
        ensures
            (final(self)@, action_view(a)) == key_spec(old(self)@, key, views_of(list@)),
    {
        let len = list.len();
        match self.mode {
            Mode::Normal => match key {
                Key::Char('q') | Key::Esc => Action::Quit,
                Key::Char('s') => {
                    self.sort_dist = !self.sort_dist;
                    Action::Continue
                },
                Key::Char('p') => {
                    self.paused = !self.paused;
                    Action::Continue
                },
                Key::Char('/') => {
                    self.mode = Mode::Search;
                    Action::Continue
                },
                Key::Enter => {
                    if self.selected < len {
                        let c = clone_string(&list[self.selected]);
                        self.detail_call = Some(c);
                        self.mode = Mode::Detail;
                    }
                    Action::Continue
                },
                Key::Down | Key::Char('j') => {
                    if len > 0 {
                        self.selected = if self.selected < len - 1 {
                            self.selected + 1
                        } else {
                            len - 1
                        };
                    }
                    Action::Continue
                },
                Key::Up | Key::Char('k') => {
                    if self.selected > 0 {
                        self.selected = self.selected - 1;
                    }
                    Action::Continue
                },
                Key::Char('o') => {
                    if self.selected < len {
                        Action::OpenUrl(url_for(list[self.selected].as_str()))
                    } else {
                        Action::Continue
                    }
                },
                Key::Char('t') => {
                    let t = self.type_idx;
                    assert((t % 5 + 1) % 5 == (t + 1) % 5) by (nonlinear_arith);
                    self.type_idx = (t % 5 + 1) % 5;
                    Action::Continue
                },
                _ => Action::Continue,
            },
            Mode::Search => match key {
                Key::Esc => {
                    self.query = String::new();
                    self.mode = Mode::Normal;
                    Action::Continue
                },
                Key::Enter => {
                    self.mode = Mode::Normal;
                    Action::Continue
                },
                Key::Backspace => {
                    let q = chars_of(self.query.as_str());
                    if q.len() > 0 {
                        let shorter = copy_range(q.as_slice(), 0, q.len() - 1);
                        assert(q@.subrange(0, q@.len() - 1) == q@.drop_last());
                        self.query = string_of(shorter.as_slice());
                    }
                    Action::Continue
                },
                Key::Char(c) => {
                    if !char_is_control(c) {
                        let mut q = chars_of(self.query.as_str());
                        q.push(c);
                        self.query = string_of(q.as_slice());
                    }
                    Action::Continue
                },
                _ => Action::Continue,
            },
            Mode::Detail => match key {
                Key::Esc | Key::Enter | Key::Char('q') => {
                    self.mode = Mode::Normal;
                    self.detail_call = None;
                    Action::Continue
                },
                Key::Char('o') => match &self.detail_call {
                    Some(c) => Action::OpenUrl(url_for(c.as_str())),
                    None => Action::Continue,
                },
                _ => Action::Continue,
            },
        }
    }
}

/// Every key keeps the type filter among the five and a valid selection
/// valid; only search mode edits the search text.
pub proof fn keys_keep_state_valid(s: UiModel, key: Key, list: Seq<Seq<char>>)
    requires
        s.type_idx < 5,
    ensures
        key_spec(s, key, list).0.type_idx < 5,
        s.selected < list.len() ==> key_spec(s, key, list).0.selected < list.len(),
        s.mode != Mode::Search ==> key_spec(s, key, list).0.query == s.query,
        key_spec(s, key, list).0.mode == Mode::Detail ==> key_spec(s, key, list).0.detail_call is Some || s.mode == Mode::Detail && s.detail_call is None,
{
}

/// The detail view is pinned to a callsign, not to a row: while it is open,
/// what the keys do does not depend on the rows or their order, and the
/// pinned station never changes to another one.
pub proof fn detail_is_pinned(s: UiModel, key: Key, list1: Seq<Seq<char>>, list2: Seq<Seq<char>>)
    requires
        s.mode == Mode::Detail,
    ensures
        key_spec(s, key, list1) == key_spec(s, key, list2),
        key_spec(s, key, list1).0.detail_call == s.detail_call || key_spec(s, key, list1).0.detail_call is None,
{
}


/// One row of the live table: the newest report of a station, when it was
/// first and last heard (in ticks of the caller's clock), and the positions
/// it has moved through.
pub struct Station<P> {
    pub source: String,
    pub kind: &'static str,
    pub icon: &'static str,
    pub pos: Option<P>,
    pub info: String,
    pub first: u64,
    pub last: u64,
    pub trail: Vec<P>,
}

pub struct StationModel<P> {
    pub source: Seq<char>,
    pub kind: Seq<char>,
    pub icon: Seq<char>,
    pub pos: Option<P>,
    pub info: Seq<char>,
    pub first: u64,
    pub last: u64,
    pub trail: Seq<P>,
}

impl<P> View for Station<P> {
    type V = StationModel<P>;

    open spec fn view(&self) -> StationModel<P> {
        StationModel {
            source: self.source@,
            kind: self.kind@,
            icon: self.icon@,
            pos: self.pos,
            info: self.info@,
            first: self.first,
            last: self.last,
            trail: self.trail@,
        }
    }
}

pub open spec fn stations_view<P>(t: Seq<Station<P>>) -> Seq<StationModel<P>> {
    Seq::new(t.len(), |i: int| t[i]@)
}

/// No two rows belong to the same station.
pub open spec fn sources_unique<P>(t: Seq<StationModel<P>>) -> bool {
    forall|i: int, j: int| 0 <= i < j < t.len() ==> t[i].source != t[j].source
}

pub open spec fn has_source<P>(t: Seq<StationModel<P>>, src: Seq<char>) -> bool {
    exists|i: int| 0 <= i < t.len() && t[i].source == src
}

pub open spec fn source_index<P>(t: Seq<StationModel<P>>, src: Seq<char>) -> int {
    choose|i: int| 0 <= i < t.len() && t[i].source == src
}

/// A row after a report of its station: the report's kind, icon, position
/// and text, heard at `tick`; the trail takes the position (see
/// `trail_spec`), and a report without one leaves the trail as it was.
pub open spec fn report_spec<P>(
    s: StationModel<P>,
    kind: Seq<char>,
    icon: Seq<char>,
    pos: Option<P>,
    moved: bool,
    info: Seq<char>,
    tick: u64,
) -> StationModel<P> {
    StationModel {
        kind: kind,
        icon: icon,
        pos: pos,
        info: info,
        last: tick,
        trail: match pos {
            Some(p) => trail_spec(s.trail, p, moved),
            None => s.trail,
        },
        ..s
    }
}

/// A station heard for the first time, before its report is applied.
pub open spec fn fresh_station<P>(src: Seq<char>, kind: Seq<char>, icon: Seq<char>, tick: u64) -> StationModel<P> {
    StationModel {
        source: src,
        kind: kind,
        icon: icon,
        pos: None,
        info: Seq::empty(),
        first: tick,
        last: tick,
        trail: Seq::empty(),
    }
}

/// The table after a report: the station's row takes it (latest wins), or
/// a new row is appended for a station not seen before.
pub open spec fn ingest_spec<P>(
    t: Seq<StationModel<P>>,
    src: Seq<char>,
    kind: Seq<char>,
    icon: Seq<char>,
    pos: Option<P>,
    moved: bool,
    info: Seq<char>,
    tick: u64,
) -> Seq<StationModel<P>> {
    if has_source(t, src) {
        let i = source_index(t, src);
        t.update(i, report_spec(t[i], kind, icon, pos, moved, info, tick))
    } else {
        t.push(report_spec(fresh_station(src, kind, icon, tick), kind, icon, pos, moved, info, tick))
    }
}

/// The row of a station, if the table has one.
pub fn find_station<P>(table: &Vec<Station<P>>, source: &str) -> (r: Option<usize>)
    ensures
        match r {
            Some(i) => i < table@.len() && table@[i as int]@.source == source@
                && forall|j: int| 0 <= j < i ==> table@[j]@.source != source@,
            None => forall|j: int| 0 <= j < table@.len() ==> table@[j]@.source != source@,
        },
{
    let mut k: usize = 0;
    while k < table.len()
        invariant
            k <= table@.len(),
            forall|j: int| 0 <= j < k ==> table@[j]@.source != source@,
        decreases table@.len() - k,
    {
        let c = chars_of(table[k].source.as_str());
        if same_text(c.as_slice(), source) {
            return Some(k);
        }
        k = k + 1;
    }
    None
}

fn copy_text(s: &str) -> (r: String)
    ensures
        r@ == s@,
{
    let c = chars_of(s);
    string_of(c.as_slice())
}

/// Takes one report into the table: the row of its station is replaced by
/// the report (keeping when the station was first heard), or a row is
/// appended. `moved` says whether the position differs from the last point
/// of the trail; the caller decides it.
pub fn ingest<P: Copy>(
    table: &mut Vec<Station<P>>,
    source: &str,
    kind: &'static str,
    icon: &'static str,
    pos: Option<P>,
    moved: bool,
    info: String,
    tick: u64,
)
    requires
        sources_unique(stations_view(old(table)@)),
    ensures
        sources_unique(stations_view(final(table)@)),
        stations_view(final(table)@) == ingest_spec(
            stations_view(old(table)@),
            source@,
            kind@,
            icon@,
            pos,
            moved,
            info@,
            tick,
        ),
{
    let ghost t0 = stations_view(table@);
    match find_station(table, source) {
        Some(i) => {
            proof {
                assert(t0[i as int].source == source@);
                assert(has_source(t0, source@));
                let k = source_index(t0, source@);
                assert(k == i as int);
            }
            let row = table.remove(i);
            let mut trail = row.trail;
            match pos {
                Some(p) => push_trail(&mut trail, p, moved),
                None => {},
            }
            let new_row = Station {
                source: row.source,
                kind: kind,
                icon: icon,
                pos: pos,
                info: info,
                first: row.first,
                last: tick,
                trail: trail,
            };
            table.insert(i, new_row);
            proof {
                let t1 = stations_view(table@);
                assert(t1 =~= t0.update(i as int, report_spec(t0[i as int], kind@, icon@, pos, moved, info@, tick)));
            }
        },
        None => {
            proof {
                assert(!has_source(t0, source@));
            }
            let mut trail: Vec<P> = Vec::new();
            match pos {
                Some(p) => push_trail(&mut trail, p, moved),
                None => {},
            }
            let new_row = Station {
                source: copy_text(source),
                kind: kind,
                icon: icon,
                pos: pos,
                info: info,
                first: tick,
                last: tick,
                trail: trail,
            };
            table.push(new_row);
            proof {
                let t1 = stations_view(table@);
                assert(t1 =~= t0.push(report_spec(fresh_station(source@, kind@, icon@, tick), kind@, icon@, pos, moved, info@, tick)));
            }
        },
    }
}

/// Row `a` is shown above row `b`: it was heard later, or at the same tick
/// and it came first into the table.
pub open spec fn shown_before<P>(t: Seq<StationModel<P>>, a: int, b: int) -> bool {
    t[a].last > t[b].last || (t[a].last == t[b].last && a < b)
}

/// The rows of a frame (indices into the table): exactly the stations that
/// the search and the type filter list, each once, newest first.
pub open spec fn frame_rows<P>(t: Seq<StationModel<P>>, query: Seq<char>, type_idx: nat, rows: Seq<usize>) -> bool {
    &&& forall|k: int| 0 <= k < rows.len() ==> (rows[k] as int) < t.len()
        && listed_spec(t[rows[k] as int].source, t[rows[k] as int].kind, query, type_idx)
    &&& forall|i: int| 0 <= i < t.len() && listed_spec(t[i].source, t[i].kind, query, type_idx)
        ==> rows.contains(i as usize)
    &&& forall|a: int, b: int| 0 <= a < b < rows.len() ==> shown_before(t, rows[a] as int, rows[b] as int)
}

/// The rows to draw, newest heard first.
pub fn rows_newest_first<P>(table: &Vec<Station<P>>, query: &str, type_idx: usize) -> (rows: Vec<usize>)
    requires
        type_idx < 5,
    ensures
        frame_rows(stations_view(table@), query@, type_idx as nat, rows@),
{
    let ghost t = stations_view(table@);
    let mut rows: Vec<usize> = Vec::new();
    let mut i: usize = 0;
    while i < table.len()
        invariant
            t == stations_view(table@),
            type_idx < 5,
            i <= table@.len(),
            forall|k: int| 0 <= k < rows@.len() ==> (rows@[k] as int) < i
                && listed_spec(t[rows@[k] as int].source, t[rows@[k] as int].kind, query@, type_idx as nat),
            forall|j: int| 0 <= j < i && listed_spec(t[j].source, t[j].kind, query@, type_idx as nat)
                ==> rows@.contains(j as usize),
            forall|a: int, b: int| 0 <= a < b < rows@.len() ==> shown_before(t, rows@[a] as int, rows@[b] as int),
        decreases table@.len() - i,
    {
        let listed = is_listed(table[i].source.as_str(), table[i].kind, query, type_idx);
        if listed {
            let tick = table[i].last;
            let mut p: usize = 0;
            let mut found = false;
            while p < rows.len() && !found
                invariant
                    t == stations_view(table@),
                    i < table@.len(),
                    tick == t[i as int].last,
                    p <= rows@.len(),
                    forall|k: int| 0 <= k < rows@.len() ==> (rows@[k] as int) < i,
                    forall|k: int| 0 <= k < p ==> t[rows@[k] as int].last >= tick,
                    found ==> p < rows@.len() && tick > t[rows@[p as int] as int].last,
                decreases rows@.len() - p + (if found { 0int } else { 1int }),
            {
                if tick > table[rows[p]].last {
                    found = true;
                } else {
                    p = p + 1;
                }
            }
            let ghost old_rows = rows@;
            rows.insert(p, i);
            proof {
                assert(rows@ == old_rows.insert(p as int, i));
                assert forall|a: int, b: int| 0 <= a < b < rows@.len() implies shown_before(t, rows@[a] as int, rows@[b] as int) by {
                    if b < p {
                        assert(rows@[a] == old_rows[a] && rows@[b] == old_rows[b]);
                    } else if b == p {
                        assert(rows@[a] == old_rows[a]);
                    } else if a == p {
                        assert(rows@[b] == old_rows[b - 1]);
                        assert(shown_before(t, old_rows[p as int] as int, old_rows[b - 1] as int) || b - 1 == p);
                    } else if a < p {
                        assert(rows@[a] == old_rows[a] && rows@[b] == old_rows[b - 1]);
                    } else {
                        assert(rows@[a] == old_rows[a - 1] && rows@[b] == old_rows[b - 1]);
                    }
                }
                assert forall|j: int| 0 <= j <= i && listed_spec(t[j].source, t[j].kind, query@, type_idx as nat)
                    implies rows@.contains(j as usize) by {
                    if j == i {
                        assert(rows@[p as int] == i);
                    } else {
                        assert(old_rows.contains(j as usize));
                        let k = choose|k: int| 0 <= k < old_rows.len() && old_rows[k] == j as usize;
                        if k < p {
                            assert(rows@[k] == j as usize);
                        } else {
                            assert(rows@[k + 1] == j as usize);
                        }
                    }
                }
            }
        }
        i = i + 1;
    }
    rows
}

/// A report is taken in by exactly one row: the table keeps one row per
/// station, the station's row holds the report and its first-heard tick,
/// every other row stays as it was, and a new station gets one new row at
/// the end.
pub proof fn ingest_updates_one_row<P>(
    t: Seq<StationModel<P>>,
    src: Seq<char>,
    kind: Seq<char>,
    icon: Seq<char>,
    pos: Option<P>,
    moved: bool,
    info: Seq<char>,
    tick: u64,
)
    requires
        sources_unique(t),
    ensures
        ({
            let t2 = ingest_spec(t, src, kind, icon, pos, moved, info, tick);
            &&& sources_unique(t2)
            &&& has_source(t2, src)
            &&& t2.len() == if has_source(t, src) { t.len() } else { t.len() + 1 }
            &&& forall|j: int| 0 <= j < t.len() ==> t2[j].source == t[j].source
            &&& forall|j: int| 0 <= j < t.len() && t[j].source != src ==> t2[j] == t[j]
            &&& forall|j: int| t.len() <= j < t2.len() ==> t2[j].source == src
            &&& forall|j: int| 0 <= j < t2.len() && t2[j].source == src ==> {
                &&& t2[j].kind == kind
                &&& t2[j].icon == icon
                &&& t2[j].pos == pos
                &&& t2[j].info == info
                &&& t2[j].last == tick
                &&& t2[j].first == if has_source(t, src) { t[j].first } else { tick }
            }
        }),
{
    let t2 = ingest_spec(t, src, kind, icon, pos, moved, info, tick);
    if has_source(t, src) {
        let i = source_index(t, src);
        assert(t2[i].source == src);
        assert forall|j: int| 0 <= j < t2.len() && t2[j].source == src implies j == i by {
            if j != i {
                assert(t[j].source == src);
            }
        }
    } else {
        assert(t2[t.len() as int].source == src);
    }
}

/// What the table takes from one packet.
pub struct ReportModel<P> {
    pub source: Seq<char>,
    pub kind: Seq<char>,
    pub icon: Seq<char>,
    pub pos: Option<P>,
    pub moved: bool,
    pub info: Seq<char>,
    pub tick: u64,
}

pub open spec fn ingest_report<P>(t: Seq<StationModel<P>>, r: ReportModel<P>) -> Seq<StationModel<P>> {
    ingest_spec(t, r.source, r.kind, r.icon, r.pos, r.moved, r.info, r.tick)
}

/// The table after a run of reports, taken in order from an empty table.
pub open spec fn ingest_all<P>(rs: Seq<ReportModel<P>>) -> Seq<StationModel<P>>
    decreases rs.len(),
{
    if rs.len() == 0 {
        Seq::empty()
    } else {
        ingest_report(ingest_all(rs.drop_last()), rs.last())
    }
}

/// The position of the last report of a station in a run, or -1.
pub open spec fn latest_report<P>(rs: Seq<ReportModel<P>>, src: Seq<char>) -> int
    decreases rs.len(),
{
    if rs.len() == 0 {
        -1
    } else if rs.last().source == src {
        rs.len() - 1
    } else {
        latest_report(rs.drop_last(), src)
    }
}

proof fn lemma_latest_report<P>(rs: Seq<ReportModel<P>>, src: Seq<char>)
    ensures
        -1 <= latest_report(rs, src) < rs.len(),
        latest_report(rs, src) >= 0 ==> rs[latest_report(rs, src)].source == src,
        forall|k: int| latest_report(rs, src) < k < rs.len() ==> rs[k].source != src,
        forall|k: int| 0 <= k < rs.len() && rs[k].source == src ==> latest_report(rs, src) >= k,
    decreases rs.len(),
{
    if rs.len() > 0 {
        let prev = rs.drop_last();
        lemma_latest_report(prev, src);
        assert forall|k: int| 0 <= k < prev.len() implies prev[k] == rs[k] by {}
    }
}

/// One row per station, latest wins: after a run of reports, the table has
/// a row for exactly the stations that were heard, one row each, and each
/// row holds the kind, icon, position, text and tick of its station's last
/// report.
pub proof fn latest_report_wins<P>(rs: Seq<ReportModel<P>>)
    ensures
        ({
            let t = ingest_all(rs);
            &&& sources_unique(t)
            &&& forall|k: int| 0 <= k < rs.len() ==> has_source(t, #[trigger] rs[k].source)
            &&& forall|i: int| #![trigger t[i]] 0 <= i < t.len() ==> {
                let k = latest_report(rs, t[i].source);
                &&& 0 <= k < rs.len()
                &&& rs[k].source == t[i].source
                &&& t[i].kind == rs[k].kind
                &&& t[i].icon == rs[k].icon
                &&& t[i].pos == rs[k].pos
                &&& t[i].info == rs[k].info
                &&& t[i].last == rs[k].tick
            }
        }),
    decreases rs.len(),
{
    if rs.len() > 0 {
        let prev = rs.drop_last();
        let r = rs.last();
        latest_report_wins(prev);
        let t0 = ingest_all(prev);
        let t = ingest_all(rs);
        ingest_updates_one_row(t0, r.source, r.kind, r.icon, r.pos, r.moved, r.info, r.tick);
        assert forall|k: int| 0 <= k < rs.len() implies has_source(t, #[trigger] rs[k].source) by {
            if k < rs.len() - 1 {
                assert(prev[k] == rs[k]);
                assert(has_source(t0, prev[k].source));
                let j = choose|j: int| 0 <= j < t0.len() && t0[j].source == prev[k].source;
                assert(t[j].source == rs[k].source);
            }
        }
        assert forall|i: int| #![trigger t[i]] 0 <= i < t.len() implies {
            let k = latest_report(rs, t[i].source);
            &&& 0 <= k < rs.len()
            &&& rs[k].source == t[i].source
            &&& t[i].kind == rs[k].kind
            &&& t[i].icon == rs[k].icon
            &&& t[i].pos == rs[k].pos
            &&& t[i].info == rs[k].info
            &&& t[i].last == rs[k].tick
        } by {
            if t[i].source != r.source {
                assert(i < t0.len());
                assert(t[i] == t0[i]);
                assert(latest_report(rs, t[i].source) == latest_report(prev, t0[i].source));
                lemma_latest_report(prev, t0[i].source);
                assert(prev[latest_report(prev, t0[i].source)] == rs[latest_report(prev, t0[i].source)]);
            }
        }
    }
}

/// The table's trail step: a position is taken when the trail is empty or
/// its last point differs from it.
pub open spec fn trail_step<T>(trail: Seq<T>, pos: T) -> Seq<T> {
    trail_spec(trail, pos, trail.len() == 0 || trail.last() != pos)
}

/// The trail after a run of reported positions, from an empty trail.
pub open spec fn trail_run<T>(ps: Seq<T>) -> Seq<T>
    decreases ps.len(),
{
    if ps.len() == 0 {
        Seq::empty()
    } else {
        trail_step(trail_run(ps.drop_last()), ps.last())
    }
}

/// The positions in order, with each run of repeats kept once.
pub open spec fn drop_repeats<T>(ps: Seq<T>) -> Seq<T>
    decreases ps.len(),
{
    if ps.len() == 0 {
        Seq::empty()
    } else {
        let d = drop_repeats(ps.drop_last());
        if d.len() > 0 && d.last() == ps.last() {
            d
        } else {
            d.push(ps.last())
        }
    }
}

/// The last twelve points of a sequence.
pub open spec fn newest_twelve<T>(s: Seq<T>) -> Seq<T> {
    if s.len() > 12 {
        s.skip(s.len() - 12)
    } else {
        s
    }
}

pub open spec fn no_repeats<T>(s: Seq<T>) -> bool {
    forall|i: int| 0 <= i < s.len() - 1 ==> #[trigger] s[i] != s[i + 1]
}

proof fn lemma_drop_repeats<T>(ps: Seq<T>)
    ensures
        no_repeats(drop_repeats(ps)),
        ps.len() > 0 ==> drop_repeats(ps).len() > 0 && drop_repeats(ps).last() == ps.last(),
    decreases ps.len(),
{
    if ps.len() > 0 {
        let d = drop_repeats(ps.drop_last());
        lemma_drop_repeats(ps.drop_last());
        let r = drop_repeats(ps);
        if !(d.len() > 0 && d.last() == ps.last()) {
            assert forall|i: int| 0 <= i < r.len() - 1 implies #[trigger] r[i] != r[i + 1] by {
                if i + 1 == d.len() {
                    assert(r[i] == d.last());
                } else {
                    assert(r[i] == d[i] && r[i + 1] == d[i + 1]);
                }
            }
        }
    }
}

proof fn lemma_newest_twelve_push<T>(d: Seq<T>, x: T)
    ensures
        newest_twelve(newest_twelve(d).push(x)) == newest_twelve(d.push(x)),
        d.len() > 0 ==> newest_twelve(d).len() > 0 && newest_twelve(d).last() == d.last(),
        newest_twelve(d).len() <= 12,
        no_repeats(d) ==> no_repeats(newest_twelve(d)),
{
    if d.len() > 12 {
        let n = d.len();
        assert(newest_twelve(d.push(x)) =~= newest_twelve(d).push(x).skip(1));
        assert(newest_twelve(newest_twelve(d).push(x)) =~= newest_twelve(d).push(x).skip(1));
        if no_repeats(d) {
            let t = newest_twelve(d);
            assert forall|i: int| 0 <= i < t.len() - 1 implies #[trigger] t[i] != t[i + 1] by {
                assert(t[i] == d[i + n - 12] && t[i + 1] == d[i + 1 + n - 12]);
            }
        }
    }
}

/// The trail of a station over a run of reported positions: at most twelve
/// points, no point repeated right after itself, ending in the newest
/// position; it is exactly the newest twelve positions in arrival order
/// with repeats dropped.
pub proof fn trail_keeps_newest_moves<T>(ps: Seq<T>)
    ensures
        trail_run(ps) == newest_twelve(drop_repeats(ps)),
        trail_run(ps).len() <= 12,
        no_repeats(trail_run(ps)),
        ps.len() > 0 ==> trail_run(ps).last() == ps.last(),
    decreases ps.len(),
{
    lemma_drop_repeats(ps);
    if ps.len() > 0 {
        let prev = ps.drop_last();
        let x = ps.last();
        trail_keeps_newest_moves(prev);
        lemma_drop_repeats(prev);
        let d = drop_repeats(prev);
        lemma_newest_twelve_push(d, x);
        lemma_newest_twelve_push(drop_repeats(ps), x);
        let t = trail_run(prev);
        assert(t.len() == 0 <==> d.len() == 0);
        if d.len() > 0 && d.last() == x {
            assert(trail_run(ps) == t);
        } else {
            assert(trail_run(ps) == trail_spec(t, x, true));
            let u = t.push(x);
            assert(trail_spec(t, x, true) == newest_twelve(u));
        }
    }
}

/// The trail of a station's row, empty while the table has none.
pub open spec fn station_trail<P>(t: Seq<StationModel<P>>, src: Seq<char>) -> Seq<P> {
    if has_source(t, src) {
        t[source_index(t, src)].trail
    } else {
        Seq::empty()
    }
}

/// The positions a station reported in a run, in arrival order.
pub open spec fn positions_of<P>(rs: Seq<ReportModel<P>>, src: Seq<char>) -> Seq<P>
    decreases rs.len(),
{
    if rs.len() == 0 {
        Seq::empty()
    } else {
        let ps = positions_of(rs.drop_last(), src);
        match rs.last().pos {
            Some(p) => if rs.last().source == src {
                ps.push(p)
            } else {
                ps
            },
            None => ps,
        }
    }
}

/// Each report of the run marks its position as moved exactly when the
/// station's trail was empty or ended elsewhere (`moves_spec`), as
/// `take_report` decides it where `==` is plain equality.
pub open spec fn moves_follow_trail<P>(rs: Seq<ReportModel<P>>) -> bool {
    forall|k: int| #![trigger rs[k]] 0 <= k < rs.len() ==> match rs[k].pos {
        Some(p) => {
            let tr = station_trail(ingest_all(rs.take(k)), rs[k].source);
            rs[k].moved == (tr.len() == 0 || tr.last() != p)
        },
        None => true,
    }
}

proof fn lemma_source_index<P>(t: Seq<StationModel<P>>, j: int)
    requires
        sources_unique(t),
        0 <= j < t.len(),
    ensures
        has_source(t, t[j].source),
        source_index(t, t[j].source) == j,
{
    assert(t[j].source == t[j].source);
}

/// The trail a station's row shows is the trail of the positions it
/// reported: a report without a position leaves it as it was, so it holds
/// the newest twelve of the station's positions with repeats dropped (see
/// `trail_keeps_newest_moves`).
pub proof fn row_trail_follows_positions<P>(rs: Seq<ReportModel<P>>, src: Seq<char>)
    requires
        moves_follow_trail(rs),
    ensures
        station_trail(ingest_all(rs), src) == trail_run(positions_of(rs, src)),
    decreases rs.len(),
{
    if rs.len() > 0 {
        let prev = rs.drop_last();
        let r = rs.last();
        let n = rs.len() - 1;
        assert forall|k: int| #![trigger prev[k]] 0 <= k < prev.len() implies match prev[k].pos {
            Some(p) => {
                let tr = station_trail(ingest_all(prev.take(k)), prev[k].source);
                prev[k].moved == (tr.len() == 0 || tr.last() != p)
            },
            None => true,
        } by {
            assert(prev[k] == rs[k]);
            assert(prev.take(k) =~= rs.take(k));
        }
        row_trail_follows_positions(prev, src);
        latest_report_wins(prev);
        let t0 = ingest_all(prev);
        let t = ingest_all(rs);
        assert(rs.take(n) =~= prev);
        ingest_updates_one_row(t0, r.source, r.kind, r.icon, r.pos, r.moved, r.info, r.tick);
        if src == r.source {
            let i = source_index(t, src);
            assert(has_source(t, src));
            if has_source(t0, src) {
                let i0 = source_index(t0, src);
                lemma_source_index(t0, i0);
                lemma_source_index(t, i0);
                assert(t[i0] == report_spec(t0[i0], r.kind, r.icon, r.pos, r.moved, r.info, r.tick));
            } else {
                lemma_source_index(t, t0.len() as int);
            }
            match r.pos {
                Some(p) => {
                    let ps = positions_of(prev, src);
                    assert(ps.push(p).drop_last() =~= ps);
                },
                None => {},
            }
        } else {
            if has_source(t0, src) {
                let i0 = source_index(t0, src);
                lemma_source_index(t0, i0);
                assert(t[i0] == t0[i0]);
                lemma_source_index(t, i0);
            } else {
                if has_source(t, src) {
                    let j = source_index(t, src);
                    if j < t0.len() {
                        assert(t0[j].source == src);
                    }
                }
            }
        }
    }
}

proof fn lemma_empty_search_contains<P>(t: Seq<StationModel<P>>, rows: Seq<usize>, i: int)
    requires
        frame_rows(t, Seq::empty(), 0, rows),
        0 <= i < t.len(),
    ensures
        rows.contains(i as usize),
{
    assert(listed_spec(t[i].source, t[i].kind, Seq::empty(), 0));
}

/// An empty search with the type filter "all" lists every station of the
/// table, each in one row.
pub proof fn empty_search_lists_every_station<P>(t: Seq<StationModel<P>>, rows: Seq<usize>)
    requires
        t.len() <= usize::MAX,
        frame_rows(t, Seq::empty(), 0, rows),
    ensures
        rows.len() == t.len(),
        rows.no_duplicates(),
        forall|i: usize| (i as int) < t.len() ==> #[trigger] rows.contains(i),
{
    assert forall|a: int, b: int| 0 <= a < rows.len() && 0 <= b < rows.len() && a != b implies rows[a] != rows[b] by {
        if a < b {
            assert(shown_before(t, rows[a] as int, rows[b] as int));
        } else {
            assert(shown_before(t, rows[b] as int, rows[a] as int));
        }
    }
    let ri = rows.map_values(|x: usize| x as int);
    assert forall|a: int, b: int| 0 <= a < ri.len() && 0 <= b < ri.len() && a != b implies ri[a] != ri[b] by {
        assert(rows[a] != rows[b]);
    }
    assert(ri.no_duplicates());
    ri.unique_seq_to_set();
    assert forall|x: int| ri.to_set().contains(x) <==> vstd::set_lib::set_int_range(0, t.len() as int).contains(x) by {
        if 0 <= x < t.len() {
            lemma_empty_search_contains(t, rows, x);
            let k = choose|k: int| 0 <= k < rows.len() && rows[k] == x as usize;
            assert(ri[k] == x);
        }
        if ri.to_set().contains(x) {
            let k = choose|k: int| 0 <= k < ri.len() && ri[k] == x;
            assert(ri[k] == rows[k] as int);
        }
    }
    assert(ri.to_set() =~= vstd::set_lib::set_int_range(0, t.len() as int));
    vstd::set_lib::lemma_int_range(0, t.len() as int);
    assert forall|i: usize| (i as int) < t.len() implies #[trigger] rows.contains(i) by {
        lemma_empty_search_contains(t, rows, i as int);
    }
}

/// The table's rule for a reported position: it is a move when the
/// station has no trail yet or its trail ends at another point.
pub open spec fn moves_spec<P>(t: Seq<StationModel<P>>, src: Seq<char>, p: P) -> bool {
    let tr = station_trail(t, src);
    tr.len() == 0 || tr.last() != p
}

/// `==` on `P` is plain equality of values.
pub open spec fn eq_is_equality<P: PartialEqSpec>() -> bool {
    &&& P::obeys_eq_spec()
    &&& forall|a: P, b: P| #[trigger] a.eq_spec(&b) <==> (a == b)
}

/// Takes a report in, deciding with `==` on `P` whether its position is a
/// move. The result is always `ingest_spec` for some `moved`; where `==` is
/// plain equality it is `ingest_spec` with the table's rule `moves_spec`.
pub fn take_report<P: Copy + PartialEq>(
    table: &mut Vec<Station<P>>,
    source: &str,
    kind: &'static str,
    icon: &'static str,
    pos: Option<P>,
    info: String,
    tick: u64,
)
    requires
        sources_unique(stations_view(old(table)@)),
    ensures
        sources_unique(stations_view(final(table)@)),
        stations_view(final(table)@) == ingest_spec(
            stations_view(old(table)@),
            source@,
            kind@,
            icon@,
            pos,
            true,
            info@,
            tick,
        ) || stations_view(final(table)@) == ingest_spec(
            stations_view(old(table)@),
            source@,
            kind@,
            icon@,
            pos,
            false,
            info@,
            tick,
        ),
        eq_is_equality::<P>() ==> stations_view(final(table)@) == ingest_spec(
            stations_view(old(table)@),
            source@,
            kind@,
            icon@,
            pos,
            match pos {
                Some(p) => moves_spec(stations_view(old(table)@), source@, p),
                None => true,
            },
            info@,
            tick,
        ),
{
    let ghost t0 = stations_view(table@);
    let moved = match pos {
        Some(p) => match find_station(table, source) {
            Some(i) => {
                proof {
                    lemma_source_index(t0, i as int);
                }
                let n = table[i].trail.len();
                if n == 0 {
                    true
                } else {
                    table[i].trail[n - 1] != p
                }
            },
            None => {
                proof {
                    assert(!has_source(t0, source@));
                }
                true
            },
        },
        None => true,
    };
    ingest(table, source, kind, icon, pos, moved, info, tick);
}

/// Each type filter lists exactly the packet kind its label names: "all"
/// lists every kind, "mobile" Mic-E reports, "weather" weather reports,
/// "fixed" position reports and "object" objects.
pub proof fn type_filters_list_their_kind(call: Seq<char>, k: Seq<char>)
    ensures
        type_filter_spec(0).0 == "all"@ && listed_spec(call, k, seq![], 0),
        type_filter_spec(1).0 == "mobile"@ && (listed_spec(call, k, seq![], 1) <==> k == "mic-e"@),
        type_filter_spec(2).0 == "weather"@ && (listed_spec(call, k, seq![], 2) <==> k == "wx"@),
        type_filter_spec(3).0 == "fixed"@ && (listed_spec(call, k, seq![], 3) <==> k == "pos"@),
        type_filter_spec(4).0 == "object"@ && (listed_spec(call, k, seq![], 4) <==> k == "obj"@),
{
}

} // verus!
