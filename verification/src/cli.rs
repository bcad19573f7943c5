//! The decisions behind the command line: the APRS-IS server-side filters
//! that `call` and `watch` ask for, and the distance units `near` and `here`
//! accept.

use vstd::prelude::*;
use crate::text::{
    chars_of, join, join_spec, lowercase, push_all, push_str, same_text, string_of, to_lower,
    to_upper, uppercase, views,
};

verus! {

/// `b/CALL*`: every SSID of one station.
pub open spec fn call_filter_spec(call: Seq<char>) -> Seq<char> {
    "b/"@ + call + seq!['*']
}

/// The filter and status label for following a station whose callsign is
/// already in upper case.
pub fn filter_for_call(call: &str) -> (r: (String, String))
    ensures
        r.0@ == call_filter_spec(call@),
        r.1@ == "following "@ + call@,
{
    let mut filter: Vec<char> = Vec::new();
    push_str(&mut filter, "b/");
    push_str(&mut filter, call);
    filter.push('*');
    let mut label: Vec<char> = Vec::new();
    push_str(&mut label, "following ");
    push_str(&mut label, call);
    (string_of(filter.as_slice()), string_of(label.as_slice()))
}

/// The filter and the status label for following one station.
pub fn call_filter(callsign: &str) -> (r: (String, String))
    ensures
        r.0@ == call_filter_spec(uppercase(callsign@)),
        r.1@ == "following "@ + uppercase(callsign@),
{
    let call = to_upper(callsign);
    filter_for_call(call.as_str())
}

/// `CALL*` for each station of a watchlist.
pub open spec fn starred(calls: Seq<Seq<char>>) -> Seq<Seq<char>> {
    Seq::new(calls.len(), |i: int| calls[i] + seq!['*'])
}

/// `b/A*/B*/...`: every SSID of every listed (upper-case) station.
pub open spec fn watch_filter_spec(calls: Seq<Seq<char>>) -> Seq<char> {
    "b/"@ + join_spec(starred(calls), seq!['/'])
}

pub open spec fn uppercase_all(calls: Seq<Seq<char>>) -> Seq<Seq<char>> {
    Seq::new(calls.len(), |i: int| uppercase(calls[i]))
}

/// The message when the watchlist is empty.
pub open spec fn empty_watchlist_message() -> Seq<char> {
    "give at least one callsign, e.g. `claprs watch W0ODL-7 N5OQT`"@
}

/// The server-side filter for callsigns already in upper case.
pub fn filter_for_watchlist(calls: &Vec<String>) -> (r: String)
    ensures
        r@ == watch_filter_spec(views_of(calls@)),
{
    let mut parts: Vec<Vec<char>> = Vec::new();
    let mut i: usize = 0;
    while i < calls.len()
        invariant
            i <= calls@.len(),
            views(parts@) == starred(views_of(calls@)).take(i as int),
        decreases calls.len() - i,
    {
        let ghost before = views(parts@);
        let mut b = chars_of(calls[i].as_str());
        b.push('*');
        assert(b@ == starred(views_of(calls@))[i as int]);
        parts.push(b);
        i = i + 1;
        assert(views(parts@) =~= before.push(starred(views_of(calls@))[i - 1]));
    }
    assert(starred(views_of(calls@)).take(i as int) == starred(views_of(calls@)));
    let mut filter: Vec<char> = Vec::new();
    push_str(&mut filter, "b/");
    let mut slash: Vec<char> = Vec::new();
    slash.push('/');
    assert(slash@ == seq!['/']);
    let joined = join(&parts, slash.as_slice());
    push_all(&mut filter, joined.as_slice());
    assert(filter@ =~= watch_filter_spec(views_of(calls@)));
    string_of(filter.as_slice())
}

/// The filter and label for a watchlist; an empty watchlist is refused.
pub fn watch_filter(callsigns: &Vec<String>) -> (r: Result<(String, String), String>)
    ensures
        callsigns@.len() == 0 ==> (r matches Err(m) && m@ == empty_watchlist_message()),
        callsigns@.len() > 0 ==> (r matches Ok((f, l)) && f@ == watch_filter_spec(
            uppercase_all(views_of(callsigns@)),
        ) && l@ == "watching "@ + join_spec(views_of(callsigns@), seq![',', ' '])),
{
    if callsigns.len() == 0 {
        return Err(String::from_str("give at least one callsign, e.g. `claprs watch W0ODL-7 N5OQT`"));
    }
    let mut upper: Vec<String> = Vec::new();
    let mut names: Vec<Vec<char>> = Vec::new();
    let mut i: usize = 0;
    while i < callsigns.len()
        invariant
            i <= callsigns@.len(),
            views_of(upper@) == uppercase_all(views_of(callsigns@)).take(i as int),
            views(names@) == views_of(callsigns@).take(i as int),
        decreases callsigns.len() - i,
    {
        let ghost before_upper = views_of(upper@);
        let ghost before_names = views(names@);
        let name = chars_of(callsigns[i].as_str());
        let u = to_upper(callsigns[i].as_str());
        assert(u@ == uppercase_all(views_of(callsigns@))[i as int]);
        assert(name@ == views_of(callsigns@)[i as int]);
        upper.push(u);
        names.push(name);
        i = i + 1;
        assert(views_of(upper@) =~= before_upper.push(uppercase_all(views_of(callsigns@))[i - 1]));
        assert(views(names@) =~= before_names.push(views_of(callsigns@)[i - 1]));
    }
    assert(uppercase_all(views_of(callsigns@)).take(i as int) == uppercase_all(views_of(callsigns@)));
    assert(views_of(callsigns@).take(i as int) == views_of(callsigns@));
    let filter = filter_for_watchlist(&upper);
    let mut label: Vec<char> = Vec::new();
    push_str(&mut label, "watching ");
    let listed = join(&names, &[',', ' ']);
    push_all(&mut label, listed.as_slice());
    assert(label@ =~= "watching "@ + join_spec(views_of(callsigns@), seq![',', ' ']));
    Ok((filter, string_of(label.as_slice())))
}

/// The texts of a list of strings.
pub open spec fn views_of(v: Seq<String>) -> Seq<Seq<char>> {
    Seq::new(v.len(), |i: int| v[i]@)
}

/// A distance unit accepted on the command line.
#[derive(Clone, Copy, Debug, PartialEq, Eq)]
pub enum DistanceUnit {
    Miles,
    Kilometers,
}

/// The unit a lower-case name stands for: `mi`, `mile`, `miles`; `km`, `k`.
pub open spec fn unit_name_spec(u: Seq<char>) -> Option<DistanceUnit> {
    if u == "mi"@ || u == "mile"@ || u == "miles"@ {
        Some(DistanceUnit::Miles)
    } else if u == "km"@ || u == "k"@ {
        Some(DistanceUnit::Kilometers)
    } else {
        None
    }
}

pub open spec fn unknown_unit_message(u: Seq<char>) -> Seq<char> {
    "unknown unit '"@ + u + "': use mi or km"@
}

/// Reads a unit name already in lower case.
pub fn unit_from_lowercase(u: &str) -> (r: Result<DistanceUnit, String>)
    ensures
        match unit_name_spec(u@) {
            Some(d) => r == Ok::<DistanceUnit, String>(d),
            None => r matches Err(m) && m@ == unknown_unit_message(u@),
        },
{
    let v = chars_of(u);
    if same_text(v.as_slice(), "mi") || same_text(v.as_slice(), "mile") || same_text(
        v.as_slice(),
        "miles",
    ) {
        Ok(DistanceUnit::Miles)
    } else if same_text(v.as_slice(), "km") || same_text(v.as_slice(), "k") {
        Ok(DistanceUnit::Kilometers)
    } else {
        let mut m: Vec<char> = Vec::new();
        push_str(&mut m, "unknown unit '");
        push_all(&mut m, v.as_slice());
        push_str(&mut m, "': use mi or km");
        Err(string_of(m.as_slice()))
    }
}

/// Reads a distance unit, case-insensitively.
pub fn parse_unit(unit: &str) -> (r: Result<DistanceUnit, String>)
    ensures
        match unit_name_spec(lowercase(unit@)) {
            Some(d) => r == Ok::<DistanceUnit, String>(d),
            None => r matches Err(m) && m@ == unknown_unit_message(lowercase(unit@)),
        },
{
    let lower = to_lower(unit);
    unit_from_lowercase(lower.as_str())
}

} // verus!
