//! Last-known-position lookups via the aprs.fi API: the request address,
//! the reading of the reply status, and the lines shown for each station.

use vstd::prelude::*;
use crate::text::{chars_of, push_str, same_text, string_of};

verus! {

/// `https://api.aprs.fi/api/get?name=CALL&what=loc&apikey=KEY&format=json`
pub open spec fn lookup_url_spec(key: Seq<char>, callsign: Seq<char>) -> Seq<char> {
    "https://api.aprs.fi/api/get?name="@ + callsign + "&what=loc&apikey="@ + key + "&format=json"@
}

pub fn lookup_url(key: &str, callsign: &str) -> (r: String)
    ensures
        r@ == lookup_url_spec(key@, callsign@),
{
    let mut out: Vec<char> = Vec::new();
    push_str(&mut out, "https://api.aprs.fi/api/get?name=");
    push_str(&mut out, callsign);
    push_str(&mut out, "&what=loc&apikey=");
    push_str(&mut out, key);
    push_str(&mut out, "&format=json");
    assert(out@ =~= lookup_url_spec(key@, callsign@));
    string_of(out.as_slice())
}

pub open spec fn text_or(o: Option<Seq<char>>, default: Seq<char>) -> Seq<char> {
    match o {
        Some(t) => t,
        None => default,
    }
}

/// A reply is accepted only when its `result` is `ok`; otherwise the error
/// names the reply's `description` (or "unknown error").
pub open spec fn check_reply_spec(result: Option<Seq<char>>, description: Option<Seq<char>>) -> Result<(), Seq<char>> {
    if text_or(result, seq![]) == "ok"@ {
        Ok(())
    } else {
        Err("aprs.fi error: "@ + text_or(description, "unknown error"@))
    }
}

pub open spec fn opt_str_view(o: Option<&str>) -> Option<Seq<char>> {
    match o {
        Some(s) => Some(s@),
        None => None,
    }
}

pub fn check_reply(result: Option<&str>, description: Option<&str>) -> (r: Result<(), String>)
    ensures
        match check_reply_spec(opt_str_view(result), opt_str_view(description)) {
            Ok(()) => r is Ok,
            Err(m) => r matches Err(e) && e@ == m,
        },
{
    let ok = match result {
        Some(t) => same_text(chars_of(t).as_slice(), "ok"),
        None => {
            proof {
                reveal_strlit("ok");
            }
            false
        },
    };
    if ok {
        Ok(())
    } else {
        let mut out: Vec<char> = Vec::new();
        push_str(&mut out, "aprs.fi error: ");
        match description {
            Some(d) => push_str(&mut out, d),
            None => push_str(&mut out, "unknown error"),
        }
        Err(string_of(out.as_slice()))
    }
}

/// The message when no position is stored for a callsign.
pub fn no_position_message(callsign: &str) -> (r: String)
    ensures
        r@ == "no stored position found for "@ + callsign@,
{
    let mut out: Vec<char> = Vec::new();
    push_str(&mut out, "no stored position found for ");
    push_str(&mut out, callsign);
    string_of(out.as_slice())
}

/// The lines shown for one stored station: its name (`?` when empty), its
/// position, when it was heard, and its comment when there is one.
pub open spec fn entry_lines_spec(name: Seq<char>, lat: Seq<char>, lng: Seq<char>, when: Seq<char>, comment: Seq<char>) -> Seq<Seq<char>> {
    let first = if name.len() == 0 { "?"@ } else { name };
    let lines = seq![first, "  position : "@ + lat + ", "@ + lng, "  heard    : "@ + when];
    if comment.len() > 0 {
        lines.push("  comment  : "@ + comment)
    } else {
        lines
    }
}

pub open spec fn string_views(v: Seq<String>) -> Seq<Seq<char>> {
    Seq::new(v.len(), |i: int| v[i]@)
}

pub fn entry_lines(name: &str, lat: &str, lng: &str, when: &str, comment: &str) -> (r: Vec<String>)
    ensures
        string_views(r@) == entry_lines_spec(name@, lat@, lng@, when@, comment@),
{
    let mut lines: Vec<String> = Vec::new();
    if name.is_empty() {
        lines.push(String::from_str("?"));
    } else {
        lines.push(String::from_str(name));
    }
    let mut pos: Vec<char> = Vec::new();
    push_str(&mut pos, "  position : ");
    push_str(&mut pos, lat);
    push_str(&mut pos, ", ");
    push_str(&mut pos, lng);
    lines.push(string_of(pos.as_slice()));
    let mut heard: Vec<char> = Vec::new();
    push_str(&mut heard, "  heard    : ");
    push_str(&mut heard, when);
    lines.push(string_of(heard.as_slice()));
    if !comment.is_empty() {
        let mut c: Vec<char> = Vec::new();
        push_str(&mut c, "  comment  : ");
        push_str(&mut c, comment);
        lines.push(string_of(c.as_slice()));
    }
    assert(string_views(lines@) =~= entry_lines_spec(name@, lat@, lng@, when@, comment@));
    lines
}

} // verus!
