//! The read-only APRS-IS login and what becomes of each line the server
//! sends.

use vstd::prelude::*;
use crate::text::{chars_of, contains, contains_spec, copy_range, occurs_at, push_str, string_of};

verus! {

/// `user CALL pass -1 vers claprs VERSION filter FILTER\r\n`: passcode `-1`
/// logs in receive-only, so the connection can never transmit, and the
/// server-side filter is always sent.
pub open spec fn login_line_spec(callsign: Seq<char>, version: Seq<char>, filter: Seq<char>) -> Seq<char> {
    "user "@ + callsign + " pass -1 vers claprs "@ + version + " filter "@ + filter + seq!['\r', '\n']
}

/// The login line for a callsign, program version and server-side filter.
pub fn login_line(callsign: &str, version: &str, filter: &str) -> (r: String)
    ensures
        r@ == login_line_spec(callsign@, version@, filter@),
{
    let mut out: Vec<char> = Vec::new();
    push_str(&mut out, "user ");
    push_str(&mut out, callsign);
    push_str(&mut out, " pass -1 vers claprs ");
    push_str(&mut out, version);
    push_str(&mut out, " filter ");
    push_str(&mut out, filter);
    out.push('\r');
    out.push('\n');
    string_of(out.as_slice())
}

/// A line from the server.
pub enum ServerLine {
    /// A packet line, handed on.
    Packet,
    /// A server comment (`#...`); the text after `#` when it is the login
    /// response, which is shown, else nothing.
    Comment(Option<String>),
}

/// Server comments start with `#`; only the login response (`logresp`) is
/// shown, the others are swallowed.
pub open spec fn classify_spec(line: Seq<char>) -> Option<Option<Seq<char>>> {
    if line.len() > 0 && line[0] == '#' {
        let rest = line.drop_first();
        Some(if contains_spec(rest, "logresp"@) { Some(rest) } else { None })
    } else {
        None
    }
}

/// Sorts a received line into a packet or a server comment.
pub fn classify_line(line: &str) -> (r: ServerLine)
    ensures
        match classify_spec(line@) {
            None => r is Packet,
            Some(None) => r matches ServerLine::Comment(None),
            Some(Some(t)) => r matches ServerLine::Comment(Some(s)) && s@ == t,
        },
{
    let c = chars_of(line);
    if c.len() > 0 && c[0] == '#' {
        let rest = copy_range(c.as_slice(), 1, c.len());
        assert(rest@ == line@.drop_first());
        let key = chars_of("logresp");
        if contains(rest.as_slice(), key.as_slice()) {
            ServerLine::Comment(Some(string_of(rest.as_slice())))
        } else {
            ServerLine::Comment(None)
        }
    } else {
        ServerLine::Packet
    }
}

/// The login always names passcode `-1` and the filter.
pub proof fn login_is_receive_only(callsign: Seq<char>, version: Seq<char>, filter: Seq<char>)
    ensures
        contains_spec(login_line_spec(callsign, version, filter), " pass -1 "@),
        contains_spec(login_line_spec(callsign, version, filter), " filter "@ + filter),
{
    let l = login_line_spec(callsign, version, filter);
    let a = "user "@ + callsign;
    let p = " pass -1 vers claprs "@;
    let q = " pass -1 "@;
    reveal_strlit(" pass -1 vers claprs ");
    reveal_strlit(" pass -1 ");
    assert(p.subrange(0, q.len() as int) =~= q);
    assert(l.subrange(a.len() as int, (a.len() + q.len()) as int) =~= p.subrange(0, q.len() as int));
    assert(occurs_at(l, q, a.len() as int));
    let b = a + p + version;
    let f = " filter "@ + filter;
    assert(l.subrange(b.len() as int, (b.len() + f.len()) as int) =~= f);
    assert(occurs_at(l, f, b.len() as int));
}

} // verus!
