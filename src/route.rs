//! Routes to a WebSocket service, and the log-safe description of each.
use crate::redact::{log_safe_domain, redacted};
use vstd::prelude::*;
use vstd::string::StringExecFns;

verus! {

/// The description of a route before name resolution: the host it reaches,
/// the port, and the fronting route it goes through, if any.
#[derive(Clone, Debug, PartialEq, Eq)]
pub struct UnresolvedRouteDescription {
    pub host: String,
    pub port: u16,
    pub front_name: Option<String>,
}

/// An HTTP header as a name and a value.
#[derive(Clone, Debug, PartialEq, Eq)]
pub struct Header {
    pub name: String,
    pub value: String,
}

/// A route to a WebSocket service, not yet resolved.
#[derive(Clone, Debug, PartialEq, Eq)]
pub struct WebSocketServiceRoute {
    /// The route's identity in the outcome ledger.
    pub id: u64,
    /// Path and query of the WebSocket endpoint.
    pub endpoint: String,
    /// Extra headers sent with the upgrade request.
    pub headers: Vec<Header>,
    /// The value of the `Host` header.
    pub host_header: String,
    /// The name of the fronting route, where the route is fronted.
    pub front_name: Option<String>,
    /// The host that the transport connects to.
    pub host: String,
    pub port: u16,
}

/// The character of a decimal digit.
pub open spec fn digit_char(d: nat) -> char {
    if d == 0 {
        '0'
    } else if d == 1 {
        '1'
    } else if d == 2 {
        '2'
    } else if d == 3 {
        '3'
    } else if d == 4 {
        '4'
    } else if d == 5 {
        '5'
    } else if d == 6 {
        '6'
    } else if d == 7 {
        '7'
    } else if d == 8 {
        '8'
    } else {
        '9'
    }
}

/// The decimal numeral of `n`, without leading zeros.
pub open spec fn decimal(n: nat) -> Seq<char>
    decreases n,
{
    if n < 10 {
        seq![digit_char(n)]
    } else {
        decimal(n / 10).push(digit_char(n % 10))
    }
}

/// The characters of an optional string; none for `None`.
pub open spec fn opt_view(s: Option<String>) -> Option<Seq<char>> {
    match s {
        Some(v) => Some(v@),
        None => None,
    }
}

/// The log line for a route: the host as the redactor leaves it, a colon,
/// the port, and the fronting route's name after " fronted by " where there
/// is one.
pub open spec fn describe(host: Seq<char>, port: u16, front_name: Option<Seq<char>>) -> Seq<char> {
    let base = redacted(host) + ":"@ + decimal(port as nat);
    match front_name {
        Some(f) => base + " fronted by "@ + f,
        None => base,
    }
}

/// The header pairs as characters.
pub open spec fn headers_view(h: Seq<Header>) -> Seq<(Seq<char>, Seq<char>)> {
    h.map_values(|x: Header| (x.name@, x.value@))
}

/// Relies on `String::push`: appends one character.
#[verifier::external_body]
fn push_char(s: &mut String, c: char)
    ensures
        final(s)@ == old(s)@.push(c),
{
    s.push(c)
}

fn digit(d: u16) -> (c: char)
    requires
        d < 10,
    ensures
        c == digit_char(d as nat),
{
    if d == 0 {
        '0'
    } else if d == 1 {
        '1'
    } else if d == 2 {
        '2'
    } else if d == 3 {
        '3'
    } else if d == 4 {
        '4'
    } else if d == 5 {
        '5'
    } else if d == 6 {
        '6'
    } else if d == 7 {
        '7'
    } else if d == 8 {
        '8'
    } else {
        '9'
    }
}

/// Appends the decimal numeral of `n`.
pub fn push_decimal(s: &mut String, n: u16)
    ensures
        final(s)@ == old(s)@ + decimal(n as nat),
    decreases n,
{
    if n >= 10 {
        push_decimal(s, n / 10);
    }
    push_char(s, digit(n % 10));
    assert(final(s)@ =~= old(s)@ + decimal(n as nat));
}

fn clone_opt(s: &Option<String>) -> (r: Option<String>)
    ensures
        opt_view(r) == opt_view(*s),
{
    match s {
        Some(v) => Some(v.clone()),
        None => None,
    }
}

impl UnresolvedRouteDescription {
    /// The description rendered for a log line, with an untrusted host
    /// replaced by the placeholder.
    pub fn to_log_string(&self) -> (r: String)
        ensures
            r@ == describe(self.host@, self.port, opt_view(self.front_name)),
    {
        let mut s = String::from_str(log_safe_domain(self.host.as_str()));
        s.append(":");
        push_decimal(&mut s, self.port);
        match &self.front_name {
            Some(f) => {
                s.append(" fronted by ");
                s.append(f.as_str());
            },
            None => {},
        }
        s
    }
}

impl WebSocketServiceRoute {
    /// The log-safe description that stays with the route through an attempt.
    pub fn description(&self) -> (r: UnresolvedRouteDescription)
        ensures
            r.host@ == self.host@,
            r.port == self.port,
            opt_view(r.front_name) == opt_view(self.front_name),
    {
        UnresolvedRouteDescription {
            host: self.host.clone(),
            port: self.port,
            front_name: clone_opt(&self.front_name),
        }
    }
}

/// Adds the header `name: value` to every route, keeping the routes' order and
/// everything else about them.
pub fn with_header(routes: Vec<WebSocketServiceRoute>, name: &str, value: &str) -> (r: Vec<
    WebSocketServiceRoute,
>)
    ensures
        r@.len() == routes@.len(),
        forall|i: int|
            0 <= i < r@.len() ==> {
                let (a, b) = (#[trigger] r@[i], routes@[i]);
                &&& headers_view(a.headers@) == headers_view(b.headers@).push((name@, value@))
                &&& a.id == b.id
                &&& a.endpoint == b.endpoint
                &&& a.host_header == b.host_header
                &&& a.front_name == b.front_name
                &&& a.host == b.host
                &&& a.port == b.port
            },
{
    let ghost orig = routes@;
    let mut rest = routes;
    let mut out: Vec<WebSocketServiceRoute> = Vec::new();
    while rest.len() > 0
        invariant
            out@.len() + rest@.len() == orig.len(),
            rest@ == orig.subrange(out@.len() as int, orig.len() as int),
            forall|i: int|
                0 <= i < out@.len() ==> {
                    let (a, b) = (#[trigger] out@[i], orig[i]);
                    &&& headers_view(a.headers@) == headers_view(b.headers@).push((name@, value@))
                    &&& a.id == b.id
                    &&& a.endpoint == b.endpoint
                    &&& a.host_header == b.host_header
                    &&& a.front_name == b.front_name
                    &&& a.host == b.host
                    &&& a.port == b.port
                },
        decreases rest@.len(),
    {
        let mut route = rest.remove(0);
        let ghost before = route.headers@;
        route.headers.push(Header { name: String::from_str(name), value: String::from_str(value) });
        assert(headers_view(route.headers@) =~= headers_view(before).push((name@, value@)));
        out.push(route);
    }
    out
}

} // verus!
