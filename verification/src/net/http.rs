//! HTTP requests: URL parsing, then the capability and firewall checks that every request
//! passes before it is sent.
use vstd::prelude::*;
use vstd::string::{StringExecFns, StrSliceExecFns};
use crate::task::TaskId;
use crate::capability::{CapId, CapabilityTable, PermissionBits};
use crate::capability::permissions::CONNECT_BIT;
use crate::capability::table::validate_result;
use crate::capability::resource::str_starts_with;
use super::firewall::{check_outbound, outbound_decision, FirewallDecision};

verus! {

#[derive(Debug)]
pub struct HttpResponse {
    pub status_code: u16,
    pub body: Vec<u8>,
}

#[derive(Debug, Clone, Copy, PartialEq, Eq)]
pub enum HttpError {
    DnsResolutionFailed,
    ConnectionFailed,
    SendFailed,
    ReceiveFailed,
    ParseError,
    CapabilityDenied,
    FirewallDenied,
}

/// Port used when a URL names none or an unreadable one.
pub const DEFAULT_PORT: u16 = 443;

pub open spec fn https_prefix() -> Seq<char> {
    seq!['h', 't', 't', 'p', 's', ':', '/', '/']
}

pub open spec fn http_prefix() -> Seq<char> {
    seq!['h', 't', 't', 'p', ':', '/', '/']
}

/// `u` without its `https://` or `http://` scheme.
pub open spec fn strip_scheme(u: Seq<char>) -> Seq<char> {
    if https_prefix().is_prefix_of(u) {
        u.skip(8)
    } else if http_prefix().is_prefix_of(u) {
        u.skip(7)
    } else {
        u
    }
}

/// Index of the first `c` in `u`.
pub open spec fn first_index(u: Seq<char>, c: char) -> Option<int> {
    if exists|i: int| 0 <= i < u.len() && u[i] == c {
        Some(choose|i: int| 0 <= i < u.len() && u[i] == c && forall|j: int| 0 <= j < i ==> u[j] != c)
    } else {
        None
    }
}

/// Value of a string of decimal digits.
pub open spec fn digits_value(s: Seq<char>) -> nat
    decreases s.len(),
{
    if s.len() == 0 {
        0
    } else {
        (digits_value(s.drop_last()) * 10 + (s.last() as int - 48)) as nat
    }
}

pub open spec fn is_digit(c: char) -> bool {
    '0' <= c && c <= '9'
}

/// Every character of `d` is a decimal digit.
pub open spec fn all_digits(d: Seq<char>) -> bool {
    forall|i: int| 0 <= i < d.len() ==> is_digit(#[trigger] d[i])
}

/// `s` without a leading `+`.
pub open spec fn unsigned_part(s: Seq<char>) -> Seq<char> {
    if s.len() > 0 && s[0] == '+' {
        s.skip(1)
    } else {
        s
    }
}

/// `s` read as a `u16` the way `str::parse` reads it: an optional `+`, then one or more
/// decimal digits, with a value that fits.
pub open spec fn parse_u16_spec(s: Seq<char>) -> Option<u16> {
    let d = unsigned_part(s);
    if d.len() > 0 && all_digits(d) && digits_value(d) <= 65535 {
        Some(digits_value(d) as u16)
    } else {
        None
    }
}

/// `u` split at its first `/` into host-and-port and path (`/` when there is none).
pub open spec fn split_path_spec(u: Seq<char>) -> (Seq<char>, Seq<char>) {
    match first_index(u, '/') {
        Some(i) => (u.take(i), u.skip(i)),
        None => (u, seq!['/']),
    }
}

/// Host and port of `host_port`: the port follows the first `:` (443 when absent or not a
/// valid port).
pub open spec fn split_port_spec(host_port: Seq<char>) -> (Seq<char>, u16) {
    match first_index(host_port, ':') {
        Some(i) => (
            host_port.take(i),
            match parse_u16_spec(host_port.skip(i + 1)) {
                Some(p) => p,
                None => DEFAULT_PORT,
            },
        ),
        None => (host_port, DEFAULT_PORT),
    }
}

/// `(host, port, path)` of a URL: the scheme is dropped, then the path and the port are
/// split off.
pub open spec fn parse_url_spec(url: Seq<char>) -> (Seq<char>, u16, Seq<char>) {
    let (host_port, path) = split_path_spec(strip_scheme(url));
    let (host, port) = split_port_spec(host_port);
    (host, port, path)
}

/// Position of the first `c` in `s`.
fn find_char(s: &str, c: char) -> (r: Option<usize>)
    ensures
        match r {
            Some(i) => first_index(s@, c) == Some(i as int) && i < s@.len() && s@[i as int] == c,
            None => first_index(s@, c) is None,
        },
{
    let n = s.unicode_len();
    let mut i: usize = 0;
    while i < n
        invariant
            i <= n == s@.len(),
            forall|j: int| 0 <= j < i ==> s@[j] != c,
        decreases n - i,
    {
        if s.get_char(i) == c {
            proof {
                let w = choose|w: int| 0 <= w < s@.len() && s@[w] == c && forall|j: int| 0 <= j < w ==> s@[j] != c;
                assert(w == i) by {
                    if w < i {
                        assert(s@[w] != c);
                    } else if w > i {
                        assert(s@[i as int] == c);
                    }
                }
            }
            return Some(i);
        }
        i = i + 1;
    }
    None
}

/// `s` read as a `u16`, as `str::parse` reads it.
pub fn parse_u16(s: &str) -> (r: Option<u16>)
    ensures
        r == parse_u16_spec(s@),
{
    let n = s.unicode_len();
    let start: usize = if n > 0 && s.get_char(0) == '+' { 1 } else { 0 };
    let ghost d = unsigned_part(s@);
    if start >= n {
        assert(d.len() == 0);
        return None;
    }
    assert(d =~= s@.skip(start as int));
    let mut value: u32 = 0;
    let mut i: usize = start;
    while i < n
        invariant
            start <= i <= n == s@.len(),
            start == 0 || start == 1,
            d == s@.skip(start as int),
            d == unsigned_part(s@),
            forall|j: int| 0 <= j < i - start ==> is_digit(#[trigger] d[j]),
            value == digits_value(d.take(i - start)),
            value <= 65535,
        decreases n - i,
    {
        let c = s.get_char(i);
        if !('0' <= c && c <= '9') {
            assert(d[i - start] == c);
            assert(!is_digit(d[i - start]));
            return None;
        }
        let digit = (c as u32) - ('0' as u32);
        assert(d.take(i - start + 1).drop_last() =~= d.take(i - start));
        assert(d.take(i - start + 1).last() == c);
        if value * 10 + digit > 65535 {
            proof {
                assert(d[i - start] == c);
                if all_digits(d) {
                    lemma_digits_grow(d, (i - start + 1) as int);
                }
            }
            return None;
        }
        value = value * 10 + digit;
        i = i + 1;
    }
    assert(d.take(i - start) =~= d);
    Some(value as u16)
}

/// A digit string's value only grows as digits are appended.
proof fn lemma_digits_grow(d: Seq<char>, k: int)
    requires
        0 <= k <= d.len(),
        forall|j: int| 0 <= j < d.len() ==> is_digit(#[trigger] d[j]),
    ensures
        digits_value(d.take(k)) <= digits_value(d),
    decreases d.len() - k,
{
    if k < d.len() {
        lemma_digits_grow(d, k + 1);
        assert(d.take(k + 1).drop_last() =~= d.take(k));
        assert(is_digit(d[k]));
    } else {
        assert(d.take(k) =~= d);
    }
}

fn split_path(u: &str) -> (r: (&str, String))
    ensures
        (r.0@, r.1@) == split_path_spec(u@),
{
    proof {
        reveal_strlit("/");
    }
    let un = u.unicode_len();
    match find_char(u, '/') {
        Some(i) => {
            let hp = u.substring_char(0, i);
            let path = String::from_str(u.substring_char(i, un));
            assert(hp@ =~= u@.take(i as int));
            assert(path@ =~= u@.skip(i as int));
            (hp, path)
        },
        None => {
            let path = String::from_str("/");
            assert(path@ =~= seq!['/']);
            (u, path)
        },
    }
}

fn split_port(host_port: &str) -> (r: (String, u16))
    ensures
        (r.0@, r.1) == split_port_spec(host_port@),
{
    let hn = host_port.unicode_len();
    match find_char(host_port, ':') {
        Some(i) => {
            let host = String::from_str(host_port.substring_char(0, i));
            let rest = host_port.substring_char(i + 1, hn);
            let port = match parse_u16(rest) {
                Some(p) => p,
                None => DEFAULT_PORT,
            };
            assert(host@ =~= host_port@.take(i as int));
            assert(rest@ =~= host_port@.skip(i + 1));
            (host, port)
        },
        None => (String::from_str(host_port), DEFAULT_PORT),
    }
}

fn strip_scheme_exec(url: &str) -> (u: &str)
    ensures
        u@ == strip_scheme(url@),
{
    proof {
        reveal_strlit("https://");
        reveal_strlit("http://");
    }
    assert("https://"@ =~= https_prefix());
    assert("http://"@ =~= http_prefix());
    let n = url.unicode_len();
    if str_starts_with(url, "https://") {
        url.substring_char(8, n)
    } else if str_starts_with(url, "http://") {
        url.substring_char(7, n)
    } else {
        url
    }
}

/// Split `url` into host, port and path.
pub fn parse_url(url: &str) -> (r: Result<(String, u16, String), HttpError>)
    ensures
        r matches Ok((h, p, path)) && (h@, p, path@) == parse_url_spec(url@),
{
    let u = strip_scheme_exec(url);
    let (host_port, path) = split_path(u);
    let (host, port) = split_port(host_port);
    Ok((host, port, path))
}

/// The outcome of a request from `task` to `url` under `net_cap`: refused without a valid
/// `CONNECT` capability, refused by the firewall when the capability does not cover the
/// URL's host and port, else answered `200` with body `{}`.
pub open spec fn request_outcome(
    caps: Seq<Option<crate::capability::Capability>>,
    url: Seq<char>,
    task: TaskId,
    net_cap: CapId,
) -> Result<(u16, Seq<u8>), HttpError> {
    let (host, port, _path) = parse_url_spec(url);
    if validate_result(caps, net_cap as int, task, CONNECT_BIT) is Err {
        Err(HttpError::CapabilityDenied)
    } else if outbound_decision(caps, task, net_cap, host, port) is Some {
        Err(HttpError::FirewallDenied)
    } else {
        Ok((200u16, seq![0x7bu8, 0x7du8]))
    }
}

fn request(url: &str, table: &CapabilityTable, task_id: TaskId, net_cap: CapId) -> (r: Result<HttpResponse, HttpError>)
    requires
        table.wf(),
    ensures
        match (r, request_outcome(table.caps(), url@, task_id, net_cap)) {
            (Ok(resp), Ok((code, body))) => resp.status_code == code && resp.body@ == body,
            (Err(e), Err(f)) => e == f,
            _ => false,
        },
{
    let (host, port, _path) = match parse_url(url) {
        Ok(parts) => parts,
        Err(e) => return Err(e),
    };
    if table.validate(net_cap, task_id, PermissionBits::connect()).is_err() {
        return Err(HttpError::CapabilityDenied);
    }
    match check_outbound(table, task_id, net_cap, host.as_str(), port) {
        FirewallDecision::Deny(_) => return Err(HttpError::FirewallDenied),
        FirewallDecision::Allow => {},
    }
    let body: Vec<u8> = vec![0x7bu8, 0x7du8];
    assert(body@ =~= seq![0x7bu8, 0x7du8]);
    Ok(HttpResponse { status_code: 200, body })
}

/// `GET url` on behalf of `task_id` under `net_cap`.
pub fn get(url: &str, table: &CapabilityTable, task_id: TaskId, net_cap: CapId) -> (r: Result<HttpResponse, HttpError>)
    requires
        table.wf(),
    ensures
        match (r, request_outcome(table.caps(), url@, task_id, net_cap)) {
            (Ok(resp), Ok((code, body))) => resp.status_code == code && resp.body@ == body,
            (Err(e), Err(f)) => e == f,
            _ => false,
        },
{
    request(url, table, task_id, net_cap)
}

/// `POST url` with `body` on behalf of `task_id` under `net_cap`.
pub fn post(url: &str, body: &[u8], table: &CapabilityTable, task_id: TaskId, net_cap: CapId) -> (r: Result<HttpResponse, HttpError>)
    requires
        table.wf(),
    ensures
        match (r, request_outcome(table.caps(), url@, task_id, net_cap)) {
            (Ok(resp), Ok((code, b))) => resp.status_code == code && resp.body@ == b,
            (Err(e), Err(f)) => e == f,
            _ => false,
        },
{
    request(url, table, task_id, net_cap)
}

} // verus!
