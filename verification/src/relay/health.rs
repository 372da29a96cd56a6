//! The health/stats/metrics HTTP endpoint: which resource a request line
//! asks for, and the full response for it.
use vstd::prelude::*;
use crate::stats::{prometheus_text, render_prometheus, StatsSnapshot};
use crate::text::{decimal, decimal_string, utf8_byte_len, utf8_len};

verus! {

// ── Request line ───────────────────────────────────────────────────

/// The Unicode `White_Space` characters (what `char::is_whitespace`
/// accepts).
pub open spec fn is_ws(c: char) -> bool {
    let v = c as u32;
    (0x09 <= v && v <= 0x0d) || v == 0x20 || v == 0x85 || v == 0xa0 || v == 0x1680 || (0x2000
        <= v && v <= 0x200a) || v == 0x2028 || v == 0x2029 || v == 0x202f || v == 0x205f || v
        == 0x3000
}

fn is_whitespace(c: char) -> (r: bool)
    ensures
        r == is_ws(c),
{
    let v = c as u32;
    (0x09 <= v && v <= 0x0d) || v == 0x20 || v == 0x85 || v == 0xa0 || v == 0x1680 || (0x2000
        <= v && v <= 0x200a) || v == 0x2028 || v == 0x2029 || v == 0x202f || v == 0x205f || v
        == 0x3000
}

/// The maximal runs of non-whitespace characters of `s`, in order.
pub open spec fn words(s: Seq<char>) -> Seq<Seq<char>>
    decreases s.len(),
{
    if s.len() == 0 {
        Seq::empty()
    } else {
        let w = words(s.drop_last());
        let c = s.last();
        if is_ws(c) {
            w
        } else if s.len() >= 2 && !is_ws(s[s.len() - 2]) {
            w.update(w.len() - 1, w.last().push(c))
        } else {
            w.push(seq![c])
        }
    }
}

proof fn lemma_words_nonempty(s: Seq<char>)
    requires
        s.len() > 0,
        !is_ws(s.last()),
    ensures
        words(s).len() > 0,
    decreases s.len(),
{
    if s.len() >= 2 && !is_ws(s[s.len() - 2]) {
        let p = s.drop_last();
        assert(p.last() == s[s.len() - 2]);
        lemma_words_nonempty(p);
    }
}

/// The characters of `t` before its first `?`.
pub open spec fn before_query(t: Seq<char>) -> Seq<char>
    decreases t.len(),
{
    if t.len() == 0 {
        Seq::empty()
    } else if t[0] == '?' {
        Seq::empty()
    } else {
        seq![t[0]] + before_query(t.drop_first())
    }
}

/// The path a request line asks for: its second word without any query
/// string, or `/` when the line has fewer than two words.
pub open spec fn request_path_spec(line: Seq<char>) -> Seq<char> {
    if words(line).len() >= 2 {
        before_query(words(line)[1])
    } else {
        "/"@
    }
}

fn second_word(line: &str) -> (r: Option<String>)
    ensures
        words(line@).len() >= 2 ==> r is Some && r.unwrap()@ == words(line@)[1],
        words(line@).len() < 2 ==> r is None,
{
    let n = line.unicode_len();
    let mut count: usize = 0;
    let mut prev_ws = true;
    let mut token = String::new();
    let mut i: usize = 0;
    while i < n
        invariant
            n == line@.len(),
            i <= n,
            count == words(line@.take(i as int)).len(),
            count <= i,
            prev_ws == (i == 0 || is_ws(line@[i - 1])),
            token@ == (if count >= 2 {
                words(line@.take(i as int))[1]
            } else {
                Seq::empty()
            }),
        decreases n - i,
    {
        let c = line.get_char(i);
        let ghost pre = line@.take(i as int);
        let ghost cur = line@.take(i + 1);
        proof {
            assert(cur.drop_last() =~= pre);
            assert(cur.last() == c);
            if i > 0 {
                assert(cur[cur.len() - 2] == line@[i - 1]);
                assert(pre.last() == line@[i - 1]);
            }
        }
        if is_whitespace(c) {
            prev_ws = true;
        } else if !prev_ws {
            proof {
                lemma_words_nonempty(pre);
            }
            if count == 2 {
                token.append(line.substring_char(i, i + 1));
                assert(line@.subrange(i as int, i + 1) =~= seq![c]);
            }
            prev_ws = false;
        } else {
            if count == 1 {
                token.append(line.substring_char(i, i + 1));
                assert(line@.subrange(i as int, i + 1) =~= seq![c]);
            }
            count = count + 1;
            prev_ws = false;
        }
        i = i + 1;
    }
    assert(line@.take(n as int) =~= line@);
    if count >= 2 {
        Some(token)
    } else {
        None
    }
}

fn strip_query(t: &str) -> (r: String)
    ensures
        r@ == before_query(t@),
{
    let n = t.unicode_len();
    let mut out = String::new();
    let mut i: usize = 0;
    assert(t@.skip(0) =~= t@);
    assert(out@ + before_query(t@) =~= before_query(t@));
    while i < n
        invariant
            n == t@.len(),
            i <= n,
            before_query(t@) == out@ + before_query(t@.skip(i as int)),
        decreases n - i,
    {
        let c = t.get_char(i);
        proof {
            assert(t@.skip(i as int)[0] == c);
            assert(t@.skip(i as int).drop_first() =~= t@.skip(i + 1));
        }
        if c == '?' {
            assert(before_query(t@.skip(i as int)) == Seq::<char>::empty());
            assert(out@ + Seq::<char>::empty() =~= out@);
            return out;
        }
        let ghost before = out@;
        out.append(t.substring_char(i, i + 1));
        assert(t@.subrange(i as int, i + 1) =~= seq![c]);
        assert(before + before_query(t@.skip(i as int)) =~= out@ + before_query(t@.skip(i + 1)));
        i = i + 1;
    }
    assert(t@.skip(n as int) =~= Seq::<char>::empty());
    assert(out@ + Seq::<char>::empty() =~= out@);
    out
}

/// The path a request line asks for, as the health server reads it.
pub fn request_path(line: &str) -> (r: String)
    ensures
        r@ == request_path_spec(line@),
{
    match second_word(line) {
        Some(w) => strip_query(w.as_str()),
        None => String::from_str("/"),
    }
}

// ── Routing and the response ───────────────────────────────────────

/// The resources the health server knows.
#[derive(Debug, Clone, Copy, PartialEq, Eq, Structural)]
pub enum HealthRoute {
    Health,
    Stats,
    Metrics,
    NotFound,
}

pub open spec fn route_of(path: Seq<char>) -> HealthRoute {
    if path == "/health"@ {
        HealthRoute::Health
    } else if path == "/stats"@ {
        HealthRoute::Stats
    } else if path == "/metrics"@ {
        HealthRoute::Metrics
    } else {
        HealthRoute::NotFound
    }
}

/// Which resource a request line asks for.
pub fn route_request(line: &str) -> (r: HealthRoute)
    ensures
        r == route_of(request_path_spec(line@)),
{
    let path = request_path(line);
    let health = String::from_str("/health");
    let stats = String::from_str("/stats");
    let metrics = String::from_str("/metrics");
    if path == health {
        HealthRoute::Health
    } else if path == stats {
        HealthRoute::Stats
    } else if path == metrics {
        HealthRoute::Metrics
    } else {
        HealthRoute::NotFound
    }
}

/// An HTTP/1.1 response that closes the connection, with the body's UTF-8
/// length as `Content-Length`.
pub open spec fn http_response(status: Seq<char>, content_type: Seq<char>, body: Seq<char>) -> Seq<
    char,
> {
    "HTTP/1.1 "@ + status + "\r\nContent-Type: "@ + content_type + "\r\nContent-Length: "@
        + decimal(utf8_len(body)) + "\r\nConnection: close\r\n\r\n"@ + body
}

fn http_response_text(status: &str, content_type: &str, body: &str) -> (r: String)
    ensures
        r@ == http_response(status@, content_type@, body@),
{
    let mut out = String::from_str("HTTP/1.1 ");
    out.append(status);
    out.append("\r\nContent-Type: ");
    out.append(content_type);
    out.append("\r\nContent-Length: ");
    let len = decimal_string(utf8_byte_len(body));
    out.append(len.as_str());
    out.append("\r\nConnection: close\r\n\r\n");
    out.append(body);
    out
}

/// The response the health server sends for a route. `/stats` answers
/// with `stats_json`, the snapshots as a JSON array, or with a 500 when
/// they could not be serialised (`None`); `/metrics` renders the snapshots
/// in Prometheus text format.
pub open spec fn health_response(
    route: HealthRoute,
    snapshots: Seq<StatsSnapshot>,
    stats_json: Option<Seq<char>>,
) -> Seq<char> {
    match route {
        HealthRoute::Health => http_response(
            "200 OK"@,
            "application/json"@,
            "{\"status\":\"ok\"}"@,
        ),
        HealthRoute::Stats => match stats_json {
            Some(j) => http_response("200 OK"@, "application/json"@, j),
            None => http_response(
                "500 Internal Server Error"@,
                "application/json"@,
                "{\"error\":\"serialize failed\"}"@,
            ),
        },
        HealthRoute::Metrics => http_response(
            "200 OK"@,
            "text/plain; version=0.0.4; charset=utf-8"@,
            prometheus_text(snapshots),
        ),
        HealthRoute::NotFound => http_response(
            "404 Not Found"@,
            "application/json"@,
            "{\"error\":\"not found\"}"@,
        ),
    }
}

/// Builds the full response for a route.
pub fn build_health_response(
    route: HealthRoute,
    snapshots: &[StatsSnapshot],
    stats_json: Option<&str>,
) -> (r: String)
    ensures
        r@ == health_response(
            route,
            snapshots@,
            match stats_json {
                Some(j) => Some(j@),
                None => None,
            },
        ),
{
    match route {
        HealthRoute::Health => http_response_text(
            "200 OK",
            "application/json",
            "{\"status\":\"ok\"}",
        ),
        HealthRoute::Stats => match stats_json {
            Some(j) => http_response_text("200 OK", "application/json", j),
            None => http_response_text(
                "500 Internal Server Error",
                "application/json",
                "{\"error\":\"serialize failed\"}",
            ),
        },
        HealthRoute::Metrics => {
            let body = render_prometheus(snapshots);
            http_response_text(
                "200 OK",
                "text/plain; version=0.0.4; charset=utf-8",
                body.as_str(),
            )
        },
        HealthRoute::NotFound => http_response_text(
            "404 Not Found",
            "application/json",
            "{\"error\":\"not found\"}",
        ),
    }
}

// ── Listening addresses ────────────────────────────────────────────

/// An IP address by its numeric value (as `u32::from` / `u128::from` of
/// the standard address types give it).
#[derive(Debug, Clone, Copy, PartialEq, Eq, Structural)]
pub enum IpValue {
    V4(u32),
    V6(u128),
}

/// One address for the health listener to bind.
#[derive(Debug, Clone, Copy, PartialEq, Eq, Structural)]
pub struct BindTarget {
    pub ip: IpValue,
    pub port: u16,
}

/// `general.health_bind_addr` as read: absent, an IP address, or text that
/// is not one.
#[derive(Debug, Clone, Copy, PartialEq, Eq, Structural)]
pub enum ConfiguredBind {
    Unset,
    Parsed(IpValue),
    Unparsable,
}

/// Both unspecified addresses, IPv4 first, on `port`.
pub open spec fn dual_stack(port: u16) -> Seq<BindTarget> {
    seq![BindTarget { ip: IpValue::V4(0), port }, BindTarget { ip: IpValue::V6(0), port }]
}

/// The addresses the health listener binds: the configured address alone
/// when there is one, else `0.0.0.0` and `::`. Text that is not an address
/// falls back to the same pair, so the endpoint stays reachable.
pub fn resolve_health_bind_addrs(port: u16, configured: ConfiguredBind) -> (r: Vec<BindTarget>)
    ensures
        r@ == match configured {
            ConfiguredBind::Parsed(ip) => seq![BindTarget { ip, port }],
            _ => dual_stack(port),
        },
{
    let mut out: Vec<BindTarget> = Vec::new();
    match configured {
        ConfiguredBind::Parsed(ip) => {
            out.push(BindTarget { ip, port });
        },
        _ => {
            out.push(BindTarget { ip: IpValue::V4(0), port });
            out.push(BindTarget { ip: IpValue::V6(0), port });
        },
    }
    assert(out@ =~= match configured {
        ConfiguredBind::Parsed(ip) => seq![BindTarget { ip, port }],
        _ => dual_stack(port),
    });
    out
}

} // verus!

