//! Remote HTTP endpoints as an operator writes them.
use vstd::prelude::*;
use vstd::string::*;

use crate::common::url_parts::{parse_url, parse_view, url_parse, UrlModel, UrlParts};
use crate::text::{
    before_first, chars_of, concat2, concat3, copied, find, find_from, first_of, lower_text,
    lowered_all, occurs, pieces_hold_no_separator, position_of, same, split, split_ranges,
    text_between, texts, trim, trim_range, trimmed, trimming_keeps, trimming_twice,
    unseparated_texts_are_one_piece,
};

verus! {

/// A syntactically invalid HTTP remote endpoint.
#[derive(Clone, Debug, PartialEq, Eq)]
pub struct HttpHostError {
    pub value: String,
    pub reason: String,
}

/// What an error says: the value and what is wrong with it.
#[verifier::ext_equal]
pub struct HostFault {
    pub value: Seq<char>,
    pub reason: Seq<char>,
}

impl View for HttpHostError {
    type V = HostFault;

    open spec fn view(&self) -> HostFault {
        HostFault { value: self.value@, reason: self.reason@ }
    }
}

/// The fault of `value`, an empty one made visible.
pub open spec fn fault(value: Seq<char>, reason: Seq<char>) -> HostFault {
    HostFault {
        value: if value.len() == 0 {
            "<empty>"@
        } else {
            value
        },
        reason,
    }
}

impl HttpHostError {
    fn new(value: &str, reason: &str) -> (r: HttpHostError)
        ensures
            r@ == fault(value@, reason@),
    {
        HttpHostError {
            value: if value.is_empty() {
                copied("<empty>")
            } else {
                copied(value)
            },
            reason: copied(reason),
        }
    }

    /// The message that names the value and the reason.
    pub fn message(&self) -> (r: String)
        ensures
            r@ == "invalid remote host `"@ + self.value@ + "`: "@ + self.reason@,
    {
        crate::text::concat4(
            "invalid remote host `",
            self.value.as_str(),
            "`: ",
            self.reason.as_str(),
        )
    }
}

/// Whether `s` is `http` or `https`, whatever its case.
pub open spec fn is_http_scheme(s: Seq<char>) -> bool {
    lowered_all(s) == "http"@ || lowered_all(s) == "https"@
}

fn http_scheme(c: &[char], end: usize) -> (r: bool)
    requires
        end <= c@.len(),
    ensures
        r == is_http_scheme(c@.take(end as int)),
{
    let scheme: String = lower_text(c, 0, end);
    assert(c@.subrange(0, end as int) == c@.take(end as int));
    same(scheme.as_str(), "http") || same(scheme.as_str(), "https")
}

/// `host` without an HTTP scheme.
pub open spec fn without_scheme(host: Seq<char>) -> Seq<char> {
    let at = find_from(host, "://"@, 0);
    if at < host.len() && is_http_scheme(host.take(at)) {
        host.skip(at + 3)
    } else {
        host
    }
}

/// The key that an endpoint is tracked under.
pub open spec fn identifier(host: Seq<char>) -> Seq<char> {
    before_first(without_scheme(host), '/')
}

/// The `host:port` key a remote endpoint is tracked under: the scheme and any
/// path are dropped, so `http://node-a:9090` and `node-a:9090` name the same
/// host. Tabs, connection status, and every scraped device use this key, which
/// is what keeps them joinable when the operator spells the endpoint with a
/// scheme.
pub fn host_identifier(host: &str) -> (r: String)
    ensures
        r@ == identifier(host@),
{
    let c: Vec<char> = chars_of(host);
    let mark: Vec<char> = chars_of("://");
    proof {
        reveal_strlit("://");
    }
    let len: usize = c.len();
    let start: usize = match find(c.as_slice(), mark.as_slice(), 0) {
        Some(at) => if http_scheme(c.as_slice(), at) {
            at + 3
        } else {
            0
        },
        None => 0,
    };
    let end: usize = position_of(c.as_slice(), start, len, '/');
    proof {
        let rest = c@.subrange(start as int, c@.len() as int);
        assert(rest == without_scheme(host@)) by {
            assert(c@.subrange(0, c@.len() as int) == c@);
            assert(c@.subrange(start as int, c@.len() as int) == c@.skip(start as int));
        }
        assert(rest.take(end - start) == c@.subrange(start as int, end as int));
    }
    text_between(c.as_slice(), start, end)
}

/// The URL text that `host` stands for, or what is wrong with it before any
/// parsing.
pub open spec fn candidate(host: Seq<char>) -> Result<Seq<char>, HostFault> {
    let colon = first_of(host, ':');
    let at = find_from(host, "://"@, 0);
    if colon < host.len() && is_http_scheme(host.take(colon)) && !occurs(host, "://"@) {
        Err(fault(host, "malformed URL: HTTP and HTTPS schemes must be followed by `://`"@))
    } else if at < host.len() {
        if !is_http_scheme(host.take(at)) {
            Err(
                fault(
                    host,
                    "unsupported scheme `"@ + host.take(at) + "`; expected http or https"@,
                ),
            )
        } else if at + 3 == host.len() {
            Err(fault(host, "missing host"@))
        } else {
            Ok(host)
        }
    } else {
        Ok("http://"@ + host)
    }
}

/// The URL text that `host` stands for.
pub fn http_candidate(host: &str) -> (r: Result<String, HttpHostError>)
    ensures
        match r {
            Ok(s) => candidate(host@) == Ok::<Seq<char>, HostFault>(s@),
            Err(e) => candidate(host@) == Err::<Seq<char>, HostFault>(e@),
        },
{
    let c: Vec<char> = chars_of(host);
    let mark: Vec<char> = chars_of("://");
    proof {
        reveal_strlit("://");
        assert(c@.subrange(0, c@.len() as int) == c@);
    }
    let colon: usize = position_of(c.as_slice(), 0, c.len(), ':');
    let found: Option<usize> = find(c.as_slice(), mark.as_slice(), 0);
    if colon < c.len() && http_scheme(c.as_slice(), colon) && found.is_none() {
        return Err(
            HttpHostError::new(
                host,
                "malformed URL: HTTP and HTTPS schemes must be followed by `://`",
            ),
        );
    }
    match found {
        Some(at) => {
            if !http_scheme(c.as_slice(), at) {
                let scheme: String = text_between(c.as_slice(), 0, at);
                assert(c@.subrange(0, at as int) == c@.take(at as int));
                let reason: String = concat3(
                    "unsupported scheme `",
                    scheme.as_str(),
                    "`; expected http or https",
                );
                return Err(HttpHostError::new(host, reason.as_str()));
            }
            if at + 3 == c.len() {
                return Err(HttpHostError::new(host, "missing host"));
            }
            Ok(copied(host))
        },
        None => Ok(concat2("http://", host)),
    }
}

/// What is made of the outcome of parsing the URL of `host`.
pub open spec fn accepted(host: Seq<char>, parsed: Result<UrlModel, Seq<char>>) -> Result<
    UrlModel,
    HostFault,
> {
    match parsed {
        Err(e) => Err(fault(host, "malformed URL: "@ + e)),
        Ok(u) => if u.scheme != "http"@ && u.scheme != "https"@ {
            Err(fault(host, "unsupported scheme `"@ + u.scheme + "`; expected http or https"@))
        } else if u.host is None || u.host->0.len() == 0 {
            Err(fault(host, "missing host"@))
        } else if u.port == Some(0u16) {
            Err(fault(host, "port must be between 1 and 65535"@))
        } else {
            Ok(u)
        },
    }
}

/// The outcome as parts or a fault.
pub open spec fn outcome(r: Result<UrlParts, HttpHostError>) -> Result<UrlModel, HostFault> {
    match r {
        Ok(u) => Ok(u@),
        Err(e) => Err(e@),
    }
}

/// Judges the outcome of parsing the URL of `host`.
pub fn accept_url(host: &str, parsed: Result<UrlParts, String>) -> (r: Result<
    UrlParts,
    HttpHostError,
>)
    ensures
        outcome(r) == accepted(host@, parse_view(parsed)),
{
    match parsed {
        Err(e) => {
            let reason: String = concat2("malformed URL: ", e.as_str());
            Err(HttpHostError::new(host, reason.as_str()))
        },
        Ok(u) => {
            if !same(u.scheme.as_str(), "http") && !same(u.scheme.as_str(), "https") {
                let reason: String = concat3(
                    "unsupported scheme `",
                    u.scheme.as_str(),
                    "`; expected http or https",
                );
                return Err(HttpHostError::new(host, reason.as_str()));
            }
            let named: bool = match &u.host {
                Some(h) => !h.as_str().is_empty(),
                None => false,
            };
            if !named {
                return Err(HttpHostError::new(host, "missing host"));
            }
            let zero: bool = match u.port {
                Some(p) => p == 0,
                None => false,
            };
            if zero {
                return Err(HttpHostError::new(host, "port must be between 1 and 65535"));
            }
            Ok(u)
        },
    }
}

/// The URL of one endpoint, or what is wrong with it.
pub open spec fn host_url(host: Seq<char>) -> Result<UrlModel, HostFault> {
    match candidate(host) {
        Err(e) => Err(e),
        Ok(s) => accepted(host, url_parse(s)),
    }
}

/// Parse one endpoint without performing DNS lookup or any network I/O.
pub fn parse_http_host_url(host: &str) -> (r: Result<UrlParts, HttpHostError>)
    ensures
        outcome(r) == host_url(host@),
{
    match http_candidate(host) {
        Err(e) => Err(e),
        Ok(s) => accept_url(host, parse_url(s.as_str())),
    }
}

/// The endpoints among the first `n` pieces of one list element.
pub open spec fn accept_pieces(raw: Seq<char>, n: nat) -> Result<Seq<Seq<char>>, HostFault>
    decreases n,
{
    if n == 0 {
        Ok(seq![])
    } else {
        match accept_pieces(raw, (n - 1) as nat) {
            Err(e) => Err(e),
            Ok(v) => {
                let host = trimmed(split(raw, ',')[n - 1]);
                if host.len() == 0 {
                    Err(fault(trimmed(raw), "host list contains an empty entry"@))
                } else {
                    match host_url(host) {
                        Err(e) => Err(e),
                        Ok(_) => Ok(v.push(host)),
                    }
                }
            },
        }
    }
}

/// The endpoints that the first `n` list elements hold, or the first fault.
pub open spec fn accept_hosts(hosts: Seq<Seq<char>>, n: nat) -> Result<Seq<Seq<char>>, HostFault>
    decreases n,
{
    if n == 0 {
        Ok(seq![])
    } else {
        match accept_hosts(hosts, (n - 1) as nat) {
            Err(e) => Err(e),
            Ok(v) => match accept_pieces(hosts[n - 1], split(hosts[n - 1], ',').len()) {
                Err(e) => Err(e),
                Ok(w) => Ok(v + w),
            },
        }
    }
}

proof fn pieces_fail_on(raw: Seq<char>, n: nat, m: nat)
    requires
        n <= m,
        accept_pieces(raw, n) is Err,
    ensures
        accept_pieces(raw, m) == accept_pieces(raw, n),
    decreases m,
{
    if n < m {
        pieces_fail_on(raw, n, (m - 1) as nat);
    }
}

proof fn hosts_fail_on(hosts: Seq<Seq<char>>, n: nat, m: nat)
    requires
        n <= m,
        accept_hosts(hosts, n) is Err,
    ensures
        accept_hosts(hosts, m) == accept_hosts(hosts, n),
    decreases m,
{
    if n < m {
        hosts_fail_on(hosts, n, (m - 1) as nat);
    }
}

/// Adds the endpoints of one list element to `out`.
fn accept_element(raw: &str, out: &mut Vec<String>) -> (r: Result<(), HttpHostError>)
    ensures
        match r {
            Ok(_) => accept_pieces(raw@, split(raw@, ',').len()) is Ok && texts(final(out)@)
                == texts(old(out)@) + accept_pieces(raw@, split(raw@, ',').len())->Ok_0,
            Err(e) => accept_pieces(raw@, split(raw@, ',').len()) == Err::<
                Seq<Seq<char>>,
                HostFault,
            >(e@),
        },
{
    let c: Vec<char> = chars_of(raw);
    let pieces: Vec<(usize, usize)> = split_ranges(c.as_slice(), ',');
    let ghost all = split(raw@, ',');
    let mut i: usize = 0;
    assert(texts(old(out)@) + Seq::<Seq<char>>::empty() == texts(old(out)@));
    while i < pieces.len()
        invariant
            i <= pieces@.len(),
            c@ == raw@,
            all == split(raw@, ','),
            pieces@.len() == all.len(),
            forall|j: int|
                0 <= j < pieces@.len() ==> (#[trigger] pieces@[j]).0 <= pieces@[j].1
                    && pieces@[j].1 <= c@.len() && c@.subrange(
                    pieces@[j].0 as int,
                    pieces@[j].1 as int,
                ) == all[j],
            accept_pieces(raw@, i as nat) is Ok,
            texts(out@) == texts(old(out)@) + accept_pieces(raw@, i as nat)->Ok_0,
        decreases pieces@.len() - i,
    {
        let (from, to) = pieces[i];
        assert(pieces@[i as int] == (from, to));
        let (a, b) = trim_range(c.as_slice(), from, to);
        let host: String = text_between(c.as_slice(), a, b);
        assert(host@ == trimmed(all[i as int]));
        if a == b {
            proof {
                pieces_fail_on(raw@, (i + 1) as nat, all.len());
            }
            let whole: String = trim(raw);
            return Err(HttpHostError::new(whole.as_str(), "host list contains an empty entry"));
        }
        match parse_http_host_url(host.as_str()) {
            Err(e) => {
                proof {
                    pieces_fail_on(raw@, (i + 1) as nat, all.len());
                }
                return Err(e);
            },
            Ok(_) => {
                let ghost before = texts(out@);
                out.push(host);
                assert(texts(out@) == before.push(host@));
                assert(before.push(host@) == texts(old(out)@) + accept_pieces(
                    raw@,
                    (i + 1) as nat,
                )->Ok_0);
            },
        }
        i = i + 1;
    }
    Ok(())
}

/// Split a host list on commas, trim each element, and validate every
/// endpoint.
///
/// Whitespace-separated values already arrive as separate elements, so
/// applying comma splitting to each element supports whitespace, comma, and
/// mixed invocations while preserving the operator's ordering and explicit
/// scheme spelling.
pub fn normalize_http_hosts(hosts: &[String]) -> (r: Result<Vec<String>, HttpHostError>)
    ensures
        match r {
            Ok(v) => accept_hosts(texts(hosts@), hosts@.len()) == Ok::<Seq<Seq<char>>, HostFault>(
                texts(v@),
            ),
            Err(e) => accept_hosts(texts(hosts@), hosts@.len()) == Err::<
                Seq<Seq<char>>,
                HostFault,
            >(e@),
        },
{
    let mut out: Vec<String> = Vec::new();
    let mut i: usize = 0;
    assert(texts(out@) == Seq::<Seq<char>>::empty());
    while i < hosts.len()
        invariant
            i <= hosts@.len(),
            accept_hosts(texts(hosts@), i as nat) == Ok::<Seq<Seq<char>>, HostFault>(texts(out@)),
        decreases hosts@.len() - i,
    {
        assert(texts(hosts@)[i as int] == hosts@[i as int]@);
        match accept_element(hosts[i].as_str(), &mut out) {
            Ok(_) => {},
            Err(e) => {
                proof {
                    hosts_fail_on(texts(hosts@), (i + 1) as nat, hosts@.len());
                }
                return Err(e);
            },
        }
        i = i + 1;
    }
    Ok(out)
}

/// An endpoint spelled with a scheme is tracked under the same key as without:
/// `http://h`, `HTTPS://h` and `h` have one identifier, for every `h` that does
/// not itself begin with an HTTP scheme.
pub proof fn identifier_ignores_the_scheme(scheme: Seq<char>, h: Seq<char>)
    requires
        is_http_scheme(scheme),
        without_scheme(h) == h,
    ensures
        identifier(scheme + "://"@ + h) == identifier(h),
{
    reveal_strlit("://");
    reveal_strlit("http");
    reveal_strlit("https");
    let m = "://"@;
    let a = scheme + m + h;
    let n = scheme.len() as int;
    let low = lowered_all(scheme);
    assert(low.len() == n);
    assert forall|i: int| 0 <= i < n implies #[trigger] scheme[i] != ':' by {
        assert(low[i] == crate::text::lowered(scheme[i]));
    }
    assert forall|i: int| 0 <= i < n implies #[trigger] a.subrange(i, i + 3) != m by {
        assert(a.subrange(i, i + 3)[0] == scheme[i]);
    }
    assert(a.subrange(n, n + 3) == m);
    reveal_with_fuel(find_from, 7);
    assert(find_from(a, m, 0) == n);
    assert(a.take(n) == scheme);
    assert(a.skip(n + 3) == h);
}

/// Whether an endpoint is one that a normalized list can hold: trimmed, not
/// empty, without commas, and with a usable URL.
pub open spec fn normalized(host: Seq<char>) -> bool {
    &&& host.len() > 0
    &&& trimmed(host) == host
    &&& !host.contains(',')
    &&& host_url(host) is Ok
}

/// Every endpoint of a normalized list is trimmed, not empty, without commas,
/// and names a usable URL.
pub proof fn normalized_hosts_are_usable(hosts: Seq<Seq<char>>, n: nat, i: int)
    requires
        n <= hosts.len(),
        accept_hosts(hosts, n) is Ok,
        0 <= i < accept_hosts(hosts, n)->Ok_0.len(),
    ensures
        normalized(accept_hosts(hosts, n)->Ok_0[i]),
    decreases n,
{
    let before = accept_hosts(hosts, (n - 1) as nat)->Ok_0;
    if i < before.len() {
        normalized_hosts_are_usable(hosts, (n - 1) as nat, i);
    } else {
        let raw = hosts[n - 1];
        accepted_pieces_are_usable(raw, split(raw, ',').len(), i - before.len());
    }
}

proof fn accepted_pieces_are_usable(raw: Seq<char>, n: nat, i: int)
    requires
        n <= split(raw, ',').len(),
        accept_pieces(raw, n) is Ok,
        0 <= i < accept_pieces(raw, n)->Ok_0.len(),
    ensures
        normalized(accept_pieces(raw, n)->Ok_0[i]),
    decreases n,
{
    if i < accept_pieces(raw, (n - 1) as nat)->Ok_0.len() {
        accepted_pieces_are_usable(raw, (n - 1) as nat, i);
    } else {
        let piece = split(raw, ',')[n - 1];
        pieces_hold_no_separator(raw, ',', n - 1);
        trimming_keeps(piece);
        trimming_twice(piece);
    }
}

proof fn normalized_lists_stay(list: Seq<Seq<char>>, n: nat)
    requires
        n <= list.len(),
        forall|i: int| 0 <= i < list.len() ==> normalized(#[trigger] list[i]),
    ensures
        accept_hosts(list, n) == Ok::<Seq<Seq<char>>, HostFault>(list.take(n as int)),
    decreases n,
{
    if n == 0 {
        assert(list.take(0) == Seq::<Seq<char>>::empty());
    } else {
        normalized_lists_stay(list, (n - 1) as nat);
        let host = list[n - 1];
        assert(normalized(host));
        unseparated_texts_are_one_piece(host, ',');
        reveal_with_fuel(accept_pieces, 2);
        assert(split(host, ',')[0] == host);
        assert(accept_pieces(host, 1)->Ok_0 == seq![host]);
        assert(list.take(n as int) == list.take(n - 1) + seq![host]);
    }
}

/// Normalizing a normalized list changes nothing.
pub proof fn normalizing_again_changes_nothing(hosts: Seq<Seq<char>>, n: nat)
    requires
        n <= hosts.len(),
        accept_hosts(hosts, n) is Ok,
    ensures
        ({
            let list = accept_hosts(hosts, n)->Ok_0;
            accept_hosts(list, list.len()) == Ok::<Seq<Seq<char>>, HostFault>(list)
        }),
{
    let list = accept_hosts(hosts, n)->Ok_0;
    assert forall|i: int| 0 <= i < list.len() implies normalized(#[trigger] list[i]) by {
        normalized_hosts_are_usable(hosts, n, i);
    }
    normalized_lists_stay(list, list.len());
    assert(list.take(list.len() as int) == list);
}

/// A host without a scheme is asked over plain HTTP; one with `http` or `https`
/// as it stands; any other scheme is refused.
pub proof fn schemes_are_http(host: Seq<char>, at: int)
    requires
        at == find_from(host, "://"@, 0),
    ensures
        at < host.len() && !is_http_scheme(host.take(at)) ==> candidate(host) is Err,
        at < host.len() && is_http_scheme(host.take(at)) && at + 3 < host.len() && (first_of(
            host,
            ':',
        ) >= host.len() || occurs(host, "://"@)) ==> candidate(host) == Ok::<
            Seq<char>,
            HostFault,
        >(host),
        at >= host.len() && !host.contains(':') ==> candidate(host) == Ok::<Seq<char>, HostFault>(
            "http://"@ + host,
        ),
{
    if at >= host.len() && !host.contains(':') {
        no_colon_is_found(host);
    }
}

proof fn no_colon_is_found(s: Seq<char>)
    requires
        !s.contains(':'),
    ensures
        first_of(s, ':') == s.len(),
    decreases s.len(),
{
    if s.len() > 0 {
        let rest = s.drop_first();
        assert(s.contains(s[0]));
        assert forall|i: int| 0 <= i < rest.len() implies rest[i] != ':' by {
            assert(rest[i] == s[i + 1]);
            assert(s.contains(s[i + 1]));
        }
        no_colon_is_found(rest);
    }
}

/// A parsed address is accepted exactly where it is one of HTTP or HTTPS, names a
/// host, and asks for no port zero; it is then taken as it was parsed.
pub proof fn addresses_are_accepted(host: Seq<char>, u: UrlModel)
    ensures
        accepted(host, Ok(u)) is Ok <==> (u.scheme == "http"@ || u.scheme == "https"@)
            && u.host is Some && u.host->0.len() > 0 && u.port != Some(0u16),
        accepted(host, Ok(u)) is Ok ==> accepted(host, Ok(u))->Ok_0 == u,
        forall|e: Seq<char>| #[trigger] accepted(host, Err(e)) is Err,
{
}

/// A list of hosts is accepted piece by piece, each trimmed, in order; one piece
/// that is refused refuses the list.
pub proof fn hosts_are_accepted_in_order(raw: Seq<char>, n: nat)
    requires
        0 < n <= split(raw, ',').len(),
    ensures
        ({
            let (before, after) = (
                accept_pieces(raw, (n - 1) as nat),
                accept_pieces(raw, n),
            );
            let host = trimmed(split(raw, ',')[n - 1]);
            if before is Ok && host.len() > 0 && host_url(host) is Ok {
                after is Ok && after->Ok_0 == before->Ok_0.push(host)
            } else {
                after is Err
            }
        }),
{
}

} // verus!
