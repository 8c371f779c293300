//! Paths of the HTTP API and the URLs of requests to a node.
use vstd::prelude::*;
use vstd::string::*;

use crate::addr::{multiaddr_text, MultiAddr, Segment};
use crate::errors::Error;
use crate::text::{decimal, ipv4_text, ipv6_text, push_decimal, push_ipv4, push_ipv6};

verus! {

/// A path of the HTTP API, relative to the node's base URL, such as
/// `api/v0/version`.
#[derive(Debug, Clone, PartialEq, Eq)]
pub struct Path(pub String);

impl View for Path {
    type V = Seq<char>;

    open spec fn view(&self) -> Seq<char> {
        self.0@
    }
}

/// The segments of a path joined by `/`.
pub open spec fn join_segments(segments: Seq<Seq<char>>) -> Seq<char>
    decreases segments.len(),
{
    if segments.len() == 0 {
        seq![]
    } else if segments.len() == 1 {
        segments[0]
    } else {
        join_segments(segments.drop_last()) + seq!['/'] + segments.last()
    }
}

/// Joining two non-empty lists of segments one after the other is joining
/// each and putting `/` between them.
pub proof fn lemma_join_concat(a: Seq<Seq<char>>, b: Seq<Seq<char>>)
    requires
        a.len() > 0,
        b.len() > 0,
    ensures
        join_segments(a + b) == join_segments(a) + seq!['/'] + join_segments(b),
    decreases b.len(),
{
    if b.len() == 1 {
        assert((a + b).drop_last() =~= a);
    } else {
        lemma_join_concat(a, b.drop_last());
        assert((a + b).drop_last() =~= a + b.drop_last());
        assert(join_segments(a + b) =~= join_segments(a) + seq!['/'] + join_segments(b));
    }
}

/// The texts of a list of string slices.
pub open spec fn str_views(v: Seq<&str>) -> Seq<Seq<char>> {
    v.map_values(|s: &str| s@)
}

/// The key and value texts of a list of query parameters.
pub open spec fn param_views(v: Seq<(String, String)>) -> Seq<(Seq<char>, Seq<char>)> {
    v.map_values(|p: (String, String)| (p.0@, p.1@))
}

/// `key=value` pairs separated by `&`.
pub open spec fn query_pairs(params: Seq<(Seq<char>, Seq<char>)>) -> Seq<char>
    decreases params.len(),
{
    if params.len() == 0 {
        seq![]
    } else {
        let last = params.last();
        let pair = last.0 + seq!['='] + last.1;
        if params.len() == 1 {
            pair
        } else {
            query_pairs(params.drop_last()) + seq!['&'] + pair
        }
    }
}

/// The query part of a URL: nothing without parameters, else `?` and the pairs.
pub open spec fn query_text(params: Seq<(Seq<char>, Seq<char>)>) -> Seq<char> {
    if params.len() == 0 {
        seq![]
    } else {
        seq!['?'] + query_pairs(params)
    }
}

/// `http://`
pub open spec fn http_scheme() -> Seq<char> {
    seq!['h', 't', 't', 'p', ':', '/', '/']
}

/// The base URL of the node at `host`: the host must be an IPv4 or IPv6
/// address, a TCP port and `http` or `https`; both are reached with
/// `http://address:port/`. Any other host has none.
pub open spec fn host_base(host: Seq<Segment>) -> Option<Seq<char>> {
    if host.len() == 3 && host[1] is Tcp && (host[2] is Http || host[2] is Https) {
        let port = decimal(host[1]->Tcp_0 as nat);
        match host[0] {
            Segment::IP4(a) => Some(http_scheme() + ipv4_text(a@) + seq![':'] + port + seq!['/']),
            Segment::IP6(g) => Some(http_scheme() + ipv6_text(g@) + seq![':'] + port + seq!['/']),
            _ => None,
        }
    } else {
        None
    }
}

/// `Cannot fetch from host `
pub open spec fn bad_host_prefix() -> Seq<char> {
    seq![
        'C', 'a', 'n', 'n', 'o', 't', ' ', 'f', 'e', 't', 'c', 'h', ' ', 'f', 'r', 'o', 'm', ' ',
        'h', 'o', 's', 't', ' ',
    ]
}

/// The URL of a request for `path` with query `params` to the node at `host`,
/// or the message of the error when the host has no base URL.
pub open spec fn request_url(
    host: Seq<Segment>,
    path: Seq<char>,
    params: Seq<(Seq<char>, Seq<char>)>,
) -> Result<Seq<char>, Seq<char>> {
    match host_base(host) {
        Some(base) => Ok(base + path + query_text(params)),
        None => Err(bad_host_prefix() + multiaddr_text(host)),
    }
}

/// The URL or error message that a request's result holds.
pub open spec fn url_result(res: Result<String, Error>) -> Result<Seq<char>, Seq<char>> {
    match res {
        Ok(url) => Ok(url@),
        Err(Error::Msg(m)) => Err(m@),
    }
}

/// A node reached over `https` gets the same request URLs as over `http`:
/// both are fetched with `http://`.
pub proof fn lemma_https_as_http(
    ip: Segment,
    port: u16,
    path: Seq<char>,
    params: Seq<(Seq<char>, Seq<char>)>,
)
    requires
        ip is IP4 || ip is IP6,
    ensures
        request_url(seq![ip, Segment::Tcp(port), Segment::Https], path, params) == request_url(
            seq![ip, Segment::Tcp(port), Segment::Http],
            path,
            params,
        ),
        request_url(seq![ip, Segment::Tcp(port), Segment::Http], path, params) is Ok,
{
}

/// The URL of a request to an IPv4 host names that host's own address: it is
/// `http://`, the four bytes of the address in decimal separated by `.`, `:`,
/// the port in decimal, `/`, then the path and the query.
pub proof fn lemma_ip4_host_url(
    a: [u8; 4],
    port: u16,
    scheme: Segment,
    path: Seq<char>,
    params: Seq<(Seq<char>, Seq<char>)>,
)
    requires
        scheme is Http || scheme is Https,
    ensures
        request_url(seq![Segment::IP4(a), Segment::Tcp(port), scheme], path, params) == Ok::<
            Seq<char>,
            Seq<char>,
        >(
            seq!['h', 't', 't', 'p', ':', '/', '/'] + decimal(a@[0] as nat) + seq!['.'] + decimal(
                a@[1] as nat,
            ) + seq!['.'] + decimal(a@[2] as nat) + seq!['.'] + decimal(a@[3] as nat) + seq![':']
                + decimal(port as nat) + seq!['/'] + path + query_text(params),
        ),
{
    let host = seq![Segment::IP4(a), Segment::Tcp(port), scheme];
    assert(host[1] is Tcp);
    assert(host_base(host) == Some(http_scheme() + ipv4_text(a@) + seq![':'] + decimal(port as nat) + seq!['/']));
    assert(request_url(host, path, params)->Ok_0 =~= seq!['h', 't', 't', 'p', ':', '/', '/'] + decimal(a@[0] as nat)
        + seq!['.'] + decimal(a@[1] as nat) + seq!['.'] + decimal(a@[2] as nat) + seq!['.']
        + decimal(a@[3] as nat) + seq![':'] + decimal(port as nat) + seq!['/'] + path + query_text(params));
}

/// The URL of a request to an IPv6 host names that host's own address: it is
/// `http://`, the address's text, `:`, the port in decimal, `/`, then the
/// path and the query.
pub proof fn lemma_ip6_host_url(
    g: [u16; 8],
    port: u16,
    scheme: Segment,
    path: Seq<char>,
    params: Seq<(Seq<char>, Seq<char>)>,
)
    requires
        scheme is Http || scheme is Https,
    ensures
        request_url(seq![Segment::IP6(g), Segment::Tcp(port), scheme], path, params) == Ok::<
            Seq<char>,
            Seq<char>,
        >(
            seq!['h', 't', 't', 'p', ':', '/', '/'] + ipv6_text(g@) + seq![':'] + decimal(port as nat)
                + seq!['/'] + path + query_text(params),
        ),
{
    let host = seq![Segment::IP6(g), Segment::Tcp(port), scheme];
    assert(host[1] is Tcp);
    assert(request_url(host, path, params)->Ok_0 =~= seq!['h', 't', 't', 'p', ':', '/', '/'] + ipv6_text(g@)
        + seq![':'] + decimal(port as nat) + seq!['/'] + path + query_text(params));
}

/// The query for one parameter is `?key=value`; one more parameter adds
/// `&key=value` at the end, so every parameter appears, in order, with its
/// own key and value.
pub proof fn lemma_query_text(
    params: Seq<(Seq<char>, Seq<char>)>,
    key: Seq<char>,
    value: Seq<char>,
)
    ensures
        query_text(seq![(key, value)]) == seq!['?'] + key + seq!['='] + value,
        params.len() > 0 ==> query_text(params.push((key, value))) == query_text(params) + seq!['&']
            + key + seq!['='] + value,
{
    assert(seq![(key, value)].last() == (key, value));
    assert(query_text(seq![(key, value)]) =~= seq!['?'] + key + seq!['='] + value);
    if params.len() > 0 {
        let more = params.push((key, value));
        assert(more.drop_last() =~= params);
        assert(query_text(more) =~= query_text(params) + seq!['&'] + key + seq!['='] + value);
    }
}

/// A request URL starts with `http://` and ends with the path and the query;
/// a request is refused exactly when the host has no base URL.
pub proof fn lemma_request_url_shape(
    host: Seq<Segment>,
    path: Seq<char>,
    params: Seq<(Seq<char>, Seq<char>)>,
)
    ensures
        request_url(host, path, params) is Ok <==> host_base(host) is Some,
        request_url(host, path, params) matches Ok(url) ==> {
            &&& url.subrange(0, 7) == http_scheme()
            &&& url.subrange(url.len() - path.len() - query_text(params).len(), url.len() as int)
                == path + query_text(params)
        },
{
    if let Some(base) = host_base(host) {
        let url = base + path + query_text(params);
        assert(base.subrange(0, 7) =~= http_scheme());
        assert(url.subrange(0, 7) =~= http_scheme());
        assert(url.subrange(url.len() - path.len() - query_text(params).len(), url.len() as int)
            =~= path + query_text(params));
    }
}

/// A host with no base URL refuses every request with one message, whatever
/// the path and query.
pub proof fn lemma_bad_host_refuses_all(
    host: Seq<Segment>,
    path1: Seq<char>,
    params1: Seq<(Seq<char>, Seq<char>)>,
    path2: Seq<char>,
    params2: Seq<(Seq<char>, Seq<char>)>,
)
    requires
        host_base(host) is None,
    ensures
        request_url(host, path1, params1) == request_url(host, path2, params2),
        request_url(host, path1, params1) == Err::<Seq<char>, Seq<char>>(
            bad_host_prefix() + multiaddr_text(host),
        ),
{
}

impl From<String> for Path {
    fn from(s: String) -> (p: Path) {
        Path(s)
    }
}

impl vstd::std_specs::convert::FromSpecImpl<String> for Path {
    open spec fn obeys_from_spec() -> bool {
        true
    }

    open spec fn from_spec(s: String) -> Path {
        Path(s)
    }
}

impl Path {
    /// The path with the given text.
    pub fn from_str(s: &str) -> (p: Path)
        ensures
            p@ == s@,
    {
        Path(s.to_string())
    }

    /// The path made of the given segments, joined by `/`.
    pub fn from_segments(segments: &Vec<&str>) -> (p: Path)
        ensures
            p@ == join_segments(str_views(segments@)),
    {
        let slash = "/";
        proof { reveal_strlit("/"); }
        let mut out = String::new();
        let ghost views = str_views(segments@);
        let mut i: usize = 0;
        while i < segments.len()
            invariant
                i <= segments.len(),
                views == str_views(segments@),
                slash@ == seq!['/'],
                out@ == join_segments(views.subrange(0, i as int)),
            decreases segments.len() - i,
        {
            if i > 0 {
                out.append(slash);
            }
            out.append(segments[i]);
            proof {
                let next = views.subrange(0, i + 1);
                assert(next.drop_last() =~= views.subrange(0, i as int));
                assert(out@ =~= join_segments(next));
            }
            i = i + 1;
        }
        assert(views.subrange(0, i as int) =~= views);
        Path(out)
    }

    /// The text of the path.
    pub fn as_str(&self) -> (s: &str)
        ensures
            s@ == self@,
    {
        self.0.as_str()
    }
}

/// Appends the query part for `params` to `out`.
fn push_query(out: &mut String, params: &Vec<(String, String)>)
    ensures
        final(out)@ == old(out)@ + query_text(param_views(params@)),
{
    let question = "?";
    let amp = "&";
    let eq = "=";
    proof {
        reveal_strlit("?");
        reveal_strlit("&");
        reveal_strlit("=");
    }
    let ghost start = out@;
    let ghost views = param_views(params@);
    if params.len() == 0 {
        assert(out@ =~= start + query_text(views));
        return;
    }
    out.append(question);
    let mut i: usize = 0;
    while i < params.len()
        invariant
            0 < params.len(),
            i <= params.len(),
            views == param_views(params@),
            amp@ == seq!['&'],
            eq@ == seq!['='],
            out@ == start + seq!['?'] + query_pairs(views.subrange(0, i as int)),
        decreases params.len() - i,
    {
        if i > 0 {
            out.append(amp);
        }
        out.append(params[i].0.as_str());
        out.append(eq);
        out.append(params[i].1.as_str());
        proof {
            let next = views.subrange(0, i + 1);
            assert(next.drop_last() =~= views.subrange(0, i as int));
            assert(next.last() == (params@[i as int].0@, params@[i as int].1@));
            assert(out@ =~= start + seq!['?'] + query_pairs(next));
        }
        i = i + 1;
    }
    assert(views.subrange(0, i as int) =~= views);
}

/// The URL of the request for `path`, with query `params`, to the node at
/// `host`: the host's base URL, the path, then the query. A host that is not
/// an IP address, a TCP port and `http` or `https` is refused with the message
/// `Cannot fetch from host <host>`.
pub fn construct_url(host: &MultiAddr, path: &Path, params: &Vec<(String, String)>) -> (res:
    Result<String, Error>)
    ensures
        url_result(res) == request_url(host@, path@, param_views(params@)),
{
    let segs = &host.segments;
    let mut supported = false;
    let mut port: u16 = 0;
    if segs.len() == 3 {
        match &segs[1] {
            Segment::Tcp(p) => {
                port = *p;
                match &segs[2] {
                    Segment::Http => { supported = true; },
                    Segment::Https => { supported = true; },
                    _ => {},
                }
            },
            _ => {},
        }
    }
    if supported {
        let scheme = "http://";
        let colon = ":";
        let slash = "/";
        proof {
            reveal_strlit("http://");
            reveal_strlit(":");
            reveal_strlit("/");
        }
        let mut url = String::new();
        match &segs[0] {
            Segment::IP4(a) => {
                url.append(scheme);
                push_ipv4(&mut url, a);
            },
            Segment::IP6(g) => {
                url.append(scheme);
                push_ipv6(&mut url, g);
            },
            _ => {
                return Err(bad_host(host));
            },
        }
        url.append(colon);
        push_decimal(&mut url, port as u64);
        url.append(slash);
        proof {
            assert(url@ =~= host_base(host@)->Some_0);
        }
        url.append(path.as_str());
        push_query(&mut url, params);
        assert(url@ =~= host_base(host@)->Some_0 + path@ + query_text(param_views(params@)));
        Ok(url)
    } else {
        Err(bad_host(host))
    }
}

/// The error for a host that has no base URL.
fn bad_host(host: &MultiAddr) -> (e: Error)
    ensures
        match e {
            Error::Msg(m) => m@ == bad_host_prefix() + multiaddr_text(host@),
        },
{
    let mut msg = String::new();
    let prefix = "Cannot fetch from host ";
    proof { reveal_strlit("Cannot fetch from host "); }
    msg.append(prefix);
    let text = host.to_string();
    msg.append(text.as_str());
    assert(msg@ =~= bad_host_prefix() + multiaddr_text(host@));
    Error::Msg(msg)
}

} // verus!
