//! The client: the request that each call of the HTTP API sends to the node.
use vstd::prelude::*;
use vstd::string::*;

use crate::addr::{multiaddr_text, MultiAddr, Segment};
use crate::errors::Error;
use crate::fetch::{construct_url, join_segments, param_views, request_url, str_views, url_result, Path};

verus! {

/// A client of the node at a host.
pub struct Client {
    host: MultiAddr,
}

/// The part of the client that speaks to the node's swarm.
pub struct SwarmClient<'a>(pub &'a Client);

/// `api/v0/` followed by `rest`.
pub open spec fn api_path(rest: Seq<char>) -> Seq<char> {
    seq!['a', 'p', 'i', '/', 'v', '0', '/'] + rest
}

/// No query parameters.
pub open spec fn no_params() -> Seq<(Seq<char>, Seq<char>)> {
    seq![]
}

/// The single query parameter `key=value`.
pub open spec fn one_param(key: Seq<char>, value: Seq<char>) -> Seq<(Seq<char>, Seq<char>)> {
    seq![(key, value)]
}

/// The text of a boolean, `true` or `false`.
pub open spec fn bool_text(b: bool) -> Seq<char> {
    if b {
        seq!['t', 'r', 'u', 'e']
    } else {
        seq!['f', 'a', 'l', 's', 'e']
    }
}

impl View for Client {
    type V = Seq<Segment>;

    /// The host of the node.
    closed spec fn view(&self) -> Seq<Segment> {
        self.host@
    }
}

/// The request for the API path `api/v0/` followed by the segments `rest`
/// joined by `/`, with query `params`.
fn api_request(host: &MultiAddr, rest: &Vec<&str>, params: &Vec<(String, String)>) -> (res:
    Result<String, Error>)
    requires
        rest@.len() > 0,
    ensures
        url_result(res) == request_url(host@, api_path(join_segments(str_views(rest@))), param_views(params@)),
{
    let mut segments: Vec<&str> = Vec::new();
    segments.push("api");
    segments.push("v0");
    let mut i: usize = 0;
    while i < rest.len()
        invariant
            i <= rest.len(),
            segments@ == seq!["api", "v0"] + rest@.subrange(0, i as int),
        decreases rest.len() - i,
    {
        segments.push(rest[i]);
        assert(segments@ =~= seq!["api", "v0"] + rest@.subrange(0, i + 1));
        i = i + 1;
    }
    let path = Path::from_segments(&segments);
    proof {
        reveal_strlit("api");
        reveal_strlit("v0");
        assert(segments@.skip(2) =~= rest@);
        let v = str_views(segments@);
        assert(v[0] == seq!['a', 'p', 'i']);
        assert(v[1] == seq!['v', '0']);
        lemma_join_api(v);
        assert(v.skip(2) =~= str_views(rest@));
    }
    construct_url(host, &path, params)
}

proof fn lemma_join_api(v: Seq<Seq<char>>)
    requires
        v.len() >= 2,
        v[0] == seq!['a', 'p', 'i'],
        v[1] == seq!['v', '0'],
    ensures
        v.len() > 2 ==> join_segments(v) == api_path(join_segments(v.skip(2))),
    decreases v.len(),
{
    if v.len() > 3 {
        lemma_join_api(v.drop_last());
        assert(v.drop_last().skip(2) =~= v.skip(2).drop_last());
        assert(join_segments(v) =~= api_path(join_segments(v.skip(2))));
    } else if v.len() == 3 {
        let first = v.drop_last();
        assert(first.drop_last() =~= seq![v[0]]);
        assert(join_segments(first) == join_segments(first.drop_last()) + seq!['/'] + v[1]);
        assert(v.skip(2) =~= seq![v[2]]);
        assert(join_segments(v.skip(2)) == v[2]);
        assert(join_segments(v) =~= api_path(join_segments(v.skip(2))));
    }
}

/// No query parameters, as a value.
fn params_none() -> (p: Vec<(String, String)>)
    ensures
        param_views(p@) == no_params(),
{
    let p: Vec<(String, String)> = Vec::new();
    assert(param_views(p@) =~= no_params());
    p
}

/// The single query parameter `key=value`, as a value.
fn params_one(key: &str, value: String) -> (p: Vec<(String, String)>)
    ensures
        param_views(p@) == one_param(key@, value@),
{
    let k = key.to_string();
    let ghost kv = k@;
    let ghost vv = value@;
    let p = vec![(k, value)];
    assert(param_views(p@) =~= one_param(kv, vv));
    p
}

impl Client {
    /// A client of the node at `host`.
    pub fn new(host: MultiAddr) -> (c: Client)
        ensures
            c@ == host@,
    {
        Client { host }
    }

    /// The request for the node's version: `api/v0/version`.
    pub fn version(&self) -> (res: Result<String, Error>)
        ensures
            url_result(res) == request_url(self@, api_path("version"@), no_params()),
    {
        let rest = vec!["version"];
        assert(join_segments(str_views(rest@)) == "version"@);
        api_request(&self.host, &rest, &params_none())
    }

    /// The request for the node's own identity: `api/v0/id`.
    pub fn local_info(&self) -> (res: Result<String, Error>)
        ensures
            url_result(res) == request_url(self@, api_path("id"@), no_params()),
    {
        let rest = vec!["id"];
        assert(join_segments(str_views(rest@)) == "id"@);
        api_request(&self.host, &rest, &params_none())
    }

    /// The request for the identity of the peer whose id is `peer`:
    /// `api/v0/id/<peer>`.
    pub fn peer_info(&self, peer: &str) -> (res: Result<String, Error>)
        ensures
            url_result(res) == request_url(self@, api_path("id/"@ + peer@), no_params()),
    {
        proof { reveal_strlit("id"); reveal_strlit("id/"); }
        let rest = vec!["id", peer];
        let res = api_request(&self.host, &rest, &params_none());
        proof {
            let v = str_views(rest@);
            assert(v.drop_last() =~= seq!["id"@]);
            assert(join_segments(v.drop_last()) == "id"@);
            assert(v.last() == peer@);
            assert(join_segments(v) =~= "id/"@ + peer@);
        }
        res
    }

    /// The client of the node's swarm.
    pub fn swarm(&self) -> (s: SwarmClient<'_>)
        ensures
            s.0 == self,
    {
        SwarmClient(self)
    }
}

/// The request for the API path `api/v0/swarm/<last>` with query `params`.
fn swarm_request(host: &MultiAddr, last: &str, params: &Vec<(String, String)>) -> (res: Result<String, Error>)
    ensures
        url_result(res) == request_url(host@, api_path("swarm/"@ + last@), param_views(params@)),
{
    proof { reveal_strlit("swarm"); reveal_strlit("swarm/"); }
    let rest = vec!["swarm", last];
    let res = api_request(host, &rest, params);
    proof {
        let v = str_views(rest@);
        assert(v.drop_last() =~= seq!["swarm"@]);
        assert(join_segments(v.drop_last()) == "swarm"@);
        assert(v.last() == last@);
        assert(join_segments(v) =~= "swarm/"@ + last@);
    }
    res
}

impl<'a> SwarmClient<'a> {
    /// The request for the peers the node is connected to: `api/v0/swarm/peers`.
    pub fn peers(&self) -> (res: Result<String, Error>)
        ensures
            url_result(res) == request_url(self.0@, api_path("swarm/peers"@), no_params()),
    {
        proof { reveal_strlit("swarm/"); reveal_strlit("peers"); reveal_strlit("swarm/peers"); }
        let res = swarm_request(&self.0.host, "peers", &params_none());
        assert("swarm/"@ + "peers"@ =~= "swarm/peers"@);
        res
    }

    /// The request for the addresses of the known peers: `api/v0/swarm/addrs`.
    pub fn addresses(&self) -> (res: Result<String, Error>)
        ensures
            url_result(res) == request_url(self.0@, api_path("swarm/addrs"@), no_params()),
    {
        proof { reveal_strlit("swarm/"); reveal_strlit("addrs"); reveal_strlit("swarm/addrs"); }
        let res = swarm_request(&self.0.host, "addrs", &params_none());
        assert("swarm/"@ + "addrs"@ =~= "swarm/addrs"@);
        res
    }

    /// The request for the node's own addresses:
    /// `api/v0/swarm/addrs/local?id=<id>`.
    pub fn local_addresses(&self, id: bool) -> (res: Result<String, Error>)
        ensures
            url_result(res) == request_url(
                self.0@,
                api_path("swarm/addrs/local"@),
                one_param("id"@, bool_text(id)),
            ),
    {
        proof {
            reveal_strlit("swarm");
            reveal_strlit("addrs");
            reveal_strlit("local");
            reveal_strlit("swarm/addrs/local");
            reveal_strlit("true");
            reveal_strlit("false");
        }
        let value = if id { "true".to_string() } else { "false".to_string() };
        assert(value@ =~= bool_text(id));
        let rest = vec!["swarm", "addrs", "local"];
        let res = api_request(&self.0.host, &rest, &params_one("id", value));
        proof {
            let v = str_views(rest@);
            assert(v.drop_last() =~= seq!["swarm"@, "addrs"@]);
            assert(v.drop_last().drop_last() =~= seq!["swarm"@]);
            assert(join_segments(v.drop_last().drop_last()) == "swarm"@);
            assert(join_segments(v.drop_last()) =~= "swarm"@ + seq!['/'] + "addrs"@);
            assert(join_segments(v) =~= "swarm/addrs/local"@);
        }
        res
    }

    /// The request to connect the node to the peer at `addr`:
    /// `api/v0/swarm/connect?arg=<addr>`.
    pub fn connect(&self, addr: &MultiAddr) -> (res: Result<String, Error>)
        ensures
            url_result(res) == request_url(
                self.0@,
                api_path("swarm/connect"@),
                one_param("arg"@, multiaddr_text(addr@)),
            ),
    {
        proof { reveal_strlit("swarm/"); reveal_strlit("connect"); reveal_strlit("swarm/connect"); }
        let res = swarm_request(&self.0.host, "connect", &params_one("arg", addr.to_string()));
        assert("swarm/"@ + "connect"@ =~= "swarm/connect"@);
        res
    }

    /// The request to disconnect the node from the peer at `addr`:
    /// `api/v0/swarm/disconnect?arg=<addr>`.
    pub fn disconnect(&self, addr: &MultiAddr) -> (res: Result<String, Error>)
        ensures
            url_result(res) == request_url(
                self.0@,
                api_path("swarm/disconnect"@),
                one_param("arg"@, multiaddr_text(addr@)),
            ),
    {
        proof { reveal_strlit("swarm/"); reveal_strlit("disconnect"); reveal_strlit("swarm/disconnect"); }
        let res = swarm_request(&self.0.host, "disconnect", &params_one("arg", addr.to_string()));
        assert("swarm/"@ + "disconnect"@ =~= "swarm/disconnect"@);
        res
    }
}

} // verus!
