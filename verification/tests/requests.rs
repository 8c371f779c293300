use ipfs_client::addr::{MultiAddr, Segment};
use ipfs_client::data::swarm::ConnectResultData;
use ipfs_client::deserialize_helpers::from_str;
use ipfs_client::errors::Error;
use ipfs_client::fetch::{construct_url, Path};
use ipfs_client::version::VersionFuture;
use ipfs_client::Client;

fn host(text: &str) -> MultiAddr {
    from_str(text).unwrap()
}

#[test]
fn path_from_segments() {
    assert_eq!(Path::from_segments(&vec!["api", "v0", "version"]).as_str(), "api/v0/version");
    assert_eq!(Path::from_segments(&vec!["api", "v0", "swarm", "addrs", "local"]).as_str(), "api/v0/swarm/addrs/local");
    assert_eq!(Path::from_segments(&vec!["one"]).as_str(), "one");
    assert_eq!(Path::from_segments(&vec![]).as_str(), "");
}

#[test]
fn path_from_text() {
    assert_eq!(Path::from_str("version").as_str(), "version");
    assert_eq!(Path::from("api/v0/id".to_string()).as_str(), "api/v0/id");
}

#[test]
fn url_for_ip4_host() {
    let url = construct_url(&host("/ip4/127.0.0.1/tcp/5001/http"), &Path::from_str("api/v0/version"), &vec![]);
    assert_eq!(url.unwrap(), "http://127.0.0.1:5001/api/v0/version");
}

#[test]
fn url_for_https_host_uses_http() {
    let a = construct_url(&host("/ip4/127.0.0.1/tcp/5001/https"), &Path::from_str("x"), &vec![]);
    let b = construct_url(&host("/ip4/127.0.0.1/tcp/5001/http"), &Path::from_str("x"), &vec![]);
    assert_eq!(a.unwrap(), "http://127.0.0.1:5001/x");
    assert_eq!(b.unwrap(), "http://127.0.0.1:5001/x");
}

#[test]
fn url_for_ip6_host() {
    let url = construct_url(&host("/ip6/::1/tcp/5001/http"), &Path::from_str("api/v0/id"), &vec![]);
    assert_eq!(url.unwrap(), "http://::1:5001/api/v0/id");
}

#[test]
fn url_with_query() {
    let params = vec![("arg".to_string(), "/ip4/1.2.3.4/tcp/1".to_string()), ("id".to_string(), "true".to_string())];
    let url = construct_url(&host("/ip4/10.0.0.1/tcp/80/http"), &Path::from_str("p"), &params);
    assert_eq!(url.unwrap(), "http://10.0.0.1:80/p?arg=/ip4/1.2.3.4/tcp/1&id=true");
}

#[test]
fn url_refused_hosts() {
    let p = Path::from_str("api/v0/version");
    let cases = [
        "/dns4/localhost/tcp/5001/http",
        "/ip4/127.0.0.1/tcp/5001",
        "/ip4/127.0.0.1/udp/5001/http",
        "/ip4/127.0.0.1/tcp/5001/http/ws",
        "/tcp/5001/ip4/127.0.0.1/http",
    ];
    for text in cases {
        let err = construct_url(&host(text), &p, &vec![]).unwrap_err();
        assert_eq!(err, Error::Msg(format!("Cannot fetch from host {}", text)));
    }
}

#[test]
fn error_message() {
    let err = Error::Msg("boom".to_string());
    assert_eq!(err.message(), "boom");
}

#[test]
fn client_requests() {
    let client = Client::new(host("/ip4/127.0.0.1/tcp/5001/https"));
    assert_eq!(client.version().unwrap(), "http://127.0.0.1:5001/api/v0/version");
    assert_eq!(client.local_info().unwrap(), "http://127.0.0.1:5001/api/v0/id");
    assert_eq!(client.peer_info("QmPeer").unwrap(), "http://127.0.0.1:5001/api/v0/id/QmPeer");
    let swarm = client.swarm();
    assert_eq!(swarm.peers().unwrap(), "http://127.0.0.1:5001/api/v0/swarm/peers");
    assert_eq!(swarm.addresses().unwrap(), "http://127.0.0.1:5001/api/v0/swarm/addrs");
    assert_eq!(swarm.local_addresses(true).unwrap(), "http://127.0.0.1:5001/api/v0/swarm/addrs/local?id=true");
    assert_eq!(swarm.local_addresses(false).unwrap(), "http://127.0.0.1:5001/api/v0/swarm/addrs/local?id=false");
    let peer = host("/ip4/1.2.3.4/tcp/4001");
    assert_eq!(swarm.connect(&peer).unwrap(), "http://127.0.0.1:5001/api/v0/swarm/connect?arg=/ip4/1.2.3.4/tcp/4001");
    assert_eq!(swarm.disconnect(&peer).unwrap(), "http://127.0.0.1:5001/api/v0/swarm/disconnect?arg=/ip4/1.2.3.4/tcp/4001");
}

#[test]
fn client_with_bad_host_refuses_every_request() {
    let client = Client::new(host("/dns4/node.local/tcp/5001/http"));
    let expected = Error::Msg("Cannot fetch from host /dns4/node.local/tcp/5001/http".to_string());
    assert_eq!(client.version().unwrap_err(), expected);
    assert_eq!(client.local_info().unwrap_err(), expected);
    assert_eq!(client.swarm().peers().unwrap_err(), expected);
    assert_eq!(client.swarm().local_addresses(true).unwrap_err(), expected);
}

#[test]
fn client_by_hand_host() {
    let h = MultiAddr { segments: vec![Segment::IP6([0x2001, 0xdb8, 0, 0, 0, 0, 0, 1]), Segment::Tcp(5001), Segment::Http] };
    let client = Client::new(h);
    assert_eq!(client.version().unwrap(), "http://2001:db8::1:5001/api/v0/version");
}

#[test]
fn connect_result_into() {
    let ok: Result<Vec<String>, String> = ConnectResultData::Strings(vec!["connect Qm success".to_string()]).into();
    assert_eq!(ok, Ok(vec!["connect Qm success".to_string()]));
    let err: Result<Vec<String>, String> = ConnectResultData::Message("dial failed".to_string()).into();
    assert_eq!(err, Err("dial failed".to_string()));
}

#[test]
fn version_future_url() {
    assert_eq!(VersionFuture::new("http://127.0.0.1:5001/api/v0/").url, "http://127.0.0.1:5001/api/v0/version");
    assert_eq!(VersionFuture::new("").url, "version");
}

#[test]
fn path_join_of_two_lists() {
    let whole = Path::from_segments(&vec!["api", "v0", "swarm", "peers"]);
    let left = Path::from_segments(&vec!["api", "v0"]);
    let right = Path::from_segments(&vec!["swarm", "peers"]);
    assert_eq!(whole.as_str(), format!("{}/{}", left.as_str(), right.as_str()));
}
