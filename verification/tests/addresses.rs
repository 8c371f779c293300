use ipfs_client::data::swarm::PeerAddresses;
use ipfs_client::addr::{MultiAddr, Segment};
use ipfs_client::deserialize_helpers::{collect_results, from_str, map_of_vec_from_strs, vec_from_strs};

#[test]
fn parse_ip4_host() {
    let m = from_str("/ip4/127.0.0.1/tcp/5001/https").unwrap();
    assert_eq!(m.segments, vec![Segment::IP4([127, 0, 0, 1]), Segment::Tcp(5001), Segment::Https]);
}

#[test]
fn parse_ip6_host() {
    let m = from_str("/ip6/::1/tcp/5001/http").unwrap();
    assert_eq!(m.segments, vec![Segment::IP6([0, 0, 0, 0, 0, 0, 0, 1]), Segment::Tcp(5001), Segment::Http]);
}

#[test]
fn parse_other_segments_keep_their_text() {
    let m = from_str("/dns4/example.com/tcp/443/https").unwrap();
    assert_eq!(
        m.segments,
        vec![Segment::Other("/dns4/example.com".to_string()), Segment::Tcp(443), Segment::Https]
    );
}

#[test]
fn parse_errors() {
    assert_eq!(from_str("ip4/127.0.0.1").unwrap_err(), "description() is deprecated; use Display");
    assert_eq!(from_str("/foo/1").unwrap_err(), "description() is deprecated; use Display");
    assert!(from_str("/ip4/300.0.0.1").is_err());
    assert!(from_str("/tcp").is_err());
}

#[test]
fn multiaddr_text_round_trip() {
    for text in ["/ip4/127.0.0.1/tcp/5001/http", "/ip6/2001:db8::1/tcp/4001", "/dns4/example.com/tcp/443/https", "/ip4/1.2.3.4/udp/9/quic"] {
        assert_eq!(from_str(text).unwrap().to_string(), text);
    }
}

#[test]
fn multiaddr_text_by_hand() {
    let m = MultiAddr { segments: vec![Segment::IP4([10, 0, 0, 2]), Segment::Tcp(80), Segment::Http] };
    assert_eq!(m.to_string(), "/ip4/10.0.0.2/tcp/80/http");
    let empty = MultiAddr { segments: vec![] };
    assert_eq!(empty.to_string(), "");
}

#[test]
fn vec_from_strs_all_parse() {
    let strs = vec!["/ip4/1.2.3.4/tcp/4001".to_string(), "/ip6/::1/tcp/4001".to_string()];
    let v = vec_from_strs(&strs).unwrap();
    assert_eq!(v.len(), 2);
    assert_eq!(v[0].segments, vec![Segment::IP4([1, 2, 3, 4]), Segment::Tcp(4001)]);
    assert_eq!(v[1].to_string(), "/ip6/::1/tcp/4001");
}

#[test]
fn vec_from_strs_first_error() {
    let strs = vec!["/ip4/1.2.3.4".to_string(), "nonsense".to_string(), "/bar".to_string()];
    assert_eq!(vec_from_strs(&strs).unwrap_err(), "description() is deprecated; use Display");
    let empty: Vec<String> = vec![];
    assert!(vec_from_strs(&empty).unwrap().is_empty());
}

#[test]
fn collect_results_first_error() {
    let a = MultiAddr { segments: vec![Segment::Http] };
    let ok = collect_results(vec![Ok(a.clone()), Ok(a.clone())]).unwrap();
    assert_eq!(ok, vec![a.clone(), a.clone()]);
    let err = collect_results(vec![Ok(a.clone()), Err("one".to_string()), Err("two".to_string())]);
    assert_eq!(err.unwrap_err(), "one");
}

#[test]
fn map_of_vec_from_strs_keeps_keys() {
    let entries = vec![
        ("QmA".to_string(), vec!["/ip4/1.1.1.1/tcp/1".to_string()]),
        ("QmB".to_string(), vec![]),
    ];
    let peers = map_of_vec_from_strs(&entries).unwrap();
    assert_eq!(peers.len(), 2);
    assert_eq!(peers[0].0, "QmA");
    assert_eq!(peers[0].1[0].to_string(), "/ip4/1.1.1.1/tcp/1");
    assert_eq!(peers[1].0, "QmB");
    assert!(peers[1].1.is_empty());
}

#[test]
fn map_of_vec_from_strs_error() {
    let entries = vec![
        ("QmA".to_string(), vec!["/ip4/1.1.1.1".to_string()]),
        ("QmB".to_string(), vec!["/nope".to_string()]),
    ];
    assert_eq!(map_of_vec_from_strs(&entries).unwrap_err(), "description() is deprecated; use Display");
}

#[test]
fn multiaddr_text_of_joined_addresses() {
    let a = from_str("/ip4/1.2.3.4/tcp/4001").unwrap();
    let b = from_str("/p2p/QmcgpsyWgH8Y8ajJz1Cu72KnS5uo2Aa2LpzU7kinSupNKC").unwrap();
    let mut segments = a.segments.clone();
    segments.extend(b.segments.clone());
    let joined = MultiAddr { segments };
    assert_eq!(joined.to_string(), format!("{}{}", a.to_string(), b.to_string()));
}

#[test]
fn peer_addresses_keep_peers() {
    let entries = vec![
        ("QmA".to_string(), vec!["/ip4/1.1.1.1/tcp/1".to_string()]),
        ("QmB".to_string(), vec!["/ip6/::1/tcp/2".to_string(), "/ip4/2.2.2.2/tcp/3".to_string()]),
    ];
    let peers = PeerAddresses::new(map_of_vec_from_strs(&entries).unwrap());
    assert_eq!(peers.peers().len(), 2);
    assert_eq!(peers.peers()[0].0, "QmA");
    assert_eq!(peers.peers()[1].0, "QmB");
    assert_eq!(peers.peers()[1].1[0].to_string(), "/ip6/::1/tcp/2");
    assert_eq!(peers.peers()[1].1[1].to_string(), "/ip4/2.2.2.2/tcp/3");
}
