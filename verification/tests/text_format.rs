use ipfs_client::text::{push_decimal, push_hex, push_ipv4, push_ipv6};

fn decimal(n: u64) -> String {
    let mut s = String::new();
    push_decimal(&mut s, n);
    s
}

fn hex(n: u16) -> String {
    let mut s = String::new();
    push_hex(&mut s, n);
    s
}

fn ipv6(g: [u16; 8]) -> String {
    let mut s = String::new();
    push_ipv6(&mut s, &g);
    s
}

#[test]
fn decimal_numbers() {
    assert_eq!(decimal(0), "0");
    assert_eq!(decimal(7), "7");
    assert_eq!(decimal(10), "10");
    assert_eq!(decimal(5001), "5001");
    assert_eq!(decimal(65535), "65535");
    assert_eq!(decimal(u64::MAX), "18446744073709551615");
}

#[test]
fn decimal_appends() {
    let mut s = String::from("port ");
    push_decimal(&mut s, 42);
    assert_eq!(s, "port 42");
}

#[test]
fn decimal_reads_back() {
    for n in [0u64, 1, 9, 10, 99, 100, 12345, 4294967296] {
        assert_eq!(decimal(n).parse::<u64>().unwrap(), n);
    }
}

#[test]
fn hex_numbers() {
    assert_eq!(hex(0), "0");
    assert_eq!(hex(0xf), "f");
    assert_eq!(hex(0x10), "10");
    assert_eq!(hex(0xdb8), "db8");
    assert_eq!(hex(0xffff), "ffff");
}

#[test]
fn ipv4_dotted() {
    let mut s = String::new();
    push_ipv4(&mut s, &[127, 0, 0, 1]);
    assert_eq!(s, "127.0.0.1");
    let mut t = String::new();
    push_ipv4(&mut t, &[255, 10, 0, 200]);
    assert_eq!(t, "255.10.0.200");
}

#[test]
fn ipv6_loopback_and_unspecified() {
    assert_eq!(ipv6([0, 0, 0, 0, 0, 0, 0, 1]), "::1");
    assert_eq!(ipv6([0; 8]), "::");
}

#[test]
fn ipv6_compresses_longest_run() {
    assert_eq!(ipv6([0x2001, 0xdb8, 0, 0, 0, 0, 0, 1]), "2001:db8::1");
    assert_eq!(ipv6([1, 0, 0, 1, 0, 0, 0, 1]), "1:0:0:1::1");
    assert_eq!(ipv6([1, 0, 0, 0, 1, 0, 0, 0]), "1::1:0:0:0");
    assert_eq!(ipv6([0x2001, 0xdb8, 0, 0, 1, 0, 0, 1]), "2001:db8::1:0:0:1");
}

#[test]
fn ipv6_single_zero_not_compressed() {
    assert_eq!(ipv6([1, 0, 2, 3, 4, 5, 6, 7]), "1:0:2:3:4:5:6:7");
    assert_eq!(ipv6([0xfe80, 1, 2, 3, 4, 5, 6, 7]), "fe80:1:2:3:4:5:6:7");
}

#[test]
fn ipv6_ipv4_mapped() {
    assert_eq!(ipv6([0, 0, 0, 0, 0, 0xffff, 0xc0a8, 0x0001]), "::ffff:192.168.0.1");
    assert_eq!(ipv6([0, 0, 0, 0, 0, 0, 0xc0a8, 0x0001]), "::c0a8:1");
}
