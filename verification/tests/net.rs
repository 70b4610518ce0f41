use wadb::net::{address_text_of, IpAddr};
use wadb::pairing::{endpoint, usable_addresses};

fn v6(s: [u16; 8]) -> String {
    address_text_of(&IpAddr::V6(s))
}

#[test]
fn drops_link_local_v6_and_prefers_v4() {
    let addrs = vec![
        IpAddr::V6([0xfe80, 0, 0, 0, 0, 0, 0, 1]),
        IpAddr::V6([0x2001, 0xdb8, 0, 0, 0, 0, 0, 1]),
        IpAddr::V4([192, 168, 1, 42]),
    ];
    let usable = usable_addresses(&addrs);
    assert_eq!(usable[0], IpAddr::V4([192, 168, 1, 42]));
    assert_eq!(
        usable.len(),
        2,
        "link-local is unusable, global v6 is a fallback"
    );
    assert!(!usable
        .iter()
        .any(|a| address_text_of(a).starts_with("fe80")));
}

#[test]
fn brackets_ipv6_endpoints() {
    assert_eq!(
        endpoint(IpAddr::V4([10, 0, 0, 1]), 5555),
        "10.0.0.1:5555"
    );
    assert_eq!(
        endpoint(IpAddr::V6([0x2001, 0xdb8, 0, 0, 0, 0, 0, 1]), 5555),
        "[2001:db8::1]:5555"
    );
}

#[test]
fn an_ipv6_address_leaves_out_its_longest_run_of_zeros() {
    assert_eq!(v6([0; 8]), "::");
    assert_eq!(v6([0, 0, 0, 0, 0, 0, 0, 1]), "::1");
    assert_eq!(v6([1, 0, 0, 0, 0, 0, 0, 0]), "1::");
    assert_eq!(v6([1, 0, 2, 3, 4, 5, 6, 7]), "1:0:2:3:4:5:6:7");
    assert_eq!(v6([1, 0, 0, 2, 0, 0, 0, 3]), "1:0:0:2::3");
    assert_eq!(v6([1, 0, 0, 2, 3, 0, 0, 4]), "1::2:3:0:0:4");
    assert_eq!(v6([0, 0, 0, 0, 0, 0xffff, 0xc0a8, 0x0a0b]), "::ffff:192.168.10.11");
    assert_eq!(
        v6([0xfde7, 0x3f3c, 0x51e7, 0xf10a, 0xabcd, 0xef01, 0x2345, 0x6789]),
        "fde7:3f3c:51e7:f10a:abcd:ef01:2345:6789"
    );
}

#[test]
fn loopback_cannot_be_dialed_and_an_endpoint_splits_again() {
    assert!(usable_addresses(&[IpAddr::V6([0, 0, 0, 0, 0, 0, 0, 1])]).is_empty());
    assert!(usable_addresses(&[IpAddr::V6([0xfebf, 0, 0, 0, 0, 0, 0, 1])]).is_empty());
    assert_eq!(
        usable_addresses(&[IpAddr::V6([0xfec0, 0, 0, 0, 0, 0, 0, 1])]).len(),
        1
    );
    let text = endpoint(IpAddr::V6([0xfd00, 0, 0, 0, 0, 0, 0, 1]), 65535);
    assert_eq!(
        wadb::adb::split_host_port(&text),
        Some(("fd00::1", 65535))
    );
    let text = endpoint(IpAddr::V4([10, 0, 0, 1]), 0);
    assert_eq!(wadb::adb::split_host_port(&text), Some(("10.0.0.1", 0)));
    assert_eq!(wadb::adb::classify(&text), wadb::adb::Transport::Tcp);
}
