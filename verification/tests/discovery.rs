use wadb::discovery::{browse_all, next_wait, Found};
use wadb::net::IpAddr;

fn found(name: &str, port: u16) -> Found {
    Found {
        fullname: name.into(),
        addresses: vec![IpAddr::V4([10, 0, 0, 1])],
        port,
    }
}

#[test]
fn instance_is_the_first_label() {
    let f = Found {
        fullname: "studio-Ab3xK9pQr2._adb-tls-pairing._tcp.local.".into(),
        addresses: vec![],
        port: 37219,
    };
    assert_eq!(f.instance(), "studio-Ab3xK9pQr2");
    assert_eq!(found("nodots", 1).instance(), "nodots");
    assert_eq!(found("", 1).instance(), "");
}

#[test]
fn a_service_heard_twice_is_kept_once() {
    let heard = [found("a", 1), found("b", 2), found("a", 3)];
    let seen = browse_all(&heard);
    assert_eq!(seen, [found("a", 1), found("b", 2)]);
}

#[test]
fn listening_ends_at_the_deadline() {
    assert_eq!(next_wait(0, 2000), Some(500));
    assert_eq!(next_wait(1600, 2000), Some(400));
    assert_eq!(next_wait(2000, 2000), None);
    assert_eq!(next_wait(2001, 2000), None);
}
