use wadb::adb::parse_devices;
use wadb::daemon::{
    decide, report, run, start_pass, watching, Action, Failures, Outcome, Pass, Start, Step, BACKOFF,
    FAILURES_BEFORE_BACKOFF,
};
use wadb::discovery::Found;
use wadb::net::IpAddr;

const NOW: u64 = 1_000_000_000_000;
const SECOND: u64 = 1_000_000_000;

fn service(addrs: Vec<IpAddr>) -> Found {
    Found {
        fullname: "adb-3C231JEKB44234-9igruZ._adb-tls-connect._tcp.local.".into(),
        addresses: addrs,
        port: 42595,
    }
}

fn v4() -> IpAddr {
    IpAddr::V4([192, 168, 86, 45])
}

fn global_v6() -> IpAddr {
    IpAddr::V6([0xfde7, 0x3f3c, 0x51e7, 0xf10a, 0, 0, 0, 1])
}

fn connect_targets(action: Action) -> Vec<String> {
    match action {
        Action::Connect(eps) => eps,
        other => panic!("expected a connect, got {other:?}"),
    }
}

#[test]
fn connects_a_device_that_is_advertised_but_missing() {
    let eps = connect_targets(decide(&service(vec![v4()]), &[], &Failures::new(), NOW));
    assert_eq!(eps, ["192.168.86.45:42595"]);
}

#[test]
fn skips_a_device_already_attached_by_endpoint() {
    let devices = parse_devices("192.168.86.45:42595 device model:Pixel_8a\n");
    assert_eq!(
        decide(&service(vec![v4()]), &devices, &Failures::new(), NOW),
        Action::AlreadyAttached
    );
}

#[test]
fn skips_a_device_already_attached_under_its_mdns_serial() {
    let devices =
        parse_devices("adb-3C231JEKB44234-9igruZ._adb-tls-connect._tcp device model:Pixel_8a\n");
    assert_eq!(
        decide(&service(vec![v4()]), &devices, &Failures::new(), NOW),
        Action::AlreadyAttached
    );
}

#[test]
fn an_offline_device_is_reconnected_not_treated_as_present() {
    for line in [
        "192.168.86.45:42595 offline model:Pixel_8a\n",
        "adb-3C231JEKB44234-9igruZ._adb-tls-connect._tcp offline model:Pixel_8a\n",
    ] {
        let devices = parse_devices(line);
        assert!(
            matches!(
                decide(&service(vec![v4()]), &devices, &Failures::new(), NOW),
                Action::Connect(_)
            ),
            "offline device must be reconnected: {line}"
        );
    }
}

#[test]
fn an_unauthorized_device_is_left_alone_under_either_serial() {
    for line in [
        "192.168.86.45:42595 unauthorized model:Pixel_8a\n",
        "adb-3C231JEKB44234-9igruZ._adb-tls-connect._tcp unauthorized model:Pixel_8a\n",
    ] {
        let devices = parse_devices(line);
        assert_eq!(
            decide(&service(vec![v4()]), &devices, &Failures::new(), NOW),
            Action::AlreadyAttached,
            "reconnect cannot clear an authorisation prompt: {line}"
        );
    }
}

#[test]
fn a_different_phone_is_not_mistaken_for_the_attached_one() {
    let devices = parse_devices("192.168.86.99:41000 device model:Pixel_Fold\n");
    assert!(matches!(
        decide(&service(vec![v4()]), &devices, &Failures::new(), NOW),
        Action::Connect(_)
    ));
}

#[test]
fn a_shorter_instance_does_not_match_a_longer_serial() {
    let mut svc = service(vec![v4()]);
    svc.fullname = "adb-3C231._adb-tls-connect._tcp.local.".into();
    let devices =
        parse_devices("adb-3C231JEKB44234-9igruZ._adb-tls-connect._tcp device model:Pixel_8a\n");
    assert!(matches!(
        decide(&svc, &devices, &Failures::new(), NOW),
        Action::Connect(_)
    ));
}

#[test]
fn attachment_is_checked_against_every_advertised_address() {
    let devices = parse_devices("[fde7:3f3c:51e7:f10a::1]:42595 device model:Pixel_8a\n");
    let addrs = vec![v4(), global_v6()];
    assert_eq!(
        decide(&service(addrs), &devices, &Failures::new(), NOW),
        Action::AlreadyAttached
    );
}

#[test]
fn offers_every_usable_address_in_order_ipv4_first() {
    let addrs = vec![
        IpAddr::V6([0xfe80, 0, 0, 0, 0x98db, 0x69ff, 0xfe7b, 0x87f4]),
        global_v6(),
        v4(),
    ];
    let eps = connect_targets(decide(&service(addrs), &[], &Failures::new(), NOW));
    assert_eq!(eps[0], "192.168.86.45:42595", "IPv4 is tried first");
    assert_eq!(
        eps.len(),
        2,
        "a dead IPv4 must not hide a working global IPv6"
    );
    assert!(eps[1].starts_with('['), "IPv6 endpoints are bracketed");
    assert!(
        !eps.iter().any(|e| e.contains("fe80")),
        "link-local is undialable"
    );
}

#[test]
fn a_service_with_no_dialable_address_is_skipped_not_retried() {
    let addrs = vec![IpAddr::V6([0xfe80, 0, 0, 0, 0, 0, 0, 1])];
    assert_eq!(
        decide(&service(addrs), &[], &Failures::new(), NOW),
        Action::NoUsableAddress
    );
}

#[test]
fn backs_off_after_repeated_failures_then_tries_again() {
    let mut failures = Failures::new();
    failures.insert("192.168.86.45:42595", FAILURES_BEFORE_BACKOFF, NOW);
    assert_eq!(
        decide(&service(vec![v4()]), &[], &failures, NOW),
        Action::BackingOff
    );
    let later = NOW + BACKOFF + SECOND;
    assert!(matches!(
        decide(&service(vec![v4()]), &[], &failures, later),
        Action::Connect(_)
    ));
    assert_eq!(
        decide(&service(vec![v4()]), &[], &failures, NOW - SECOND),
        Action::BackingOff,
        "a clock that went back counts as no time at all"
    );
}

#[test]
fn backoff_on_one_address_still_leaves_the_others() {
    let mut failures = Failures::new();
    failures.insert("192.168.86.45:42595", FAILURES_BEFORE_BACKOFF, NOW);
    let addrs = vec![v4(), global_v6()];
    let eps = connect_targets(decide(&service(addrs), &[], &failures, NOW));
    assert_eq!(
        eps.len(),
        1,
        "the backed-off IPv4 is dropped, the IPv6 remains"
    );
    assert!(eps[0].starts_with('['));
}

#[test]
fn a_couple_of_failures_do_not_trigger_backoff_yet() {
    let mut failures = Failures::new();
    failures.insert("192.168.86.45:42595", 1, NOW);
    assert!(matches!(
        decide(&service(vec![v4()]), &[], &failures, NOW),
        Action::Connect(_)
    ));
}

#[test]
fn failures_are_counted_and_forgotten_by_endpoint() {
    let mut f = Failures::new();
    assert_eq!(f.get("a"), None);
    f.record("a", 5);
    f.record("b", 6);
    f.record("a", 7);
    assert_eq!(f.get("a"), Some((2, 7)));
    assert_eq!(f.get("b"), Some((1, 6)));
    f.retain(&["b".to_string(), "c".to_string()]);
    assert_eq!(f.get("a"), None);
    assert_eq!(f.get("b"), Some((1, 6)));
    f.remove_all(&["b".to_string()]);
    assert_eq!(f.get("b"), None);
    f.insert("a", u32::MAX, 1);
    f.record("a", 2);
    assert_eq!(f.get("a"), Some((0, 2)));
}

#[test]
fn a_pass_dials_every_address_until_one_works() {
    let mut failures = Failures::new();
    failures.insert("10.9.9.9:1", 2, 1);
    let mut pass = Pass::begin(vec![service(vec![global_v6(), v4()])], vec![], None);
    assert!(!pass.dialing());
    assert_eq!(
        pass.tick(&mut failures, None, NOW),
        Step::Dial("192.168.86.45:42595".into())
    );
    assert!(pass.dialing());
    assert_eq!(
        pass.tick(&mut failures, Some(Err("timed out".into())), NOW + 1),
        Step::Dial("[fde7:3f3c:51e7:f10a::1]:42595".into())
    );
    assert_eq!(failures.get("192.168.86.45:42595"), Some((1, NOW + 1)));
    assert_eq!(
        pass.tick(&mut failures, Some(Ok("connected".into())), NOW + 2),
        Step::Done(Outcome {
            connected: vec!["connected".into()],
            failed: vec![]
        })
    );
    assert_eq!(
        failures.get("192.168.86.45:42595"),
        None,
        "one address working clears its siblings"
    );
    assert_eq!(
        failures.get("10.9.9.9:1"),
        None,
        "what is no longer advertised is forgotten"
    );
}

#[test]
fn a_service_fails_only_when_every_address_did() {
    let mut failures = Failures::new();
    let mut pass = Pass::begin(vec![service(vec![v4(), global_v6()])], vec![], None);
    pass.tick(&mut failures, None, NOW);
    pass.tick(&mut failures, Some(Err("refused".into())), NOW);
    let step = pass.tick(&mut failures, Some(Err("timed out".into())), NOW);
    let outcome = Outcome {
        connected: vec![],
        failed: vec![
            "192.168.86.45:42595: refused; [fde7:3f3c:51e7:f10a::1]:42595: timed out".into(),
        ],
    };
    assert_eq!(
        report(&outcome),
        ["wadb: connect failed: 192.168.86.45:42595: refused; [fde7:3f3c:51e7:f10a::1]:42595: timed out"]
    );
    assert_eq!(step, Step::Done(outcome));
    assert_eq!(failures.get("192.168.86.45:42595"), Some((1, NOW)));
}

#[test]
fn a_phone_that_attached_during_the_browse_is_not_dialed() {
    let mut failures = Failures::new();
    failures.insert("192.168.86.45:42595", 9, NOW);
    let after = parse_devices("192.168.86.45:42595 device\n");
    let mut pass = Pass::begin(vec![service(vec![v4()])], vec![], Some(after));
    assert_eq!(
        pass.tick(&mut failures, None, NOW),
        Step::Done(Outcome::default())
    );
    assert_eq!(
        failures.get("192.168.86.45:42595"),
        None,
        "a device that came back clears its history"
    );
}

#[test]
fn a_pass_reports_each_line_it_has() {
    let outcome = Outcome {
        connected: vec!["connected to a".into()],
        failed: vec!["b: x".into()],
    };
    assert_eq!(
        report(&outcome),
        ["wadb: connected to a", "wadb: connect failed: b: x"]
    );
}

#[test]
fn an_unread_list_skips_the_pass() {
    assert_eq!(start_pass(false, None), Start::Idle);
    assert_eq!(start_pass(true, Some(vec![])), Start::Browse(vec![]));
    assert_eq!(
        start_pass(true, None),
        Start::Skip("could not read the device list; skipping this pass".into())
    );
    assert_eq!(
        run(&Err("no browser".to_string())),
        ["wadb: pass failed: no browser"]
    );
    assert_eq!(
        run(&Ok(Outcome {
            connected: vec!["x".into()],
            failed: vec![]
        })),
        ["wadb: x"]
    );
    assert_eq!(
        watching(5037),
        "wadb: watching _adb-tls-connect._tcp.local. for devices to reconnect on port 5037"
    );
}

#[test]
fn a_dialed_endpoint_ends_the_matter() {
    let svc = service(vec![global_v6(), v4()]);
    let eps = connect_targets(decide(&svc, &[], &Failures::new(), NOW));
    for ep in eps {
        let devices = parse_devices(&format!("{ep} device\n"));
        assert_eq!(
            decide(&svc, &devices, &Failures::new(), NOW),
            Action::AlreadyAttached
        );
    }
}

#[test]
fn three_failures_in_a_row_are_enough() {
    let ep = "192.168.86.45:42595";
    let svc = service(vec![v4()]);
    let mut failures = Failures::new();
    for n in 0..3 {
        assert!(matches!(
            decide(&svc, &[], &failures, NOW),
            Action::Connect(_)
        ));
        failures.record(ep, NOW + n);
    }
    assert_eq!(
        decide(&svc, &[], &failures, NOW + 2 + BACKOFF - 1),
        Action::BackingOff
    );
    assert!(matches!(
        decide(&svc, &[], &failures, NOW + 2 + BACKOFF),
        Action::Connect(_)
    ));
}

#[test]
fn a_pass_reports_every_service_it_took_up() {
    let at = |last: u8| Found {
        fullname: "adb-x._adb-tls-connect._tcp.local.".into(),
        addresses: vec![IpAddr::V4([10, 0, 0, last])],
        port: 4000,
    };
    let none = Found {
        addresses: vec![],
        ..at(9)
    };
    let mut failures = Failures::new();
    failures.insert("10.0.0.3:4000", 9, NOW);
    let attached = parse_devices("10.0.0.2:4000 device\n");
    let found = vec![at(1), at(2), none, at(3), at(4), at(5)];
    let mut pass = Pass::begin(found, attached, None);
    let mut dialed = Vec::new();
    let mut result = None;
    let outcome = loop {
        match pass.tick(&mut failures, result, NOW + 1) {
            Step::Dial(ep) => {
                result = Some(if ep == "10.0.0.4:4000" {
                    Ok("connected".to_string())
                } else {
                    Err("refused".to_string())
                });
                dialed.push(ep);
            }
            Step::Done(outcome) => break outcome,
        }
    };
    assert_eq!(dialed, ["10.0.0.1:4000", "10.0.0.4:4000", "10.0.0.5:4000"]);
    assert_eq!(outcome.connected, ["connected"]);
    assert_eq!(
        outcome.failed,
        ["10.0.0.1:4000: refused", "10.0.0.5:4000: refused"]
    );
}
