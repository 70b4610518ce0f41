use wadb::adb::MdnsSupport;
use wadb::probe::{
    checked, look, probe_mdns_support, Probe, ProbeAction, ProbeEvent, LIFETIME, SETTLING,
};

const DAEMON: &str = "mdns daemon version [Openscreen discovery 0.0.0]";

fn step(p: Probe, e: ProbeEvent) -> (Probe, ProbeAction) {
    probe_mdns_support(p, "/opt/adb", e)
}

#[test]
fn a_reply_that_names_a_daemon_is_reported_at_once() {
    let (p, a) = step(Probe::begin(), ProbeEvent::Spawned);
    assert_eq!(a, ProbeAction::Check);
    let (p, a) = step(
        p,
        ProbeEvent::Checked {
            out: None,
            settled: true,
        },
    );
    assert_eq!(a, ProbeAction::Check, "a lost check says nothing");
    assert_eq!(p.answered, None);
    let (_, a) = step(
        p,
        ProbeEvent::Checked {
            out: Some(format!("{DAEMON}\n")),
            settled: false,
        },
    );
    assert_eq!(a, ProbeAction::Report(MdnsSupport::Present(DAEMON.into())));
}

#[test]
fn an_empty_reply_counts_only_once_the_server_has_settled() {
    let (p, _) = step(Probe::begin(), ProbeEvent::Spawned);
    let (p, _) = step(
        p,
        ProbeEvent::Checked {
            out: Some(String::new()),
            settled: false,
        },
    );
    assert_eq!(p.answered, None);
    let (p, a) = step(
        p,
        ProbeEvent::Checked {
            out: Some(String::new()),
            settled: true,
        },
    );
    assert_eq!(p.answered, Some(MdnsSupport::Absent));
    assert_eq!(a, ProbeAction::Check);
    let (_, a) = step(p, ProbeEvent::Deadline { running: false });
    assert_eq!(a, ProbeAction::Report(MdnsSupport::Absent));
}

#[test]
fn a_silent_server_that_outlives_its_time_has_no_backend() {
    let (p, _) = step(Probe::begin(), ProbeEvent::Spawned);
    let (_, a) = step(p, ProbeEvent::Deadline { running: true });
    assert_eq!(a, ProbeAction::Report(MdnsSupport::Absent));
}

#[test]
fn three_servers_are_tried_and_the_last_error_is_told() {
    let (p, a) = step(Probe::begin(), ProbeEvent::SpawnFailed("no such file".into()));
    assert_eq!(a, ProbeAction::Start);
    let (p, _) = step(p, ProbeEvent::Spawned);
    let (p, a) = step(p, ProbeEvent::Exited("exit status: 1".into()));
    assert_eq!(a, ProbeAction::Start);
    assert_eq!(p.attempts, 3);
    let (_, a) = step(p, ProbeEvent::SpawnFailed("busy".into()));
    assert_eq!(
        a,
        ProbeAction::Fail("could not start /opt/adb: busy".into())
    );

    let p = Probe {
        attempts: 3,
        answered: None,
        last_err: None,
    };
    let (_, a) = step(p, ProbeEvent::Deadline { running: false });
    assert_eq!(a, ProbeAction::Fail("could not probe /opt/adb".into()));

    let p = Probe {
        attempts: 3,
        answered: None,
        last_err: None,
    };
    let (_, a) = step(p, ProbeEvent::Exited("signal: 6".into()));
    assert_eq!(
        a,
        ProbeAction::Fail(
            "probe server for /opt/adb exited early (signal: 6); the port may be taken".into()
        )
    );
}

#[test]
fn the_clock_comes_before_the_server() {
    let gone = || Some("exit status: 1".to_string());
    assert_eq!(look(10, 10 + LIFETIME - 1, None), None);
    assert_eq!(
        look(10, 10 + LIFETIME - 1, gone()),
        Some(ProbeEvent::Exited("exit status: 1".into()))
    );
    assert_eq!(
        look(10, 10 + LIFETIME, None),
        Some(ProbeEvent::Deadline { running: true })
    );
    assert_eq!(
        look(10, 10 + LIFETIME, gone()),
        Some(ProbeEvent::Deadline { running: false })
    );
    assert_eq!(look(10, 5, None), None);
    assert_eq!(
        checked(10, 10 + SETTLING, None),
        ProbeEvent::Checked {
            out: None,
            settled: false
        }
    );
    assert_eq!(
        checked(10, 11 + SETTLING, Some("x".into())),
        ProbeEvent::Checked {
            out: Some("x".into()),
            settled: true
        }
    );
}
