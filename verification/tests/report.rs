use wadb::adb::{parse_devices, MdnsSupport};
use wadb::daemon::Outcome;
use wadb::discovery::Found;
use wadb::net::IpAddr;
use wadb::pairing::PairOutcome;
use wadb::report::{
    adb_for_commands, connect_once, host_of, install_end, install_lines, no_server, pair_end,
    pair_manually, status, status_lines, status_not_installed, takeover, takeover_end,
    takeover_failed, takeover_needed, takeover_next, uninstall_lines, PairNext, ServerFacts,
    TakeoverNext, UnitAdb, UnitFacts,
};
use wadb::service::{InstallReport, PortOwner};
use wadb::ui::UnitState;

fn report(lingering: bool) -> InstallReport {
    InstallReport {
        adb: "/opt/adb".into(),
        mdns: "mdns daemon".into(),
        port: 5037,
        changed: true,
        lingering,
        backoff_full: true,
    }
}

#[test]
fn an_install_says_what_it_did() {
    assert_eq!(
        install_lines(&report(true), Some("/opt//adb"), None),
        [
            "adb:      /opt/adb",
            "mdns:     mdns daemon",
            "port:     5037",
            "unit:     written (stepped backoff)",
        ]
    );
    let mut r = report(false);
    r.changed = false;
    r.backoff_full = false;
    let lines = install_lines(&r, Some("/usr/bin/adb"), None);
    assert_eq!(
        lines[3],
        "unit:     unchanged (fixed interval, systemd < 254 backoff)"
    );
    assert_eq!(
        lines[4],
        "\nnote: `adb` on your PATH is /usr/bin/adb, not the binary this unit runs.\n\
         If that one starts a server first it may have no mDNS backend."
    );
    assert_eq!(
        lines[5],
        "\nlingering is off, so the unit stops at your last logout. Enable it with:\n  \
         loginctl enable-linger $USER"
    );
    assert!(install_lines(&r, None, Some("u"))[4].ends_with("enable-linger u"));
}

#[test]
fn an_install_fails_when_the_unit_did_not_get_the_port() {
    assert_eq!(
        install_end(PortOwner::Ours(7), 5037),
        Ok("\nsupervising adb, pid 7".into())
    );
    let held = Err(
        "port 5037 is held by another adb server, so the unit is retrying.\n\
         Stop that server once with `wadb takeover`, or quit whatever started it."
            .to_string(),
    );
    assert_eq!(install_end(PortOwner::Foreign, 5037), held);
    assert_eq!(install_end(PortOwner::HeldUnknown, 5037), held);
    assert_eq!(
        install_end(PortOwner::Nobody, 5037),
        Err("the unit is not listening yet; check `systemctl --user status wadb`".into())
    );
}

#[test]
fn a_status_reports_from_top_to_bottom() {
    let server = ServerFacts {
        version: Some("0029".into()),
        devices: parse_devices("10.0.0.1:5 device model:P\nUSB1 device\n10.0.0.2:5 offline\n"),
        services: Some("a _adb-tls-connect._tcp\nb\nc _adb-tls-pairing._tcp\n".into()),
    };
    let seen = Ok(vec![Found {
        fullname: "adb-1._adb-tls-connect._tcp.local.".into(),
        addresses: vec![
            IpAddr::V4([10, 0, 0, 1]),
            IpAddr::V6([0xfe80, 0, 0, 0, 0, 0, 0, 1]),
        ],
        port: 5,
    }]);
    assert_eq!(
        status(
            true,
            true,
            5037,
            PortOwner::Ours(42),
            &UnitAdb::Probed("/opt/adb".into(), Ok(MdnsSupport::Present("mdns".into()))),
            &Some(server),
            &seen,
        ),
        [
            "unit:     active",
            "watcher:  active",
            "port:     5037",
            "server:   ours, pid 42",
            "adb:      /opt/adb",
            "mdns:     mdns",
            "protocol: 0029",
            "devices:  2 wireless, 3 total",
            "          10.0.0.1:5 device [P]",
            "          10.0.0.2:5 offline []",
            "discovery: 2 adb service(s) visible to adb's own mDNS",
            "browser:  1 connect service(s) seen in 2s",
            "          adb-1 -> [10.0.0.1, fe80::1]:5",
        ]
    );
    assert_eq!(
        status(
            false,
            false,
            5137,
            PortOwner::Nobody,
            &UnitAdb::Gone("/x".into()),
            &None,
            &Err("no socket".into()),
        ),
        [
            "unit:     installed but not active",
            "watcher:  NOT running - wireless devices will not come back on their own",
            "port:     5137",
            "server:   down",
            "adb:      /x is gone - the unit will fail; re-run `wadb install`",
            "browser:  FAILED (no socket) - QR pairing will not work",
        ]
    );
    let line = |owner, adb: &UnitAdb, n: usize| {
        status(true, true, 1, owner, adb, &None, &Ok(vec![]))[n].clone()
    };
    assert_eq!(
        line(PortOwner::Foreign, &UnitAdb::Unreadable, 3),
        "server:   held by another adb server - `wadb takeover` to hand the port over"
    );
    assert_eq!(
        line(PortOwner::HeldUnknown, &UnitAdb::Unreadable, 3),
        "server:   port held, owner could not be read"
    );
    assert_eq!(
        line(PortOwner::Nobody, &UnitAdb::Unreadable, 4),
        "adb:      could not read the unit's ExecStart"
    );
    assert_eq!(
        line(
            PortOwner::Nobody,
            &UnitAdb::Probed("/x".into(), Ok(MdnsSupport::Absent)),
            5
        ),
        "mdns:     MISSING - this adb cannot reconnect devices on its own; re-run `wadb install`"
    );
    assert_eq!(
        line(
            PortOwner::Nobody,
            &UnitAdb::Probed("/x".into(), Err("busy".into())),
            5
        ),
        "mdns:     could not probe (busy)"
    );
}

#[test]
fn without_a_unit_only_what_would_be_used_is_named() {
    assert_eq!(
        status_not_installed(&Ok("/opt/adb".into())),
        [
            "unit:     not installed - run `wadb install`",
            "adb:      /opt/adb (would be used)",
        ]
    );
    assert_eq!(
        status_not_installed(&Err("no adb binary found".into()))[1],
        "adb:      no adb binary found"
    );
}

#[test]
fn the_unit_decides_which_status_is_printed() {
    let resolved = Ok("/opt/adb".to_string());
    let facts = UnitFacts {
        watcher: true,
        port: 5037,
        owner: PortOwner::Foreign,
        adb: UnitAdb::Gone("/opt/adb".into()),
        server: None,
        seen: Ok(vec![]),
    };
    let expected = |active| {
        status(
            active,
            true,
            5037,
            PortOwner::Foreign,
            &UnitAdb::Gone("/opt/adb".into()),
            &None,
            &Ok(vec![]),
        )
    };
    assert_eq!(
        status_lines(UnitState::Active, &resolved, Some(&facts)),
        expected(true)
    );
    assert_eq!(
        status_lines(UnitState::Inactive, &resolved, Some(&facts)),
        expected(false)
    );
    let bare = status_not_installed(&resolved);
    assert_eq!(
        status_lines(UnitState::NotInstalled, &resolved, Some(&facts)),
        bare,
        "a stranger's server is not described"
    );
    assert_eq!(status_lines(UnitState::NotInstalled, &resolved, None), bare);
}

#[test]
fn commands_run_the_binary_the_unit_runs() {
    let resolved = || Ok("/usr/bin/adb".to_string());
    assert_eq!(
        adb_for_commands(Some("/opt/adb".into()), true, resolved()),
        Ok("/opt/adb".into())
    );
    assert_eq!(
        adb_for_commands(Some("/opt/adb".into()), false, resolved()),
        resolved()
    );
    assert_eq!(
        adb_for_commands(None, true, Err("none".into())),
        Err("none".into())
    );
}

#[test]
fn a_pairing_by_hand_is_followed_by_a_connect() {
    assert_eq!(host_of("[fd00::1]:4000"), "fd00::1");
    assert_eq!(host_of("10.0.0.1:4000"), "10.0.0.1");
    assert_eq!(host_of("nocolon"), "nocolon");
    assert_eq!(
        pair_manually(
            PairOutcome::Paired {
                guid: Some("adb-1".into())
            },
            "10.0.0.1:4000",
            true
        ),
        PairNext::Connect {
            say: "paired (adb-1)".into(),
            host: "10.0.0.1".into(),
            guid: Some("adb-1".into())
        }
    );
    assert_eq!(
        pair_manually(PairOutcome::Paired { guid: None }, "h:1", false),
        PairNext::Connect {
            say: "paired".into(),
            host: "h".into(),
            guid: None
        }
    );
    assert_eq!(
        pair_manually(PairOutcome::WrongCode, "h:1", true),
        PairNext::Fail("the phone rejected that code".into())
    );
    assert_eq!(
        pair_manually(PairOutcome::Unreachable, "h:1", true),
        PairNext::Fail("nothing answered at h:1 - the pairing dialog may have closed".into())
    );
    assert_eq!(
        pair_manually(PairOutcome::Other("new words".into()), "h:1", true),
        PairNext::TryConnect {
            host: "h".into(),
            otherwise: "new words".into()
        }
    );
    assert_eq!(
        pair_manually(PairOutcome::Other("new words".into()), "h:1", false),
        PairNext::Fail("new words".into())
    );
    assert_eq!(
        no_server(5037),
        "no adb server on port 5037. Run `wadb install` first."
    );
}

#[test]
fn a_takeover_asks_only_a_foreign_server() {
    assert_eq!(
        takeover_needed(PortOwner::Ours(3), 5037),
        Err("port 5037 is already ours (pid 3); nothing to do.".into())
    );
    assert_eq!(
        takeover_needed(PortOwner::Nobody, 5037),
        Err("nothing is holding port 5037.".into())
    );
    assert_eq!(takeover_needed(PortOwner::Foreign, 5037), Ok(()));
    assert_eq!(takeover_needed(PortOwner::HeldUnknown, 5037), Ok(()));
    let cmd = takeover("/opt/adb", 5037);
    assert_eq!(cmd.program, "/opt/adb");
    assert_eq!(cmd.args, ["kill-server"]);
    assert_eq!(
        cmd.env_set,
        [(
            "ADB_SERVER_SOCKET".to_string(),
            "tcp:127.0.0.1:5037".to_string()
        )]
    );
    assert_eq!(cmd.env_clear, ["ANDROID_ADB_SERVER_PORT"]);
    assert_eq!(
        takeover_failed(" cannot connect\n"),
        "adb kill-server failed: cannot connect"
    );
    assert_eq!(
        takeover_end(PortOwner::Ours(8), 5037),
        "the unit now owns port 5037, pid 8."
    );
    for owner in [PortOwner::Foreign, PortOwner::HeldUnknown, PortOwner::Nobody] {
        assert_eq!(
            takeover_end(owner, 5037),
            "restarted the unit, but it has not taken the port yet."
        );
    }
}

#[test]
fn a_takeover_restarts_the_unit_only_once_the_request_went_through() {
    for installed in [true, false] {
        assert_eq!(
            takeover_next(false, " cannot connect\n", installed),
            TakeoverNext::Fail("adb kill-server failed: cannot connect".into())
        );
    }
    let say = "asked the foreign server to stop.".to_string();
    assert_eq!(
        takeover_next(true, "", true),
        TakeoverNext::Restart {
            say: say.clone(),
            args: vec!["restart".into(), "wadb.service".into()]
        }
    );
    assert_eq!(takeover_next(true, "x", false), TakeoverNext::Done { say });
}

#[test]
fn a_pairing_that_may_have_worked_ends_with_what_adb_said() {
    let said = || Some("Weird wording".to_string());
    assert_eq!(pair_end(said(), Ok("connected".into())), Ok("connected".into()));
    assert_eq!(pair_end(None, Ok("connected".into())), Ok("connected".into()));
    assert_eq!(pair_end(said(), Err("gone".into())), Err("Weird wording".into()));
    assert_eq!(pair_end(None, Err("gone".into())), Err("gone".into()));
}

#[test]
fn a_pass_by_hand_never_hides_a_failure() {
    assert_eq!(connect_once(&Outcome::default()), ["nothing to reconnect."]);
    assert_eq!(
        connect_once(&Outcome {
            connected: vec!["connected to a".into()],
            failed: vec!["b: timed out".into()],
        }),
        ["connected to a", "connect failed: b: timed out"]
    );
}

#[test]
fn an_uninstall_says_what_it_stopped() {
    let lines = uninstall_lines();
    assert_eq!(lines[0], "unit removed.");
    assert!(lines[1].starts_with("Stopping it also stopped the adb server it owned"));
    assert!(lines[1].ends_with("which will not reconnect wireless devices."));
}
