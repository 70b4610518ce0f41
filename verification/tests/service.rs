use wadb::adb::{MdnsSupport, DEFAULT_PORT};
use wadb::service::{
    classify_owner, connect_unit_active, connect_unit_path, holding_port, install, install_steps,
    installed_adb, installed_port, is_active, lingering, listener_pid, main_pid, no_backend,
    parse_systemd_version, port, port_from_env, port_owner, quote_exec, quote_value,
    render_connect_unit, render_unit, restart, start, systemctl_failure, uninstall,
    uninstall_steps, unit_path, wait_for_ownership, PortOwner, Uninstall, UninstallAction,
    UninstallNext, UninstallStep, UnitSpec, CONNECT_UNIT_NAME, UNIT_NAME,
};

fn spec(port: u16, systemd: Option<u32>) -> UnitSpec {
    UnitSpec {
        adb: "/opt/sdk/platform-tools/adb".to_string(),
        port,
        systemd,
    }
}

#[test]
fn unit_supervises_with_an_absolute_path_and_no_listen_hostname() {
    let unit = render_unit(&spec(DEFAULT_PORT, Some(257)));
    assert!(unit.contains("ExecStart=/opt/sdk/platform-tools/adb nodaemon server"));
    assert!(
        !unit.contains("127.0.0.1"),
        "a hostname in -L makes adb abort"
    );
    assert!(
        !unit.contains(" -a"),
        "-a would expose the server on the LAN"
    );
    assert!(unit.contains("Restart=always"));
    assert!(unit.contains("Type=simple"));
    assert!(unit.contains("LimitCORE=0"));
    assert!(unit.contains("WantedBy=default.target"));
}

#[test]
fn start_limit_is_in_unit_and_backoff_is_in_service() {
    let unit = render_unit(&spec(DEFAULT_PORT, Some(257)));
    let (unit_section, service_section) = unit.split_once("[Service]").unwrap();
    assert!(unit_section.contains("StartLimitIntervalSec=0"));
    assert!(service_section.contains("RestartSteps=5"));
    assert!(service_section.contains("RestartMaxDelaySec=30s"));
}

#[test]
fn old_systemd_gets_a_fixed_interval_instead_of_a_refusal() {
    let unit = render_unit(&spec(DEFAULT_PORT, Some(249)));
    assert!(!unit.contains("RestartSteps"));
    assert!(!unit.contains("RestartMaxDelaySec"));
    assert!(unit.contains("RestartSec=5s"));
    assert!(
        unit.contains("Restart=always"),
        "still supervised, just more coarsely"
    );
}

#[test]
fn unknown_systemd_version_takes_the_conservative_branch() {
    let unit = render_unit(&spec(DEFAULT_PORT, None));
    assert!(!unit.contains("RestartSteps"));
    assert!(unit.contains("RestartSec=5s"));
}

#[test]
fn custom_port_is_requested_without_a_hostname() {
    let unit = render_unit(&spec(5137, Some(257)));
    assert!(unit.contains("ExecStart=/opt/sdk/platform-tools/adb -L tcp:5137 nodaemon server"));
}

#[test]
fn requires_the_mount_the_adb_binary_lives_on() {
    let unit = render_unit(&spec(DEFAULT_PORT, Some(257)));
    assert!(unit.contains("RequiresMountsFor=/opt/sdk/platform-tools"));
}

#[test]
fn no_network_online_target() {
    let unit = render_unit(&spec(DEFAULT_PORT, Some(257)));
    assert!(!unit.contains("network-online.target"));
    assert!(!unit.contains("After=network.target"));
}

#[test]
fn parses_the_port_back_out_of_a_rendered_unit() {
    let unit = render_unit(&spec(5137, Some(257)));
    let exec = unit.lines().find(|l| l.starts_with("ExecStart=")).unwrap();
    let port: u16 = exec
        .split("-L tcp:")
        .nth(1)
        .unwrap()
        .split_whitespace()
        .next()
        .unwrap()
        .parse()
        .unwrap();
    assert_eq!(port, 5137);
    assert_eq!(installed_port(Some(&unit)), Some(5137));
    assert_eq!(
        installed_port(Some(&render_unit(&spec(DEFAULT_PORT, None)))),
        Some(DEFAULT_PORT)
    );
}

#[test]
fn install_enables_both_units_and_restarts_only_what_changed() {
    let steps = install_steps(false, false);
    assert!(steps.iter().any(|s| s == &["enable", "--now", UNIT_NAME]));
    assert!(steps
        .iter()
        .any(|s| s == &["enable", "--now", CONNECT_UNIT_NAME]));
    assert!(
        !steps.iter().any(|s| s[0] == "restart"),
        "nothing changed, nothing to restart"
    );

    let steps = install_steps(true, true);
    assert!(steps.iter().any(|s| s == &["restart", UNIT_NAME]));
    assert!(steps.iter().any(|s| s == &["restart", CONNECT_UNIT_NAME]));
    assert_eq!(steps[0], ["daemon-reload"], "reload before enabling");
}

#[test]
fn uninstall_order_is_disable_then_delete_then_reload() {
    assert_eq!(
        uninstall_steps(true, true),
        vec![
            UninstallStep::Disable(CONNECT_UNIT_NAME),
            UninstallStep::Disable(UNIT_NAME),
            UninstallStep::Remove(CONNECT_UNIT_NAME),
            UninstallStep::Remove(UNIT_NAME),
            UninstallStep::Reload,
        ]
    );
    assert_eq!(uninstall_steps(false, false), vec![UninstallStep::Reload]);
    assert_eq!(
        uninstall_steps(false, true),
        vec![
            UninstallStep::Disable(UNIT_NAME),
            UninstallStep::Remove(UNIT_NAME),
            UninstallStep::Reload
        ]
    );
}

#[test]
fn watcher_unit_survives_a_restart_of_the_server_unit() {
    let unit = render_connect_unit("/home/u/.cargo/bin/wadb", DEFAULT_PORT);
    assert!(!unit.contains("BindsTo"));
    assert!(unit.contains("Wants=wadb.service"));
    assert!(unit.contains("After=wadb.service"));
    assert!(unit.contains("Restart=always"));
}

#[test]
fn watcher_unit_runs_this_binary_by_absolute_path() {
    let unit = render_connect_unit("/home/u/.cargo/bin/wadb", 5137);
    assert!(unit.contains("ExecStart=/home/u/.cargo/bin/wadb daemon"));
    assert!(unit.contains("Environment=ANDROID_ADB_SERVER_PORT=5137"));
    assert!(unit.contains("WantedBy=default.target"));
}

#[test]
fn directive_values_are_quoted_when_they_need_it() {
    let unit = render_connect_unit("/home/u/my tools/wadb", DEFAULT_PORT);
    assert!(
        unit.contains("RequiresMountsFor=\"/home/u/my tools\""),
        "{unit}"
    );
    assert!(
        unit.contains("ExecStart=\"/home/u/my tools/wadb\" daemon"),
        "{unit}"
    );
    assert!(!unit.contains("Environment=ADB="), "{unit}");
}

#[test]
fn quotes_only_paths_that_need_it() {
    assert_eq!(quote_exec("/opt/sdk/adb"), "/opt/sdk/adb");
    assert_eq!(quote_exec("/opt/my sdk/adb"), "\"/opt/my sdk/adb\"");
}

#[test]
fn reads_the_adb_path_back_out_of_a_unit() {
    let unit = render_unit(&spec(5137, Some(257)));
    let exec = unit.lines().find(|l| l.starts_with("ExecStart=")).unwrap();
    let path = exec
        .strip_prefix("ExecStart=")
        .unwrap()
        .split_whitespace()
        .next()
        .unwrap();
    assert_eq!(path, "/opt/sdk/platform-tools/adb");
    assert_eq!(
        installed_adb(Some(&unit)).as_deref(),
        Some("/opt/sdk/platform-tools/adb")
    );

    let quoted = render_unit(&UnitSpec {
        adb: "/opt/my sdk/adb".to_string(),
        port: DEFAULT_PORT,
        systemd: Some(257),
    });
    let exec = quoted
        .lines()
        .find(|l| l.starts_with("ExecStart="))
        .unwrap();
    assert!(exec.contains("\"/opt/my sdk/adb\""));
    assert_eq!(
        installed_adb(Some(&quoted)).as_deref(),
        Some("/opt/my sdk/adb")
    );
}

#[test]
fn ownership_needs_the_listening_pid_to_match_the_unit() {
    assert_eq!(
        classify_owner(true, Some(42), Some(42)),
        PortOwner::Ours(42)
    );
    assert_eq!(classify_owner(true, Some(99), Some(42)), PortOwner::Foreign);
    assert_eq!(classify_owner(true, Some(99), None), PortOwner::Foreign);
    assert_eq!(classify_owner(true, None, Some(42)), PortOwner::HeldUnknown);
    assert_eq!(classify_owner(false, None, None), PortOwner::Nobody);
}

#[test]
fn reads_systemd_version() {
    assert_eq!(
        parse_systemd_version("systemd 257 (257.9-0ubuntu2.5)"),
        Some(257)
    );
    assert_eq!(
        parse_systemd_version("systemd 249 (249.11-0ubuntu3)"),
        Some(249)
    );
    assert_eq!(parse_systemd_version("nonsense"), None);
    assert_eq!(parse_systemd_version("systemd 255~rc1"), Some(255));
    assert_eq!(parse_systemd_version("systemd .5"), None);
}

#[test]
fn the_whole_unit_is_as_it_should_be() {
    assert_eq!(
        render_unit(&spec(5137, Some(254))),
        "\
[Unit]
Description=Keep the ADB server running for wireless debugging (wadb)
Documentation=https://github.com/hamen/wadb
# Never latch into `failed`: giving up permanently would end supervision silently,
# which is the exact state this unit exists to prevent.
StartLimitIntervalSec=0
# The adb binary can live on a separate mount that is not ready when a lingering
# user manager starts.
RequiresMountsFor=/opt/sdk/platform-tools

[Service]
Type=simple
ExecStart=/opt/sdk/platform-tools/adb -L tcp:5137 nodaemon server
Restart=always
RestartSec=1s
RestartSteps=5
RestartMaxDelaySec=30s
# adb abort()s when its listen socket is taken, so every lost restart race would
# otherwise write a core dump.
LimitCORE=0

[Install]
WantedBy=default.target
"
    );
    assert_eq!(
        render_connect_unit("wadb", 5037),
        "\
[Unit]
Description=Reconnect wireless ADB devices that adb's own mDNS cannot find (wadb)
Documentation=https://github.com/hamen/wadb
Wants=wadb.service
After=wadb.service
StartLimitIntervalSec=0
RequiresMountsFor=

[Service]
Type=simple
# The watcher reaches the server over its smart socket and never runs adb, so only the port
# matters here. ExecStart is absolute: a --user unit inherits no PATH that would find it.
Environment=ANDROID_ADB_SERVER_PORT=5037
ExecStart=wadb daemon
Restart=always
RestartSec=5s

[Install]
WantedBy=default.target
"
    );
}

#[test]
fn quoting_escapes_what_a_value_or_a_command_line_needs() {
    assert_eq!(quote_value("/a'b"), "/a'b");
    assert_eq!(quote_value("/a\\b"), "\"/a\\\\b\"");
    assert_eq!(quote_value("/a\"b"), "\"/a\\\"b\"");
    assert_eq!(quote_exec("/a'b"), "\"/a'b\"");
    assert_eq!(quote_exec("/a$b"), "\"/a$b\"");
    assert_eq!(quote_exec("/a%b"), "\"/a%b\"");
    assert_eq!(quote_exec("/a\\b"), "\"/a\\b\"");
    assert_eq!(quote_exec("/a\"b"), "\"/a\\\"b\"");
}

#[test]
fn a_unit_that_asks_for_nothing_has_nothing_to_read() {
    assert_eq!(installed_adb(None), None);
    assert_eq!(installed_port(None), None);
    assert_eq!(installed_adb(Some("[Unit]\n")), None);
    assert_eq!(installed_port(Some("[Unit]\n")), None);
    assert_eq!(installed_adb(Some("ExecStart=\n")), None);
    assert_eq!(installed_port(Some("ExecStart=adb -L tcp:x server\n")), None);
    assert_eq!(installed_port(Some("ExecStart=adb -L tcp:\n")), None);
    assert_eq!(installed_port(Some("ExecStart=adb server\n")), Some(5037));
    // A quote that is never closed runs to the end of the line.
    assert_eq!(
        installed_adb(Some("ExecStart=\"/opt/adb server\n")).as_deref(),
        Some("/opt/adb server")
    );
    assert_eq!(
        installed_port(Some("ExecStart=\"/opt/adb -L tcp:6001 server\n")),
        Some(6001)
    );
}

#[test]
fn a_unit_names_the_binary_and_the_port_it_was_rendered_for() {
    for adb in [
        "/opt/sdk/platform-tools/adb",
        "/opt/my sdk/adb",
        "/a\"b/adb",
        "\"",
        "/a\\",
        "/a \\",
        "/a\\\"b",
        "/a\\\\\"",
        "/a \"\" \\\" b\\",
        "/it's $HOME/100%/adb",
        "/opt/x -L tcp:9/adb",
        "relative",
    ] {
        for port in [DEFAULT_PORT, 5137, 1] {
            let unit = render_unit(&UnitSpec {
                adb: adb.into(),
                port,
                systemd: Some(257),
            });
            assert_eq!(installed_adb(Some(&unit)).as_deref(), Some(adb));
            assert_eq!(installed_port(Some(&unit)), Some(port), "{adb}");
        }
    }
}

#[test]
fn the_port_comes_from_the_unit_before_the_environment() {
    let unit = render_unit(&spec(5137, None));
    assert_eq!(port(Some(&unit), Some("6000")), 5137);
    assert_eq!(port(None, Some("6000")), 6000);
    assert_eq!(port(Some("no exec"), None), 5037);
    assert_eq!(port_from_env(Some("70000")), 5037);
    assert_eq!(port_from_env(None), 5037);
    assert_eq!(holding_port(Some(5137), true, 6000), 5137);
    assert_eq!(holding_port(Some(5137), false, 6000), 6000);
    assert_eq!(holding_port(None, true, 6000), 6000);
}

#[test]
fn units_live_in_the_configuration_directory() {
    assert_eq!(
        unit_path(None, Some("/home/u")),
        "/home/u/.config/systemd/user/wadb.service"
    );
    assert_eq!(
        connect_unit_path(Some("/cfg"), Some("/home/u")),
        "/cfg/systemd/user/wadb-connect.service"
    );
    assert_eq!(
        unit_path(None, None),
        ".config/systemd/user/wadb.service"
    );
}

#[test]
fn what_systemctl_prints_is_trimmed_and_read() {
    assert!(is_active("active\n"));
    assert!(!is_active("inactive\n"));
    assert!(connect_unit_active("active"));
    assert!(lingering("yes\n"));
    assert!(!lingering("no\n"));
    assert_eq!(main_pid("4242\n"), Some(4242));
    assert_eq!(main_pid("0\n"), None);
    assert_eq!(main_pid(""), None);
    assert_eq!(listener_pid("users:((\"adb\",pid=7,fd=1))"), Some(7));
    assert_eq!(
        systemctl_failure(
            &["enable".to_string(), "--now".to_string()],
            " no such unit\n"
        ),
        "systemctl --user enable --now failed: no such unit"
    );
    assert_eq!(start(), ["start", UNIT_NAME]);
    assert_eq!(restart(), ["restart", UNIT_NAME]);
}

#[test]
fn an_inactive_unit_owns_nothing() {
    let ss = "users:((\"adb\",pid=42,fd=1))";
    assert_eq!(port_owner(true, ss, "42", "active"), PortOwner::Ours(42));
    assert_eq!(port_owner(true, ss, "42", "failed"), PortOwner::Foreign);
    assert_eq!(port_owner(true, "", "42", "active"), PortOwner::HeldUnknown);
    assert_eq!(port_owner(false, ss, "42", "active"), PortOwner::Nobody);
    assert!(wait_for_ownership(PortOwner::Ours(1), 0, 5));
    assert!(wait_for_ownership(PortOwner::Nobody, 6, 5));
    assert!(!wait_for_ownership(PortOwner::Nobody, 5, 5));
}

#[test]
fn an_install_writes_only_what_changed() {
    let s = Ok(spec(5137, Some(257)));
    let present = Ok(MdnsSupport::Present("mdns daemon".into()));
    let plan = install(&s, &present, None, "/usr/bin/wadb", None, None).unwrap();
    assert_eq!(plan.mdns, "mdns daemon");
    assert_eq!(plan.unit, render_unit(&spec(5137, Some(257))));
    assert_eq!(plan.connect_unit, render_connect_unit("/usr/bin/wadb", 5137));
    assert!(plan.changed && plan.connect_changed && plan.backoff_full);
    assert_eq!(plan.warning, None);
    assert_eq!(plan.steps.len(), 5);
    let again = install(
        &s,
        &present,
        None,
        "/src/wadb/target/debug/wadb",
        Some(&plan.unit),
        Some(&plan.connect_unit),
    )
    .unwrap();
    assert!(!again.changed, "the same unit again");
    assert!(again.connect_changed, "another binary");
    assert!(again
        .warning
        .unwrap()
        .starts_with("warning: installing from a build directory (/src/wadb/target/debug/wadb)"));
    assert_eq!(again.steps.len(), 4);
    let old = install(&Ok(spec(1, Some(253))), &present, None, "w", None, None).unwrap();
    assert!(!old.backoff_full);
}

fn refused(
    spec: &Result<UnitSpec, String>,
    support: &Result<MdnsSupport, String>,
    version: Option<&str>,
) -> String {
    install(spec, support, version, "/usr/bin/wadb", None, None)
        .err()
        .unwrap()
}

#[test]
fn an_install_is_refused_without_a_backend() {
    let s = Ok(spec(5137, Some(257)));
    assert_eq!(
        refused(&s, &Ok(MdnsSupport::Absent), Some("30.0.0")),
        no_backend("/opt/sdk/platform-tools/adb", Some("30.0.0"))
    );
    assert_eq!(
        refused(&s, &Ok(MdnsSupport::Absent), None),
        no_backend("/opt/sdk/platform-tools/adb", None)
    );
    assert_eq!(refused(&s, &Err("timed out".into()), None), "timed out");
    let present = Ok(MdnsSupport::Present("mdns daemon".into()));
    assert_eq!(
        refused(&Err("no adb binary found".into()), &present, None),
        "no adb binary found"
    );
}

#[test]
fn a_binary_without_a_backend_is_named() {
    assert_eq!(
        no_backend("/usr/bin/adb", None),
        "/usr/bin/adb (version unknown) has no mDNS backend, so adb cannot reconnect paired \
         devices on its own.\n\
         Install Android SDK Platform-Tools and re-run, or set $ADB to a build that has it.\n\
         Check it yourself with: ADB_SERVER_SOCKET=tcp:127.0.0.1:<scratch port> /usr/bin/adb \
         mdns check"
    );
    assert!(no_backend("a", Some("34.0.5")).starts_with("a (version 34.0.5) has no"));
}

#[test]
fn every_uninstall_step_is_carried_out() {
    assert_eq!(
        uninstall(&UninstallStep::Disable(UNIT_NAME)),
        UninstallAction::Systemctl(vec![
            "disable".into(),
            "--now".into(),
            "wadb.service".into()
        ])
    );
    assert_eq!(
        uninstall(&UninstallStep::Remove(CONNECT_UNIT_NAME)),
        UninstallAction::RemoveWatcher
    );
    assert_eq!(
        uninstall(&UninstallStep::Remove(UNIT_NAME)),
        UninstallAction::RemoveServer
    );
    assert_eq!(
        uninstall(&UninstallStep::Reload),
        UninstallAction::Systemctl(vec!["daemon-reload".into()])
    );
}

/// What an uninstall of both units does when the step at `fails` fails, and how it ends.
fn uninstall_until(fails: usize) -> (Vec<UninstallAction>, Option<(Option<String>, String)>) {
    let mut done = Vec::new();
    let mut rest = Uninstall::begin(true, true);
    let mut last = Ok(());
    loop {
        match rest.go_on(last) {
            UninstallNext::Do(action, after) => {
                last = if done.len() == fails {
                    Err("no".to_string())
                } else {
                    Ok(())
                };
                done.push(action);
                rest = after;
            }
            UninstallNext::Abort { context, why } => return (done, Some((context, why))),
            UninstallNext::Done => return (done, None),
        }
    }
}

#[test]
fn an_uninstall_ends_with_the_first_failure() {
    let (all, end) = uninstall_until(9);
    assert_eq!(end, None);
    let expected: Vec<UninstallAction> =
        uninstall_steps(true, true).iter().map(uninstall).collect();
    assert_eq!(all, expected);
    for stop in 0..2 {
        let (done, end) = uninstall_until(stop);
        assert_eq!(done, expected[..=stop]);
        let context = "could not stop the units; the adb server may still be running".to_string();
        assert_eq!(end, Some((Some(context), "no".to_string())));
        assert!(!done.contains(&UninstallAction::RemoveWatcher));
        assert!(!done.contains(&UninstallAction::RemoveServer));
    }
    for other in 2..5 {
        let (done, end) = uninstall_until(other);
        assert_eq!(done, expected[..=other]);
        assert_eq!(end, Some((None, "no".to_string())));
    }
    assert!(matches!(
        Uninstall::begin(false, false).go_on(Err("no".into())),
        UninstallNext::Abort { context: None, .. }
    ));
}

#[test]
fn quoting_tells_apart_what_differs() {
    let texts = [
        "", "a", "\"", "\\", "\\\"", "\"\\", " ", "a b", "\"a b\"", "a\\b", "a\\\\b", "'a'", "a$b",
    ];
    for (i, a) in texts.iter().enumerate() {
        for b in &texts[i + 1..] {
            assert_ne!(quote_value(a), quote_value(b));
            assert_ne!(quote_exec(a), quote_exec(b));
        }
    }
}
