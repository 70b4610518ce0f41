use wadb::adb::{
    candidate_paths, candidates_in, classify, exe_of, gate_step, listener, mdns_support, overrun,
    parse_devices, parse_mdns_check, parse_ss_pid, probe_check_command, probe_server_command,
    resolve_adb, same_binary, split_host_port, version_of, wireless_devices, GateStep, Listener, MdnsSupport,
    Transport, Verdict,
};

#[test]
fn splits_ipv4_and_bracketed_ipv6_serials() {
    assert_eq!(
        split_host_port("192.168.1.42:37219"),
        Some(("192.168.1.42", 37219))
    );
    assert_eq!(split_host_port("[fd00::1]:5555"), Some(("fd00::1", 5555)));
    assert_eq!(
        split_host_port("fd00::1:5555"),
        None,
        "bare IPv6 is not a serial"
    );
    assert_eq!(split_host_port("1BC4F9AK99001"), None);
}

#[test]
fn classifies_every_serial_shape() {
    assert_eq!(classify("emulator-5554"), Transport::Emulator);
    assert_eq!(
        classify("adb-39061FDJH00KZR-vWTMTB._adb-tls-connect._tcp"),
        Transport::Mdns
    );
    assert_eq!(classify("192.168.1.42:37219"), Transport::Tcp);
    assert_eq!(classify("1BC4F9AK99001"), Transport::Usb);
}

#[test]
fn parses_devices_l_with_mixed_transports() {
    let text = "\
List of devices attached
1BC4F9AK99001          device product:oriole model:Pixel_6 device:oriole transport_id:1
192.168.1.42:37219     device product:raven model:Pixel_9 device:raven transport_id:2
adb-39061FDJH00KZR-vWTMTB._adb-tls-connect._tcp device model:Pixel_9 transport_id:3
emulator-5554          device product:sdk model:Android_SDK transport_id:4
0A3B1C2D               offline
9F8E7D6C               unauthorized
";
    let devices = parse_devices(text);
    assert_eq!(devices.len(), 6);
    assert_eq!(devices[0].transport, Transport::Usb);
    assert_eq!(devices[0].model.as_deref(), Some("Pixel_6"));
    assert_eq!(devices[1].transport, Transport::Tcp);
    assert_eq!(devices[2].transport, Transport::Mdns);
    assert_eq!(devices[3].transport, Transport::Emulator);
    assert_eq!(devices[4].state, "offline");
    assert_eq!(devices[5].state, "unauthorized");
}

#[test]
fn empty_device_list_is_not_an_error() {
    assert!(parse_devices("List of devices attached\n").is_empty());
    assert!(parse_devices("").is_empty());
}

#[test]
fn wireless_filter_keeps_offline_and_drops_usb() {
    let devices =
        parse_devices("1BC4F9AK99001 device\n192.168.1.42:37219 offline\nemulator-5554 device\n");
    let wireless = wireless_devices(&devices);
    assert_eq!(wireless.len(), 1);
    assert_eq!(
        wireless[0].state, "offline",
        "a half-attached phone must stay visible"
    );
}

#[test]
fn both_transports_of_one_phone_are_shown() {
    let devices = parse_devices(
        "192.168.1.42:37219 device product:raven model:Pixel_9 device:raven\n\
         adb-XYZ._adb-tls-connect._tcp device product:raven model:Pixel_9 device:raven\n",
    );
    let wireless = wireless_devices(&devices);
    assert_eq!(wireless.len(), 2);
    assert_eq!(wireless[0].transport, Transport::Tcp);
    assert_eq!(wireless[1].transport, Transport::Mdns);
}

#[test]
fn two_identical_phones_are_never_merged() {
    let devices = parse_devices(
        "192.168.1.42:37219 device product:raven model:Pixel_9 device:raven\n\
         192.168.1.77:41003 device product:raven model:Pixel_9 device:raven\n",
    );
    assert_eq!(wireless_devices(&devices).len(), 2);
}

#[test]
fn mdns_check_output_from_the_real_binaries() {
    assert_eq!(
        parse_mdns_check("mdns daemon version [Openscreen discovery 0.0.0]\n"),
        MdnsSupport::Present("mdns daemon version [Openscreen discovery 0.0.0]".into())
    );
    assert_eq!(parse_mdns_check(""), MdnsSupport::Absent);
    assert_eq!(parse_mdns_check("\n"), MdnsSupport::Absent);
}

#[test]
fn probe_server_binds_loopback_and_scrubs_leaky_vars() {
    let cmd = probe_server_command("/opt/adb", 45123);
    assert_eq!(cmd.args, ["-L", "tcp:45123", "nodaemon", "server"]);
    assert!(!cmd.args.iter().any(|a| a.contains("127.0.0.1")));
    assert!(cmd
        .env_clear
        .contains(&"ANDROID_ADB_SERVER_PORT".to_string()));
    assert!(cmd.env_clear.contains(&"ADB_SERVER_SOCKET".to_string()));
    assert_eq!(cmd.program, "/opt/adb");
    assert!(cmd.env_set.is_empty());
}

#[test]
fn probe_check_is_aimed_at_the_probe_server_not_5037() {
    let cmd = probe_check_command("/opt/adb", 45123);
    assert_eq!(cmd.args, ["mdns", "check"]);
    assert_eq!(
        cmd.env_set,
        [(
            "ADB_SERVER_SOCKET".to_string(),
            "tcp:127.0.0.1:45123".to_string()
        )]
    );
}

#[test]
fn reads_the_pid_out_of_ss_output() {
    let line = "LISTEN 0 4096 127.0.0.1:5037 0.0.0.0:* users:((\"adb\",pid=2466481,fd=10))";
    assert_eq!(parse_ss_pid(line), Some(2466481));
    assert_eq!(parse_ss_pid("LISTEN 0 4096 127.0.0.1:5037 0.0.0.0:*"), None);
    assert_eq!(parse_ss_pid(""), None);
}

#[test]
fn a_pid_that_is_no_process_id_is_none() {
    assert_eq!(parse_ss_pid("pid="), None);
    assert_eq!(parse_ss_pid("pid=x"), None);
    assert_eq!(parse_ss_pid("pid=99999999999"), None);
    assert_eq!(parse_ss_pid("pid=x17,pid=4"), Some(17));
}

#[test]
fn a_replaced_binary_is_reported_as_replaced() {
    let (exe, replaced) = exe_of("/tmp/wadb/sleeper");
    assert_eq!(exe, "/tmp/wadb/sleeper");
    assert!(!replaced, "still on disk");

    let (exe, replaced) = exe_of("/tmp/wadb/sleeper (deleted)");
    assert!(replaced, "/proc reports the image as deleted");
    assert_eq!(
        exe, "/tmp/wadb/sleeper",
        "and the suffix is not part of the path"
    );

    let l = Listener {
        pid: 7,
        exe,
        replaced,
    };
    assert_eq!(
        gate_step(Some(&l), Some(&l), "/tmp/wadb/sleeper"),
        GateStep::Indeterminate
    );
}

#[test]
fn the_gate_trusts_probes_or_gives_up_for_the_right_reasons() {
    let adb = "/opt/sdk/adb";
    let ours = |pid, replaced| Listener {
        pid,
        exe: adb.to_string(),
        replaced,
    };
    let other = |pid| Listener {
        pid,
        exe: "/usr/bin/adb".to_string(),
        replaced: false,
    };

    assert_eq!(
        gate_step(Some(&ours(42, false)), Some(&ours(42, false)), adb),
        GateStep::Trust
    );
    assert_eq!(gate_step(None, None, adb), GateStep::Probe);
    assert_eq!(
        gate_step(Some(&ours(42, false)), None, adb),
        GateStep::Probe
    );
    assert_eq!(
        gate_step(Some(&ours(42, false)), Some(&ours(42, true)), adb),
        GateStep::Indeterminate
    );
    assert_eq!(
        gate_step(Some(&ours(42, true)), Some(&ours(42, true)), adb),
        GateStep::Indeterminate
    );
    assert_eq!(
        gate_step(Some(&other(42)), Some(&other(42)), adb),
        GateStep::Indeterminate
    );
    assert_eq!(
        gate_step(Some(&ours(42, false)), Some(&ours(99, false)), adb),
        GateStep::Indeterminate
    );
    assert_eq!(
        gate_step(None, Some(&ours(42, false)), adb),
        GateStep::Indeterminate
    );
}

#[test]
fn the_socket_body_parses_like_the_command_output() {
    assert_eq!(
        parse_mdns_check("mdns daemon version [Openscreen discovery 0.0.0]"),
        MdnsSupport::Present("mdns daemon version [Openscreen discovery 0.0.0]".into())
    );
}

#[test]
fn a_symlinked_path_is_recognised_as_the_same_binary() {
    // Both paths come resolved, so what is left to compare is how they are written.
    let real = "/mnt/sdk/real/adb";
    assert!(same_binary(Some(real), "/mnt/sdk//real/./adb"));
    assert!(!same_binary(Some(real), "/usr/bin/adb"));
    assert!(!same_binary(None, real));
}

#[test]
fn candidate_order_prefers_sdk_over_path() {
    let env = |k: &str| match k {
        "ANDROID_HOME" => Some("/opt/sdk".to_string()),
        "PATH" => Some("/usr/bin".to_string()),
        _ => None,
    };
    let paths = candidate_paths(&env, "/home/u");
    assert_eq!(paths[0], "/opt/sdk/platform-tools/adb");
    assert_eq!(paths[1], "/home/u/Android/Sdk/platform-tools/adb");
    assert_eq!(paths[2], "/usr/bin/adb");
}

#[test]
fn adb_env_var_wins_over_everything() {
    let env = |k: &str| (k == "ADB").then_some("/custom/adb".to_string());
    assert_eq!(candidate_paths(&env, "/home/u")[0], "/custom/adb");
}

#[test]
fn every_variable_has_its_place_in_the_search() {
    assert_eq!(
        candidates_in(
            Some("/a/adb".into()),
            Some("/root".into()),
            Some("/home/sdk/".into()),
            "/home/u",
            Some("/usr/bin::/bin/".into()),
        ),
        [
            "/a/adb",
            "/root/platform-tools/adb",
            "/home/sdk/platform-tools/adb",
            "/home/u/Android/Sdk/platform-tools/adb",
            "/usr/bin/adb",
            "/bin/adb",
        ]
    );
    assert_eq!(
        candidates_in(None, None, None, "", None),
        ["Android/Sdk/platform-tools/adb"]
    );
}

#[test]
fn the_version_is_the_first_that_is_named() {
    assert_eq!(
        version_of("Android Debug Bridge version 1.0.41\nVersion 36.0.0-13206524 \nInstalled as x\n")
            .as_deref(),
        Some("36.0.0-13206524")
    );
    assert_eq!(version_of("nothing of the kind"), None);
}

#[test]
fn a_device_line_keeps_its_last_fields_and_an_unknown_state() {
    let d = parse_devices("SERIAL\nX device model:a model:b device:c product:\n");
    assert_eq!(d[0].state, "unknown");
    assert_eq!(d[0].model, None);
    assert_eq!(d[1].model.as_deref(), Some("b"));
    assert_eq!(d[1].device.as_deref(), Some("c"));
    assert_eq!(d[1].product.as_deref(), Some(""));
}

#[test]
fn a_listener_needs_a_pid_and_a_link() {
    let ss = "users:((\"adb\",pid=12,fd=10))";
    assert_eq!(
        listener(ss, Some("/opt/adb (deleted)")),
        Some(Listener {
            pid: 12,
            exe: "/opt/adb".into(),
            replaced: true
        })
    );
    assert_eq!(listener(ss, None), None);
    assert_eq!(listener("", Some("/opt/adb")), None);
}

#[test]
fn a_trusted_server_answers_and_a_silent_one_is_reported() {
    let l = Listener {
        pid: 42,
        exe: "/real/adb".into(),
        replaced: false,
    };
    let answer = || Some(MdnsSupport::Absent);
    assert_eq!(
        mdns_support(Some(&l), answer(), Some(&l), "/link/adb", "/real/adb", 5037),
        Verdict::Answer(MdnsSupport::Absent)
    );
    assert_eq!(
        mdns_support(Some(&l), None, Some(&l), "/link/adb", "/real/adb", 5037),
        Verdict::Unknown(
            "the adb server on port 5037 did not answer an mDNS check, and a probe cannot take \
             the socket while it is running.\n\
             Restart it and re-run: systemctl --user restart wadb"
                .into()
        )
    );
    assert_eq!(
        mdns_support(Some(&l), answer(), None, "/link/adb", "/real/adb", 5037),
        Verdict::Probe
    );
    assert_eq!(
        mdns_support(None, None, Some(&l), "/link/adb", "/real/adb", 5037),
        Verdict::Unknown(
            "an adb server on port 5037 (pid 42) holds the mDNS socket and cannot be attributed \
             to /link/adb, so its support cannot be established and a probe cannot take the \
             socket from it.\n\
             Stop or restart that server and re-run: systemctl --user restart wadb"
                .into()
        )
    );
}

#[test]
fn a_child_overruns_only_while_it_is_alive() {
    assert!(overrun(false, 11, 10));
    assert!(!overrun(false, 10, 10));
    assert!(!overrun(true, 11, 10));
}

#[test]
fn the_first_candidate_that_is_there_is_used() {
    let c = |v: &[(&str, bool)]| {
        v.iter()
            .map(|(p, b)| (p.to_string(), *b))
            .collect::<Vec<_>>()
    };
    assert_eq!(
        resolve_adb(&c(&[("/a", false), ("/b", true), ("/c", true)])),
        Ok("/b".into())
    );
    assert_eq!(
        resolve_adb(&c(&[("/a", false)])),
        Err("no adb binary found. Install Android SDK Platform-Tools.".into())
    );
}

#[test]
fn a_list_is_the_same_read_in_parts() {
    let a = "10.0.0.1:5555 device model:Pixel_8\nR5CT offline\r\n";
    let b = "\n10.0.0.2:5555 unauthorized\nemulator-5554 device";
    let whole = parse_devices(&format!("{a}{b}"));
    let mut parts = parse_devices(a);
    parts.extend(parse_devices(b));
    assert_eq!(whole.len(), 4);
    assert_eq!(whole, parts);
}
