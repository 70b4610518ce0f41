use wadb::discovery::Found;
use wadb::net::IpAddr;
use wadb::pairing::{
    connect, connect_text, is_valid_qr_text, pair, pair_argv, paired_phone, parse_connect_output,
    parse_pair_output, read_pair_text, token_from, token_of, Attempts, PairOutcome, Payload,
    CONNECT_SERVICE, PAIRING_SERVICE,
};

const PREFIX: &str = "studio-";

#[test]
fn payload_shape_matches_what_android_expects() {
    let p = Payload::random().unwrap();
    let text = p.qr_text();
    assert!(text.starts_with("WIFI:T:ADB;S:studio-"));
    assert!(text.ends_with(";;"));
    assert!(is_valid_qr_text(&text));
    assert_eq!(p.instance().len(), PREFIX.len() + 10);
}

#[test]
fn two_payloads_differ() {
    assert_ne!(
        Payload::random().unwrap().qr_text(),
        Payload::random().unwrap().qr_text()
    );
}

#[test]
fn rejects_malformed_or_unsafe_payloads() {
    assert!(
        !is_valid_qr_text("WIFI:T:ADB;S:studio-abc;P:;;"),
        "empty password"
    );
    assert!(
        !is_valid_qr_text("WIFI:T:ADB;S:nope-abc;P:xyz;;"),
        "missing studio- prefix"
    );
    assert!(
        !is_valid_qr_text("WIFI:T:ADB;S:studio-a b;P:xyz;;"),
        "space is not in the alphabet"
    );
    assert!(
        !is_valid_qr_text("WIFI:T:WPA;S:studio-a;P:x;;"),
        "not an ADB payload"
    );
    assert!(!is_valid_qr_text("garbage"));
}

#[test]
fn matches_the_instance_not_the_full_dnssd_name() {
    let p = Payload::random().unwrap();
    let full = format!("{}.{}", p.instance(), "_adb-tls-pairing._tcp.local.");
    assert!(p.matches_instance(&full));
    assert!(p.matches_instance(p.instance()));
    assert!(!p.matches_instance("studio-somebodyelse._adb-tls-pairing._tcp.local."));
}

#[test]
fn password_never_reaches_argv() {
    let p = Payload::random().unwrap();
    let text = p.qr_text();
    let password = text.split(";P:").nth(1).unwrap().trim_end_matches(";;");
    let argv = pair_argv("/opt/adb", "192.168.1.42:37219");
    assert!(!argv.iter().any(|a| a.contains(password)));
    assert!(!argv.iter().any(|a| a.contains(p.instance())));
    let run = pair("/opt/adb", 5037, "192.168.1.42:37219", password);
    assert!(!run.command.args.iter().any(|a| a.contains(password)));
    assert!(!run
        .command
        .env_set
        .iter()
        .any(|(k, v)| k.contains(password) || v.contains(password)));
}

#[test]
fn reads_a_successful_pair_and_its_guid() {
    let out = "Successfully paired to 192.168.1.42:37219 [guid=adb-39061FDJH00KZR-vWTMTB]\n";
    assert_eq!(
        parse_pair_output(out, "", true),
        PairOutcome::Paired {
            guid: Some("adb-39061FDJH00KZR-vWTMTB".into())
        }
    );
    assert_eq!(
        parse_pair_output(
            "Successfully paired to 10.0.0.5:41234 adb-XYZ-ABC\n",
            "",
            true
        ),
        PairOutcome::Paired {
            guid: Some("adb-XYZ-ABC".into())
        }
    );
}

#[test]
fn reads_failure_modes_apart() {
    assert_eq!(
        parse_pair_output("", "adb: failed to authenticate\n", false),
        PairOutcome::WrongCode
    );
    assert_eq!(
        parse_pair_output(
            "",
            "error: protocol fault (couldn't read status message)\n",
            false
        ),
        PairOutcome::Unreachable
    );
    assert_eq!(
        parse_pair_output("", "adb: No pairing code provided\n", false),
        PairOutcome::Unreachable
    );
}

#[test]
fn silence_with_a_zero_exit_is_not_success() {
    assert!(matches!(
        parse_pair_output("", "", true),
        PairOutcome::Other(_)
    ));
}

#[test]
fn unrecognised_but_successful_output_does_not_hard_fail() {
    assert!(matches!(
        parse_pair_output("paired ok, some new wording\n", "", true),
        PairOutcome::Other(_)
    ));
}

#[test]
fn a_pairing_is_read_in_any_case_and_on_either_stream() {
    assert_eq!(
        parse_pair_output("", "SUCCESSFULLY PAIRED\n", false),
        PairOutcome::Paired { guid: None }
    );
    assert_eq!(
        parse_pair_output("Wrong password\n", "", true),
        PairOutcome::WrongCode
    );
    assert_eq!(
        parse_pair_output("Connection Refused", "", false),
        PairOutcome::Unreachable
    );
    assert_eq!(
        parse_pair_output("", "", false),
        PairOutcome::Other(String::new())
    );
    assert_eq!(
        parse_pair_output("  Ünbekannt ", "", true),
        PairOutcome::Other("Ünbekannt".into())
    );
}

#[test]
fn a_guid_is_cut_at_a_bracket_or_a_space() {
    let guid = |text: &str| match read_pair_text(text, "successfully paired", true) {
        PairOutcome::Paired { guid } => guid,
        other => panic!("{other:?}"),
    };
    assert_eq!(guid("guid= adb-1] x").as_deref(), Some("adb-1"));
    assert_eq!(guid("guid=adb-1 adb-2").as_deref(), Some("adb-1"));
    assert_eq!(guid("guid=] adb-2"), None);
    assert_eq!(guid("to [adb-no, adb-3.,]").as_deref(), Some("adb-3"));
    assert_eq!(guid("nothing"), None);
}

#[test]
fn a_payload_is_made_of_the_bytes_it_is_given() {
    assert_eq!(token_of(&[0, 25, 26, 51, 52, 61, 62, 63, 64, 255]), "AZaz09-_A_");
    let mut p = Payload::from_bytes(&[0, 1, 2], &[63, 62, 61]);
    assert_eq!(p.instance(), "studio-ABC");
    assert_eq!(p.password(), "_-9");
    assert_eq!(p.qr_text(), "WIFI:T:ADB;S:studio-ABC;P:_-9;;");
    assert!(is_valid_qr_text(&p.qr_text()));
    assert!(p.matches_instance(&format!("studio-ABC.{PAIRING_SERVICE}")));
    assert!(!p.matches_instance(&format!("studio-ABC.{CONNECT_SERVICE}")));
    p.wipe();
    assert_eq!(p.instance(), "");
    assert_eq!(p.password(), "");
}

#[test]
fn a_code_goes_in_on_stdin_and_is_wiped() {
    let mut run = pair("/opt/adb", 5137, "10.0.0.1:1", "123456");
    assert_eq!(run.command.program, "/opt/adb");
    assert_eq!(run.command.args, ["pair", "10.0.0.1:1"]);
    assert_eq!(
        run.command.env_set,
        [
            ("ANDROID_ADB_SERVER_PORT".to_string(), "5137".to_string()),
            (
                "ADB_MDNS_AUTO_CONNECT".to_string(),
                "adb-tls-connect".to_string()
            ),
        ]
    );
    assert_eq!(run.command.env_clear, ["ADB_SERVER_SOCKET"]);
    assert_eq!(run.stdin.as_deref(), Some("123456\n"));
    assert_eq!(run.seconds, 20);
    run.wipe();
    assert_eq!(run.stdin, None);

    let run = connect("/opt/adb", 5137, "10.0.0.1:1");
    assert_eq!(run.command.args, ["connect", "10.0.0.1:1"]);
    assert_eq!(run.stdin, None);
    assert_eq!(run.seconds, 10);
    assert_eq!(connect_text(" connected \n", "\n"), "connected");
}

#[test]
fn a_connect_is_judged_by_its_words() {
    assert_eq!(
        parse_connect_output("already connected to 10.0.0.1:5\n", true),
        Ok("already connected to 10.0.0.1:5".into())
    );
    assert_eq!(
        parse_connect_output("failed to connect to 10.0.0.1:5\n", true),
        Err("failed to connect to 10.0.0.1:5".into())
    );
    assert_eq!(
        parse_connect_output("connected to x", false),
        Err("connected to x".into())
    );
}

#[test]
fn a_paired_phone_is_known_by_its_guid_or_its_address() {
    let f = Found {
        fullname: "adb-1-x._adb-tls-connect._tcp.local.".into(),
        addresses: vec![IpAddr::V4([10, 0, 0, 1]), IpAddr::V4([10, 0, 0, 2])],
        port: 1,
    };
    assert!(paired_phone(&f, Some("adb-1-x"), "elsewhere"));
    assert!(!paired_phone(&f, Some("adb-1"), "10.0.0.1"));
    assert!(paired_phone(&f, None, "10.0.0.2"));
    assert!(!paired_phone(&f, None, "10.0.0.3"));
}

#[test]
fn an_exit_status_changes_only_what_is_said_of_silence() {
    for text in ["Successfully paired", "wrong", "protocol fault", "something else"] {
        assert_eq!(
            parse_pair_output(text, "", true),
            parse_pair_output(text, "", false)
        );
    }
    assert_eq!(
        parse_pair_output(" ", "", true),
        PairOutcome::Other("adb pair said nothing".into())
    );
    assert_eq!(
        parse_pair_output(" ", "", false),
        PairOutcome::Other(String::new())
    );
}

#[test]
fn what_was_drawn_becomes_the_payload() {
    assert_eq!(token_from(Ok(vec![0, 26, 63])).unwrap(), "Aa_");
    assert_eq!(token_from(Ok(vec![])).unwrap(), "");
    let p = Payload::from_tokens("abc".into(), token_from(Ok(vec![1, 2]))).unwrap();
    assert_eq!(p.instance(), "studio-abc");
    assert_eq!(p.password(), "BC");
    assert!(is_valid_qr_text(&p.qr_text()));
}

#[test]
fn every_address_is_tried_before_the_last_failure_counts() {
    let found = Found {
        fullname: "adb-1._adb-tls-connect._tcp.local.".into(),
        addresses: vec![
            IpAddr::V6([0xfe80, 0, 0, 0, 0, 0, 0, 1]),
            IpAddr::V6([0xfd00, 0, 0, 0, 0, 0, 0, 1]),
            IpAddr::V4([10, 0, 0, 7]),
        ],
        port: 41000,
    };
    let mut attempts = Attempts::over(&found, "no address");
    assert_eq!(attempts.attempt(None), Ok("10.0.0.7:41000".into()));
    assert_eq!(
        attempts.attempt(Some("refused".into())),
        Ok("[fd00::1]:41000".into())
    );
    assert_eq!(
        attempts.attempt(Some("no route".into())),
        Err("no route".into())
    );
    assert_eq!(attempts.attempt(None), Err("no route".into()));

    let unreachable = Found {
        addresses: vec![IpAddr::V6([0xfe80, 0, 0, 0, 0, 0, 0, 1])],
        ..found
    };
    assert_eq!(
        Attempts::over(&unreachable, "no address").attempt(None),
        Err("no address".into())
    );
}
