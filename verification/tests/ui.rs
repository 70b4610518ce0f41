use wadb::adb::{parse_devices, wireless_devices};
use wadb::pairing::Payload;
use wadb::qr::{encode, Matrix};
use wadb::screen::{Color, Line};
use wadb::service::PortOwner;
use wadb::ui::devices::{how, short_serial, state_glyph, state_style, DevicesPane};
use wadb::ui::logs::{
    journal_lines, journal_query, parse_journal_line, shorten_log, whole_clocks, worth_showing,
};
use wadb::ui::pair::{min_size, Phase};
use wadb::ui::{
    current_unit_state, handle_key, refresh_due, render, render_logs, worker_report, App, Key,
    KeyAction, PairEvent, Pairing, Screen, UnitState, FOOTER_ROWS, HEADER_ROWS, MIN_HEIGHT,
    MIN_WIDTH,
};

const SECOND: u64 = 1_000_000_000;

fn text(line: &Line) -> String {
    line.spans.iter().map(|s| s.text.as_str()).collect()
}

/// Everything on the screen, a line of it per line.
fn draw(app: &App, w: u16, h: u16) -> String {
    let mut out = Vec::new();
    match render(app, w, h, 0) {
        Screen::TooSmall(lines) => out.extend(lines.iter().map(text)),
        Screen::Panes {
            header,
            devices,
            pairing,
            journal,
            footer,
            ..
        } => {
            out.push(text(&header));
            out.push(" wireless devices ".to_string());
            match devices {
                DevicesPane::Message(lines) => out.extend(lines.iter().map(text)),
                DevicesPane::Table(rows) => out.extend(rows.iter().map(|r| {
                    r.spans
                        .iter()
                        .map(|s| s.text.as_str())
                        .collect::<Vec<_>>()
                        .join(" ")
                })),
            }
            if let Some(lines) = pairing {
                out.push(" pair a device ".to_string());
                out.extend(lines.iter().map(text));
            }
            if let Some(lines) = journal {
                out.push(" journal ".to_string());
                out.extend(lines.iter().map(text));
            }
            out.push(text(&footer));
        }
    }
    out.join("\n")
}

fn app_with(devices: &str) -> App {
    let mut app = App::new(5037, None, UnitState::Active);
    app.devices = wireless_devices(&parse_devices(devices));
    app.server_up = true;
    app.owner = PortOwner::Ours(4242);
    app
}

fn code(payload: &[u8]) -> Matrix {
    match encode(payload) {
        Ok(m) => m,
        Err(e) => panic!("{e:?}"),
    }
}

fn pairing_of(payload: &[u8]) -> Option<Pairing> {
    Some(Pairing {
        qr: code(payload),
        phase: Phase::Waiting,
        started: 0,
        timeout: 120,
    })
}

#[test]
fn mdns_serials_lose_their_service_suffix() {
    assert_eq!(
        short_serial("adb-39061FDJH00KZR-vWTMTB._adb-tls-connect._tcp"),
        "adb-39061FDJH00KZR-vWTMTB"
    );
    assert_eq!(short_serial("192.168.1.42:37219"), "192.168.1.42:37219");
}

#[test]
fn every_state_has_its_own_colour() {
    assert_eq!(state_style("device").fg, Some(Color::Green));
    assert_eq!(state_style("offline").fg, Some(Color::Yellow));
    assert_eq!(state_style("unauthorized").fg, Some(Color::Red));
    assert_eq!(state_style("bootloader").fg, Some(Color::DarkGray));
    assert_eq!(state_glyph("device"), "●");
    assert_eq!(state_glyph("offline"), "○");
    assert_eq!(state_glyph("unauthorized"), "▲");
    assert_eq!(state_glyph("bootloader"), "·");
    assert_eq!(how(wadb::adb::Transport::Emulator), "emu");
    assert_eq!(how(wadb::adb::Transport::Usb), "usb");
}

#[test]
fn lists_a_wireless_device_with_its_state() {
    let app = app_with("192.168.1.42:37219 device model:Pixel_9\n");
    let out = draw(&app, 90, 30);
    assert!(out.contains("Pixel_9"));
    assert!(out.contains("192.168.1.42:37219"));
    assert!(out.contains("supervised, pid 4242"));
}

#[test]
fn mdns_attached_device_is_shown_shortened() {
    let app = app_with("adb-39061FDJH00KZR-vWTMTB._adb-tls-connect._tcp device model:Pixel_9\n");
    let out = draw(&app, 90, 30);
    assert!(out.contains("adb-39061FDJH00KZR-vWTMTB"));
    assert!(
        !out.contains("_adb-tls-connect._tcp"),
        "suffix is noise in a column"
    );
    assert!(out.contains("mdns"));
}

#[test]
fn empty_state_points_at_pairing_not_at_nothing() {
    let app = app_with("1BC4F9AK99001 device model:Pixel_6\n");
    let out = draw(&app, 90, 30);
    assert!(
        out.contains("no wireless devices"),
        "USB devices are not listed"
    );
    assert!(out.contains("press p to pair"));
}

#[test]
fn server_down_is_stated_plainly() {
    let mut app = App::new(5037, None, UnitState::Active);
    app.server_up = false;
    let out = draw(&app, 90, 30);
    assert!(out.contains("adb server down"));
}

#[test]
fn first_run_says_it_is_not_installed() {
    let app = App::new(5037, None, UnitState::NotInstalled);
    let out = draw(&app, 90, 30);
    assert!(out.contains("not installed"));
    assert!(out.contains("wadb install"));
}

#[test]
fn foreign_server_names_the_way_out() {
    let mut app = App::new(5037, None, UnitState::Inactive);
    app.server_up = true;
    app.owner = PortOwner::Foreign;
    let out = draw(&app, 90, 30);
    assert!(out.contains("held by another adb server"));
    assert!(
        out.contains("takeover"),
        "a warning with no remedy is a dead end"
    );
}

#[test]
fn the_declared_minimum_size_actually_fits_the_qr() {
    let mut app = app_with("");
    app.pairing = pairing_of(b"WIFI:T:ADB;S:studio-Ab3xK9pQr2;P:7fRt2LmNz4;;");
    let out = draw(&app, MIN_WIDTH, MIN_HEIGHT);
    assert!(!out.contains("terminal too small"));
    let glyph_rows = out.lines().filter(|l| l.contains(['█', '▀', '▄'])).count();
    assert_eq!(glyph_rows, 15, "the code is clipped");
    assert!(out.contains("waiting for a scan"));
    assert!(
        out.contains("Wireless debugging"),
        "instructions were clipped"
    );
    match render(&app, MIN_WIDTH, MIN_HEIGHT, 0) {
        Screen::Panes {
            pane, journal_rows, ..
        } => {
            let (w, h) = min_size(&app.pairing.as_ref().unwrap().qr);
            assert_eq!(pane, w);
            assert_eq!(journal_rows, 0);
            assert!(h <= MIN_HEIGHT - HEADER_ROWS - FOOTER_ROWS);
        }
        Screen::TooSmall(_) => panic!("too small"),
    }
}

#[test]
fn first_run_reads_nothing_from_a_server_that_is_not_ours() {
    let mut app = App::new(5037, None, UnitState::NotInstalled);
    app.devices = parse_devices("192.168.1.42:37219 device model:Pixel_9\n");
    app.server_up = true;
    app.refresh(
        true,
        Some(parse_devices("192.168.1.42:37219 device model:Pixel_9\n")),
        PortOwner::Foreign,
    );
    assert!(app.devices.is_empty());
    assert!(!app.server_up);
    assert_eq!(app.owner, PortOwner::Nobody);
}

#[test]
fn pairing_is_refused_before_anything_is_installed() {
    let mut app = App::new(5037, None, UnitState::NotInstalled);
    assert!(app.start_pairing(120, 0).is_none());
    assert!(app.pairing.is_none());
    assert!(app.message.contains("install"));
}

#[test]
fn too_small_terminal_says_so_instead_of_drawing_rubbish() {
    let app = app_with("192.168.1.42:37219 device model:Pixel_9\n");
    let out = draw(&app, 40, 12);
    assert!(out.contains("terminal too small"));
    assert!(out.contains("40x12"));
    assert!(out.contains(&format!("need {MIN_WIDTH}x{MIN_HEIGHT}")));
}

#[test]
fn pairing_pane_shows_the_qr_and_the_instructions() {
    let mut app = app_with("");
    app.pairing = pairing_of(b"WIFI:T:ADB;S:studio-Ab3xK9pQr2;P:7fRt2LmNz4;;");
    let out = draw(&app, 100, 34);
    assert!(out.contains("waiting for a scan"));
    assert!(out.contains("Wireless debugging"));
    assert!(
        out.contains('█') || out.contains('▀'),
        "the QR must actually be drawn"
    );
}

#[test]
fn advertised_keys_are_the_keys_that_work() {
    let mut app = App::new(5037, None, UnitState::NotInstalled);
    let out = draw(&app, 90, 30);
    assert!(
        out.contains(" i "),
        "install key must be offered when not installed"
    );
    app.unit = UnitState::Inactive;
    let out = draw(&app, 90, 30);
    assert!(
        out.contains(" s "),
        "start key must be offered when inactive"
    );
    app.unit = UnitState::Active;
    let out = draw(&app, 90, 30);
    let footer = out.lines().last().unwrap();
    assert!(
        !footer.contains(" i "),
        "nothing to install once it is active"
    );
}

#[test]
fn journal_lines_split_into_timestamp_and_message() {
    let line = "2026-09-02T16:26:53+02:00 money-maker wadb[1455422]: wadb: connected to 192.168.86.45:42595";
    let (ts, msg) = parse_journal_line(line).expect("a short-iso line parses");
    assert_eq!(ts, "2026-09-02T16:26:53+02:00");
    assert_eq!(msg, "wadb: connected to 192.168.86.45:42595");
    assert!(parse_journal_line("-- Boot 1a2b --").is_none());
    assert!(parse_journal_line("").is_none());
}

#[test]
fn systemd_unit_descriptions_are_trimmed() {
    assert_eq!(
        shorten_log("Started wadb-connect.service - Reconnect wireless ADB devices that adb's own mDNS cannot find (wadb)."),
        "Started wadb-connect.service"
    );
    assert_eq!(
        shorten_log("wadb: connected to 192.168.86.45:42595"),
        "wadb: connected to 192.168.86.45:42595"
    );
}

#[test]
fn adb_internal_chatter_is_filtered_out() {
    let noise = [
        "09-02 18:30:19.663 1455377 1455377 I adb     : transport.cpp:404 BlockingConnectionAdapter(<unknown>): not started",
        "09-02 18:30:19.675 1455377 1455377 I adb     : transport.cpp:302 BlockingConnectionAdapter(<unknown>): destructing",
        "09-01 12:53:28.419 2726685 2726774 I adb     : usb_libusb.cpp:119 35191FDHS0003Q: write thread spawning",
        "09-01 12:53:28.599 2726685 2726685 I adb     : transport.cpp:1720 fetching keys for transport 3C231JEKB44234",
        "",
    ];
    for line in noise {
        assert!(!worth_showing(line), "should be filtered: {line}");
    }
}

#[test]
fn the_lines_a_user_wants_survive() {
    for line in [
        "wadb: connected to 192.168.86.45:42595",
        "wadb: watching _adb-tls-connect._tcp.local. for devices to reconnect on port 5037",
        "Started wadb.service - Keep the ADB server running for wireless debugging (wadb).",
        "Stopping wadb-connect.service - Reconnect wireless ADB devices…",
        "wadb.service: Consumed 18.196s CPU time, 6.3M memory peak.",
    ] {
        assert!(worth_showing(line), "should be kept: {line}");
    }
}

#[test]
fn adb_warnings_and_errors_are_kept() {
    for line in [
        "09-02 18:30:19.663 1455377 1455377 W adb     : adb.cpp:100 failed to bind socket",
        "09-02 18:30:19.663 1455377 1455377 E adb     : adb.cpp:100 could not read key",
        "09-02 18:30:19.663 1455377 1455377 F adb     : main.cpp:167 could not install listener",
    ] {
        assert!(worth_showing(line), "should be kept: {line}");
    }
}

#[test]
fn adb_source_locations_are_stripped() {
    assert_eq!(
        shorten_log("09-02 18:30 1 1 W adb     : adb.cpp:100 failed to bind socket"),
        "failed to bind socket"
    );
}

#[test]
fn journal_pane_is_shown_and_folds_away_while_pairing() {
    let mut app = app_with("");
    app.logs = vec!["started adb server".into()];
    let out = draw(&app, 90, 30);
    assert!(out.contains("journal"));
    assert!(out.contains("started adb server"));

    app.pairing = pairing_of(b"WIFI:T:ADB;S:studio-a;P:b;;");
    let out = draw(&app, 90, 30);
    assert!(
        !out.contains("journal"),
        "the QR needs the height more than the log does"
    );
}

#[test]
fn cancelling_signals_the_worker_not_just_the_channel() {
    let mut app = app_with("");
    app.pairing = pairing_of(b"WIFI:T:ADB;S:studio-a;P:b;;");
    app.worker = true;
    assert!(app.cancel_pairing());
    assert!(app.pairing.is_none());
    assert!(!app.cancel_pairing(), "there is nobody left to tell");
}

#[test]
fn quitting_also_stops_the_pairing_worker() {
    let mut app = app_with("");
    app.pairing = pairing_of(b"WIFI:T:ADB;S:studio-a;P:b;;");
    app.worker = true;
    let action = handle_key(&mut app, Key::Char('q'));
    assert!(app.should_quit);
    assert_eq!(action, KeyAction::Quit { signal: true });
    assert!(action.redraws());
}

#[test]
fn start_key_is_offered_only_when_there_is_a_unit_to_start() {
    let mut app = App::new(5037, None, UnitState::NotInstalled);
    let action = handle_key(&mut app, Key::Char('s'));
    assert_eq!(action, KeyAction::Ignored);
    assert!(!action.redraws());
    assert!(app.message.is_empty());
    app.unit = UnitState::Inactive;
    assert_eq!(handle_key(&mut app, Key::Char('s')), KeyAction::Start);
}

#[test]
fn q_quits_and_esc_cancels_pairing() {
    let mut app = app_with("");
    app.pairing = pairing_of(b"WIFI:T:ADB;S:studio-a;P:b;;");
    handle_key(&mut app, Key::Esc);
    assert!(app.pairing.is_none());
    assert!(!app.should_quit);
    assert_eq!(app.message, "pairing cancelled");
    handle_key(&mut app, Key::Char('q'));
    assert!(app.should_quit);
}

#[test]
fn min_size_counts_the_quiet_zone_once() {
    let m = code(b"WIFI:T:ADB;S:studio-Ab3xK9pQr2;P:7fRt2LmNz4;;");
    let (w, h) = min_size(&m);
    assert_eq!(w, 39);
    assert_eq!(
        h, 26,
        "19 QR rows, blank, status, 3 wrapped instruction lines, 2 borders"
    );
}

#[test]
fn other_keys_do_what_they_say_or_nothing() {
    let mut app = app_with("");
    assert_eq!(handle_key(&mut app, Key::Char('r')), KeyAction::Refresh);
    assert_eq!(
        handle_key(&mut app, Key::Char('p')),
        KeyAction::Pair { seconds: 120 }
    );
    assert_eq!(handle_key(&mut app, Key::Char('i')), KeyAction::Ignored);
    assert_eq!(handle_key(&mut app, Key::Esc), KeyAction::Ignored);
    assert_eq!(handle_key(&mut app, Key::Other), KeyAction::Ignored);
    app.unit = UnitState::NotInstalled;
    assert_eq!(handle_key(&mut app, Key::Char('i')), KeyAction::Install);
    assert_eq!(
        handle_key(&mut app, Key::Char('Q')),
        KeyAction::Quit { signal: false }
    );
}

#[test]
fn a_pairing_shows_a_code_and_hands_the_payload_on() {
    let mut app = app_with("");
    assert!(app.start_pairing(90, 7).is_none());
    assert_eq!(app.message, "no adb binary found");
    app.adb = Some("/opt/adb".into());
    app.server_up = false;
    assert!(app.start_pairing(90, 7).is_none());
    assert_eq!(app.message, "adb server is down; run `wadb install` first");
    app.server_up = true;
    let payload = app.start_pairing(90, 7).unwrap();
    assert!(payload.instance().starts_with("studio-"));
    assert_eq!(payload.instance().len(), 17);
    assert_eq!(payload.password().len(), 10);
    assert_eq!(payload.qr_text().len(), 45);
    assert!(app.worker);
    assert_eq!(app.message, "");
    let p = app.pairing.as_ref().unwrap();
    assert_eq!((p.started, p.timeout), (7, 90));
    assert_eq!(p.phase, Phase::Waiting);
    assert_eq!(
        p.qr.half_block_rows(),
        code(payload.qr_text().as_bytes()).half_block_rows()
    );
}

#[test]
fn the_last_event_of_a_worker_tells() {
    let mut app = app_with("");
    app.pairing = pairing_of(b"x");
    assert_eq!(
        app.poll_pairing(&[PairEvent::Failed("no".into())], 0),
        (false, false),
        "nobody is listened to while no worker runs"
    );
    app.worker = true;
    let events = [
        PairEvent::Found("10.0.0.1".into()),
        PairEvent::Connected("Pixel".into()),
    ];
    assert_eq!(app.poll_pairing(&events[..1], 0), (false, false));
    assert!(draw(&app, 90, 40).contains("pairing with 10.0.0.1"));
    assert_eq!(app.poll_pairing(&events, 0), (false, true));
    assert!(draw(&app, 90, 40).contains("paired and connected: Pixel"));
    app.poll_pairing(&[PairEvent::Failed("no".into())], 0);
    assert!(draw(&app, 90, 40).contains("failed: no"));
    assert_eq!(
        app.poll_pairing(&[], 200 * SECOND),
        (false, false),
        "only waiting times out"
    );
}

#[test]
fn a_code_nobody_scans_times_out() {
    let mut app = app_with("");
    app.pairing = pairing_of(b"x");
    app.worker = true;
    assert_eq!(app.poll_pairing(&[], 120 * SECOND), (false, false));
    assert!(app.pairing.is_some());
    assert_eq!(app.poll_pairing(&[], 120 * SECOND + 1), (true, false));
    assert!(app.pairing.is_none());
    assert_eq!(app.message, "pairing timed out");
}

#[test]
fn the_journals_are_merged_by_time_and_shortened() {
    let watcher = "\
-- Boot --
2026-09-02T16:26:55+02:00 h wadb[1]: wadb: connected to a
2026-09-02T16:26:53+02:00 h wadb[1]: wadb: watching
";
    let server = "\
2026-09-02T16:26:53+02:00 h adb[2]: 1 2 I adb : x.cpp:1 chatter
2026-09-02T16:26:53+02:00 h adb[2]: 1 2 W adb : x.cpp:1 careful
2026-09-02T16:26:54+02:00 h systemd[3]: Started wadb.service - Keep it.
";
    assert!(whole_clocks(watcher) && whole_clocks(server));
    assert_eq!(
        journal_lines(watcher, server),
        [
            "16:26:53  wadb: watching",
            "16:26:53  careful",
            "16:26:54  Started wadb.service",
            "16:26:55  wadb: connected to a",
        ]
    );
    let mut app = app_with("");
    app.refresh_logs(watcher, server);
    assert_eq!(app.logs.len(), 4);
    assert_eq!(journal_lines("20x m\n", ""), ["20x  m"]);
    assert!(!whole_clocks("20T1234567é m\n"));
    assert!(whole_clocks("20T123456é m\n"));
}

#[test]
fn the_pane_shows_the_latest_lines_that_fit() {
    let logs: Vec<String> = (0..9).map(|i| format!("line {i}")).collect();
    let shown = render_logs(&logs, 5);
    assert_eq!(
        shown.iter().map(text).collect::<Vec<_>>(),
        ["line 6", "line 7", "line 8"]
    );
    assert_eq!(render_logs(&logs, 1).len(), 0);
    assert_eq!(render_logs(&logs[..2], 9).len(), 2);
    assert!(text(&render_logs(&[], 7)[0]).starts_with("nothing from the unit yet"));
    assert_eq!(
        journal_query(true),
        [
            "--user",
            "-u",
            "wadb-connect.service",
            "-n",
            "40",
            "--no-pager",
            "-o",
            "short-iso"
        ]
    );
    assert_eq!(journal_query(false)[2], "wadb.service");
    assert_eq!(journal_query(false)[4], "200");
}

#[test]
fn the_server_is_described_by_its_owner_and_its_unit() {
    let mut app = app_with("");
    app.owner = PortOwner::HeldUnknown;
    assert!(draw(&app, 90, 30).contains("port 5037 is held, owner unknown"));
    app.owner = PortOwner::Nobody;
    assert!(draw(&app, 90, 30).contains("server up, unit inactive"));
    app.owner = PortOwner::Ours(1);
    app.unit = UnitState::Inactive;
    assert!(draw(&app, 90, 30).contains("server up, unit inactive"));
    app.message = "hello".into();
    assert!(draw(&app, 90, 30).contains("   hello"));
}

#[test]
fn what_came_of_an_action_is_said() {
    let mut app = App::new(5037, None, UnitState::NotInstalled);
    app.installed(
        Ok(("/opt/adb".into(), PortOwner::Ours(9))),
        UnitState::Active,
    );
    assert_eq!(app.message, "supervising /opt/adb (pid 9)");
    assert_eq!(app.unit, UnitState::Active);
    app.installed(Ok(("a".into(), PortOwner::Foreign)), UnitState::Inactive);
    assert_eq!(
        app.message,
        "installed, but another adb server holds the port - press t"
    );
    app.installed(Ok(("a".into(), PortOwner::Nobody)), UnitState::Inactive);
    assert_eq!(app.message, "installed, but the unit is not listening yet");
    app.installed(Err("no adb".into()), UnitState::NotInstalled);
    assert_eq!(app.message, "install failed: no adb");
    app.started(Ok(()), UnitState::Active);
    assert_eq!(app.message, "unit started");
    app.started(Err("no".into()), UnitState::Inactive);
    assert_eq!(app.message, "could not start the unit: no");
    app.tick = u64::MAX;
    app.advance();
    assert_eq!(app.tick, 0);
    assert!(refresh_due(0, 2 * SECOND));
    assert!(!refresh_due(1, 2 * SECOND));
    assert!(!refresh_due(5, 1));
    assert_eq!(current_unit_state(false, true), UnitState::NotInstalled);
    assert_eq!(current_unit_state(true, true), UnitState::Active);
    assert_eq!(current_unit_state(true, false), UnitState::Inactive);
}

#[test]
fn a_usb_device_is_never_listed() {
    let mut app = app_with("");
    app.refresh(
        true,
        Some(parse_devices(
            "USB1 device\n10.0.0.1:5 device\nemulator-5554 device\n",
        )),
        PortOwner::Ours(1),
    );
    assert_eq!(app.devices.len(), 1);
    assert_eq!(app.devices[0].serial, "10.0.0.1:5");
    app.refresh(true, None, PortOwner::Ours(1));
    assert!(app.devices.is_empty());
    app.refresh(false, Some(vec![]), PortOwner::Foreign);
    assert!(!app.server_up);
    assert_eq!(app.owner, PortOwner::Foreign);
}

#[test]
fn a_worker_that_was_told_to_stop_stays_silent() {
    assert_eq!(worker_report(true, Ok("connected".into())), None);
    assert_eq!(worker_report(true, Err("gone".into())), None);
    assert_eq!(
        worker_report(false, Ok("connected".into())),
        Some(PairEvent::Connected("connected".into()))
    );
    assert_eq!(
        worker_report(false, Err("gone".into())),
        Some(PairEvent::Failed("gone".into()))
    );
}

#[test]
fn a_payload_that_is_given_is_shown() {
    let mut app = app_with("");
    let given = Payload::from_bytes(&[1, 2, 3], &[4]);
    let text = given.qr_text();
    assert_eq!(text, "WIFI:T:ADB;S:studio-BCD;P:E;;");
    let back = app.offer(Ok(given), 30, 5).unwrap();
    assert_eq!(back.qr_text(), text);
    let p = app.pairing.as_ref().unwrap();
    assert_eq!((p.started, p.timeout), (5, 30));
    assert_eq!(
        p.qr.half_block_rows(),
        code(text.as_bytes()).half_block_rows()
    );
}
