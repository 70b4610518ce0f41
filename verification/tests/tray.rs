use std::sync::mpsc::{channel, Receiver, Sender};
use wadb::adb::parse_devices;
use wadb::daemon::Outcome;
use wadb::service::PortOwner;
use wadb::tray::{
    attached, device_label, header, outcome_line, reconnect, reconnect_outcome, run, snapshot,
    takeover, tooltip, Action, LoopEvent, LoopStep, MenuItem, Snapshot, WadbTray, OUTCOME_MAX,
};
use wadb::ui::UnitState;

const UNITS: [UnitState; 3] = [
    UnitState::NotInstalled,
    UnitState::Active,
    UnitState::Inactive,
];

fn owners() -> [PortOwner; 4] {
    [
        PortOwner::Ours(42),
        PortOwner::Foreign,
        PortOwner::HeldUnknown,
        PortOwner::Nobody,
    ]
}

fn tray() -> (WadbTray, Sender<Action>, Receiver<Action>) {
    let (tx, rx) = channel();
    let mut tray = WadbTray::new();
    tray.port = 5037;
    tray.adb = Some("/opt/sdk/platform-tools/adb".to_string());
    tray.unit = UnitState::Active;
    tray.owner = PortOwner::Ours(42);
    (tray, tx, rx)
}

struct Entry {
    label: String,
    enabled: bool,
    action: Option<Action>,
}

fn standard(items: Vec<MenuItem>, prefix: &str) -> Option<Entry> {
    items.into_iter().find_map(|item| match item {
        MenuItem::Item {
            label,
            enabled,
            action,
        } if label.starts_with(prefix) => Some(Entry {
            label,
            enabled,
            action,
        }),
        _ => None,
    })
}

/// A click on the entry, enabled or not.
fn activate(tray: &mut WadbTray, prefix: &str, tx: &Sender<Action>) {
    let action = standard(tray.menu(), prefix).unwrap().action.unwrap();
    tray.request(action, |a| tx.send(a).is_ok());
}

#[test]
fn the_header_covers_every_pair() {
    for unit in &UNITS {
        for owner in owners() {
            let text = header(unit, &owner, 5137);
            assert!(!text.is_empty());
            match (unit, &owner) {
                (UnitState::NotInstalled, _) => assert_eq!(text, "wadb is not installed"),
                (UnitState::Active, PortOwner::Ours(_)) => assert_eq!(text, "Supervised"),
                (UnitState::Inactive, PortOwner::Ours(_)) => {
                    assert_eq!(text, "Unit inactive, port ours")
                }
                (_, PortOwner::Foreign) => {
                    assert_eq!(text, "Port 5137 held by another adb")
                }
                (_, PortOwner::HeldUnknown) => {
                    assert_eq!(text, "Port 5137 held, owner unknown")
                }
                (UnitState::Active, PortOwner::Nobody) => {
                    assert_eq!(text, "adb server down (unit active, nothing listening)")
                }
                (UnitState::Inactive, PortOwner::Nobody) => {
                    assert_eq!(text, "adb server down (unit inactive)")
                }
            }
        }
    }
}

#[test]
fn mod_attached_means_a_wireless_row_in_state_device() {
    assert!(!attached(&[]));
    let offline = parse_devices("adb-X-y._adb-tls-connect._tcp offline model:Tab_S9\n");
    assert!(!attached(&offline), "offline is what a drop leaves behind");
    let unauthorized = parse_devices("192.168.86.45:42595 unauthorized model:Pixel_8a\n");
    assert!(
        !attached(&unauthorized),
        "unauthorized needs the user, not a reconnect"
    );
    let usb = parse_devices("3A081FDJH00123 device model:Pixel_8a\n");
    assert!(
        !attached(&usb),
        "a USB phone must not light the wireless icon"
    );
    let wireless = parse_devices("192.168.86.45:42595 device model:Pixel_8a\n");
    assert!(attached(&wireless));
}

#[test]
fn no_icon_name_is_ever_offered() {
    let (mut tray, _tx, _rx) = tray();
    tray.devices = parse_devices("192.168.86.45:42595 device model:Pixel_8a\n");
    assert_eq!(tray.icon_name(), "");
    assert_eq!(tray.tool_tip().icon_name, "");
    assert!(!tray.icon_pixmap().is_empty());
    assert!(!tray.tool_tip().icon_pixmap.is_empty());
}

#[test]
fn the_icon_follows_whether_a_phone_is_attached() {
    let bytes = |t: &WadbTray| {
        t.icon_pixmap()
            .into_iter()
            .map(|i| i.data)
            .collect::<Vec<_>>()
    };
    let (mut tray, _tx, _rx) = tray();
    let detached = bytes(&tray);
    tray.devices = parse_devices("192.168.86.45:42595 device model:Pixel_8a\n");
    assert_ne!(bytes(&tray), detached);
}

#[test]
fn mod_the_tooltip_counts_devices_in_words_that_agree() {
    let one = parse_devices("192.168.86.45:42595 device model:Pixel_8a\n");
    let two = parse_devices(
        "192.168.86.45:42595 device model:Pixel_8a\n192.168.86.99:41000 device model:Tab_S9\n",
    );
    let head = header(&UnitState::Active, &PortOwner::Ours(1), 5037);
    assert!(tooltip(&head, &[], None).ends_with("no wireless devices"));
    assert!(tooltip(&head, &one, None).ends_with("1 wireless device"));
    assert!(tooltip(&head, &two, None).ends_with("2 wireless devices"));
    assert!(tooltip(&head, &two, None).starts_with("Supervised\n"));
    let with = tooltip(&head, &two, Some("reconnected 1 device"));
    assert!(with.ends_with("\nreconnected 1 device"));
}

#[test]
fn the_hover_says_what_the_menu_says_while_an_action_runs() {
    let (mut tray, _tx, _rx) = tray();
    tray.busy = true;
    assert!(tray.tool_tip().description.starts_with("working…"));
}

#[test]
fn mod_device_labels_name_the_model_and_flag_a_bad_state() {
    let devices = parse_devices(
        "192.168.86.45:42595 device model:Pixel_8a\nadb-X-y._adb-tls-connect._tcp offline model:Tab_S9\n192.168.86.7:5555 device\n",
    );
    assert_eq!(device_label(&devices[0]), "Pixel_8a   192.168.86.45:42595");
    assert!(device_label(&devices[1]).contains("(offline)"));
    assert!(!device_label(&devices[1]).contains("_adb-tls-connect._tcp"));
    assert_eq!(
        device_label(&devices[2]),
        "192.168.86.7:5555",
        "no model: the serial alone"
    );
}

#[test]
fn mod_outcome_line_is_one_short_line() {
    assert_eq!(
        outcome_line("adb kill-server failed: cannot connect\n* daemon not running\n"),
        "adb kill-server failed: cannot connect"
    );
    assert_eq!(outcome_line("\n  spaced   out\ttext \n"), "spaced out text");
    let long = "x".repeat(OUTCOME_MAX + 50);
    let cut = outcome_line(&long);
    assert!(cut.ends_with('…'));
    assert_eq!(cut.chars().count(), OUTCOME_MAX + 1);
    assert_eq!(outcome_line(""), "");
}

#[test]
fn an_outcome_holds_no_white_space_but_blanks() {
    let text = "\n\t one\ttwo\u{a0}three\u{2028}four \r\nfive";
    assert_eq!(outcome_line(text), "one two three four");
    for text in [text, "", "   ", &"ab ".repeat(90), &"x".repeat(400)] {
        let once = outcome_line(text);
        assert_eq!(outcome_line(&once), once);
    }
}

#[test]
fn a_long_multibyte_line_is_cut_on_a_character_not_a_byte() {
    let long = "é".repeat(OUTCOME_MAX + 50);
    let cut = outcome_line(&long);
    assert_eq!(cut.chars().count(), OUTCOME_MAX + 1);
    assert!(cut.ends_with('…'));
    assert!(
        cut.len() > cut.chars().count(),
        "the fixture must be multi-byte"
    );
    let exact = "日".repeat(OUTCOME_MAX);
    assert_eq!(outcome_line(&exact), exact);
}

#[test]
fn mod_menu_offers_takeover_only_for_a_held_port_with_a_unit() {
    let (mut tray, _tx, _rx) = tray();
    assert!(
        standard(tray.menu(), "Take over").is_none(),
        "ours: nothing to take"
    );

    tray.owner = PortOwner::Foreign;
    let item = standard(tray.menu(), "Take over").expect("foreign: offered");
    assert!(item.enabled);
    assert_eq!(item.label, "Take over the port");

    tray.owner = PortOwner::HeldUnknown;
    assert!(standard(tray.menu(), "Take over").is_some());

    tray.adb = None;
    let item = standard(tray.menu(), "Take over").unwrap();
    assert!(!item.enabled);
    assert_eq!(item.label, "Take over the port (adb not found)");

    tray.adb = Some("/x/adb".to_string());
    tray.unit = UnitState::NotInstalled;
    assert!(
        standard(tray.menu(), "Take over").is_none(),
        "no unit: it would only kill the user's other server"
    );
}

#[test]
fn mod_reconnect_is_enabled_only_when_the_port_is_ours_and_idle() {
    let (mut tray, _tx, _rx) = tray();
    assert!(standard(tray.menu(), "Reconnect now").unwrap().enabled);
    tray.owner = PortOwner::Foreign;
    assert!(!standard(tray.menu(), "Reconnect now").unwrap().enabled);
    tray.owner = PortOwner::Ours(42);
    tray.busy = true;
    assert!(!standard(tray.menu(), "Reconnect now").unwrap().enabled);
    assert_eq!(standard(tray.menu(), "working").unwrap().label, "working…");
    tray.owner = PortOwner::Foreign;
    assert!(!standard(tray.menu(), "Take over").unwrap().enabled);
}

#[test]
fn mod_outcome_line_shows_only_when_set() {
    let (mut tray, _tx, _rx) = tray();
    assert!(standard(tray.menu(), "reconnected").is_none());
    tray.outcome = Some("reconnected 1 device".into());
    let item = standard(tray.menu(), "reconnected").unwrap();
    assert!(!item.enabled);
    tray.apply(Snapshot {
        port: 5037,
        adb: None,
        unit: UnitState::Active,
        owner: PortOwner::Ours(42),
        devices: None,
    });
    assert!(tray.outcome.is_some());
}

#[test]
fn mod_activate_sends_the_action_and_marks_busy_without_doing_the_work() {
    let (mut tray, tx, rx) = tray();
    activate(&mut tray, "Reconnect now", &tx);
    assert_eq!(rx.try_recv(), Ok(Action::Reconnect));
    assert!(tray.busy);

    tray.owner = PortOwner::Foreign;
    activate(&mut tray, "Take over", &tx);
    activate(&mut tray, "Reconnect now", &tx);
    assert!(rx.try_recv().is_err(), "ignored while busy");

    activate(&mut tray, "Quit", &tx);
    assert_eq!(rx.try_recv(), Ok(Action::Quit));
}

#[test]
fn pair_is_exempt_from_busy_in_both_directions() {
    let (mut tray, tx, rx) = tray();
    activate(&mut tray, "Open wadb to pair", &tx);
    assert_eq!(rx.try_recv(), Ok(Action::Pair));
    assert!(!tray.busy, "opening a terminal is not an adb action");

    tray.busy = true;
    activate(&mut tray, "Open wadb to pair", &tx);
    assert_eq!(rx.try_recv(), Ok(Action::Pair), "sent even while busy");
    assert!(tray.busy, "and it must not clear the flag either");
}

#[test]
fn a_finished_pair_writes_the_outcome_and_nothing_else() {
    let (mut tray, _tx, _rx) = tray();
    tray.busy = true;
    tray.devices = parse_devices("192.168.86.45:42595 device model:Pixel_8a\n");
    tray.outcome = Some("reconnected 1 device".into());

    tray.finish_pair(None);
    assert_eq!(tray.outcome.as_deref(), Some("reconnected 1 device"));

    tray.finish_pair(Some("no terminal found; set $TERMINAL".into()));
    assert_eq!(
        tray.outcome.as_deref(),
        Some("no terminal found; set $TERMINAL")
    );
    assert!(tray.busy, "Pair never set busy, so it must never clear it");
    assert_eq!(tray.devices.len(), 1, "and it applies no snapshot");
}

#[test]
fn a_dropped_run_loop_does_not_latch_the_menu_shut() {
    let (mut tray, tx, rx) = tray();
    drop(rx);
    tray.request(Action::Reconnect, |a| tx.send(a).is_ok());
    assert!(!tray.busy);
}

#[test]
fn reconnect_outcome_says_what_actually_happened() {
    let outcome = |connected: &[&str], failed: &[&str]| {
        Ok(Outcome {
            connected: connected.iter().map(|s| s.to_string()).collect(),
            failed: failed.iter().map(|s| s.to_string()).collect(),
        })
    };
    assert_eq!(
        reconnect_outcome(&outcome(&[], &[])),
        "nothing to reconnect"
    );
    assert_eq!(
        reconnect_outcome(&outcome(&["a"], &[])),
        "reconnected 1 device"
    );
    assert_eq!(
        reconnect_outcome(&outcome(&["a", "b"], &[])),
        "reconnected 2 devices"
    );
    assert_eq!(
        reconnect_outcome(&outcome(&[], &["192.168.86.45:42595: timed out"])),
        "could not connect 1 device: 192.168.86.45:42595: timed out"
    );
    assert_eq!(
        reconnect_outcome(&outcome(&["a"], &["b: x", "c: y"])),
        "reconnected 1, could not connect 2"
    );
    assert_eq!(
        reconnect_outcome(&Err("mDNS browse failed".to_string())),
        "reconnect failed: mDNS browse failed"
    );
}

#[test]
fn mod_a_refresh_never_clears_busy_and_keeps_the_last_list_on_a_failed_read() {
    let (mut tray, _tx, _rx) = tray();
    tray.devices = parse_devices("192.168.86.45:42595 device model:Pixel_8a\n");
    tray.busy = true;
    tray.apply(Snapshot {
        port: 5137,
        adb: None,
        unit: UnitState::Inactive,
        owner: PortOwner::Nobody,
        devices: None,
    });
    assert!(tray.busy);
    assert_eq!(tray.port, 5137);
    assert_eq!(tray.devices.len(), 1, "a failed read keeps the last list");
    tray.apply(Snapshot {
        port: 5137,
        adb: None,
        unit: UnitState::Inactive,
        owner: PortOwner::Nobody,
        devices: Some(Vec::new()),
    });
    assert!(tray.devices.is_empty(), "a server that is down clears it");
}

#[test]
fn a_snapshot_reads_nothing_without_a_unit() {
    let list = || Some(parse_devices("192.168.86.45:42595 device\nUSB1 device\n"));
    let s = snapshot(
        5037,
        None,
        UnitState::NotInstalled,
        PortOwner::Foreign,
        true,
        list(),
    );
    assert_eq!(s.owner, PortOwner::Nobody);
    assert_eq!(s.devices, Some(vec![]));
    let s = snapshot(
        5037,
        Some("/x".into()),
        UnitState::Active,
        PortOwner::Ours(1),
        true,
        list(),
    );
    assert_eq!(s.owner, PortOwner::Ours(1));
    assert_eq!(s.devices.unwrap().len(), 1, "wireless only");
    let s = snapshot(
        5037,
        None,
        UnitState::Active,
        PortOwner::Ours(1),
        true,
        None,
    );
    assert_eq!(s.devices, None, "a failed read is not an empty list");
    let s = snapshot(
        5037,
        None,
        UnitState::Active,
        PortOwner::Nobody,
        false,
        None,
    );
    assert_eq!(s.devices, Some(vec![]));
}

#[test]
fn a_finished_action_clears_busy_whether_or_not_it_broke_off() {
    let (mut tray, _tx, _rx) = tray();
    tray.busy = true;
    tray.perform(Err("boom".into()));
    assert!(!tray.busy);
    assert_eq!(tray.outcome.as_deref(), Some("action failed: boom"));
    tray.busy = true;
    tray.perform(Ok((
        Snapshot {
            port: 6000,
            adb: None,
            unit: UnitState::Inactive,
            owner: PortOwner::Nobody,
            devices: None,
        },
        "done  now\n".into(),
    )));
    assert!(!tray.busy);
    assert_eq!(tray.port, 6000);
    assert_eq!(tray.outcome.as_deref(), Some("done now"));
    tray.busy = true;
    tray.refresh_failed("gone");
    assert!(tray.busy);
    assert_eq!(tray.outcome.as_deref(), Some("refresh failed: gone"));
}

#[test]
fn an_action_says_what_came_of_it() {
    assert_eq!(
        reconnect(PortOwner::Foreign, &Ok(Outcome::default())),
        "port is no longer ours"
    );
    assert_eq!(
        reconnect(PortOwner::Ours(1), &Ok(Outcome::default())),
        "nothing to reconnect"
    );
    assert_eq!(takeover(None, &Ok(vec![])), "adb not found");
    assert_eq!(
        takeover(Some("/x"), &Ok(vec!["a.".into(), "b.".into()])),
        "a. b."
    );
    assert_eq!(takeover(Some("/x"), &Err("no".into())), "no");
}

#[test]
fn the_menu_is_laid_out_from_top_to_bottom() {
    let (mut tray, _tx, _rx) = tray();
    tray.outcome = Some("done".into());
    let labels: Vec<String> = tray
        .menu()
        .into_iter()
        .map(|m| match m {
            MenuItem::Separator => "-".to_string(),
            MenuItem::Item { label, .. } => label,
        })
        .collect();
    assert_eq!(
        labels,
        [
            "Supervised",
            "done",
            "-",
            "No wireless devices",
            "-",
            "Open wadb to pair…",
            "Reconnect now",
            "-",
            "Quit",
        ]
    );
}

#[test]
fn the_loop_does_one_thing_for_each_event() {
    assert_eq!(run(LoopEvent::Asked(Action::Quit)), LoopStep::Quit);
    assert_eq!(run(LoopEvent::Asked(Action::Pair)), LoopStep::OpenTui);
    assert_eq!(
        run(LoopEvent::Asked(Action::Takeover)),
        LoopStep::Perform(Action::Takeover)
    );
    assert_eq!(run(LoopEvent::Timeout), LoopStep::Refresh);
    assert_eq!(run(LoopEvent::Disconnected), LoopStep::Stop);
}
