use std::sync::mpsc::{channel, Receiver, Sender};
use wadb::adb::parse_devices;
use wadb::daemon::Outcome;
use wadb::service::PortOwner;
use wadb::themed_tray::{
    asked, health, icon_name, open_tui, reconnect, split_terminal, terminal_candidates, tooltip,
    Action, Health, WadbTray,
};
use wadb::tray::{
    attached, device_label, header, outcome_line, MenuItem, Snapshot, OUTCOME_MAX,
};
use wadb::ui::UnitState;

const UNITS: [UnitState; 3] = [
    UnitState::NotInstalled,
    UnitState::Active,
    UnitState::Inactive,
];

fn owners() -> [PortOwner; 4] {
    [
        PortOwner::Ours(42),
        PortOwner::Foreign,
        PortOwner::HeldUnknown,
        PortOwner::Nobody,
    ]
}

fn tray() -> (WadbTray, Sender<Action>, Receiver<Action>) {
    let (tx, rx) = channel();
    let mut tray = WadbTray::new();
    tray.state.port = 5037;
    tray.state.adb = Some("/opt/sdk/platform-tools/adb".to_string());
    tray.state.unit = UnitState::Active;
    tray.state.owner = PortOwner::Ours(42);
    (tray, tx, rx)
}

struct Entry {
    label: String,
    enabled: bool,
    action: Option<wadb::tray::Action>,
}

fn standard(items: Vec<MenuItem>, prefix: &str) -> Option<Entry> {
    items.into_iter().find_map(|item| match item {
        MenuItem::Item {
            label,
            enabled,
            action,
        } if label.starts_with(prefix) => Some(Entry {
            label,
            enabled,
            action,
        }),
        _ => None,
    })
}

fn activate(tray: &mut WadbTray, prefix: &str, tx: &Sender<Action>) {
    let action = standard(tray.menu(), prefix).unwrap().action.unwrap();
    tray.request(asked(action).unwrap(), |a| tx.send(a).is_ok());
}

#[test]
fn health_and_header_cover_every_pair() {
    for unit in &UNITS {
        for owner in owners() {
            let h = health(unit, &owner);
            let expected = match (unit, &owner) {
                (UnitState::Active, PortOwner::Ours(_)) => Health::Supervised,
                (UnitState::NotInstalled, _) | (_, PortOwner::Nobody) => Health::Down,
                _ => Health::Degraded,
            };
            assert_eq!(h, expected, "{unit:?} {owner:?}");

            let text = header(unit, &owner, 5137);
            assert!(!text.is_empty());
            match (unit, &owner) {
                (UnitState::NotInstalled, _) => assert_eq!(text, "wadb is not installed"),
                (UnitState::Active, PortOwner::Ours(_)) => assert_eq!(text, "Supervised"),
                (UnitState::Inactive, PortOwner::Ours(_)) => {
                    assert_eq!(text, "Unit inactive, port ours")
                }
                (_, PortOwner::Foreign) => {
                    assert_eq!(text, "Port 5137 held by another adb")
                }
                (_, PortOwner::HeldUnknown) => {
                    assert_eq!(text, "Port 5137 held, owner unknown")
                }
                (UnitState::Active, PortOwner::Nobody) => {
                    assert_eq!(text, "adb server down (unit active, nothing listening)")
                }
                (UnitState::Inactive, PortOwner::Nobody) => {
                    assert_eq!(text, "adb server down (unit inactive)")
                }
            }
        }
    }
}

#[test]
fn tray_attached_means_a_wireless_row_in_state_device() {
    assert!(!attached(&[]));
    let offline = parse_devices("adb-X-y._adb-tls-connect._tcp offline model:Tab_S9\n");
    assert!(!attached(&offline), "offline is what a drop leaves behind");
    let usb = parse_devices("3A081FDJH00123 device model:Pixel_8a\n");
    assert!(
        !attached(&usb),
        "a USB phone must not light the wireless icon"
    );
    let wireless = parse_devices("192.168.86.45:42595 device model:Pixel_8a\n");
    assert!(attached(&wireless));
}

#[test]
fn four_icons_and_attached_wins() {
    let names: std::collections::HashSet<&str> = [
        icon_name(Health::Supervised, true),
        icon_name(Health::Supervised, false),
        icon_name(Health::Degraded, false),
        icon_name(Health::Down, false),
    ]
    .into_iter()
    .collect();
    assert_eq!(
        names.len(),
        4,
        "a state that looks like another is not worth showing"
    );
    assert_eq!(
        icon_name(Health::Degraded, true),
        icon_name(Health::Supervised, true),
        "a phone on a foreign server is still a phone"
    );
    assert!(names.iter().all(|n| n.ends_with("-symbolic")));
}

#[test]
fn tray_the_tooltip_counts_devices_in_words_that_agree() {
    let one = parse_devices("192.168.86.45:42595 device model:Pixel_8a\n");
    let two = parse_devices(
        "192.168.86.45:42595 device model:Pixel_8a\n192.168.86.99:41000 device model:Tab_S9\n",
    );
    let (unit, owner) = (UnitState::Active, PortOwner::Ours(1));
    assert!(tooltip(&unit, &owner, 5037, &[], None).ends_with("no wireless devices"));
    assert!(tooltip(&unit, &owner, 5037, &one, None).ends_with("1 wireless device"));
    assert!(tooltip(&unit, &owner, 5037, &two, None).ends_with("2 wireless devices"));
    assert!(tooltip(&unit, &owner, 5037, &two, None).starts_with("Supervised\n"));
    let with = tooltip(&unit, &owner, 5037, &two, Some("reconnected 1 device"));
    assert!(with.ends_with("\nreconnected 1 device"));
}

#[test]
fn tray_device_labels_name_the_model_and_flag_a_bad_state() {
    let devices = parse_devices(
        "192.168.86.45:42595 device model:Pixel_8a\nadb-X-y._adb-tls-connect._tcp offline model:Tab_S9\n192.168.86.7:5555 device\n",
    );
    assert_eq!(device_label(&devices[0]), "Pixel_8a   192.168.86.45:42595");
    assert!(device_label(&devices[1]).contains("(offline)"));
    assert!(!device_label(&devices[1]).contains("_adb-tls-connect._tcp"));
    assert_eq!(
        device_label(&devices[2]),
        "192.168.86.7:5555",
        "no model: the serial alone"
    );
}

#[test]
fn tray_outcome_line_is_one_short_line() {
    assert_eq!(
        outcome_line("adb kill-server failed: cannot connect\n* daemon not running\n"),
        "adb kill-server failed: cannot connect"
    );
    assert_eq!(outcome_line("\n  spaced   out\ttext \n"), "spaced out text");
    let long = "x".repeat(OUTCOME_MAX + 50);
    let cut = outcome_line(&long);
    assert!(cut.ends_with('…'));
    assert_eq!(cut.chars().count(), OUTCOME_MAX + 1);
    assert_eq!(outcome_line(""), "");
}

#[test]
fn terminal_spec_splits_into_program_and_arguments() {
    assert_eq!(
        split_terminal("alacritty --command"),
        Some(("alacritty".into(), vec!["--command".into()]))
    );
    assert_eq!(split_terminal("kitty"), Some(("kitty".into(), vec![])));
    assert_eq!(split_terminal("   "), None);
}

#[test]
fn tray_menu_offers_takeover_only_for_a_held_port_with_a_unit() {
    let (mut tray, _tx, _rx) = tray();
    assert!(
        standard(tray.menu(), "Take over").is_none(),
        "ours: nothing to take"
    );

    tray.state.owner = PortOwner::Foreign;
    let item = standard(tray.menu(), "Take over").expect("foreign: offered");
    assert!(item.enabled);
    assert_eq!(item.label, "Take over the port");

    tray.state.owner = PortOwner::HeldUnknown;
    assert!(standard(tray.menu(), "Take over").is_some());

    tray.state.adb = None;
    let item = standard(tray.menu(), "Take over").unwrap();
    assert!(!item.enabled);
    assert_eq!(item.label, "Take over the port (adb not found)");

    tray.state.adb = Some("/x/adb".to_string());
    tray.state.unit = UnitState::NotInstalled;
    assert!(
        standard(tray.menu(), "Take over").is_none(),
        "no unit: it would only kill the user's other server"
    );
}

#[test]
fn tray_reconnect_is_enabled_only_when_the_port_is_ours_and_idle() {
    let (mut tray, _tx, _rx) = tray();
    assert!(standard(tray.menu(), "Reconnect now").unwrap().enabled);
    tray.state.owner = PortOwner::Foreign;
    assert!(!standard(tray.menu(), "Reconnect now").unwrap().enabled);
    tray.state.owner = PortOwner::Ours(42);
    tray.state.busy = true;
    assert!(!standard(tray.menu(), "Reconnect now").unwrap().enabled);
    assert_eq!(standard(tray.menu(), "working").unwrap().label, "working…");
    tray.state.owner = PortOwner::Foreign;
    assert!(!standard(tray.menu(), "Take over").unwrap().enabled);
}

#[test]
fn tray_outcome_line_shows_only_when_set() {
    let (mut tray, _tx, _rx) = tray();
    assert!(standard(tray.menu(), "reconnected").is_none());
    tray.state.outcome = Some("reconnected 1 device".into());
    let item = standard(tray.menu(), "reconnected").unwrap();
    assert!(!item.enabled);
    tray.apply(Snapshot {
        port: 5037,
        adb: None,
        unit: UnitState::Active,
        owner: PortOwner::Ours(42),
        devices: None,
    });
    assert!(tray.state.outcome.is_some());
}

#[test]
fn tray_activate_sends_the_action_and_marks_busy_without_doing_the_work() {
    let (mut tray, tx, rx) = tray();
    activate(&mut tray, "Reconnect now", &tx);
    assert_eq!(rx.try_recv(), Ok(Action::Reconnect));
    assert!(tray.state.busy);

    tray.state.owner = PortOwner::Foreign;
    activate(&mut tray, "Take over", &tx);
    activate(&mut tray, "Reconnect now", &tx);
    assert!(rx.try_recv().is_err(), "ignored while busy");

    activate(&mut tray, "Quit", &tx);
    assert_eq!(rx.try_recv(), Ok(Action::Quit));
}

#[test]
fn tray_a_refresh_never_clears_busy_and_keeps_the_last_list_on_a_failed_read() {
    let (mut tray, _tx, _rx) = tray();
    tray.state.devices = parse_devices("192.168.86.45:42595 device model:Pixel_8a\n");
    tray.state.busy = true;
    tray.apply(Snapshot {
        port: 5137,
        adb: None,
        unit: UnitState::Inactive,
        owner: PortOwner::Nobody,
        devices: None,
    });
    assert!(tray.state.busy);
    assert_eq!(tray.state.port, 5137);
    assert_eq!(
        tray.state.devices.len(),
        1,
        "a failed read keeps the last list"
    );
    tray.apply(Snapshot {
        port: 5137,
        adb: None,
        unit: UnitState::Inactive,
        owner: PortOwner::Nobody,
        devices: Some(Vec::new()),
    });
    assert!(
        tray.state.devices.is_empty(),
        "a server that is down clears it"
    );
}

#[test]
fn a_themed_click_is_busy_even_when_nobody_takes_it() {
    let (mut tray, _tx, _rx) = tray();
    tray.request(Action::Takeover, |_| false);
    assert!(tray.state.busy);
    assert_eq!(tray.health(), Health::Supervised);
    assert_eq!(
        tray.icon_name(),
        "network-wireless-signal-none-symbolic"
    );
    assert!(!tray.attached());
    assert_eq!(asked(wadb::tray::Action::Pair), None);
    assert_eq!(asked(wadb::tray::Action::Takeover), Some(Action::Takeover));
}

#[test]
fn the_user_s_terminal_is_tried_before_the_common_ones() {
    let names = |t: Option<&str>| {
        terminal_candidates(t)
            .into_iter()
            .map(|c| c.0)
            .collect::<Vec<_>>()
    };
    assert_eq!(names(None), ["x-terminal-emulator", "kitty", "xterm"]);
    assert_eq!(
        names(Some("foot -x")),
        ["foot", "x-terminal-emulator", "kitty", "xterm"]
    );
    assert_eq!(names(Some(" ")).len(), 3);
    assert_eq!(
        open_tui(&["-x".to_string()], "/usr/bin/wadb"),
        ["-x", "-e", "/usr/bin/wadb"]
    );
}

#[test]
fn a_themed_reconnect_spells_out_every_failure() {
    let outcome = |n: usize, failed: &[&str]| {
        Ok(Outcome {
            connected: vec!["x".to_string(); n],
            failed: failed.iter().map(|s| s.to_string()).collect(),
        })
    };
    assert_eq!(
        reconnect(PortOwner::Nobody, &outcome(1, &[])),
        "port is no longer ours"
    );
    let ours = PortOwner::Ours(1);
    assert_eq!(reconnect(ours, &outcome(0, &[])), "nothing to reconnect");
    assert_eq!(reconnect(ours, &outcome(1, &[])), "reconnected 1 device");
    assert_eq!(reconnect(ours, &outcome(3, &[])), "reconnected 3 devices");
    assert_eq!(
        reconnect(ours, &outcome(0, &["a: x", "b: y"])),
        "reconnected 0, 2 failed: a: x; b: y"
    );
    assert_eq!(
        reconnect(ours, &Err("no list".to_string())),
        "reconnect failed: no list"
    );
}
