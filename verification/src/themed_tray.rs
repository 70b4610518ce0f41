//! A panel icon taken from the user's icon theme, for hosts that show themed icons only.
//!
//! It says the same things as the drawn icon of the `tray` module, whose state and menu it shares.
//! It differs in its icon, which tells three states of health apart, in its hover text, and in how
//! a click is taken up.

use crate::adb::Device;
use crate::daemon::Outcome;
use crate::num::{decimal, decimal_of};
use crate::service::PortOwner;
use crate::text::{
    chars_of, clone_strings, join, join_strings, slices, string_of, texts, words, words_of,
};
use crate::tray::{
    any_usable, attached, header, header_text, menu_views, plural, tooltip_text, MenuItem, Snapshot,
    TrayView,
};
use crate::ui::UnitState;
use vstd::prelude::*;

verus! {

/// What the icon should say at a glance.
#[derive(Debug, Clone, Copy, PartialEq, Eq, Structural)]
pub enum Health {
    /// Supervised by our unit, and the port is ours.
    Supervised,
    /// Something is up but not ours, or the unit is not running.
    Degraded,
    /// No server, or nothing installed.
    Down,
}

pub open spec fn health_of(unit: UnitState, owner: PortOwner) -> Health {
    if unit is Active && owner is Ours {
        Health::Supervised
    } else if unit is NotInstalled || owner is Nobody {
        Health::Down
    } else {
        Health::Degraded
    }
}

pub fn health(unit: &UnitState, owner: &PortOwner) -> (r: Health)
    ensures
        r == health_of(*unit, *owner),
{
    match (*unit, *owner) {
        (UnitState::Active, PortOwner::Ours(_)) => Health::Supervised,
        (UnitState::NotInstalled, _) | (_, PortOwner::Nobody) => Health::Down,
        _ => Health::Degraded,
    }
}

/// An attached phone wins over every state of health: a phone on a foreign server is still a phone.
pub open spec fn themed_icon(health: Health, attached: bool) -> Seq<char> {
    if attached {
        "network-wireless-signal-excellent-symbolic"@
    } else {
        match health {
            Health::Supervised => "network-wireless-signal-none-symbolic"@,
            Health::Degraded => "network-wireless-acquiring-symbolic"@,
            Health::Down => "network-wireless-offline-symbolic"@,
        }
    }
}

/// Themed icon names, so the panel picks the user's own icon theme rather than a bundled bitmap.
pub fn icon_name(health: Health, attached: bool) -> (r: &'static str)
    ensures
        r@ == themed_icon(health, attached),
{
    if attached {
        return "network-wireless-signal-excellent-symbolic";
    }
    match health {
        Health::Supervised => "network-wireless-signal-none-symbolic",
        Health::Degraded => "network-wireless-acquiring-symbolic",
        Health::Down => "network-wireless-offline-symbolic",
    }
}

/// The text under the icon on hover.
pub fn tooltip(
    unit: &UnitState,
    owner: &PortOwner,
    port: u16,
    devices: &[Device],
    outcome: Option<&str>,
) -> (r: String)
    ensures
        r@ == tooltip_text(
            header_text(*unit, *owner, port),
            devices@.len(),
            match outcome {
                Some(o) => Some(o@),
                None => None,
            },
        ),
{
    let head = header(unit, owner, port);
    crate::tray::tooltip(head.as_str(), devices, outcome)
}

/// The program, then the rest.
pub open spec fn terminal_words(spec: Seq<char>) -> Option<(Seq<char>, Seq<Seq<char>>)> {
    let w = words(spec);
    if w.len() > 0 {
        Some((w[0], w.skip(1)))
    } else {
        None
    }
}

/// `$TERMINAL` may carry arguments ("alacritty --command"): the program, then the rest.
pub fn split_terminal(spec: &str) -> (r: Option<(String, Vec<String>)>)
    ensures
        match r {
            Some((program, args)) => terminal_words(spec@) == Some((program@, texts(args@))),
            None => terminal_words(spec@) is None,
        },
{
    let s = chars_of(spec);
    let w = words_of(s.as_slice());
    let ghost all = words(spec@);
    assert(slices(w@).len() == w@.len());
    if w.len() == 0 {
        return None;
    }
    assert(w@[0]@ == all[0]);
    let mut args: Vec<String> = Vec::new();
    let ghost rest = all.skip(1);
    assert(texts(args@) == rest.take(0));
    let mut i: usize = 1;
    while i < w.len()
        invariant
            1 <= i <= w.len(),
            slices(w@) == all,
            rest == all.skip(1),
            texts(args@) == rest.take(i - 1),
        decreases w.len() - i,
    {
        let ghost done = texts(args@);
        assert(rest[i - 1] == w@[i as int]@);
        let word = string_of(w[i]);
        args.push(word);
        assert(texts(args@) == done.push(word@));
        assert(rest.take(i as int) == rest.take(i - 1).push(word@));
        i += 1;
    }
    assert(rest.take(i - 1) == rest);
    Some((string_of(w[0]), args))
}

/// A program with its arguments, as text.
pub open spec fn invocations(v: Seq<(String, Vec<String>)>) -> Seq<(Seq<char>, Seq<Seq<char>>)> {
    v.map_values(|c: (String, Vec<String>)| (c.0@, texts(c.1@)))
}

/// What the user asked for, then three that are commonly there.
pub open spec fn terminals_to_try(terminal: Option<Seq<char>>) -> Seq<
    (Seq<char>, Seq<Seq<char>>),
> {
    let common = seq![
        ("x-terminal-emulator"@, Seq::<Seq<char>>::empty()),
        ("kitty"@, Seq::<Seq<char>>::empty()),
        ("xterm"@, Seq::<Seq<char>>::empty()),
    ];
    match terminal {
        Some(t) => match terminal_words(t) {
            Some(c) => seq![c] + common,
            None => common,
        },
        None => common,
    }
}

fn push_bare(v: &mut Vec<(String, Vec<String>)>, name: &str)
    ensures
        invocations(final(v)@) == invocations(old(v)@).push((name@, Seq::<Seq<char>>::empty())),
{
    let ghost before = invocations(v@);
    let args: Vec<String> = Vec::new();
    assert(texts(args@) == Seq::<Seq<char>>::empty());
    v.push((name.to_owned(), args));
    assert(invocations(v@) == before.push((name@, Seq::<Seq<char>>::empty())));
}

pub fn terminal_candidates(terminal: Option<&str>) -> (r: Vec<(String, Vec<String>)>)
    ensures
        invocations(r@) == terminals_to_try(
            match terminal {
                Some(t) => Some(t@),
                None => None,
            },
        ),
{
    let mut v: Vec<(String, Vec<String>)> = Vec::new();
    assert(invocations(v@) == Seq::<(Seq<char>, Seq<Seq<char>>)>::empty());
    if let Some(t) = terminal {
        if let Some(c) = split_terminal(t) {
            let ghost view = (c.0@, texts(c.1@));
            v.push(c);
            assert(invocations(v@) == seq![view]);
        }
    }
    push_bare(&mut v, "x-terminal-emulator");
    push_bare(&mut v, "kitty");
    push_bare(&mut v, "xterm");
    assert(invocations(v@) == terminals_to_try(
        match terminal {
            Some(t) => Some(t@),
            None => None,
        },
    ));
    v
}

/// The arguments that open the TUI in a terminal: its own, then `-e` and this program.
pub fn open_tui(args: &[String], exe: &str) -> (r: Vec<String>)
    ensures
        texts(r@) == texts(args@) + seq!["-e"@, exe@],
{
    let mut r = clone_strings(args);
    let ghost before = texts(r@);
    r.push("-e".to_owned());
    r.push(exe.to_owned());
    assert(texts(r@) == before + seq!["-e"@, exe@]);
    r
}

/// What a menu click asks the run loop to do. Opening the TUI is not among it: the click does that
/// at once.
#[derive(Debug, Clone, Copy, PartialEq, Eq, Structural)]
pub enum Action {
    Reconnect,
    Takeover,
    Quit,
}

/// What a menu entry asks of the run loop.
pub fn asked(action: crate::tray::Action) -> (r: Option<Action>)
    ensures
        r == (match action {
            crate::tray::Action::Reconnect => Some(Action::Reconnect),
            crate::tray::Action::Takeover => Some(Action::Takeover),
            crate::tray::Action::Pair => None,
            crate::tray::Action::Quit => Some(Action::Quit),
        }),
{
    match action {
        crate::tray::Action::Reconnect => Some(Action::Reconnect),
        crate::tray::Action::Takeover => Some(Action::Takeover),
        crate::tray::Action::Pair => None,
        crate::tray::Action::Quit => Some(Action::Quit),
    }
}

/// The tray with a themed icon.
pub struct WadbTray {
    pub state: crate::tray::WadbTray,
}

impl View for WadbTray {
    type V = TrayView;

    open spec fn view(&self) -> TrayView {
        self.state@
    }
}

impl WadbTray {
    pub fn new() -> (r: WadbTray)
        ensures
            r@ == (TrayView {
                port: crate::adb::DEFAULT_PORT,
                adb: None,
                unit: UnitState::NotInstalled,
                owner: PortOwner::Nobody,
                devices: seq![],
                outcome: None,
                busy: false,
            }),
    {
        WadbTray { state: crate::tray::WadbTray::new() }
    }

    /// Write a snapshot in. Never touches `busy` or `outcome`.
    pub fn apply(&mut self, snapshot: Snapshot)
        ensures
            final(self)@ == old(self)@.applied(snapshot),
    {
        self.state.apply(snapshot);
    }

    pub fn health(&self) -> (r: Health)
        ensures
            r == health_of(self@.unit, self@.owner),
    {
        health(&self.state.unit, &self.state.owner)
    }

    pub fn attached(&self) -> (r: bool)
        ensures
            r == any_usable(self@.devices),
    {
        self.state.attached()
    }

    /// The icon for the state at hand.
    pub fn icon_name(&self) -> (r: &'static str)
        ensures
            r@ == themed_icon(health_of(self@.unit, self@.owner), any_usable(self@.devices)),
    {
        icon_name(self.health(), self.attached())
    }

    /// Hand an action over by `send`. A second Reconnect or Take over while one runs is ignored,
    /// not queued; Quit is always honoured.
    pub fn request<F: Fn(Action) -> bool>(&mut self, action: Action, send: F)
        requires
            call_requires(send, (action,)),
        ensures
            final(self)@ == (TrayView {
                busy: old(self)@.busy || !(action is Quit),
                ..old(self)@
            }),
            action is Quit || !old(self)@.busy ==> exists|taken: bool| #[trigger]
                call_ensures(send, (action,), taken),
    {
        if !matches!(action, Action::Quit) {
            if self.state.busy {
                return;
            }
            self.state.busy = true;
        }
        let _taken = send(action);
    }

    pub fn menu(&self) -> (r: Vec<MenuItem>)
        ensures
            menu_views(r@) == self@.menu(),
    {
        self.state.menu()
    }
}

/// One pass of the watcher in a line a menu can show, with every failure spelled out.
pub open spec fn reconnect_text(connected: nat, failed: Seq<Seq<char>>) -> Seq<char> {
    if connected == 0 && failed.len() == 0 {
        "nothing to reconnect"@
    } else if failed.len() == 0 {
        "reconnected "@ + decimal(connected) + " device"@ + plural(connected)
    } else {
        "reconnected "@ + decimal(connected) + ", "@ + decimal(failed.len()) + " failed: "@ + join(
            failed,
            "; "@,
        )
    }
}

pub fn reconnect(owner: PortOwner, result: &Result<Outcome, String>) -> (r: String)
    ensures
        !(owner is Ours) ==> r@ == "port is no longer ours"@,
        owner is Ours ==> match result {
            Ok(o) => r@ == reconnect_text(o.connected@.len(), texts(o.failed@)),
            Err(e) => r@ == "reconnect failed: "@ + e@,
        },
{
    if !matches!(owner, PortOwner::Ours(_)) {
        return "port is no longer ours".to_owned();
    }
    match result {
        Err(e) => "reconnect failed: ".to_owned().concat(e.as_str()),
        Ok(o) => {
            let n: usize = o.connected.len();
            let m: usize = o.failed.len();
            assert(texts(o.failed@).len() == m);
            if m > 0 {
                "reconnected ".to_owned().concat(decimal_of(n as u64).as_str()).concat(
                    ", ",
                ).concat(decimal_of(m as u64).as_str()).concat(" failed: ").concat(
                    join_strings(o.failed.as_slice(), "; ").as_str(),
                )
            } else if n == 0 {
                "nothing to reconnect".to_owned()
            } else if n == 1 {
                "reconnected ".to_owned().concat(decimal_of(n as u64).as_str()).concat(
                    " device",
                ).concat("")
            } else {
                "reconnected ".to_owned().concat(decimal_of(n as u64).as_str()).concat(
                    " device",
                ).concat("s")
            }
        },
    }
}

/// No two states look alike: the icon tells an attached phone and the three states of health
/// without one apart.
pub proof fn every_state_has_its_own_icon(a: Health, b: Health)
    requires
        a != b,
    ensures
        themed_icon(a, false) != themed_icon(b, false),
        themed_icon(a, false) != themed_icon(b, true),
        themed_icon(a, false) != themed_icon(a, true),
        themed_icon(a, true) == themed_icon(b, true),
{
    reveal_strlit("network-wireless-signal-excellent-symbolic");
    reveal_strlit("network-wireless-signal-none-symbolic");
    reveal_strlit("network-wireless-acquiring-symbolic");
    reveal_strlit("network-wireless-offline-symbolic");
    assert("network-wireless-signal-excellent-symbolic"@.len() == 42);
    assert("network-wireless-signal-none-symbolic"@.len() == 37);
    assert("network-wireless-acquiring-symbolic"@.len() == 35);
    assert("network-wireless-offline-symbolic"@.len() == 33);
}

} // verus!
