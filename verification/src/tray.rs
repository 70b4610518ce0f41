//! A panel icon, for people who do not keep a terminal open: what it says, what its menu offers,
//! and what a click does.

pub mod icon;
pub mod terminal;

use crate::adb::{devices as device_views, wireless_devices, DEFAULT_PORT, Device, DeviceView};
use crate::daemon::Outcome;
use crate::num::{decimal, decimal_of};
use crate::service::PortOwner;
use crate::tray::icon::{icon_data, pixmaps, Icon, SIZES};
use crate::text::{
    chars_of, find_map, is_collapsed, is_space, join, join_slices, join_strings,
    lemma_collapsed_words, lemma_find_map, lemma_joined_words, lemma_scan_is, lemma_trim_same,
    lemma_words_have_no_space, lines, lines_of, only_blanks, opt_text, slices, str_eq, string_of,
    texts, trim, trimmed, words, words_of, Class,
};
use crate::ui::devices::{serial_head, short_serial};
use crate::ui::{opt_devices, UnitState};
use vstd::prelude::*;
use vstd::slice::slice_subrange;

verus! {

/// How often the icon and menu are refreshed from the adb server, in nanoseconds.
pub const REFRESH: u64 = 5_000_000_000;

/// The outcome line is one menu entry; adb's stderr is not.
pub const OUTCOME_MAX: usize = 120;

/// Whether a device can be used right now: `offline` is what adb leaves behind after a drop, and
/// `unauthorized` needs the user, not a reconnect.
pub open spec fn is_usable(d: DeviceView) -> bool {
    d.transport.wireless() && d.state == "device"@
}

pub open spec fn any_usable(devices: Seq<DeviceView>) -> bool {
    exists|i: int| 0 <= i < devices.len() && is_usable(#[trigger] devices[i])
}

/// Is a phone usable right now?
pub fn attached(devices: &[Device]) -> (r: bool)
    ensures
        r == any_usable(device_views(devices@)),
{
    let ghost all = device_views(devices@);
    let mut i: usize = 0;
    while i < devices.len()
        invariant
            i <= devices.len(),
            all == device_views(devices@),
            forall|j: int| 0 <= j < i ==> !is_usable(#[trigger] all[j]),
        decreases devices.len() - i,
    {
        let d = &devices[i];
        assert(all[i as int] == d@);
        if d.transport.is_wireless() && str_eq(d.state.as_str(), "device") {
            assert(is_usable(all[i as int]));
            return true;
        }
        i += 1;
    }
    assert(all.len() == devices@.len());
    false
}

/// The first menu line, from the unit and the port's owner directly.
pub open spec fn header_text(unit: UnitState, owner: PortOwner, port: u16) -> Seq<char> {
    match (unit, owner) {
        (UnitState::NotInstalled, _) => "wadb is not installed"@,
        (UnitState::Active, PortOwner::Ours(_)) => "Supervised"@,
        (UnitState::Inactive, PortOwner::Ours(_)) => "Unit inactive, port ours"@,
        (_, PortOwner::Foreign) => "Port "@ + decimal(port as nat) + " held by another adb"@,
        (_, PortOwner::HeldUnknown) => "Port "@ + decimal(port as nat) + " held, owner unknown"@,
        (UnitState::Active, PortOwner::Nobody) =>
            "adb server down (unit active, nothing listening)"@,
        (UnitState::Inactive, PortOwner::Nobody) => "adb server down (unit inactive)"@,
    }
}

/// The first menu line, so that it cannot say "not held by wadb" when it is.
pub fn header(unit: &UnitState, owner: &PortOwner, port: u16) -> (r: String)
    ensures
        r@ == header_text(*unit, *owner, port),
{
    match (*unit, *owner) {
        (UnitState::NotInstalled, _) => "wadb is not installed".to_owned(),
        (UnitState::Active, PortOwner::Ours(_)) => "Supervised".to_owned(),
        (UnitState::Inactive, PortOwner::Ours(_)) => "Unit inactive, port ours".to_owned(),
        (_, PortOwner::Foreign) => "Port ".to_owned().concat(
            decimal_of(port as u64).as_str(),
        ).concat(" held by another adb"),
        (_, PortOwner::HeldUnknown) => "Port ".to_owned().concat(
            decimal_of(port as u64).as_str(),
        ).concat(" held, owner unknown"),
        (UnitState::Active, PortOwner::Nobody) =>
            "adb server down (unit active, nothing listening)".to_owned(),
        (UnitState::Inactive, PortOwner::Nobody) => "adb server down (unit inactive)".to_owned(),
    }
}

/// How many devices there are, in words.
pub open spec fn device_count_text(n: nat) -> Seq<char> {
    if n == 0 {
        "no wireless devices"@
    } else if n == 1 {
        "1 wireless device"@
    } else {
        decimal(n) + " wireless devices"@
    }
}

fn device_count(n: usize) -> (r: String)
    ensures
        r@ == device_count_text(n as nat),
{
    if n == 0 {
        "no wireless devices".to_owned()
    } else if n == 1 {
        "1 wireless device".to_owned()
    } else {
        decimal_of(n as u64).concat(" wireless devices")
    }
}

/// The text under the icon on hover: the menu's first line, the number of devices, and the last
/// outcome.
pub open spec fn tooltip_text(header: Seq<char>, n: nat, outcome: Option<Seq<char>>) -> Seq<char> {
    let text = header + "\n"@ + device_count_text(n);
    match outcome {
        Some(o) => text + "\n"@ + o,
        None => text,
    }
}

/// Takes the header rather than deriving it, so that the hover says the same thing the menu does.
pub fn tooltip(header: &str, devices: &[Device], outcome: Option<&str>) -> (r: String)
    ensures
        r@ == tooltip_text(
            header@,
            devices@.len(),
            match outcome {
                Some(o) => Some(o@),
                None => None,
            },
        ),
{
    let text = header.to_owned().concat("\n").concat(device_count(devices.len()).as_str());
    match outcome {
        Some(o) => text.concat("\n").concat(o),
        None => text,
    }
}

/// One menu line for a device: model, then how it is attached, then its state if it is not plainly
/// usable.
pub open spec fn label_text(d: DeviceView) -> Seq<char> {
    let head = match d.model {
        Some(model) => model + "   "@ + serial_head(d.serial),
        None => serial_head(d.serial),
    };
    if d.state == "device"@ {
        head
    } else {
        head + "  ("@ + d.state + ")"@
    }
}

/// One menu line per device.
pub fn device_label(device: &Device) -> (r: String)
    ensures
        r@ == label_text(device@),
{
    let serial = short_serial(device.serial.as_str());
    let head = match &device.model {
        Some(model) => model.clone().concat("   ").concat(serial.as_str()),
        None => serial,
    };
    if str_eq(device.state.as_str(), "device") {
        head
    } else {
        head.concat("  (").concat(device.state.as_str()).concat(")")
    }
}

/// The first line that is not blank.
pub open spec fn first_line(text: Seq<char>) -> Seq<char> {
    match find_map(
        lines(text),
        |l: Seq<char>|
            if trim(l).len() > 0 {
                Some(l)
            } else {
                None
            },
    ) {
        Some(l) => l,
        None => ""@,
    }
}

/// One line, white space collapsed, short enough for a menu.
pub open spec fn outcome_text(text: Seq<char>) -> Seq<char> {
    let collapsed = join(words(first_line(text)), " "@);
    if collapsed.len() > OUTCOME_MAX {
        collapsed.take(OUTCOME_MAX as int).push('…')
    } else {
        collapsed
    }
}

fn first_line_of(text: &str) -> (r: String)
    ensures
        r@ == first_line(text@),
{
    let s = chars_of(text);
    let ls = lines_of(s.as_slice());
    let ghost all = lines(text@);
    let ghost f = |l: Seq<char>|
        if trim(l).len() > 0 {
            Some(l)
        } else {
            None
        };
    let mut i: usize = 0;
    while i < ls.len()
        invariant
            i <= ls.len(),
            slices(ls@) == all,
            all == lines(text@),
            f == (|l: Seq<char>|
                if trim(l).len() > 0 {
                    Some(l)
                } else {
                    None
                }),
            forall|j: int| 0 <= j < i ==> f(#[trigger] all[j]) is None,
        decreases ls.len() - i,
    {
        assert(ls@[i as int]@ == all[i as int]);
        if trimmed(ls[i]).len() > 0 {
            proof {
                assert(f(all[i as int]) == Some(all[i as int]));
                lemma_find_map(all, f, i as int);
            }
            return string_of(ls[i]);
        }
        i += 1;
    }
    proof {
        assert(slices(ls@).len() == ls@.len());
        lemma_find_map(all, f, i as int);
    }
    "".to_owned()
}

/// One line, whitespace collapsed, short enough for a menu. adb's stderr and chained errors are
/// neither.
pub fn outcome_line(text: &str) -> (r: String)
    ensures
        r@ == outcome_text(text@),
{
    let first = first_line_of(text);
    let f = chars_of(first.as_str());
    let w = words_of(f.as_slice());
    let collapsed = join_slices(&w, " ");
    let c = chars_of(collapsed.as_str());
    if c.len() > OUTCOME_MAX {
        let cut = slice_subrange(c.as_slice(), 0, OUTCOME_MAX);
        assert(cut@ == c@.take(OUTCOME_MAX as int));
        let mut r = string_of(cut);
        r.push('…');
        r
    } else {
        collapsed
    }
}

/// One pass of the watcher in a line a menu can show. None connected and none failed says no more
/// than "nothing to reconnect" on purpose: it is so both when every advertised phone is attached
/// and when nothing was found at all.
pub open spec fn reconnect_text(connected: nat, failed: Seq<Seq<char>>) -> Seq<char> {
    if connected == 0 && failed.len() == 0 {
        "nothing to reconnect"@
    } else if failed.len() == 0 {
        "reconnected "@ + decimal(connected) + " device"@ + plural(connected)
    } else if connected == 0 {
        "could not connect "@ + decimal(failed.len()) + " device"@ + plural(failed.len()) + ": "@
            + failed[0]
    } else {
        "reconnected "@ + decimal(connected) + ", could not connect "@ + decimal(failed.len())
    }
}

pub open spec fn plural(n: nat) -> Seq<char> {
    if n == 1 {
        ""@
    } else {
        "s"@
    }
}

fn plural_of(n: usize) -> (r: &'static str)
    ensures
        r@ == plural(n as nat),
{
    if n == 1 {
        ""
    } else {
        "s"
    }
}

pub fn reconnect_outcome(result: &Result<Outcome, String>) -> (r: String)
    ensures
        match result {
            Ok(o) => r@ == reconnect_text(o.connected@.len(), texts(o.failed@)),
            Err(e) => r@ == "reconnect failed: "@ + e@,
        },
{
    match result {
        Err(e) => "reconnect failed: ".to_owned().concat(e.as_str()),
        Ok(o) => {
            let n: usize = o.connected.len();
            let m: usize = o.failed.len();
            assert(texts(o.failed@).len() == m);
            if n == 0 && m == 0 {
                "nothing to reconnect".to_owned()
            } else if m == 0 {
                "reconnected ".to_owned().concat(decimal_of(n as u64).as_str()).concat(
                    " device",
                ).concat(plural_of(n))
            } else if n == 0 {
                "could not connect ".to_owned().concat(decimal_of(m as u64).as_str()).concat(
                    " device",
                ).concat(plural_of(m)).concat(": ").concat(o.failed[0].as_str())
            } else {
                "reconnected ".to_owned().concat(decimal_of(n as u64).as_str()).concat(
                    ", could not connect ",
                ).concat(decimal_of(m as u64).as_str())
            }
        },
    }
}

/// What a menu click asks for.
#[derive(Debug, Clone, Copy, PartialEq, Eq, Structural)]
pub enum Action {
    Reconnect,
    Takeover,
    /// Open the TUI. Not an adb action: it does not take `busy`, and two are allowed at once.
    Pair,
    Quit,
}

impl Action {
    /// Reconnect and Take over touch the adb server, so they run one at a time. Pair opens a
    /// terminal, which is neither exclusive nor slow enough to be worth blocking, and Quit must be
    /// honoured even mid-action.
    pub open spec fn is_guarded(self) -> bool {
        self is Reconnect || self is Takeover
    }

    pub fn guarded(self) -> (r: bool)
        ensures
            r == self.is_guarded(),
    {
        matches!(self, Action::Reconnect | Action::Takeover)
    }
}

/// One refresh's worth of reading.
pub struct Snapshot {
    pub port: u16,
    pub adb: Option<String>,
    pub unit: UnitState,
    pub owner: PortOwner,
    /// `None` keeps the last known list: a device read that fails while the server is up is
    /// usually the server restarting, not an empty phone list.
    pub devices: Option<Vec<Device>>,
}

/// What is known of the server and the unit, put together. With no unit of our own there is
/// nothing to report on: reading the port would list a stranger's devices.
pub fn snapshot(
    port: u16,
    adb: Option<String>,
    unit: UnitState,
    owner: PortOwner,
    up: bool,
    list: Option<Vec<Device>>,
) -> (r: Snapshot)
    ensures
        r.port == port,
        r.adb == adb,
        r.unit == unit,
        r.owner == if unit is NotInstalled {
            PortOwner::Nobody
        } else {
            owner
        },
        opt_devices(r.devices) == if unit is NotInstalled || !up {
            Some(Seq::<DeviceView>::empty())
        } else {
            match opt_devices(list) {
                Some(all) => Some(all.filter(|d: DeviceView| d.transport.wireless())),
                None => None,
            }
        },
{
    if matches!(unit, UnitState::NotInstalled) {
        let none: Vec<Device> = Vec::new();
        assert(device_views(none@) == Seq::<DeviceView>::empty());
        return Snapshot { port, adb, unit, owner: PortOwner::Nobody, devices: Some(none) };
    }
    let devices = if up {
        match list {
            Some(all) => Some(wireless_devices(all.as_slice())),
            None => None,
        }
    } else {
        let none: Vec<Device> = Vec::new();
        assert(device_views(none@) == Seq::<DeviceView>::empty());
        Some(none)
    };
    Snapshot { port, adb, unit, owner, devices }
}

pub struct WadbTray {
    pub port: u16,
    pub adb: Option<String>,
    pub unit: UnitState,
    pub owner: PortOwner,
    pub devices: Vec<Device>,
    /// The last menu action's result, kept until the next action replaces it.
    pub outcome: Option<String>,
    /// An action is running. Reconnect and Take over are disabled and ignored meanwhile.
    pub busy: bool,
}

pub struct TrayView {
    pub port: u16,
    pub adb: Option<Seq<char>>,
    pub unit: UnitState,
    pub owner: PortOwner,
    pub devices: Seq<DeviceView>,
    pub outcome: Option<Seq<char>>,
    pub busy: bool,
}

impl View for WadbTray {
    type V = TrayView;

    open spec fn view(&self) -> TrayView {
        TrayView {
            port: self.port,
            adb: opt_text(self.adb),
            unit: self.unit,
            owner: self.owner,
            devices: device_views(self.devices@),
            outcome: opt_text(self.outcome),
            busy: self.busy,
        }
    }
}

impl TrayView {
    /// The menu's first line.
    pub open spec fn header(self) -> Seq<char> {
        if self.busy {
            "working…"@
        } else {
            header_text(self.unit, self.owner, self.port)
        }
    }

    /// The state after a snapshot has been written in.
    pub open spec fn applied(self, s: Snapshot) -> TrayView {
        TrayView {
            port: s.port,
            adb: opt_text(s.adb),
            unit: s.unit,
            owner: s.owner,
            devices: match opt_devices(s.devices) {
                Some(d) => d,
                None => self.devices,
            },
            ..self
        }
    }

    /// Whether the menu offers to take over the port: somebody else holds it, and there is a unit
    /// to hand it to.
    pub open spec fn offers_takeover(self) -> bool {
        (self.owner is Foreign || self.owner is HeldUnknown) && !(self.unit is NotInstalled)
    }

    /// The top of the menu: how things stand, and the last outcome.
    pub open spec fn menu_top(self) -> Seq<MenuView> {
        let head = seq![line_entry(self.header())];
        match self.outcome {
            Some(o) => head.push(line_entry(o)).push(MenuView::Separator),
            None => head.push(MenuView::Separator),
        }
    }

    /// A line for each device.
    pub open spec fn menu_rows(self) -> Seq<MenuView> {
        if self.devices.len() == 0 {
            seq![line_entry("No wireless devices"@)]
        } else {
            self.devices.map_values(|d: DeviceView| line_entry(label_text(d)))
        }
    }

    /// What can be clicked.
    pub open spec fn menu_actions(self) -> Seq<MenuView> {
        let common = seq![
            MenuView::Separator,
            action_entry("Open wadb to pair…"@, true, Action::Pair),
            action_entry(
                "Reconnect now"@,
                self.owner is Ours && !self.busy,
                Action::Reconnect,
            ),
        ];
        let server = if !self.offers_takeover() {
            common
        } else if self.adb is Some {
            common.push(action_entry("Take over the port"@, !self.busy, Action::Takeover))
        } else {
            common.push(action_entry("Take over the port (adb not found)"@, false, Action::Takeover))
        };
        server.push(MenuView::Separator).push(action_entry("Quit"@, true, Action::Quit))
    }

    /// The menu, from top to bottom.
    pub open spec fn menu(self) -> Seq<MenuView> {
        self.menu_top() + self.menu_rows() + self.menu_actions()
    }
}

/// What hovering over the icon shows. It carries no icon name either.
#[derive(Debug, PartialEq, Eq)]
pub struct ToolTip {
    pub title: String,
    pub description: String,
    pub icon_name: String,
    pub icon_pixmap: Vec<Icon>,
}

/// The pictures of a state: one for every size.
pub open spec fn is_pixmap_of(v: Seq<Icon>, attached: bool) -> bool {
    &&& v.len() == SIZES@.len()
    &&& forall|i: int|
        0 <= i < v.len() ==> (#[trigger] v[i]).width == SIZES@[i] && v[i].height == SIZES@[i]
            && v[i].data@ == icon_data(SIZES@[i] as int, attached)
}

/// One entry of the menu.
#[derive(Debug, PartialEq, Eq)]
pub enum MenuItem {
    Separator,
    /// A line of text; a click on it, where it is enabled, asks for the action.
    Item { label: String, enabled: bool, action: Option<Action> },
}

pub enum MenuView {
    Separator,
    Item { label: Seq<char>, enabled: bool, action: Option<Action> },
}

impl View for MenuItem {
    type V = MenuView;

    open spec fn view(&self) -> MenuView {
        match self {
            MenuItem::Separator => MenuView::Separator,
            MenuItem::Item { label, enabled, action } => MenuView::Item {
                label: label@,
                enabled: *enabled,
                action: *action,
            },
        }
    }
}

pub open spec fn menu_views(v: Seq<MenuItem>) -> Seq<MenuView> {
    v.map_values(|m: MenuItem| m@)
}

/// A line that cannot be clicked.
pub open spec fn line_entry(label: Seq<char>) -> MenuView {
    MenuView::Item { label, enabled: false, action: None }
}

pub open spec fn action_entry(label: Seq<char>, enabled: bool, action: Action) -> MenuView {
    MenuView::Item { label, enabled, action: Some(action) }
}

fn push_item(v: &mut Vec<MenuItem>, m: MenuItem)
    ensures
        menu_views(final(v)@) == menu_views(old(v)@).push(m@),
{
    let ghost before = menu_views(v@);
    v.push(m);
    assert(menu_views(v@) == before.push(m@));
}

fn disabled_line(label: String) -> (r: MenuItem)
    ensures
        r@ == line_entry(label@),
{
    MenuItem::Item { label, enabled: false, action: None }
}

fn action_item(label: &str, enabled: bool, action: Action) -> (r: MenuItem)
    ensures
        r@ == action_entry(label@, enabled, action),
{
    MenuItem::Item { label: label.to_owned(), enabled, action: Some(action) }
}

impl WadbTray {
    pub fn new() -> (r: WadbTray)
        ensures
            r@ == (TrayView {
                port: DEFAULT_PORT,
                adb: None,
                unit: UnitState::NotInstalled,
                owner: PortOwner::Nobody,
                devices: seq![],
                outcome: None,
                busy: false,
            }),
    {
        let r = WadbTray {
            port: DEFAULT_PORT,
            adb: None,
            unit: UnitState::NotInstalled,
            owner: PortOwner::Nobody,
            devices: Vec::new(),
            outcome: None,
            busy: false,
        };
        assert(device_views(r.devices@) == Seq::<DeviceView>::empty());
        r
    }

    /// Write a snapshot in. Never touches `busy` or `outcome`: a refresh landing between a click
    /// and the action's end must not let a second action in, or wipe a result nobody has read.
    pub fn apply(&mut self, snapshot: Snapshot)
        ensures
            final(self)@ == old(self)@.applied(snapshot),
    {
        self.port = snapshot.port;
        self.adb = snapshot.adb;
        self.unit = snapshot.unit;
        self.owner = snapshot.owner;
        if let Some(devices) = snapshot.devices {
            self.devices = devices;
        }
    }

    pub fn attached(&self) -> (r: bool)
        ensures
            r == any_usable(self@.devices),
    {
        attached(self.devices.as_slice())
    }

    /// Whether a click on this action is taken up. A second Reconnect or Take over while one runs
    /// is ignored, not queued. Pair and Quit always are: swallowing Pair would mean a click that
    /// does nothing at all for as long as a reconnect can take.
    pub fn admits(&self, action: Action) -> (r: bool)
        ensures
            r == !(action.is_guarded() && self@.busy),
    {
        !(action.guarded() && self.busy)
    }

    /// Take note of whether an action could be handed over. Only then is `busy` set: nobody to
    /// take it means that the loop is gone, and latching `busy` on the way out would leave the
    /// menu disabled for good.
    pub fn handed_over(&mut self, action: Action, taken: bool)
        ensures
            final(self)@ == (TrayView {
                busy: old(self)@.busy || (taken && action.is_guarded()),
                ..old(self)@
            }),
    {
        if taken && action.guarded() {
            self.busy = true;
        }
    }

    /// Hand an action over by `send`, which says whether anybody took it.
    pub fn request<F: Fn(Action) -> bool>(&mut self, action: Action, send: F)
        requires
            call_requires(send, (action,)),
        ensures
            action.is_guarded() && old(self)@.busy ==> final(self)@ == old(self)@,
            !(action.is_guarded() && old(self)@.busy) ==> exists|taken: bool| #[trigger]
                call_ensures(send, (action,), taken) && final(self)@ == (TrayView {
                    busy: old(self)@.busy || (taken && action.is_guarded()),
                    ..old(self)@
                }),
    {
        if !self.admits(action) {
            return;
        }
        let taken = send(action);
        self.handed_over(action, taken);
    }

    /// The menu's first line.
    pub fn header(&self) -> (r: String)
        ensures
            r@ == self@.header(),
    {
        if self.busy {
            "working…".to_owned()
        } else {
            header(&self.unit, &self.owner, self.port)
        }
    }

    /// Empty, and it has to stay empty: a host prefers a name whenever its theme resolves it, so
    /// any name here would win over the drawn picture.
    pub fn icon_name(&self) -> (r: String)
        ensures
            r@ == Seq::<char>::empty(),
    {
        String::new()
    }

    /// The drawn picture, in every size.
    pub fn icon_pixmap(&self) -> (r: Vec<Icon>)
        ensures
            is_pixmap_of(r@, any_usable(self@.devices)),
    {
        pixmaps(self.attached())
    }

    /// What hovering shows.
    pub fn tool_tip(&self) -> (r: ToolTip)
        ensures
            r.title@ == "wadb"@,
            r.description@ == tooltip_text(self@.header(), self@.devices.len(), self@.outcome),
            r.icon_name@ == Seq::<char>::empty(),
            is_pixmap_of(r.icon_pixmap@, any_usable(self@.devices)),
    {
        assert(self@.devices.len() == self.devices@.len());
        let description = match &self.outcome {
            Some(o) => tooltip(
                self.header().as_str(),
                self.devices.as_slice(),
                Some(o.as_str()),
            ),
            None => tooltip(self.header().as_str(), self.devices.as_slice(), None),
        };
        ToolTip {
            title: "wadb".to_owned(),
            description,
            icon_name: self.icon_name(),
            icon_pixmap: self.icon_pixmap(),
        }
    }

    /// What a finished Pair writes: the outcome line, and only when there is something to say.
    /// Never `busy`, which it never set. A silent success leaves the previous outcome alone, so
    /// opening a terminal does not wipe a reconnect result the user has not read yet.
    pub fn finish_pair(&mut self, note: Option<String>)
        ensures
            final(self)@ == (match note {
                Some(note) => TrayView { outcome: Some(outcome_text(note@)), ..old(self)@ },
                None => old(self)@,
            }),
    {
        if let Some(note) = note {
            self.outcome = Some(outcome_line(note.as_str()));
        }
    }

    /// What a finished adb action writes: the fresh state and the outcome, or, where it broke off,
    /// the outcome alone. Either way nothing is running any more.
    pub fn perform(&mut self, done: Result<(Snapshot, String), String>)
        ensures
            final(self)@ == (match done {
                Ok((snapshot, outcome)) => TrayView {
                    outcome: Some(outcome_text(outcome@)),
                    busy: false,
                    ..old(self)@.applied(snapshot)
                },
                Err(why) => TrayView {
                    outcome: Some(outcome_text("action failed: "@ + why@)),
                    busy: false,
                    ..old(self)@
                },
            }),
    {
        match done {
            Ok((snapshot, outcome)) => {
                self.apply(snapshot);
                self.outcome = Some(outcome_line(outcome.as_str()));
            },
            Err(why) => {
                let text = "action failed: ".to_owned().concat(why.as_str());
                self.outcome = Some(outcome_line(text.as_str()));
            },
        }
        self.busy = false;
    }

    /// What a refresh that broke off writes: what is on the screen stays, and says so.
    pub fn refresh_failed(&mut self, why: &str)
        ensures
            final(self)@ == (TrayView {
                outcome: Some(outcome_text("refresh failed: "@ + why@)),
                ..old(self)@
            }),
    {
        let text = "refresh failed: ".to_owned().concat(why);
        self.outcome = Some(outcome_line(text.as_str()));
    }

    pub fn takeover_offered(&self) -> (r: bool)
        ensures
            r == self@.offers_takeover(),
    {
        let held = matches!(self.owner, PortOwner::Foreign | PortOwner::HeldUnknown);
        held && !matches!(self.unit, UnitState::NotInstalled)
    }

    fn push_rows(&self, items: &mut Vec<MenuItem>)
        ensures
            menu_views(final(items)@) == menu_views(old(items)@) + self@.menu_rows(),
    {
        let ghost top = menu_views(items@);
        let ghost rows = self@.menu_rows();
        assert(self@.devices.len() == self.devices@.len());
        if self.devices.len() == 0 {
            push_item(items, disabled_line("No wireless devices".to_owned()));
            assert(menu_views(items@) == top + rows);
            return;
        }
        let mut i: usize = 0;
        assert(menu_views(items@) == top + rows.take(0));
        while i < self.devices.len()
            invariant
                i <= self.devices.len(),
                rows == self@.devices.map_values(|d: DeviceView| line_entry(label_text(d))),
                menu_views(items@) == top + rows.take(i as int),
            decreases self.devices.len() - i,
        {
            push_item(items, disabled_line(device_label(&self.devices[i])));
            assert(rows[i as int] == line_entry(label_text(self.devices@[i as int]@)));
            assert(top + rows.take(i + 1) == (top + rows.take(i as int)).push(rows[i as int]));
            i += 1;
        }
        assert(rows.take(i as int) == rows);
    }

    fn actions(&self) -> (r: Vec<MenuItem>)
        ensures
            menu_views(r@) == self@.menu_actions(),
    {
        let mut items: Vec<MenuItem> = Vec::new();
        assert(menu_views(items@) == Seq::<MenuView>::empty());
        push_item(&mut items, MenuItem::Separator);
        push_item(&mut items, action_item("Open wadb to pair…", true, Action::Pair));
        let ours = matches!(self.owner, PortOwner::Ours(_)) && !self.busy;
        push_item(&mut items, action_item("Reconnect now", ours, Action::Reconnect));
        assert(menu_views(items@) == seq![
            MenuView::Separator,
            action_entry("Open wadb to pair…"@, true, Action::Pair),
            action_entry("Reconnect now"@, ours, Action::Reconnect),
        ]);
        if self.takeover_offered() {
            if self.adb.is_some() {
                let free = !self.busy;
                push_item(&mut items, action_item("Take over the port", free, Action::Takeover));
            } else {
                push_item(
                    &mut items,
                    action_item("Take over the port (adb not found)", false, Action::Takeover),
                );
            }
        }
        push_item(&mut items, MenuItem::Separator);
        push_item(&mut items, action_item("Quit", true, Action::Quit));
        items
    }

    pub fn menu(&self) -> (r: Vec<MenuItem>)
        ensures
            menu_views(r@) == self@.menu(),
    {
        let mut items: Vec<MenuItem> = Vec::new();
        assert(menu_views(items@) == Seq::<MenuView>::empty());
        push_item(&mut items, disabled_line(self.header()));
        assert(menu_views(items@) == seq![line_entry(self@.header())]);
        if let Some(outcome) = &self.outcome {
            push_item(&mut items, disabled_line(outcome.clone()));
        }
        push_item(&mut items, MenuItem::Separator);
        self.push_rows(&mut items);
        let mut actions = self.actions();
        let ghost before = items@;
        let ghost added = actions@;
        items.append(&mut actions);
        proof {
            assert(items@ == before + added);
            assert(menu_views(items@) == menu_views(before) + menu_views(added));
        }
        items
    }
}

/// What a Reconnect comes to. The port is looked at anew, since up to a refresh can pass between
/// the menu and the click.
pub fn reconnect(owner: PortOwner, result: &Result<Outcome, String>) -> (r: String)
    ensures
        !(owner is Ours) ==> r@ == "port is no longer ours"@,
        owner is Ours ==> match result {
            Ok(o) => r@ == reconnect_text(o.connected@.len(), texts(o.failed@)),
            Err(e) => r@ == "reconnect failed: "@ + e@,
        },
{
    if !matches!(owner, PortOwner::Ours(_)) {
        return "port is no longer ours".to_owned();
    }
    reconnect_outcome(result)
}

/// What a Take over comes to, from what it printed or why it failed. Without adb none is tried.
pub fn takeover(adb: Option<&str>, result: &Result<Vec<String>, String>) -> (r: String)
    ensures
        adb is None ==> r@ == "adb not found"@,
        adb is Some ==> match result {
            Ok(said) => r@ == join(texts(said@), " "@),
            Err(e) => r@ == e@,
        },
{
    match adb {
        None => "adb not found".to_owned(),
        Some(_) => match result {
            Ok(said) => join_strings(said.as_slice(), " "),
            Err(e) => e.clone(),
        },
    }
}

/// What wakes the loop behind the icon.
#[derive(Debug, Clone, Copy, PartialEq, Eq, Structural)]
pub enum LoopEvent {
    Asked(Action),
    /// Nothing was asked for until the next refresh.
    Timeout,
    /// The icon is gone.
    Disconnected,
}

/// What the loop does then.
#[derive(Debug, Clone, Copy, PartialEq, Eq, Structural)]
pub enum LoopStep {
    /// Take the icon off the panel, and end.
    Quit,
    /// Open the TUI, beside whatever is running.
    OpenTui,
    /// Run one adb action.
    Perform(Action),
    Refresh,
    /// End.
    Stop,
}

pub fn run(event: LoopEvent) -> (r: LoopStep)
    ensures
        r == (match event {
            LoopEvent::Asked(Action::Quit) => LoopStep::Quit,
            LoopEvent::Asked(Action::Pair) => LoopStep::OpenTui,
            LoopEvent::Asked(action) => LoopStep::Perform(action),
            LoopEvent::Timeout => LoopStep::Refresh,
            LoopEvent::Disconnected => LoopStep::Stop,
        }),
        r matches LoopStep::Perform(action) ==> action.is_guarded(),
{
    match event {
        LoopEvent::Asked(Action::Quit) => LoopStep::Quit,
        LoopEvent::Asked(Action::Pair) => LoopStep::OpenTui,
        LoopEvent::Asked(action) => LoopStep::Perform(action),
        LoopEvent::Timeout => LoopStep::Refresh,
        LoopEvent::Disconnected => LoopStep::Stop,
    }
}

// ---------------------------------------------------------------------------
// What holds of the tray
// ---------------------------------------------------------------------------

/// Refreshes leave a running action running and an unread outcome unread, however many of them
/// land.
pub proof fn a_refresh_keeps_the_action_and_the_outcome(t: TrayView, snapshots: Seq<Snapshot>)
    ensures
        all_applied(t, snapshots).busy == t.busy,
        all_applied(t, snapshots).outcome == t.outcome,
    decreases snapshots.len(),
{
    if snapshots.len() > 0 {
        a_refresh_keeps_the_action_and_the_outcome(t, snapshots.drop_last());
    }
}

/// The state after a run of refreshes.
pub open spec fn all_applied(t: TrayView, snapshots: Seq<Snapshot>) -> TrayView
    decreases snapshots.len(),
{
    if snapshots.len() == 0 {
        t
    } else {
        all_applied(t, snapshots.drop_last()).applied(snapshots.last())
    }
}

/// A device list that could not be read leaves the last known one in place.
pub proof fn an_unread_list_keeps_the_last_one(t: TrayView, s: Snapshot)
    requires
        s.devices is None,
    ensures
        t.applied(s).devices == t.devices,
{
}

/// While an action runs, no entry that would start another can be clicked. Pairing and quitting
/// can be clicked at all times.
pub proof fn a_busy_menu_starts_nothing(t: TrayView, i: int)
    requires
        0 <= i < t.menu().len(),
    ensures
        t.busy ==> (t.menu()[i] matches MenuView::Item { label, enabled, action: Some(action) }
            ==> !(enabled && action.is_guarded())),
        t.menu().contains(action_entry("Open wadb to pair…"@, true, Action::Pair)),
        t.menu().contains(action_entry("Quit"@, true, Action::Quit)),
{
    let top = t.menu_top();
    let rows = t.menu_rows();
    let acts = t.menu_actions();
    let n = (top.len() + rows.len()) as int;
    let m = t.menu();
    assert(m[n + 1] == acts[1]);
    assert(m[m.len() - 1] == acts[acts.len() - 1]);
    if i < top.len() {
        assert(m[i] == top[i]);
    } else if i < n {
        assert(m[i] == rows[i - top.len()]);
    } else {
        assert(m[i] == acts[i - n]);
    }
}

/// Reconnect can be clicked exactly while the port is the unit's own and nothing runs.
pub proof fn reconnect_needs_the_port(t: TrayView)
    ensures
        t.menu().contains(action_entry("Reconnect now"@, true, Action::Reconnect)) <==> t.owner
            is Ours && !t.busy,
{
    let top = t.menu_top();
    let rows = t.menu_rows();
    let acts = t.menu_actions();
    let n = (top.len() + rows.len()) as int;
    let m = t.menu();
    let entry = action_entry("Reconnect now"@, true, Action::Reconnect);
    assert(m[n + 2] == acts[2]);
    if m.contains(entry) {
        let i = choose|i: int| 0 <= i < m.len() && m[i] == entry;
        if i < top.len() {
            assert(m[i] == top[i]);
        } else if i < n {
            assert(m[i] == rows[i - top.len()]);
        } else {
            assert(m[i] == acts[i - n]);
        }
    }
}

/// An outcome is always one line that fits a menu: the only white space it holds is plain blanks,
/// so there is no line break and no tab in it.
pub proof fn an_outcome_fits_a_menu(text: Seq<char>)
    ensures
        outcome_text(text).len() <= OUTCOME_MAX + 1,
        only_blanks(outcome_text(text)),
        !outcome_text(text).contains('\n'),
        !outcome_text(text).contains('\t'),
{
    lemma_outcome_is_collapsed(text);
}

proof fn lemma_outcome_is_collapsed(text: Seq<char>)
    ensures
        is_collapsed(outcome_text(text)),
{
    let w = words(first_line(text));
    let collapsed = join(w, " "@);
    let out = outcome_text(text);
    lemma_words_have_no_space(first_line(text));
    lemma_joined_words(w);
    if collapsed.len() > OUTCOME_MAX {
        assert forall|i: int| 0 <= i < out.len() && is_space(#[trigger] out[i]) implies out[i]
            == ' ' by {
            if i < OUTCOME_MAX {
                assert(out[i] == collapsed[i]);
            }
        }
        assert(out[0] == collapsed[0]);
        assert forall|i: int| 0 <= i < out.len() - 1 && #[trigger] is_space(
            out[i],
        ) implies !is_space(out[i + 1]) by {
            assert(out[i] == collapsed[i]);
            if i + 1 < OUTCOME_MAX {
                assert(out[i + 1] == collapsed[i + 1]);
            }
        }
    }
}

/// Cutting an outcome down changes nothing the second time.
pub proof fn an_outcome_stays_as_it_is(text: Seq<char>)
    ensures
        outcome_text(outcome_text(text)) == outcome_text(text),
{
    let out = outcome_text(text);
    reveal_strlit("");
    an_outcome_fits_a_menu(text);
    lemma_outcome_is_collapsed(text);
    lemma_collapsed_words(out);
    let f = |l: Seq<char>|
        if trim(l).len() > 0 {
            Some(l)
        } else {
            None
        };
    if out.len() > 0 {
        assert forall|j: int| 0 <= j < out.len() implies !Class::Is('\n').has(
            #[trigger] out[j],
        ) by {
            assert(out.contains(out[j]));
        }
        lemma_scan_is(out, 0, Class::Is('\n'), out.len() as int);
        assert(lines(out) == seq![out]);
        lemma_trim_same(out);
        assert(f(lines(out)[0]) == Some(out));
        lemma_find_map(lines(out), f, 0);
        assert(first_line(out) == out);
        if out.len() > OUTCOME_MAX {
            assert(out.len() == OUTCOME_MAX + 1);
            assert(out.take(OUTCOME_MAX as int).push('…') == out);
        }
    } else {
        assert(lines(out) == Seq::<Seq<char>>::empty());
        assert(first_line(out) == out);
    }
}

} // verus!
