//! What the panel shows, and what its menu does.

use crate::adb::{devices as device_views, Device, DeviceView};
use crate::daemon::Outcome;
use crate::laws::lists::{is_pick, lemma_filter_picks, lemma_same_pick};
use crate::laws::ui::shortens;
use crate::num::decimal;
use crate::service::PortOwner;
use crate::text::{ends_with, join, lines, opt_text, starts_with, texts, trim, words};
use crate::themed_tray::{
    self, health, icon_name, open_tui, split_terminal, terminal_candidates, Health,
};
use crate::tray::{
    attached, device_label, first_line, header, label_text, menu_views, outcome_line, outcome_text,
    reconnect, reconnect_outcome, run, snapshot, takeover, tooltip, Action, LoopEvent, LoopStep,
    MenuItem, Snapshot, TrayView, WadbTray,
};
use crate::ui::devices::serial_head;
use crate::ui::{opt_devices, UnitState};
use vstd::prelude::*;

verus! {

// ---------------------------------------------------------------------------
// What is said
// ---------------------------------------------------------------------------

/// An outcome is the words of the first line that has any, with single blanks between them. It is
/// cut after 120 characters, with a mark where something is missing.
pub proof fn an_outcome_is_the_first_line(text: &str, r: String)
    requires
        call_ensures(outcome_line, (text,), r),
    ensures
        (forall|i: int| 0 <= i < lines(text@).len() ==> trim(#[trigger] lines(text@)[i]).len() == 0)
            ==> r@.len() == 0,
        forall|i: int|
            #![trigger lines(text@)[i]]
            0 <= i < lines(text@).len() && trim(lines(text@)[i]).len() > 0 && (forall|j: int|
                0 <= j < i ==> trim(#[trigger] lines(text@)[j]).len() == 0) ==> {
                let whole = join(words(lines(text@)[i]), " "@);
                &&& whole.len() <= 120 ==> r@ == whole
                &&& whole.len() > 120 ==> r@ == whole.take(120).push('…')
            },
{
    let ls = lines(text@);
    let f = |l: Seq<char>|
        if trim(l).len() > 0 {
            Some(l)
        } else {
            None
        };
    reveal_strlit("");
    if forall|i: int| 0 <= i < ls.len() ==> trim(#[trigger] ls[i]).len() == 0 {
        crate::text::lemma_find_map(ls, f, ls.len() as int);
        assert(first_line(text@) == ""@);
        assert(words(""@) == Seq::<Seq<char>>::empty());
        assert(outcome_text(text@).len() == 0);
    }
    assert forall|i: int|
        #![trigger ls[i]]
        0 <= i < ls.len() && trim(ls[i]).len() > 0 && (forall|j: int|
            0 <= j < i ==> trim(#[trigger] ls[j]).len() == 0) implies {
        let whole = join(words(ls[i]), " "@);
        &&& whole.len() <= 120 ==> r@ == whole
        &&& whole.len() > 120 ==> r@ == whole.take(120).push('…')
    } by {
        assert forall|j: int| 0 <= j < i implies f(#[trigger] ls[j]) is None by {}
        crate::text::lemma_find_map(ls, f, i);
        assert(first_line(text@) == ls[i]);
    }
}

/// A device is named by its model, where it is known, and its serial without what every mDNS serial
/// ends with; and by its state, where that is not the usual one.
pub proof fn a_device_is_named(d: &Device, r: String) -> (short: Seq<char>)
    requires
        call_ensures(device_label, (d,), r),
    ensures
        shortens(d.serial@, short),
        ({
            let name = match d.model {
                Some(m) => m@ + "   "@ + short,
                None => short,
            };
            &&& d.state@ == "device"@ ==> r@ == name
            &&& d.state@ != "device"@ ==> r@ == name + "  ("@ + d.state@ + ")"@
        }),
{
    let p = "._adb-tls-connect._tcp"@;
    let serial = d.serial@;
    if ends_with(serial, p) {
        let n = serial.len() - p.len();
        assert(serial.subrange(n, n + p.len()) == p);
        assert(serial =~= serial.take(n) + p);
    }
    serial_head(d.serial@)
}

/// What a pass has come to, in a few words: how many devices were reconnected and how many were
/// not. That there was nothing to do is said only where there was nothing.
pub proof fn what_a_reconnect_says(o: Outcome, r: String, failed: String, why: String)
    requires
        call_ensures(reconnect_outcome, (&Ok(o),), r),
        call_ensures(reconnect_outcome, (&Err(why),), failed),
    ensures
        ({
            let c = o.connected@.len();
            let f = o.failed@.len();
            &&& r@ == "nothing to reconnect"@ <==> c == 0 && f == 0
            &&& c == 1 && f == 0 ==> r@ == "reconnected "@ + decimal(c) + " device"@
            &&& c > 1 && f == 0 ==> r@ == "reconnected "@ + decimal(c) + " devices"@
            &&& c == 0 && f > 0 ==> starts_with(
                r@,
                "could not connect "@ + decimal(f) + " device"@,
            ) && ends_with(r@, ": "@ + o.failed@[0]@)
            &&& c > 0 && f > 0 ==> r@ == "reconnected "@ + decimal(c) + ", could not connect "@
                + decimal(f)
        }),
        failed@ == "reconnect failed: "@ + why@,
{
    reveal_strlit("");
    reveal_strlit("s");
    reveal_strlit(" device");
    reveal_strlit(" devices");
    reveal_strlit("nothing to reconnect");
    reveal_strlit("reconnected ");
    reveal_strlit("could not connect ");
    let c = o.connected@.len();
    let f = o.failed@.len();
    assert(texts(o.failed@).len() == f);
    assert(" device"@ + "s"@ =~= " devices"@);
    if f == 0 && c > 0 {
        assert(r@[0] == 'r');
        let d = "reconnected "@ + decimal(c);
        if c == 1 {
            assert(d + " device"@ + ""@ =~= d + " device"@);
        } else {
            assert(d + " device"@ + "s"@ =~= d + " devices"@);
        }
    }
    if f > 0 && c > 0 {
        assert(r@[0] == 'r');
    }
    if c == 0 && f > 0 {
        assert(r@[0] == 'c');
        let head = "could not connect "@ + decimal(f) + " device"@;
        assert(r@.subrange(0, head.len() as int) =~= head);
        let tail = ": "@ + o.failed@[0]@;
        assert(texts(o.failed@)[0] == o.failed@[0]@);
        let n = r@.len() - tail.len();
        assert(r@.subrange(n, n + tail.len()) =~= tail);
    }
}

/// Neither a reconnect nor a takeover is reported where it was not tried.
pub proof fn what_an_action_comes_to(
    owner: PortOwner,
    result: &Result<Outcome, String>,
    r: String,
    said: String,
    adb: Option<&str>,
    lines: &Result<Vec<String>, String>,
    t: String,
)
    requires
        call_ensures(reconnect, (owner, result), r),
        call_ensures(reconnect_outcome, (result,), said),
        call_ensures(takeover, (adb, lines), t),
    ensures
        owner is Ours ==> r@ == said@,
        !(owner is Ours) ==> r@ == "port is no longer ours"@,
        adb is None ==> t@ == "adb not found"@,
        adb is Some && lines is Ok ==> t@ == join(texts(lines->Ok_0@), " "@),
        adb is Some && lines is Err ==> t@ == lines->Err_0@,
{
}

// ---------------------------------------------------------------------------
// The state behind the icon
// ---------------------------------------------------------------------------

/// What is read for the panel: the wireless devices of a server that is up, all of them and in
/// order; none where it is down; and before an install nothing at all. A list that could not be
/// read is not taken for an empty one.
pub proof fn what_is_read_for_the_panel(
    port: u16,
    adb: Option<String>,
    unit: UnitState,
    owner: PortOwner,
    up: bool,
    list: Option<Vec<Device>>,
    r: Snapshot,
)
    requires
        call_ensures(snapshot, (port, adb, unit, owner, up, list), r),
    ensures
        r.port == port && r.adb == adb && r.unit == unit,
        unit is NotInstalled ==> r.owner is Nobody,
        !(unit is NotInstalled) ==> r.owner == owner,
        unit is NotInstalled || !up ==> (r.devices matches Some(d) && d@.len() == 0),
        !(unit is NotInstalled) && up ==> {
            &&& r.devices is None <==> list is None
            &&& list matches Some(all) ==> is_pick(
                device_views(all@),
                |d: DeviceView| d.transport is Tcp || d.transport is Mdns,
                device_views(r.devices->0@),
            )
        },
{
    if unit is NotInstalled || !up {
        assert(opt_devices(r.devices) is Some);
        assert(device_views(r.devices->0@).len() == 0);
    } else if let Some(all) = list {
        let keep = |d: DeviceView| d.transport.wireless();
        let v = device_views(all@);
        lemma_filter_picks(v, keep);
        lemma_same_pick(
            v,
            keep,
            |d: DeviceView| d.transport is Tcp || d.transport is Mdns,
            v.filter(keep),
        );
    }
}

/// What was read is shown, and nothing else is changed by it: neither that an action is running nor
/// what the last one came to. Where the list could not be read, the last one stays.
pub proof fn what_a_refresh_changes(tray: &mut WadbTray, s: Snapshot)
    requires
        call_ensures(WadbTray::apply, (tray, s), ()),
    ensures
        final(tray)@.port == s.port,
        final(tray)@.adb == opt_text(s.adb),
        final(tray)@.unit == s.unit,
        final(tray)@.owner == s.owner,
        s.devices matches Some(d) ==> final(tray)@.devices == device_views(d@),
        s.devices is None ==> final(tray)@.devices == old(tray)@.devices,
        final(tray)@.busy == old(tray)@.busy,
        final(tray)@.outcome == old(tray)@.outcome,
{
}

/// An action that is over leaves what it came to and what was read then, and others may begin. One
/// that broke off leaves what was known.
pub proof fn what_an_action_leaves(
    tray: &mut WadbTray,
    done: Result<(Snapshot, String), String>,
    text: &str,
    line: String,
)
    requires
        call_ensures(WadbTray::perform, (tray, done), ()),
        text@ == (match done {
            Ok((_, said)) => said@,
            Err(why) => "action failed: "@ + why@,
        }),
        call_ensures(outcome_line, (text,), line),
    ensures
        !final(tray)@.busy,
        final(tray)@.outcome == Some(line@),
        done matches Ok((s, _)) ==> final(tray)@.owner == s.owner && final(tray)@.unit == s.unit
            && final(tray)@.port == s.port,
        done matches Ok((s, _)) ==> s.devices is None ==> final(tray)@.devices
            == old(tray)@.devices,
        done matches Ok((s, _)) ==> s.devices is Some ==> final(tray)@.devices == device_views(
            s.devices->0@,
        ),
        done is Err ==> final(tray)@.owner == old(tray)@.owner && final(tray)@.unit
            == old(tray)@.unit && final(tray)@.devices == old(tray)@.devices && final(tray)@.port
            == old(tray)@.port,
{
}

/// While an action runs no other of its kind is begun; opening the terminal and quitting are always
/// allowed.
pub proof fn what_is_admitted(tray: &WadbTray, action: Action, r: bool)
    requires
        call_ensures(WadbTray::admits, (tray, action), r),
    ensures
        r <==> !(tray.busy && (action is Reconnect || action is Takeover)),
{
}

/// An action makes the panel busy only where it was taken up, and only a reconnect or a takeover
/// does.
pub proof fn what_makes_it_busy(tray: &mut WadbTray, action: Action, taken: bool)
    requires
        call_ensures(WadbTray::handed_over, (tray, action, taken), ()),
    ensures
        final(tray)@.busy <==> old(tray)@.busy || (taken && (action is Reconnect || action
            is Takeover)),
        final(tray)@.outcome == old(tray)@.outcome,
        final(tray)@.devices == old(tray)@.devices,
        final(tray)@.owner == old(tray)@.owner,
        final(tray)@.unit == old(tray)@.unit,
{
}

/// What is asked for is done, and nothing else: an action is performed, the terminal is opened,
/// quitting ends it, and while nothing is asked for it refreshes.
pub proof fn what_is_done_next(event: LoopEvent, r: LoopStep)
    requires
        call_ensures(run, (event,), r),
    ensures
        r is Quit <==> event == LoopEvent::Asked(Action::Quit),
        r is OpenTui <==> event == LoopEvent::Asked(Action::Pair),
        r is Refresh <==> event is Timeout,
        r is Stop <==> event is Disconnected,
        event == LoopEvent::Asked(Action::Reconnect) ==> r == LoopStep::Perform(Action::Reconnect),
        event == LoopEvent::Asked(Action::Takeover) ==> r == LoopStep::Perform(Action::Takeover),
{
}

// ---------------------------------------------------------------------------
// The menu
// ---------------------------------------------------------------------------

/// What an entry of a menu says, whether it can be clicked, and what it then asks for.
pub open spec fn entry(
    m: MenuItem,
    label: Seq<char>,
    enabled: bool,
    action: Option<Action>,
) -> bool {
    m matches MenuItem::Item { label: l, enabled: e, action: a } && l@ == label && e == enabled && a
        == action
}

/// The menu, from top to bottom: how things stand, what the last action came to, every device in
/// order, and then the actions. To pair and to quit can always be clicked; to reconnect only while
/// the port is the unit's own and nothing runs; to take over only where somebody else holds the
/// port of an installed unit, adb is known, and nothing runs.
pub proof fn what_the_menu_holds(tray: &WadbTray, r: Vec<MenuItem>, head: String)
    requires
        call_ensures(WadbTray::menu, (tray,), r),
        call_ensures(WadbTray::header, (tray,), head),
    ensures
        ({
            let a: int = if tray.outcome is Some { 2 } else { 1 };
            let n: int = if tray.devices@.len() == 0 { 1 } else { tray.devices@.len() as int };
            let b = a + 1 + n;
            let offered = (tray.owner is Foreign || tray.owner is HeldUnknown) && !(tray.unit
                is NotInstalled);
            let c: int = if offered { b + 4 } else { b + 3 };
            &&& r@.len() == c + 2
            &&& entry(r@[0], head@, false, None)
            &&& tray.outcome matches Some(o) ==> entry(r@[1], o@, false, None)
            &&& r@[a] is Separator
            &&& tray.devices@.len() == 0 ==> entry(r@[a + 1], "No wireless devices"@, false, None)
            &&& forall|i: int|
                0 <= i < tray.devices@.len() ==> entry(
                    #[trigger] r@[a + 1 + i],
                    label_text(tray.devices@[i]@),
                    false,
                    None,
                )
            &&& r@[b] is Separator
            &&& entry(r@[b + 1], "Open wadb to pair…"@, true, Some(Action::Pair))
            &&& entry(
                r@[b + 2],
                "Reconnect now"@,
                tray.owner is Ours && !tray.busy,
                Some(Action::Reconnect),
            )
            &&& offered && tray.adb is Some ==> entry(
                r@[b + 3],
                "Take over the port"@,
                !tray.busy,
                Some(Action::Takeover),
            )
            &&& offered && tray.adb is None ==> entry(
                r@[b + 3],
                "Take over the port (adb not found)"@,
                false,
                Some(Action::Takeover),
            )
            &&& r@[c] is Separator
            &&& entry(r@[c + 1], "Quit"@, true, Some(Action::Quit))
        }),
{
    let a: int = if tray.outcome is Some { 2 } else { 1 };
    let n: int = if tray.devices@.len() == 0 { 1 } else { tray.devices@.len() as int };
    let b = a + 1 + n;
    let v = tray@;
    let top = v.menu_top();
    let rows = v.menu_rows();
    let acts = v.menu_actions();
    let m = menu_views(r@);
    assert(m == top + rows + acts);
    assert(m.len() == r@.len());
    assert(top.len() == a + 1);
    assert(v.devices.len() == tray.devices@.len());
    assert(rows.len() == n);
    assert forall|k: int| 0 <= k < r@.len() implies #[trigger] m[k] == r@[k]@ by {}
    assert(m[0] == top[0]);
    assert(m[1] == top[1]);
    assert(m[a] == top[a]);
    assert(m[a + 1] == rows[0]);
    assert forall|i: int| 0 <= i < tray.devices@.len() implies entry(
        #[trigger] r@[a + 1 + i],
        label_text(tray.devices@[i]@),
        false,
        None,
    ) by {
        assert(m[a + 1 + i] == rows[i]);
        assert(v.devices[i] == tray.devices@[i]@);
        assert(m[a + 1 + i] == r@[a + 1 + i]@);
    }
    assert(m[b] == acts[0]);
    assert(m[b + 1] == acts[1]);
    assert(m[b + 2] == acts[2]);
    assert(m[b + 3] == acts[3]);
    assert(m[b + 4] == acts[4]);
    if acts.len() > 5 {
        assert(m[b + 5] == acts[5]);
    }
}

/// A device's row in the menu is its name.
pub proof fn a_row_is_a_devices_name(d: &Device, r: String)
    requires
        call_ensures(device_label, (d,), r),
    ensures
        label_text(d@) == r@,
{
}

/// The icon shows an attached phone exactly where some wireless device is usable.
pub proof fn a_usable_device_is_an_attached_phone(all: &[Device], r: bool)
    requires
        call_ensures(attached, (all,), r),
    ensures
        r <==> exists|i: int|
            0 <= i < all@.len() && ((#[trigger] all@[i]).transport is Tcp || all@[i].transport
                is Mdns) && all@[i].state@ == "device"@,
{
    let v = device_views(all@);
    if r {
        let i = choose|i: int| 0 <= i < v.len() && crate::tray::is_usable(#[trigger] v[i]);
        assert(v[i] == all@[i]@);
        assert(all@[i].state@ == "device"@);
    }
    if exists|i: int|
        0 <= i < all@.len() && ((#[trigger] all@[i]).transport is Tcp || all@[i].transport is Mdns)
            && all@[i].state@ == "device"@ {
        let i = choose|i: int|
            0 <= i < all@.len() && ((#[trigger] all@[i]).transport is Tcp || all@[i].transport
                is Mdns) && all@[i].state@ == "device"@;
        assert(v[i] == all@[i]@);
        assert(crate::tray::is_usable(v[i]));
    }
}

/// The headline says that all is well exactly where it is: the unit is active and the port its own.
/// Each other state has its own, and one that names a port names the right one.
pub proof fn what_the_headline_says(unit: UnitState, owner: PortOwner, port: u16, r: String)
    requires
        call_ensures(header, (&unit, &owner, port), r),
    ensures
        r@ == "Supervised"@ <==> unit is Active && owner is Ours,
        r@ == "wadb is not installed"@ <==> unit is NotInstalled,
        unit is Inactive && owner is Ours ==> r@ == "Unit inactive, port ours"@,
        !(unit is NotInstalled) && owner is Foreign ==> r@ == "Port "@ + decimal(port as nat)
            + " held by another adb"@,
        !(unit is NotInstalled) && owner is HeldUnknown ==> r@ == "Port "@ + decimal(port as nat)
            + " held, owner unknown"@,
        !(unit is NotInstalled) && owner is Nobody ==> starts_with(r@, "adb server down"@),
{
    reveal_strlit("Supervised");
    reveal_strlit("wadb is not installed");
    reveal_strlit("Unit inactive, port ours");
    reveal_strlit("Port ");
    reveal_strlit("adb server down");
    reveal_strlit("adb server down (unit active, nothing listening)");
    reveal_strlit("adb server down (unit inactive)");
    let p = "adb server down"@;
    assert("Supervised"@[0] == 'S' && "wadb is not installed"@[0] == 'w');
    assert("Unit inactive, port ours"@[0] == 'U');
    if !(unit is NotInstalled) && owner is Nobody {
        assert(r@.subrange(0, p.len() as int) =~= p);
        assert(r@[0] == 'a');
    }
    if !(unit is NotInstalled) && (owner is Foreign || owner is HeldUnknown) {
        assert(r@[0] == 'P');
    }
}

/// A tooltip is the headline, how many wireless devices there are, and what the last action came
/// to.
pub proof fn what_a_tooltip_says(head: &str, all: &[Device], outcome: Option<&str>, r: String)
    requires
        call_ensures(tooltip, (head, all, outcome), r),
    ensures
        ({
            let n = all@.len();
            let count = if n == 0 {
                "no wireless devices"@
            } else if n == 1 {
                "1 wireless device"@
            } else {
                decimal(n) + " wireless devices"@
            };
            let text = head@.push('\n') + count;
            &&& outcome is None ==> r@ == text
            &&& outcome matches Some(o) ==> r@ == text.push('\n') + o@
        }),
{
    reveal_strlit("\n");
    let n = all@.len();
    let count = crate::tray::device_count_text(n);
    assert(head@ + "\n"@ + count =~= head@.push('\n') + count);
    if let Some(o) = outcome {
        assert(head@ + "\n"@ + count + "\n"@ + o@ =~= (head@.push('\n') + count).push('\n') + o@);
    }
}

/// While an action runs, the headline says so.
pub proof fn a_busy_panel_says_so(tray: &WadbTray, r: String, calm: String)
    requires
        call_ensures(WadbTray::header, (tray,), r),
        call_ensures(header, (&tray.unit, &tray.owner, tray.port), calm),
    ensures
        tray.busy ==> r@ == "working…"@,
        !tray.busy ==> r@ == calm@,
{
}

/// Opening a terminal is spoken of only where there is something to say, and changes nothing else.
pub proof fn what_opening_a_terminal_leaves(
    tray: &mut WadbTray,
    note: Option<String>,
    text: &str,
    line: String,
)
    requires
        call_ensures(WadbTray::finish_pair, (tray, note), ()),
        note matches Some(n) ==> text@ == n@,
        call_ensures(outcome_line, (text,), line),
    ensures
        note is None ==> final(tray)@ == old(tray)@,
        note is Some ==> final(tray)@ == (TrayView { outcome: Some(line@), ..old(tray)@ }),
{
}

// ---------------------------------------------------------------------------
// The icon of the theme
// ---------------------------------------------------------------------------

/// A server is supervised where the unit is active and the port its own; it is down where there is
/// no server or no unit; and anything else is in between.
pub proof fn how_healthy_it_is(unit: UnitState, owner: PortOwner, r: Health)
    requires
        call_ensures(health, (&unit, &owner), r),
    ensures
        r is Supervised <==> unit is Active && owner is Ours,
        r is Down <==> unit is NotInstalled || owner is Nobody,
        r is Degraded <==> !(unit is Active && owner is Ours) && !(unit is NotInstalled) && !(owner
            is Nobody),
{
}

/// An attached phone has an icon of its own, and without one each state has.
pub proof fn each_state_has_an_icon(
    h: Health,
    g: Health,
    a: bool,
    b: bool,
    r: &str,
    s: &str,
)
    requires
        call_ensures(icon_name, (h, a), r),
        call_ensures(icon_name, (g, b), s),
    ensures
        r@ == s@ <==> (a && b) || (!a && !b && h == g),
        a ==> r@ == "network-wireless-signal-excellent-symbolic"@,
        !a && h is Down ==> r@ == "network-wireless-offline-symbolic"@,
{
    reveal_strlit("network-wireless-signal-excellent-symbolic");
    reveal_strlit("network-wireless-signal-none-symbolic");
    reveal_strlit("network-wireless-acquiring-symbolic");
    reveal_strlit("network-wireless-offline-symbolic");
    assert("network-wireless-signal-excellent-symbolic"@.len() == 42);
    assert("network-wireless-signal-none-symbolic"@.len() == 37);
    assert("network-wireless-acquiring-symbolic"@.len() == 35);
    assert("network-wireless-offline-symbolic"@.len() == 33);
}

/// A terminal that is named with arguments is split into its words: the program and all the others.
pub proof fn a_named_terminal_is_split(spec: &str, r: Option<(String, Vec<String>)>)
    requires
        call_ensures(split_terminal, (spec,), r),
    ensures
        r is None <==> words(spec@).len() == 0,
        r matches Some((program, args)) ==> words(spec@) == seq![program@] + texts(args@),
{
    let w = words(spec@);
    if w.len() > 0 {
        assert(w =~= seq![w[0]] + w.skip(1));
    }
}

/// The terminal that is named comes first, as it is; after it come three that are common.
pub proof fn which_terminals_are_tried(
    terminal: Option<&str>,
    spec: &str,
    named: Option<(String, Vec<String>)>,
    r: Vec<(String, Vec<String>)>,
)
    requires
        call_ensures(terminal_candidates, (terminal,), r),
        terminal matches Some(t) ==> spec@ == t@,
        call_ensures(split_terminal, (spec,), named),
    ensures
        ({
            let n: int = if terminal is Some && named is Some { 1 } else { 0 };
            &&& r@.len() == n + 3
            &&& terminal is Some ==> (named matches Some((program, args)) ==> r@[0].0@ == program@
                && texts(r@[0].1@) == texts(args@))
            &&& r@[n].0@ == "x-terminal-emulator"@ && r@[n].1@.len() == 0
            &&& r@[n + 1].0@ == "kitty"@ && r@[n + 1].1@.len() == 0
            &&& r@[n + 2].0@ == "xterm"@ && r@[n + 2].1@.len() == 0
        }),
{
    let n: int = if terminal is Some && named is Some { 1 } else { 0 };
    let v = crate::themed_tray::invocations(r@);
    assert(v.len() == r@.len());
    assert(v[n] == (r@[n].0@, texts(r@[n].1@)));
    assert(v[n + 1] == (r@[n + 1].0@, texts(r@[n + 1].1@)));
    assert(v[n + 2] == (r@[n + 2].0@, texts(r@[n + 2].1@)));
    assert(texts(r@[n].1@).len() == r@[n].1@.len());
    assert(texts(r@[n + 1].1@).len() == r@[n + 1].1@.len());
    assert(texts(r@[n + 2].1@).len() == r@[n + 2].1@.len());
    if n == 1 {
        assert(v[0] == (r@[0].0@, texts(r@[0].1@)));
    }
}

/// The terminal is told what to run after everything the user wrote.
pub proof fn what_a_terminal_is_told(args: &[String], exe: &str, r: Vec<String>)
    requires
        call_ensures(open_tui, (args, exe), r),
    ensures
        r@.len() == args@.len() + 2,
        forall|i: int| 0 <= i < args@.len() ==> (#[trigger] r@[i])@ == args@[i]@,
        r@[args@.len() as int]@ == "-e"@,
        r@[args@.len() as int + 1]@ == exe@,
{
    let n = args@.len() as int;
    assert(texts(r@).len() == r@.len());
    assert(texts(args@).len() == args@.len());
    assert forall|i: int| 0 <= i < args@.len() implies (#[trigger] r@[i])@ == args@[i]@ by {
        assert(texts(r@)[i] == r@[i]@);
        assert(texts(args@)[i] == args@[i]@);
    }
    assert(texts(r@)[n] == r@[n]@);
    assert(texts(r@)[n + 1] == r@[n + 1]@);
}

/// The themed panel says of a reconnect how many devices came back, and of every one that did not,
/// why.
pub proof fn what_the_themed_panel_says(o: Outcome, r: String)
    requires
        call_ensures(themed_tray::reconnect, (PortOwner::Ours(0), &Ok(o)), r),
    ensures
        ({
            let c = o.connected@.len();
            let f = o.failed@.len();
            &&& c == 0 && f == 0 ==> r@ == "nothing to reconnect"@
            &&& c == 1 && f == 0 ==> r@ == "reconnected "@ + decimal(c) + " device"@
            &&& c > 1 && f == 0 ==> r@ == "reconnected "@ + decimal(c) + " devices"@
            &&& f > 0 ==> r@ == "reconnected "@ + decimal(c) + ", "@ + decimal(f) + " failed: "@
                + join(texts(o.failed@), "; "@)
        }),
{
    reveal_strlit("");
    reveal_strlit("s");
    reveal_strlit(" device");
    reveal_strlit(" devices");
    let c = o.connected@.len();
    let d = "reconnected "@ + decimal(c);
    assert(texts(o.failed@).len() == o.failed@.len());
    assert(d + " device"@ + ""@ =~= d + " device"@);
    assert(d + " device"@ + "s"@ =~= d + " devices"@);
}

/// Both panels have one menu.
pub proof fn both_panels_have_one_menu(
    tray: &themed_tray::WadbTray,
    r: Vec<MenuItem>,
    s: Vec<MenuItem>,
)
    requires
        call_ensures(themed_tray::WadbTray::menu, (tray,), r),
        call_ensures(WadbTray::menu, (&tray.state,), s),
    ensures
        menu_views(r@) == menu_views(s@),
{
}

/// The tooltip says what the headline and the devices are, under the name of the program, and shows
/// the same icon as the panel.
pub proof fn the_tooltip_and_the_icon_agree(
    tray: &WadbTray,
    tip: crate::tray::ToolTip,
    head: String,
    line: &str,
    all: &[Device],
    outcome: Option<&str>,
    text: String,
    icons: Vec<crate::tray::icon::Icon>,
    usable: bool,
    drawn: Vec<crate::tray::icon::Icon>,
)
    requires
        call_ensures(WadbTray::tool_tip, (tray,), tip),
        call_ensures(WadbTray::header, (tray,), head),
        line@ == head@,
        all@ == tray.devices@,
        outcome is Some <==> tray.outcome is Some,
        outcome matches Some(o) ==> o@ == tray.outcome->0@,
        call_ensures(tooltip, (line, all, outcome), text),
        call_ensures(WadbTray::icon_pixmap, (tray,), icons),
        call_ensures(attached, (all,), usable),
        call_ensures(crate::tray::icon::pixmaps, (usable,), drawn),
    ensures
        tip.title@ == "wadb"@,
        tip.description@ == text@,
        icons@.len() == drawn@.len(),
        forall|i: int|
            0 <= i < icons@.len() ==> (#[trigger] icons@[i]).data@ == drawn@[i].data@
                && icons@[i].width == drawn@[i].width,
        tip.icon_pixmap@.len() == drawn@.len(),
        forall|i: int|
            0 <= i < drawn@.len() ==> (#[trigger] tip.icon_pixmap@[i]).data@ == drawn@[i].data@,
{
    assert(device_views(all@) == tray@.devices);
    assert(tray@.devices.len() == all@.len());
}

/// A new panel knows of nothing.
pub proof fn what_a_panel_begins_with(r: WadbTray)
    requires
        call_ensures(WadbTray::new, (), r),
    ensures
        r.unit is NotInstalled && r.owner is Nobody && r.devices@.len() == 0 && r.outcome is None
            && !r.busy && r.port == 5037,
{
    assert(device_views(r.devices@).len() == r.devices@.len());
}

/// A refresh that failed is said, and what was known stays.
pub proof fn what_a_failed_refresh_leaves(tray: &mut WadbTray, why: &str, text: &str, line: String)
    requires
        call_ensures(WadbTray::refresh_failed, (tray, why), ()),
        text@ == "refresh failed: "@ + why@,
        call_ensures(outcome_line, (text,), line),
    ensures
        final(tray)@ == (TrayView { outcome: Some(line@), ..old(tray)@ }),
{
}

/// A takeover is offered where somebody else holds the port of an installed unit.
pub proof fn when_a_takeover_is_offered(tray: &WadbTray, r: bool)
    requires
        call_ensures(WadbTray::takeover_offered, (tray,), r),
    ensures
        r <==> (tray.owner is Foreign || tray.owner is HeldUnknown) && !(tray.unit is NotInstalled),
{
}

/// The themed panel has the same state behind it, and its icon is the one of that state.
pub proof fn the_themed_icon_is_of_the_state(
    tray: &themed_tray::WadbTray,
    h: Health,
    a: bool,
    name: &str,
    r: &str,
)
    requires
        call_ensures(themed_tray::WadbTray::health, (tray,), h),
        call_ensures(themed_tray::WadbTray::attached, (tray,), a),
        call_ensures(icon_name, (h, a), name),
        call_ensures(themed_tray::WadbTray::icon_name, (tray,), r),
    ensures
        r@ == name@,
        h is Supervised <==> tray.state.unit is Active && tray.state.owner is Ours,
{
}

/// A reconnect and a takeover are not begun while another runs: nothing is handed over then.
/// Otherwise the action is handed over, and the panel is busy where it was taken up.
pub proof fn what_a_click_does<F: Fn(Action) -> bool>(tray: &mut WadbTray, action: Action, send: F, takes: bool)
    requires
        call_requires(send, (action,)),
        forall|t: bool| #[trigger] call_ensures(send, (action,), t) ==> t == takes,
        call_ensures(WadbTray::request, (tray, action, send), ()),
    ensures
        ({
            let guarded = action is Reconnect || action is Takeover;
            let a = old(tray)@;
            let b = final(tray)@;
            &&& guarded && a.busy ==> b == a
            &&& b.busy <==> a.busy || (takes && guarded)
            &&& b.outcome == a.outcome && b.devices == a.devices && b.owner == a.owner && b.unit
                == a.unit && b.port == a.port && b.adb == a.adb
        }),
{
}

/// Only a reconnect and a takeover are guarded.
pub proof fn what_is_guarded(action: Action, r: bool)
    requires
        call_ensures(Action::guarded, (action,), r),
    ensures
        r <==> action is Reconnect || action is Takeover,
{
}

/// What is read for the themed panel is shown as it is.
pub proof fn what_a_themed_refresh_changes(
    tray: &mut themed_tray::WadbTray,
    s: Snapshot,
)
    requires
        call_ensures(themed_tray::WadbTray::apply, (tray, s), ()),
    ensures
        final(tray)@.owner == s.owner && final(tray)@.unit == s.unit && final(tray)@.port == s.port,
        s.devices matches Some(d) ==> final(tray)@.devices == device_views(d@),
        s.devices is None ==> final(tray)@.devices == old(tray)@.devices,
        final(tray)@.busy == old(tray)@.busy,
        final(tray)@.outcome == old(tray)@.outcome,
{
}

/// What is asked of the themed panel: everything but to pair, which it cannot do.
pub proof fn what_the_themed_panel_can_do(action: Action, r: Option<themed_tray::Action>)
    requires
        call_ensures(themed_tray::asked, (action,), r),
    ensures
        r is None <==> action is Pair,
        action is Reconnect ==> r == Some(themed_tray::Action::Reconnect),
        action is Takeover ==> r == Some(themed_tray::Action::Takeover),
        action is Quit ==> r == Some(themed_tray::Action::Quit),
{
}

/// The panel is brought up to date every five seconds, and a window is given time to settle that is
/// looked at many times over.
pub proof fn the_times_of_the_panel_fit_together()
    ensures
        crate::tray::REFRESH == 5_000_000_000,
        crate::tray::terminal::SETTLE == 400,
        0 < crate::tray::terminal::POLL < crate::tray::terminal::SETTLE,
        crate::tray::terminal::POLL == 20,
{
}

/// The themed panel has the same tooltip.
pub proof fn both_panels_have_one_tooltip(
    unit: UnitState,
    owner: PortOwner,
    port: u16,
    all: &[Device],
    outcome: Option<&str>,
    head: String,
    line: &str,
    r: String,
    s: String,
)
    requires
        call_ensures(header, (&unit, &owner, port), head),
        line@ == head@,
        call_ensures(tooltip, (line, all, outcome), r),
        call_ensures(themed_tray::tooltip, (&unit, &owner, port, all, outcome), s),
    ensures
        s@ == r@,
{
}

} // verus!
