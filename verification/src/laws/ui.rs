//! What is on the screen, and what a key does.

use crate::adb::{devices as device_views, Device, DeviceView, Transport};
use crate::laws::lists::{is_pick, lemma_filter_picks, lemma_same_pick};
use crate::num::decimal;
use crate::pairing::Payload;
use crate::qr::{encode, frame, glyph, the_quiet_zone_is_blank, Matrix, QrError, Symbol};
use crate::screen::{line_views, spans, Color, Line, Style};
use crate::service::PortOwner;
use crate::text::{ends_with, opt_text, starts_with, texts};
use crate::ui::devices::{
    device_cells, how, render as render_devices, serial_head, short_serial, state_glyph,
    state_style, DevicesPane,
};
use crate::ui::pair::{
    min_size, pair_lines, render as render_pair, status_lines, PairView, Phase, PhaseView,
};
use crate::ui::{
    current_unit_state, footer_line, handle_key, journal_pane, offered_keys, refresh_due, render,
    render_footer, render_header, render_logs, worker_report, App, AppView, Key, KeyAction, PairEvent,
    Screen, UnitState,
};
use vstd::prelude::*;

verus! {

/// What a line says in one of its spans.
pub open spec fn said(l: Line, k: int) -> Seq<char> {
    l.spans@[k].text@
}

pub proof fn lemma_said(l: Line, k: int)
    requires
        0 <= k < l.spans@.len(),
    ensures
        l@.len() == l.spans@.len(),
        l@[k].text == said(l, k),
        l@[k].style == l.spans@[k].style,
{
}

// ---------------------------------------------------------------------------
// The devices
// ---------------------------------------------------------------------------

/// The word for how a device is attached.
pub open spec fn names_how(t: Transport, word: Seq<char>) -> bool {
    &&& t is Mdns ==> word == "mdns"@
    &&& t is Tcp ==> word == "tcp"@
    &&& t is Emulator ==> word == "emu"@
    &&& t is Usb ==> word == "usb"@
}

/// A serial without what every mDNS serial ends with.
pub open spec fn shortens(serial: Seq<char>, short: Seq<char>) -> bool {
    &&& ends_with(serial, "._adb-tls-connect._tcp"@) ==> serial == short + "._adb-tls-connect._tcp"@
    &&& !ends_with(serial, "._adb-tls-connect._tcp"@) ==> short == serial
}

proof fn lemma_shortens(serial: Seq<char>)
    ensures
        shortens(serial, serial_head(serial)),
{
    let p = "._adb-tls-connect._tcp"@;
    if ends_with(serial, p) {
        let n = serial.len() - p.len();
        assert(serial.subrange(n, n + p.len()) == p);
        assert(serial =~= serial.take(n) + p);
    }
}

/// Where there are devices, each has a row of its own, in the same order, with its model, its
/// serial without what every mDNS serial ends with, its state, and how it is attached. Without any,
/// there is no table.
pub proof fn every_device_has_a_row(all: &[Device], server_up: bool, r: DevicesPane)
    requires
        call_ensures(render_devices, (all, server_up), r),
    ensures
        r is Message <==> all@.len() == 0,
        r matches DevicesPane::Table(rows) ==> {
            &&& rows@.len() == all@.len()
            &&& forall|i: int|
                0 <= i < all@.len() ==> {
                    let row = #[trigger] rows@[i];
                    let d = all@[i];
                    &&& row.spans@.len() == 5
                    &&& said(row, 1) == (match d.model {
                        Some(m) => m@,
                        None => "-"@,
                    })
                    &&& shortens(d.serial@, said(row, 2))
                    &&& said(row, 3) == d.state@
                    &&& names_how(d.transport, said(row, 4))
                }
        },
{
    assert(device_views(all@).len() == all@.len());
    if let DevicesPane::Table(rows) = r {
        let cells = device_views(all@).map_values(|d: DeviceView| device_cells(d));
        assert(line_views(rows@) == cells);
        assert(line_views(rows@).len() == rows@.len());
        assert forall|i: int| 0 <= i < all@.len() implies {
            let row = #[trigger] rows@[i];
            let d = all@[i];
            &&& row.spans@.len() == 5
            &&& said(row, 1) == (match d.model {
                Some(m) => m@,
                None => "-"@,
            })
            &&& shortens(d.serial@, said(row, 2))
            &&& said(row, 3) == d.state@
            &&& names_how(d.transport, said(row, 4))
        } by {
            let row = rows@[i];
            let d = all@[i];
            assert(line_views(rows@)[i] == row@);
            assert(cells[i] == device_cells(device_views(all@)[i]));
            assert(device_views(all@)[i] == d@);
            assert(row@ == device_cells(d@));
            assert(row@.len() == row.spans@.len());
            lemma_said(row, 1);
            lemma_said(row, 2);
            lemma_said(row, 3);
            lemma_said(row, 4);
            lemma_shortens(d.serial@);
        }
    }
}

/// A serial is shortened only by what every mDNS serial ends with.
pub proof fn a_serial_is_shortened_by_its_service(head: Seq<char>, serial: &str, r: String)
    requires
        call_ensures(short_serial, (serial,), r),
    ensures
        shortens(serial@, r@),
        serial@ == head + "._adb-tls-connect._tcp"@ ==> r@ == head,
{
    lemma_shortens(serial@);
    crate::laws::text::prefixes_and_suffixes("._adb-tls-connect._tcp"@, head);
}

/// A state can be told from its colour and its mark: one for a usable device, one for one that is
/// offline, one for one that is not authorised, and another for all the rest.
pub proof fn a_state_has_a_colour_and_a_mark(state: &str, style: Style, mark: &str)
    requires
        call_ensures(state_style, (state,), style),
        call_ensures(state_glyph, (state,), mark),
    ensures
        style.fg == Some(Color::Green) <==> state@ == "device"@,
        style.fg == Some(Color::Yellow) <==> state@ == "offline"@,
        style.fg == Some(Color::Red) <==> state@ == "unauthorized"@,
        style.fg == Some(Color::DarkGray) <==> state@ != "device"@ && state@ != "offline"@ && state@
            != "unauthorized"@,
        mark@ == "●"@ <==> state@ == "device"@,
        mark@ == "○"@ <==> state@ == "offline"@,
        mark@ == "▲"@ <==> state@ == "unauthorized"@,
{
    reveal_strlit("device");
    reveal_strlit("offline");
    reveal_strlit("unauthorized");
    reveal_strlit("●");
    reveal_strlit("○");
    reveal_strlit("▲");
    reveal_strlit("·");
    assert("device"@.len() == 6 && "offline"@.len() == 7 && "unauthorized"@.len() == 12);
    assert("●"@[0] != "○"@[0] && "●"@[0] != "▲"@[0] && "●"@[0] != "·"@[0]);
    assert("○"@[0] != "▲"@[0] && "○"@[0] != "·"@[0] && "▲"@[0] != "·"@[0]);
}

// ---------------------------------------------------------------------------
// The code
// ---------------------------------------------------------------------------

/// Whether a glyph stands for two modules, one above the other.
pub open spec fn draws(c: char, top: bool, bottom: bool) -> bool {
    &&& c == '█' <==> top && bottom
    &&& c == '▀' <==> top && !bottom
    &&& c == '▄' <==> !top && bottom
    &&& c == ' ' <==> !top && !bottom
}

/// Half-blocks draw every module of a code: two rows of modules to a row of glyphs.
pub proof fn every_module_is_drawn(m: &Matrix, r: Vec<String>, x: int, y: int)
    requires
        m@.wf(),
        call_ensures(Matrix::half_block_rows, (m,), r),
        0 <= x < m@.width,
        0 <= y < m@.width,
    ensures
        r@.len() == (m@.width + 1) / 2,
        r@[y / 2]@.len() == m@.width,
        draws(r@[y / 2]@[x], m@.at(x, y - y % 2), m@.at(x, y - y % 2 + 1)),
        m@.at(x, y) == m@.cells[y * m@.width + x],
{
    assert(texts(r@).len() == r@.len());
    assert(texts(r@)[y / 2] == r@[y / 2]@);
    assert(2 * (y / 2) == y - y % 2);
}

/// A code on the screen is drawn dark on light, whole, with its own rows first; then comes a blank
/// line, and then what is known of the pairing.
pub proof fn a_pairing_shows_its_whole_code(
    view: &PairView,
    tick: u64,
    r: Vec<Line>,
    rows: Vec<String>,
)
    requires
        view.qr@.wf(),
        call_ensures(render_pair, (view, tick), r),
        call_ensures(Matrix::half_block_rows, (view.qr,), rows),
    ensures
        ({
            let n = rows@.len() as int;
            &&& r@.len() >= n + 2
            &&& forall|k: int|
                0 <= k < n ==> {
                    let line = #[trigger] r@[k];
                    &&& line.spans@.len() == 1
                    &&& said(line, 0) == rows@[k]@
                    &&& line.spans@[0].style.fg == Some(Color::Black)
                    &&& line.spans@[0].style.bg == Some(Color::White)
                }
            &&& r@[n].spans@.len() == 1 && said(r@[n], 0).len() == 0
            &&& r@[n + 1].spans@.len() == 1
            &&& view.phase matches Phase::Pairing(host) ==> ends_with(
                said(r@[n + 1], 0),
                " pairing with "@ + host@,
            )
            &&& view.phase matches Phase::Connected(what) ==> said(r@[n + 1], 0)
                == "paired and connected: "@ + what@
            &&& view.phase matches Phase::Failed(why) ==> said(r@[n + 1], 0) == "failed: "@ + why@
            &&& view.phase is Waiting ==> ends_with(
                said(r@[n + 1], 0),
                " waiting for a scan  "@ + decimal(
                    if view.timeout > view.elapsed {
                        (view.timeout - view.elapsed) as nat
                    } else {
                        0
                    },
                ) + "s left"@,
            ) && r@.len() == n + 3
        }),
{
    let n = rows@.len() as int;
    let all = pair_lines(view.qr@, view.phase@, view.elapsed, view.timeout, tick);
    let code = crate::qr::code_lines(view.qr@);
    let status = status_lines(view.phase@, view.elapsed, view.timeout, tick);
    assert(line_views(r@) == all);
    assert(line_views(r@).len() == r@.len());
    assert(texts(rows@).len() == rows@.len());
    assert(code.len() == n);
    reveal_strlit("");
    assert forall|k: int| 0 <= k < n implies {
        let line = #[trigger] r@[k];
        &&& line.spans@.len() == 1
        &&& said(line, 0) == rows@[k]@
        &&& line.spans@[0].style.fg == Some(Color::Black)
        &&& line.spans@[0].style.bg == Some(Color::White)
    } by {
        let line = r@[k];
        assert(line_views(r@)[k] == line@);
        assert(all[k] == code[k]);
        assert(line@.len() == line.spans@.len());
        lemma_said(line, 0);
        assert(texts(rows@)[k] == rows@[k]@);
        assert(view.qr@.glyph_rows()[k] == rows@[k]@);
    }
    assert(line_views(r@)[n] == r@[n]@);
    assert(r@[n]@.len() == r@[n].spans@.len());
    lemma_said(r@[n], 0);
    assert(all[n + 1] == status[0]);
    assert(line_views(r@)[n + 1] == r@[n + 1]@);
    assert(r@[n + 1]@.len() == r@[n + 1].spans@.len());
    lemma_said(r@[n + 1], 0);
    let spin = crate::ui::pair::spinner_frame(tick);
    match view.phase@ {
        PhaseView::Pairing(host) => {
            crate::laws::text::prefixes_and_suffixes(" pairing with "@ + host, spin);
            assert(spin + (" pairing with "@ + host) == spin + " pairing with "@ + host);
        },
        PhaseView::Waiting => {
            let left = crate::ui::pair::seconds_left(view.timeout, view.elapsed);
            let tail = " waiting for a scan  "@ + decimal(left) + "s left"@;
            crate::laws::text::prefixes_and_suffixes(tail, spin);
            assert(spin + tail == spin + " waiting for a scan  "@ + decimal(left) + "s left"@);
        },
        _ => {},
    }
}

/// Around the modules of a code there are four of white space on every side, and nothing else is
/// added or lost.
pub proof fn a_code_has_a_margin_of_four(s: &Symbol, r: Matrix, x: int, y: int)
    requires
        s.dark@.len() == s.width * s.width,
        (s.width + 8) * (s.width + 8) <= usize::MAX,
        call_ensures(frame, (s,), r),
    ensures
        r@.width == s.width + 8,
        r@.wf(),
        x < 4 || y < 4 || x >= s.width + 4 || y >= s.width + 4 ==> !r@.at(x, y),
        0 <= x < s.width && 0 <= y < s.width ==> r@.at(x + 4, y + 4) == s.dark@[y * s.width + x],
{
    the_quiet_zone_is_blank(s.width as nat, s.dark@, x, y);
}

/// The pane for a code has room for it and its border.
pub proof fn a_pane_has_room_for_its_code(qr: &Matrix, r: (u16, u16), rows: Vec<String>)
    requires
        qr@.wf(),
        qr@.width <= 65533,
        call_ensures(min_size, (qr,), r),
        call_ensures(Matrix::half_block_rows, (qr,), rows),
    ensures
        r.0 == qr@.width + 2,
        r.1 == rows@.len() + 7,
{
    assert(texts(rows@).len() == rows@.len());
}

// ---------------------------------------------------------------------------
// The journal, the header and the footer
// ---------------------------------------------------------------------------

/// The journal pane shows the last lines, as many as fit between its borders, each as it is and in
/// order. With no lines at all it says so.
pub proof fn the_journal_shows_the_last_lines(logs: &[String], height: u16, r: Vec<Line>)
    requires
        call_ensures(render_logs, (logs, height), r),
    ensures
        logs@.len() == 0 ==> r@.len() == 1,
        logs@.len() > 0 ==> {
            let room: int = if height > 2 { height - 2 } else { 0 };
            let n: int = if logs@.len() > room { room } else { logs@.len() as int };
            &&& r@.len() == n
            &&& forall|i: int|
                0 <= i < n ==> (#[trigger] r@[i]).spans@.len() == 1 && said(r@[i], 0)
                    == logs@[logs@.len() - n + i]@
        },
{
    assert(line_views(r@).len() == r@.len());
    assert(texts(logs@).len() == logs@.len());
    let room: int = if height > 2 { height - 2 } else { 0 };
    let n: int = if logs@.len() > room { room } else { logs@.len() as int };
    if logs@.len() > 0 {
        let pane = journal_pane(texts(logs@), room as nat);
        assert(line_views(r@) == pane);
        assert forall|i: int| 0 <= i < n implies (#[trigger] r@[i]).spans@.len() == 1 && said(
            r@[i],
            0,
        ) == logs@[logs@.len() - n + i]@ by {
            assert(line_views(r@)[i] == r@[i]@);
            assert(r@[i]@.len() == r@[i].spans@.len());
            lemma_said(r@[i], 0);
        }
    }
}

/// The header says how things stand, and says that the server is supervised only where it is: the
/// unit is active, the server is up, and the port is the unit's own. A message stands at its end.
pub proof fn the_header_says_how_things_stand(app: &App, r: Line)
    requires
        call_ensures(render_header, (app,), r),
    ensures
        ({
            let n = r.spans@.len();
            &&& app.message@.len() > 0 ==> n == 7 && said(r, 6) == app.message@
            &&& app.message@.len() == 0 ==> n == 5
            &&& app.unit is NotInstalled ==> said(r, 4) == "not installed - run `wadb install`"@
            &&& !(app.unit is NotInstalled) && !app.server_up ==> said(r, 4) == "adb server down"@
            &&& !(app.unit is NotInstalled) && app.server_up ==> {
                &&& app.owner is Foreign ==> said(r, 4) == "port "@ + decimal(app.port as nat)
                    + " held by another adb server - `wadb takeover`"@
                &&& app.owner is HeldUnknown ==> said(r, 4) == "port "@ + decimal(app.port as nat)
                    + " is held, owner unknown"@
                &&& app.owner matches PortOwner::Ours(pid) ==> app.unit is Active ==> said(r, 4)
                    == "supervised, pid "@ + decimal(pid as nat)
                &&& app.unit is Inactive && app.owner is Ours || app.owner is Nobody ==> said(r, 4)
                    == "server up, unit inactive"@
            }
            &&& r.spans@[4].style.fg == Some(Color::Green) <==> app.unit is Active && app.server_up
                && app.owner is Ours
        }),
{
    assert(r@.len() == r.spans@.len());
    lemma_said(r, 4);
    if app.message@.len() > 0 {
        lemma_said(r, 6);
    }
}

/// What a footer says of one key: the key, and what it is for.
pub open spec fn offers(r: Line, i: int, key: Seq<char>, label: Seq<char>) -> bool {
    &&& said(r, 2 * i) == " "@ + key + " "@
    &&& said(r, 2 * i + 1) == " "@ + label + "   "@
}

/// The footer names every key that does something: to leave a pairing while there is one, and
/// otherwise to install or to start what is not there or not running, to pair, to refresh and to
/// quit.
pub proof fn the_footer_names_the_keys(app: &App, r: Line)
    requires
        call_ensures(render_footer, (app,), r),
    ensures
        app.pairing is Some ==> r.spans@.len() == 4 && offers(r, 0, "esc"@, "cancel pairing"@) && offers(
            r,
            1,
            "q"@,
            "quit"@,
        ),
        app.pairing is None && app.unit is Active ==> r.spans@.len() == 6 && offers(
            r,
            0,
            "p"@,
            "pair"@,
        ) && offers(r, 1, "r"@, "refresh"@) && offers(r, 2, "q"@, "quit"@),
        app.pairing is None && !(app.unit is Active) ==> r.spans@.len() == 8 && offers(
            r,
            1,
            "p"@,
            "pair"@,
        ) && offers(r, 2, "r"@, "refresh"@) && offers(r, 3, "q"@, "quit"@),
        app.pairing is None && app.unit is NotInstalled ==> offers(r, 0, "i"@, "install"@),
        app.pairing is None && app.unit is Inactive ==> offers(r, 0, "s"@, "start"@),
{
    let keys = offered_keys(app@);
    lemma_footer(keys);
    assert(r@.len() == r.spans@.len());
    assert forall|k: int| 0 <= k < r.spans@.len() implies #[trigger] r@[k].text == said(r, k) by {
        lemma_said(r, k);
    }
    assert forall|i: int| 0 <= i < keys.len() implies #[trigger] offers(
        r,
        i,
        keys[i].0,
        keys[i].1,
    ) by {
        assert(footer_line(keys)[2 * i].text == " "@ + keys[i].0 + " "@);
        assert(footer_line(keys)[2 * i + 1].text == " "@ + keys[i].1 + "   "@);
        assert(r@[2 * i].text == said(r, 2 * i));
        assert(r@[2 * i + 1].text == said(r, 2 * i + 1));
    }
    assert(keys.len() > 0 ==> offers(r, 0, keys[0].0, keys[0].1));
    assert(keys.len() > 1 ==> offers(r, 1, keys[1].0, keys[1].1));
    assert(keys.len() > 2 ==> offers(r, 2, keys[2].0, keys[2].1));
    assert(keys.len() > 3 ==> offers(r, 3, keys[3].0, keys[3].1));
}

proof fn lemma_footer(keys: Seq<(Seq<char>, Seq<char>)>)
    ensures
        footer_line(keys).len() == 2 * keys.len(),
        forall|i: int|
            0 <= i < keys.len() ==> footer_line(keys)[2 * i].text == " "@ + (#[trigger] keys[i]).0
                + " "@ && footer_line(keys)[2 * i + 1].text == " "@ + keys[i].1 + "   "@,
    decreases keys.len(),
{
    if keys.len() > 0 {
        let init = keys.drop_last();
        lemma_footer(init);
        assert forall|i: int| 0 <= i < keys.len() implies footer_line(keys)[2 * i].text == " "@ + (
        #[trigger] keys[i]).0 + " "@ && footer_line(keys)[2 * i + 1].text == " "@ + keys[i].1
            + "   "@ by {
            if i < init.len() {
                assert(init[i] == keys[i]);
                assert(footer_line(keys)[2 * i] == footer_line(init)[2 * i]);
                assert(footer_line(keys)[2 * i + 1] == footer_line(init)[2 * i + 1]);
            }
        }
    }
}

// ---------------------------------------------------------------------------
// The whole screen
// ---------------------------------------------------------------------------

/// The screen is made of its panes, each as it is drawn alone: the header, the devices, the footer,
/// and either the pairing or the journal. Under 78 columns or 30 rows nothing is drawn but that it
/// is too small.
pub proof fn the_screen_is_made_of_its_panes(
    app: &App,
    width: u16,
    height: u16,
    now: u64,
    r: Screen,
    header: Line,
    footer: Line,
    all: &[Device],
    devices: DevicesPane,
    logs: &[String],
    journal: Vec<Line>,
)
    requires
        app@.wf(),
        call_ensures(render, (app, width, height, now), r),
        call_ensures(render_header, (app,), header),
        call_ensures(render_footer, (app,), footer),
        all@ == app.devices@,
        call_ensures(render_devices, (all, app.server_up), devices),
        logs@ == app.logs@,
        call_ensures(render_logs, (logs, 7), journal),
    ensures
        r is TooSmall <==> width < 78 || height < 30,
        r matches Screen::Panes { header: h, devices: d, footer: f, pairing, journal: j, pane, .. } ==> {
            &&& h@ == header@
            &&& d@ == devices@
            &&& f@ == footer@
            &&& pairing is Some <==> app.pairing is Some
            &&& j is Some <==> app.pairing is None
            &&& j matches Some(v) ==> line_views(v@) == line_views(journal@)
            &&& app.pairing matches Some(p) ==> pane == p.qr@.width + 2
        },
{
}

/// While a code is on the screen, the pairing pane is the code and its state, at the time that has
/// passed since it began.
pub proof fn the_pairing_pane_is_the_pairing(
    app: &App,
    width: u16,
    height: u16,
    now: u64,
    r: Screen,
    view: &PairView,
    pane: Vec<Line>,
)
    requires
        app@.wf(),
        call_ensures(render, (app, width, height, now), r),
        app.pairing is Some,
        *view.qr == app.pairing->0.qr,
        *view.phase == app.pairing->0.phase,
        view.timeout == app.pairing->0.timeout,
        view.elapsed as int == if now >= app.pairing->0.started {
            (now - app.pairing->0.started) / 1_000_000_000
        } else {
            0
        },
        call_ensures(render_pair, (view, app.tick), pane),
        width >= 78,
        height >= 30,
    ensures
        r matches Screen::Panes { pairing: Some(v), .. } && line_views(v@) == line_views(pane@),
{
}

// ---------------------------------------------------------------------------
// Keys and events
// ---------------------------------------------------------------------------

/// What a key does. `q` always quits; escape leaves a pairing; `p` begins one, where there is none;
/// `i` installs and `s` starts what is not there or not running; `r` refreshes. Every other key is
/// ignored, and a key that is ignored changes nothing.
pub proof fn what_a_key_does(app: &mut App, key: Key, r: KeyAction)
    requires
        old(app)@.wf(),
        call_ensures(handle_key, (app, key), r),
    ensures
        ({
            let a = old(app)@;
            let b = final(app)@;
            let quits = key == Key::Char('q') || key == Key::Char('Q');
            &&& r is Quit <==> quits
            &&& r is Cancel <==> key is Esc && a.pairing is Some
            &&& r is Refresh <==> key == Key::Char('r')
            &&& r is Pair <==> key == Key::Char('p') && a.pairing is None
            &&& r is Install <==> key == Key::Char('i') && a.unit is NotInstalled
            &&& r is Start <==> key == Key::Char('s') && a.unit is Inactive
            &&& r matches KeyAction::Pair { seconds } ==> seconds == 120
            &&& r matches KeyAction::Quit { signal } ==> signal == a.worker
            &&& r matches KeyAction::Cancel { signal } ==> signal == a.worker
            &&& b.should_quit == (a.should_quit || quits)
            &&& r is Quit || r is Cancel ==> b.pairing is None && !b.worker
            &&& !(r is Quit || r is Cancel) ==> b == a
            &&& b.port == a.port && b.adb == a.adb && b.unit == a.unit && b.owner == a.owner
                && b.devices == a.devices && b.server_up == a.server_up && b.logs == a.logs
        }),
{
}

/// What a worker's reports do to the pairing on the screen. The last of them tells; without any it
/// stays as it is. A code that nobody has scanned goes when its time is over, and the worker is
/// told to stop. Reports that come when there is no worker any more change nothing.
pub proof fn what_a_report_does(
    app: &mut App,
    events: &[PairEvent],
    now: u64,
    r: (bool, bool),
)
    requires
        old(app)@.wf(),
        call_ensures(App::poll_pairing, (app, events, now), r),
    ensures
        ({
            let a = old(app)@;
            let b = final(app)@;
            let waiting = a.pairing is Some && if events@.len() > 0 {
                false
            } else {
                a.pairing->0.phase is Waiting
            };
            let late = waiting && now > a.pairing->0.started + a.pairing->0.timeout * 1_000_000_000;
            &&& !a.worker ==> b == a && r == (false, false)
            &&& a.worker && late ==> b.pairing is None && !b.worker && b.message
                == "pairing timed out"@ && r.0
            &&& a.worker && !late ==> {
                &&& b.worker && !r.0 && b.message == a.message
                &&& b.pairing is Some <==> a.pairing is Some
                &&& a.pairing is Some ==> {
                    &&& b.pairing->0.qr == a.pairing->0.qr
                    &&& b.pairing->0.started == a.pairing->0.started
                    &&& b.pairing->0.timeout == a.pairing->0.timeout
                    &&& events@.len() == 0 ==> b.pairing->0.phase == a.pairing->0.phase
                    &&& events@.len() > 0 ==> {
                        let last = events@[events@.len() - 1];
                        &&& last matches PairEvent::Found(h) ==> b.pairing->0.phase
                            == PhaseView::Pairing(h@)
                        &&& last matches PairEvent::Connected(m) ==> b.pairing->0.phase
                            == PhaseView::Connected(m@)
                        &&& last matches PairEvent::Failed(w) ==> b.pairing->0.phase
                            == PhaseView::Failed(w@)
                    }
                }
            }
            &&& r.1 <==> a.worker && exists|i: int|
                0 <= i < events@.len() && #[trigger] events@[i] is Connected
            &&& b.port == a.port && b.adb == a.adb && b.unit == a.unit && b.owner == a.owner
                && b.devices == a.devices && b.server_up == a.server_up && b.logs == a.logs
                && b.should_quit == a.should_quit
        }),
{
}

/// A refresh lists every wireless device of a server that is up, in order, and no other. Before an
/// install nothing is read at all, and the rest of the application stays as it is.
pub proof fn a_refresh_lists_what_is_wireless(
    app: &mut App,
    up: bool,
    list: Option<Vec<Device>>,
    owner: PortOwner,
)
    requires
        old(app)@.wf(),
        call_ensures(App::refresh, (app, up, list, owner), ()),
    ensures
        ({
            let a = old(app)@;
            let b = final(app)@;
            let looks = !(a.unit is NotInstalled);
            &&& b.server_up == (looks && up)
            &&& b.owner == if looks {
                owner
            } else {
                PortOwner::Nobody
            }
            &&& !(looks && up && list is Some) ==> b.devices.len() == 0
            &&& looks && up && list is Some ==> is_pick(
                device_views(list->0@),
                |d: DeviceView| d.transport is Tcp || d.transport is Mdns,
                b.devices,
            )
            &&& b.port == a.port && b.adb == a.adb && b.unit == a.unit && b.pairing == a.pairing
                && b.message == a.message && b.worker == a.worker && b.logs == a.logs
                && b.should_quit == a.should_quit
        }),
{
    if let Some(v) = list {
        let keep = |d: DeviceView| d.transport.wireless();
        let all = device_views(v@);
        lemma_filter_picks(all, keep);
        lemma_same_pick(
            all,
            keep,
            |d: DeviceView| d.transport is Tcp || d.transport is Mdns,
            all.filter(keep),
        );
    }
}

/// A pairing begins only where the service is installed, adb is known and the server is up; it then
/// shows the code of the very payload that is handed on, from now on and for the time that was
/// asked for. Where it does not begin, nothing changes but the message.
pub proof fn what_a_pairing_begins_with(
    app: &mut App,
    seconds: u64,
    now: u64,
    r: Option<Payload>,
)
    requires
        old(app)@.wf(),
        call_ensures(App::start_pairing, (app, seconds, now), r),
    ensures
        ({
            let a = old(app)@;
            let b = final(app)@;
            &&& r is Some ==> !(a.unit is NotInstalled) && a.adb is Some && a.server_up
            &&& r matches Some(p) ==> {
                &&& b.worker
                &&& b.pairing is Some && b.pairing->0.phase is Waiting
                &&& b.pairing->0.started == now && b.pairing->0.timeout == seconds
                &&& p@.instance.len() == 17 && p@.password.len() == 10
                &&& starts_with(p@.instance, "studio-"@)
                &&& b.message.len() == 0
            }
            &&& r is None ==> b.pairing == a.pairing && b.worker == a.worker && b.message.len() > 0
            &&& b.port == a.port && b.adb == a.adb && b.unit == a.unit && b.owner == a.owner
                && b.devices == a.devices && b.server_up == a.server_up && b.logs == a.logs
                && b.should_quit == a.should_quit
        }),
{
    reveal_strlit("");
    reveal_strlit("studio-");
    reveal_strlit("install the service first (press i)");
    reveal_strlit("no adb binary found");
    reveal_strlit("adb server is down; run `wadb install` first");
    reveal_strlit("could not generate a pairing code: secure random generation failed: ");
    reveal_strlit("could not render the QR: ");
}

/// The code that is shown is the code of the payload, whatever that is.
pub proof fn the_code_on_the_screen_is_the_payloads(
    app: &mut App,
    payload: Payload,
    seconds: u64,
    now: u64,
    r: Option<Payload>,
    bytes: &[u8],
    code: Matrix,
)
    requires
        old(app)@.wf(),
        bytes@ == vstd::utf8::encode_utf8(payload@.qr_text()),
        bytes@.len() <= 230,
        call_ensures(encode, (bytes,), Ok(code)),
        call_ensures(App::offer, (app, Ok(payload), seconds, now), r),
    ensures
        r == Some(payload),
        final(app)@.pairing is Some,
        final(app)@.pairing->0.qr == code@,
        final(app)@.worker,
{
}

/// Cancelling takes the code off the screen, and the worker is told where there is one.
pub proof fn what_cancelling_does(app: &mut App, r: bool)
    requires
        call_ensures(App::cancel_pairing, (app,), r),
    ensures
        r == old(app)@.worker,
        final(app)@.pairing is None,
        !final(app)@.worker,
        final(app)@.message == old(app)@.message,
        final(app)@.devices == old(app)@.devices,
        final(app)@.should_quit == old(app)@.should_quit,
{
}

/// A unit is active only where it is installed.
pub proof fn a_unit_is_what_it_is(installed: bool, active: bool, r: UnitState)
    requires
        call_ensures(current_unit_state, (installed, active), r),
    ensures
        r is NotInstalled <==> !installed,
        r is Active <==> installed && active,
        r is Inactive <==> installed && !active,
{
}

/// What becomes of an install and of a start is said, and the unit is taken as it is then.
pub proof fn what_an_install_says(
    app: &mut App,
    result: Result<(String, PortOwner), String>,
    unit: UnitState,
)
    requires
        old(app)@.wf(),
        call_ensures(App::installed, (app, result, unit), ()),
    ensures
        final(app)@.unit == unit,
        result matches Err(e) ==> final(app)@.message == "install failed: "@ + e@,
        result matches Ok((adb, PortOwner::Ours(pid))) ==> final(app)@.message == "supervising "@
            + adb@ + " (pid "@ + decimal(pid as nat) + ")"@,
        starts_with(final(app)@.message, "supervising "@) <==> (result matches Ok((_, o)) && o
            is Ours),
{
    reveal_strlit("supervising ");
    reveal_strlit("installed, but the unit is not listening yet");
    reveal_strlit("installed, but another adb server holds the port - press t");
    reveal_strlit("install failed: ");
    let m = final(app)@.message;
    let p = "supervising "@;
    match result {
        Ok((adb, PortOwner::Ours(pid))) => {
            assert(m.subrange(0, p.len() as int) == p);
        },
        _ => {
            if starts_with(m, p) {
                assert(m.subrange(0, p.len() as int)[0] == m[0]);
            }
        },
    }
}

/// A worker that was told to stop is not heard any more; otherwise what it came to is passed on.
pub proof fn what_a_worker_came_to(
    cancelled: bool,
    ended: Result<String, String>,
    r: Option<PairEvent>,
)
    requires
        call_ensures(worker_report, (cancelled, ended), r),
    ensures
        r is None <==> cancelled,
        !cancelled && ended is Ok ==> r == Some(PairEvent::Connected(ended->Ok_0)),
        !cancelled && ended is Err ==> r == Some(PairEvent::Failed(ended->Err_0)),
{
}

/// The list is read again after two seconds.
pub proof fn a_refresh_is_due_after_two_seconds(last: u64, now: u64, r: bool)
    requires
        call_ensures(refresh_due, (last, now), r),
    ensures
        r <==> now >= last + 2_000_000_000,
{
}

/// A row begins with the mark of its state, in its colour.
pub proof fn a_row_begins_with_its_mark(
    all: &[Device],
    server_up: bool,
    r: DevicesPane,
    i: int,
    state: &str,
    mark: &str,
    style: Style,
)
    requires
        call_ensures(render_devices, (all, server_up), r),
        0 <= i < all@.len(),
        state@ == all@[i].state@,
        call_ensures(state_glyph, (state,), mark),
        call_ensures(state_style, (state,), style),
    ensures
        r matches DevicesPane::Table(rows) && said(rows@[i], 0) == mark@ && rows@[i].spans@[0].style
            == style && rows@[i].spans@[3].style == style,
{
    assert(device_views(all@).len() == all@.len());
    if let DevicesPane::Table(rows) = r {
        let cells = device_views(all@).map_values(|d: DeviceView| device_cells(d));
        assert(line_views(rows@) == cells);
        assert(line_views(rows@)[i] == rows@[i]@);
        assert(device_views(all@)[i] == all@[i]@);
        assert(rows@[i]@ == device_cells(all@[i]@));
        assert(rows@[i]@.len() == rows@[i].spans@.len());
        lemma_said(rows@[i], 0);
        lemma_said(rows@[i], 3);
    }
}

/// Without devices the pane says what to do: to install or to start the server where it is down,
/// and to pair a phone where it is up.
pub proof fn what_an_empty_pane_says(all: &[Device], server_up: bool, r: DevicesPane)
    requires
        all@.len() == 0,
        call_ensures(render_devices, (all, server_up), r),
    ensures
        server_up ==> (r matches DevicesPane::Message(v) && v@.len() == 4 && said(v@[0], 0)
            == "no wireless devices"@ && said(v@[2], 0) == "press p to pair a phone over QR"@),
        !server_up ==> (r matches DevicesPane::Message(v) && v@.len() == 3 && said(v@[0], 0)
            == "adb server is not running"@ && said(v@[2], 0)
            == "press i to install the service, or s to start it"@),
{
    assert(device_views(all@).len() == all@.len());
    if let DevicesPane::Message(v) = r {
        assert(line_views(v@).len() == v@.len());
        assert(line_views(v@)[0] == v@[0]@);
        assert(line_views(v@)[2] == v@[2]@);
        assert(v@[0]@.len() == v@[0].spans@.len());
        assert(v@[2]@.len() == v@[2].spans@.len());
        lemma_said(v@[0], 0);
        lemma_said(v@[2], 0);
    }
}

/// A grid of modules gives back each of them, and there are none outside it.
pub proof fn a_grid_gives_back_its_modules(
    width: usize,
    cells: Vec<bool>,
    m: Option<Matrix>,
    x: usize,
    y: usize,
    r: bool,
)
    requires
        call_ensures(Matrix::new, (width, cells), m),
        m matches Some(g) ==> call_ensures(Matrix::get, (&g, x, y), r),
    ensures
        m is Some <==> cells@.len() == width * width,
        m is Some && x < width && y < width ==> r == cells@[y * width + x],
        m is Some && (x >= width || y >= width) ==> !r,
{
}

/// A code is drawn module by module as it was made, inside its margin.
pub proof fn a_code_is_drawn_as_it_was_made(
    payload: &[u8],
    inner: nat,
    dark: Seq<bool>,
    m: Matrix,
    x: int,
    y: int,
)
    requires
        payload@.len() <= 230,
        crate::qr::qr_symbol(payload@, crate::qr::Correction::Low) == Ok::<
            (nat, Seq<bool>),
            QrError,
        >((inner, dark)),
        call_ensures(encode, (payload,), Ok(m)),
    ensures
        m@.width == inner + 8,
        0 <= x < inner && 0 <= y < inner ==> m@.at(x + 4, y + 4) == dark[y * inner + x],
        x < 4 || y < 4 || x >= inner + 4 || y >= inner + 4 ==> !m@.at(x, y),
{
    the_quiet_zone_is_blank(inner, dark, x, y);
}

/// A new application knows nothing yet but what it was told.
pub proof fn what_an_application_begins_with(
    port: u16,
    adb: Option<String>,
    unit: UnitState,
    r: App,
)
    requires
        call_ensures(App::new, (port, adb, unit), r),
    ensures
        r.port == port && opt_text(r.adb) == opt_text(adb) && r.unit == unit,
        r.devices@.len() == 0 && !r.server_up && r.pairing is None && !r.should_quit && !r.worker,
        r.message@.len() == 0,
{
    reveal_strlit("");
    assert(device_views(r.devices@).len() == r.devices@.len());
}

/// The journal that is shown is the one that was read.
pub proof fn the_journal_is_shown_as_it_was_read(
    app: &mut App,
    watcher: &str,
    server: &str,
    read: Vec<String>,
)
    requires
        old(app)@.wf(),
        crate::ui::logs::clocks_are_whole(watcher@),
        crate::ui::logs::clocks_are_whole(server@),
        call_ensures(crate::ui::logs::journal_lines, (watcher, server), read),
        call_ensures(App::refresh_logs, (app, watcher, server), ()),
    ensures
        final(app)@.logs == texts(read@),
        final(app)@.devices == old(app)@.devices,
        final(app)@.pairing == old(app)@.pairing,
        final(app)@.message == old(app)@.message,
{
}

/// What becomes of a start is said, and the unit is taken as it is then.
pub proof fn what_a_start_says(app: &mut App, result: Result<(), String>, unit: UnitState)
    requires
        old(app)@.wf(),
        call_ensures(App::started, (app, result, unit), ()),
    ensures
        final(app)@.unit == unit,
        result is Ok ==> final(app)@.message == "unit started"@,
        result matches Err(e) ==> final(app)@.message == "could not start the unit: "@ + e@,
        final(app)@.devices == old(app)@.devices,
{
}

/// Every action but one that is ignored makes the screen be drawn again.
pub proof fn what_is_drawn_again(action: KeyAction, r: bool)
    requires
        call_ensures(KeyAction::redraws, (action,), r),
    ensures
        r <==> !(action is Ignored),
{
}

/// A code is drawn row by row, dark on light.
pub proof fn a_code_is_drawn_row_by_row(m: &Matrix, r: Vec<Line>, rows: Vec<String>)
    requires
        m@.wf(),
        call_ensures(Matrix::to_lines, (m,), r),
        call_ensures(Matrix::half_block_rows, (m,), rows),
    ensures
        r@.len() == rows@.len(),
        forall|i: int|
            0 <= i < r@.len() ==> (#[trigger] r@[i]).spans@.len() == 1 && said(r@[i], 0)
                == rows@[i]@,
{
    assert(line_views(r@).len() == r@.len());
    assert(texts(rows@).len() == rows@.len());
    assert forall|i: int| 0 <= i < r@.len() implies (#[trigger] r@[i]).spans@.len() == 1 && said(
        r@[i],
        0,
    ) == rows@[i]@ by {
        assert(line_views(r@)[i] == r@[i]@);
        assert(r@[i]@.len() == r@[i].spans@.len());
        lemma_said(r@[i], 0);
        assert(texts(rows@)[i] == rows@[i]@);
    }
}

/// A code that cannot be made, and a payload that could not be drawn, are said to be just that, and
/// nothing else changes.
pub proof fn what_is_said_without_a_code(
    app: &mut App,
    payload: Payload,
    seconds: u64,
    now: u64,
    r: Option<Payload>,
    bytes: &[u8],
    why: QrError,
    words: &str,
)
    requires
        old(app)@.wf(),
        bytes@ == vstd::utf8::encode_utf8(payload@.qr_text()),
        bytes@.len() <= 230,
        call_ensures(encode, (bytes,), Err(why)),
        call_ensures(QrError::text, (why,), words),
        call_ensures(App::offer, (app, Ok(payload), seconds, now), r),
    ensures
        r is None,
        final(app)@ == (AppView {
            message: "could not render the QR: "@ + words@,
            ..old(app)@
        }),
{
}

/// A payload that could not be drawn leaves everything as it was, but for what is said.
pub proof fn what_is_said_without_a_payload(
    app: &mut App,
    why: crate::pairing::PayloadError,
    seconds: u64,
    now: u64,
    r: Option<Payload>,
)
    requires
        old(app)@.wf(),
        call_ensures(App::offer, (app, Err(why), seconds, now), r),
    ensures
        r is None,
        starts_with(final(app)@.message, "could not generate a pairing code: "@),
        final(app)@ == (AppView { message: final(app)@.message, ..old(app)@ }),
{
    reveal_strlit("could not generate a pairing code: ");
    reveal_strlit("could not generate a pairing code: secure random generation failed: ");
    let m = final(app)@.message;
    let long = "could not generate a pairing code: secure random generation failed: "@;
    let p = "could not generate a pairing code: "@;
    assert(m.subrange(0, long.len() as int) == long);
    assert(m.subrange(0, p.len() as int) =~= long.subrange(0, p.len() as int));
    assert(long.subrange(0, p.len() as int) =~= p);
}

/// The journal has seven rows, or none while a code is on the screen. A screen that is too small says
/// what it needs and what it has.
pub proof fn how_the_rows_are_shared(app: &App, width: u16, height: u16, now: u64, r: Screen)
    requires
        app@.wf(),
        call_ensures(render, (app, width, height, now), r),
    ensures
        r matches Screen::Panes { journal_rows, .. } ==> journal_rows == if app.pairing is Some {
            0u16
        } else {
            7u16
        },
        r matches Screen::TooSmall(v) ==> v@.len() == 2 && said(v@[1], 0) == "need "@ + decimal(78)
            + "x"@ + decimal(30) + ", have "@ + decimal(width as nat) + "x"@ + decimal(
            height as nat,
        ),
{
    if let Screen::TooSmall(v) = r {
        assert(line_views(v@).len() == v@.len());
        assert(line_views(v@)[1] == v@[1]@);
        assert(v@[1]@.len() == v@[1].spans@.len());
        lemma_said(v@[1], 0);
    }
}

} // verus!
