//! The terminal UI: what is on the screen, and what a key does.

pub mod devices;
pub mod logs;
pub mod pair;

use crate::adb::{devices as device_views, wireless_devices, Device, DeviceView};
use crate::num::{decimal, decimal_of};
use crate::pairing::{a_random_payload_is_short, prefix, Payload, PayloadError, PayloadView};
use crate::qr::{encode, framed, qr_symbol, Correction, Matrix, MatrixView, PAYLOAD_MAX};
use crate::screen::{
    line_of, line_views, push_line, push_span, raw, raw_text, spans, styled, styled_text, Color,
    Line, Span, SpanView, Style,
};
use crate::service::PortOwner;
use crate::text::{chars_of, opt_text, starts_with, texts};
use crate::ui::devices::{devices_pane, DevicesPane, PaneView};
use crate::ui::logs::{clocks_are_whole, journal, journal_lines, tail};
use crate::ui::pair::{min_size, pair_lines, pane_size, PairView, Phase, PhaseView};
use vstd::prelude::*;
use vstd::utf8::encode_utf8;

verus! {

/// What the supervising unit is doing. `NotInstalled` is a real state, not an error: before the
/// first install there is nothing to report on.
#[derive(Debug, Clone, Copy, PartialEq, Eq, Structural)]
pub enum UnitState {
    NotInstalled,
    Active,
    Inactive,
}

/// The unit's state, re-read after an action changes it.
pub open spec fn unit_state(installed: bool, active: bool) -> UnitState {
    if !installed {
        UnitState::NotInstalled
    } else if active {
        UnitState::Active
    } else {
        UnitState::Inactive
    }
}

pub fn current_unit_state(installed: bool, active: bool) -> (r: UnitState)
    ensures
        r == unit_state(installed, active),
{
    if !installed {
        UnitState::NotInstalled
    } else if active {
        UnitState::Active
    } else {
        UnitState::Inactive
    }
}

pub struct Pairing {
    pub qr: Matrix,
    pub phase: Phase,
    /// When it began, in nanoseconds of a clock that only goes forward.
    pub started: u64,
    /// For how many seconds the code stays on the screen.
    pub timeout: u64,
}

pub struct PairingView {
    pub qr: MatrixView,
    pub phase: PhaseView,
    pub started: u64,
    pub timeout: u64,
}

impl View for Pairing {
    type V = PairingView;

    open spec fn view(&self) -> PairingView {
        PairingView {
            qr: self.qr@,
            phase: self.phase@,
            started: self.started,
            timeout: self.timeout,
        }
    }
}

pub struct App {
    pub port: u16,
    pub adb: Option<String>,
    pub unit: UnitState,
    pub owner: PortOwner,
    pub devices: Vec<Device>,
    pub server_up: bool,
    pub pairing: Option<Pairing>,
    pub message: String,
    pub tick: u64,
    pub should_quit: bool,
    /// A pairing worker is running. It reports until it is told to stop.
    pub worker: bool,
    pub logs: Vec<String>,
}

pub struct AppView {
    pub port: u16,
    pub adb: Option<Seq<char>>,
    pub unit: UnitState,
    pub owner: PortOwner,
    pub devices: Seq<DeviceView>,
    pub server_up: bool,
    pub pairing: Option<PairingView>,
    pub message: Seq<char>,
    pub tick: u64,
    pub should_quit: bool,
    pub worker: bool,
    pub logs: Seq<Seq<char>>,
}

impl View for App {
    type V = AppView;

    open spec fn view(&self) -> AppView {
        AppView {
            port: self.port,
            adb: opt_text(self.adb),
            unit: self.unit,
            owner: self.owner,
            devices: device_views(self.devices@),
            server_up: self.server_up,
            pairing: match self.pairing {
                Some(p) => Some(p@),
                None => None,
            },
            message: self.message@,
            tick: self.tick,
            should_quit: self.should_quit,
            worker: self.worker,
            logs: texts(self.logs@),
        }
    }
}

impl AppView {
    /// A code on the screen is square, and no larger than a terminal can be.
    pub open spec fn wf(self) -> bool {
        self.pairing matches Some(p) ==> p.qr.wf() && p.qr.width <= 65533
    }

    /// Why no pairing can begin, where none can.
    pub open spec fn refusal(self) -> Option<Seq<char>> {
        if self.unit is NotInstalled {
            Some("install the service first (press i)"@)
        } else if self.adb is None {
            Some("no adb binary found"@)
        } else if !self.server_up {
            Some("adb server is down; run `wadb install` first"@)
        } else {
            None
        }
    }

    /// The application with a code on the screen and a worker behind it.
    pub open spec fn offering(self, qr: MatrixView, started: u64, timeout: u64) -> AppView {
        AppView {
            message: ""@,
            worker: true,
            pairing: Some(
                PairingView { qr, phase: PhaseView::Waiting, started, timeout },
            ),
            ..self
        }
    }

    /// The application without a pairing.
    pub open spec fn cancelled(self) -> AppView {
        AppView { pairing: None, worker: false, ..self }
    }
}

/// What a pairing worker reports.
#[derive(Debug, Clone, PartialEq, Eq)]
pub enum PairEvent {
    /// The phone that scanned the code.
    Found(String),
    Connected(String),
    Failed(String),
}

/// What a pairing worker reports in the end. One that was told to stop stays silent.
pub fn worker_report(cancelled: bool, ended: Result<String, String>) -> (r: Option<PairEvent>)
    ensures
        match ended {
            _ if cancelled => r is None,
            Ok(line) => r == Some(PairEvent::Connected(line)),
            Err(why) => r == Some(PairEvent::Failed(why)),
        },
{
    if cancelled {
        return None;
    }
    match ended {
        Ok(line) => Some(PairEvent::Connected(line)),
        Err(why) => Some(PairEvent::Failed(why)),
    }
}

/// The phase an event brings.
pub open spec fn phase_after(e: PairEvent) -> PhaseView {
    match e {
        PairEvent::Found(host) => PhaseView::Pairing(host@),
        PairEvent::Connected(msg) => PhaseView::Connected(msg@),
        PairEvent::Failed(why) => PhaseView::Failed(why@),
    }
}

/// A pairing after some events: the last one tells.
pub open spec fn pairing_after(p: Option<PairingView>, events: Seq<PairEvent>) -> Option<
    PairingView,
> {
    match p {
        Some(p) => Some(
            if events.len() > 0 {
                PairingView { phase: phase_after(events.last()), ..p }
            } else {
                p
            },
        ),
        None => None,
    }
}

/// Whether a code has been on the screen for longer than its time without being scanned.
pub open spec fn timed_out(p: Option<PairingView>, now: u64) -> bool {
    p matches Some(p) && p.phase is Waiting && now - p.started > p.timeout * 1_000_000_000
}

/// The application after its worker has been listened to.
pub open spec fn polled(app: AppView, events: Seq<PairEvent>, now: u64) -> AppView {
    if !app.worker {
        app
    } else {
        let after = AppView { pairing: pairing_after(app.pairing, events), ..app };
        if timed_out(after.pairing, now) {
            AppView { message: "pairing timed out"@, ..after.cancelled() }
        } else {
            after
        }
    }
}

/// The application after the server has been looked at. With no unit of its own there is nothing
/// to report on: reading some port all the same would list a stranger's devices.
pub open spec fn refreshed(
    app: AppView,
    up: bool,
    list: Option<Seq<DeviceView>>,
    owner: PortOwner,
) -> AppView {
    if app.unit is NotInstalled {
        AppView { server_up: false, devices: seq![], owner: PortOwner::Nobody, ..app }
    } else {
        AppView {
            server_up: up,
            devices: if up && list is Some {
                list->0.filter(|d: DeviceView| d.transport.wireless())
            } else {
                seq![]
            },
            owner,
            ..app
        }
    }
}

pub open spec fn opt_devices(list: Option<Vec<Device>>) -> Option<Seq<DeviceView>> {
    match list {
        Some(v) => Some(device_views(v@)),
        None => None,
    }
}

impl App {
    pub fn new(port: u16, adb: Option<String>, unit: UnitState) -> (r: App)
        ensures
            r@ == (AppView {
                port,
                adb: opt_text(adb),
                unit,
                owner: PortOwner::Nobody,
                devices: seq![],
                server_up: false,
                pairing: None,
                message: ""@,
                tick: 0,
                should_quit: false,
                worker: false,
                logs: seq![],
            }),
            r@.wf(),
    {
        let r = App {
            port,
            adb,
            unit,
            owner: PortOwner::Nobody,
            devices: Vec::new(),
            server_up: false,
            pairing: None,
            message: "".to_owned(),
            tick: 0,
            should_quit: false,
            worker: false,
            logs: Vec::new(),
        };
        assert(device_views(r.devices@) == Seq::<DeviceView>::empty());
        assert(texts(r.logs@) == Seq::<Seq<char>>::empty());
        r
    }

    fn refusal(&self) -> (r: Option<&'static str>)
        ensures
            match r {
                Some(m) => self@.refusal() == Some(m@),
                None => self@.refusal() is None,
            },
    {
        if matches!(self.unit, UnitState::NotInstalled) {
            Some("install the service first (press i)")
        } else if self.adb.is_none() {
            Some("no adb binary found")
        } else if !self.server_up {
            Some("adb server is down; run `wadb install` first")
        } else {
            None
        }
    }

    /// Show the code for a payload, and hand the payload back for a worker to wait with. It moves
    /// on, so the password never lives in UI state that gets rendered or logged.
    pub fn offer(
        &mut self,
        payload: Result<Payload, PayloadError>,
        timeout_secs: u64,
        now: u64,
    ) -> (r: Option<Payload>)
        requires
            payload matches Ok(p) ==> encode_utf8(p@.qr_text()).len() <= PAYLOAD_MAX,
            old(self)@.wf(),
        ensures
            final(self)@.wf(),
            match payload {
                Ok(p) => match qr_symbol(encode_utf8(p@.qr_text()), Correction::Low) {
                    Ok((inner, dark)) => {
                        &&& r == Some(p)
                        &&& final(self)@ == old(self)@.offering(
                            framed(inner, dark),
                            now,
                            timeout_secs,
                        )
                    },
                    Err(e) => {
                        &&& r is None
                        &&& final(self)@ == (AppView {
                            message: "could not render the QR: "@ + e.message(),
                            ..old(self)@
                        })
                    },
                },
                Err(_) => {
                    &&& r is None
                    &&& starts_with(
                        final(self)@.message,
                        "could not generate a pairing code: secure random generation failed: "@,
                    )
                    &&& final(self)@ == (AppView { message: final(self)@.message, ..old(self)@ })
                },
            },
    {
        match payload {
            Ok(p) => {
                let text = p.qr_text();
                match encode(text.as_str().as_bytes()) {
                    Ok(qr) => {
                        self.worker = true;
                        self.message = "".to_owned();
                        let phase = Phase::Waiting;
                        let timeout: u64 = timeout_secs;
                        self.pairing = Some(Pairing { qr, phase, started: now, timeout });
                        Some(p)
                    },
                    Err(e) => {
                        let mut unused = p;
                        unused.wipe();
                        self.message = "could not render the QR: ".to_owned().concat(e.text());
                        None
                    },
                }
            },
            Err(e) => {
                let why = e.text();
                let head = "could not generate a pairing code: ";
                self.message = head.to_owned().concat(why.as_str());
                proof {
                    let full = "could not generate a pairing code: secure random generation failed: "@;
                    let first = "secure random generation failed: "@;
                    reveal_strlit(
                        "could not generate a pairing code: secure random generation failed: ",
                    );
                    reveal_strlit("could not generate a pairing code: ");
                    reveal_strlit("secure random generation failed: ");
                    assert(full == head@ + first);
                    let m = self.message@;
                    assert(why@.subrange(0, first.len() as int) == first);
                    assert(m.subrange(0, full.len() as int) == full);
                }
                None
            },
        }
    }

    /// Show a QR, and give the credential for a worker to wait with.
    pub fn start_pairing(&mut self, timeout_secs: u64, now: u64) -> (r: Option<Payload>)
        requires
            old(self)@.wf(),
        ensures
            final(self)@.wf(),
            old(self)@.refusal() matches Some(m) ==> {
                &&& r is None
                &&& final(self)@ == (AppView { message: m, ..old(self)@ })
            },
            old(self)@.refusal() is None ==> match r {
                Some(p) => {
                    &&& p@.wf()
                    &&& p@.instance.len() == prefix().len() + 10
                    &&& p@.password.len() == 10
                    &&& qr_symbol(encode_utf8(p@.qr_text()), Correction::Low) matches Ok(
                        (inner, dark),
                    )
                    &&& final(self)@ == old(self)@.offering(framed(inner, dark), now, timeout_secs)
                },
                None => {
                    &&& starts_with(
                        final(self)@.message,
                        "could not generate a pairing code: secure random generation failed: "@,
                    ) || exists|p: PayloadView|
                        #![trigger p.qr_text()]
                        {
                            &&& p.wf()
                            &&& p.instance.len() == prefix().len() + 10
                            &&& p.password.len() == 10
                            &&& qr_symbol(encode_utf8(p.qr_text()), Correction::Low)
                                matches Err(e)
                            &&& final(self)@.message == "could not render the QR: "@ + e.message()
                        }
                    &&& final(self)@ == (AppView { message: final(self)@.message, ..old(self)@ })
                },
            },
    {
        if let Some(m) = self.refusal() {
            self.message = m.to_owned();
            return None;
        }
        let payload = Payload::random();
        proof {
            if payload is Ok {
                a_random_payload_is_short(payload->Ok_0@);
            }
        }
        self.offer(payload, timeout_secs, now)
    }

    /// Stop a pairing in flight. The answer says whether a worker has to be told: only dropping
    /// the pairing would leave it browsing, and able to pair after a cancel.
    pub fn cancel_pairing(&mut self) -> (r: bool)
        ensures
            r == old(self)@.worker,
            final(self)@ == old(self)@.cancelled(),
            final(self)@.wf(),
    {
        let told = self.worker;
        self.worker = false;
        self.pairing = None;
        told
    }

    /// Show what both units' journals hold.
    pub fn refresh_logs(&mut self, watcher: &str, server: &str)
        requires
            clocks_are_whole(watcher@),
            clocks_are_whole(server@),
            old(self)@.wf(),
        ensures
            final(self)@ == (AppView { logs: journal(watcher@, server@), ..old(self)@ }),
            final(self)@.wf(),
    {
        self.logs = journal_lines(watcher, server);
    }

    /// Take in what the pairing worker has reported. The first answer says whether a worker has to
    /// be told to stop, the second whether a device was connected, so that the list is stale.
    pub fn poll_pairing(&mut self, events: &[PairEvent], now: u64) -> (r: (bool, bool))
        requires
            old(self)@.wf(),
        ensures
            final(self)@.wf(),
            final(self)@ == polled(old(self)@, events@, now),
            r.0 == (old(self)@.worker && !final(self)@.worker),
            r.1 == (old(self)@.worker && exists|i: int|
                0 <= i < events@.len() && #[trigger] events@[i] is Connected),
    {
        if !self.worker {
            return (false, false);
        }
        let mut connected = false;
        let mut i: usize = 0;
        while i < events.len()
            invariant
                i <= events.len(),
                self@ == (AppView {
                    pairing: pairing_after(old(self)@.pairing, events@.take(i as int)),
                    ..old(self)@
                }),
                connected == exists|j: int| 0 <= j < i && #[trigger] events@[j] is Connected,
            decreases events.len() - i,
        {
            let ghost before = self@;
            let phase = match &events[i] {
                PairEvent::Found(host) => Phase::Pairing(host.clone()),
                PairEvent::Connected(msg) => {
                    connected = true;
                    Phase::Connected(msg.clone())
                },
                PairEvent::Failed(why) => Phase::Failed(why.clone()),
            };
            assert(phase@ == phase_after(events@[i as int]));
            assert(events@.take(i + 1).last() == events@[i as int]);
            if let Some(p) = &mut self.pairing {
                p.phase = phase;
            }
            i += 1;
        }
        assert(events@.take(i as int) == events@);
        let late = match &self.pairing {
            Some(p) => matches!(p.phase, Phase::Waiting) && now > p.started && (now - p.started)
                as u128 > p.timeout as u128 * 1_000_000_000,
            None => false,
        };
        assert(late == timed_out(self@.pairing, now));
        if late {
            let told = self.cancel_pairing();
            self.message = "pairing timed out".to_owned();
            (told, connected)
        } else {
            (false, connected)
        }
    }

    /// Take in what the server and its port look like. Nothing here runs adb, so it cannot start
    /// the unsupervised server it is meant to report.
    pub fn refresh(&mut self, up: bool, list: Option<Vec<Device>>, owner: PortOwner)
        requires
            old(self)@.wf(),
        ensures
            final(self)@ == refreshed(old(self)@, up, opt_devices(list), owner),
            final(self)@.wf(),
    {
        if matches!(self.unit, UnitState::NotInstalled) {
            self.server_up = false;
            self.devices = Vec::new();
            self.owner = PortOwner::Nobody;
            assert(device_views(self.devices@) == Seq::<DeviceView>::empty());
            return;
        }
        self.server_up = up;
        self.devices = match list {
            Some(all) => {
                if up {
                    wireless_devices(all.as_slice())
                } else {
                    Vec::new()
                }
            },
            None => Vec::new(),
        };
        self.owner = owner;
        assert(!(up && list is Some) ==> device_views(self.devices@) == Seq::<DeviceView>::empty());
    }
}

// ---------------------------------------------------------------------------
// The screen
// ---------------------------------------------------------------------------

/// The smallest terminal the layout fits in. Below this the panes would overlap into nonsense, so
/// that is said instead of drawn.
pub const MIN_WIDTH: u16 = 78;

/// Header (3) + the pairing pane + footer (1). The code is the tallest thing drawn and a clipped
/// code does not scan, so this is derived from the pane rather than guessed.
pub const MIN_HEIGHT: u16 = 30;

/// The rows of the header, and those of the footer.
pub const HEADER_ROWS: u16 = 3;

pub const FOOTER_ROWS: u16 = 1;

/// The rows of the journal pane, its borders among them. It folds away while pairing.
pub const JOURNAL_ROWS: u16 = 7;

/// How the server stands: a mark, a sentence, a colour.
pub open spec fn standing(app: AppView) -> (Seq<char>, Seq<char>, Color) {
    if app.unit is NotInstalled {
        ("○"@, "not installed - run `wadb install`"@, Color::Yellow)
    } else if !app.server_up {
        ("○"@, "adb server down"@, Color::Red)
    } else {
        match app.owner {
            PortOwner::HeldUnknown => (
                "▲"@,
                "port "@ + decimal(app.port as nat) + " is held, owner unknown"@,
                Color::Yellow,
            ),
            PortOwner::Foreign => (
                "▲"@,
                "port "@ + decimal(app.port as nat)
                    + " held by another adb server - `wadb takeover`"@,
                Color::Yellow,
            ),
            PortOwner::Ours(pid) => if app.unit is Active {
                ("●"@, "supervised, pid "@ + decimal(pid as nat), Color::Green)
            } else {
                ("●"@, "server up, unit inactive"@, Color::Yellow)
            },
            PortOwner::Nobody => ("●"@, "server up, unit inactive"@, Color::Yellow),
        }
    }
}

/// The header: the name, how the server stands, and the last message.
pub open spec fn header_line(app: AppView) -> Seq<SpanView> {
    let (dot, text, colour) = standing(app);
    let line = seq![
        styled_text(
            " wadb "@,
            Style { fg: Some(Color::Black), bg: Some(Color::Cyan), bold: true },
        ),
        raw_text("  "@),
        styled_text(dot, Style::ink(colour)),
        raw_text(" "@),
        styled_text(text, Style::ink(colour)),
    ];
    if app.message.len() > 0 {
        line.push(raw_text("   "@)).push(styled_text(app.message, Style::ink(Color::DarkGray)))
    } else {
        line
    }
}

fn describe(app: &App) -> (r: (&'static str, String, Color))
    ensures
        (r.0@, r.1@, r.2) == standing(app@),
{
    if matches!(app.unit, UnitState::NotInstalled) {
        return ("○", "not installed - run `wadb install`".to_owned(), Color::Yellow);
    }
    if !app.server_up {
        return ("○", "adb server down".to_owned(), Color::Red);
    }
    match app.owner {
        PortOwner::HeldUnknown => (
            "▲",
            "port ".to_owned().concat(decimal_of(app.port as u64).as_str()).concat(
                " is held, owner unknown",
            ),
            Color::Yellow,
        ),
        PortOwner::Foreign => (
            "▲",
            "port ".to_owned().concat(decimal_of(app.port as u64).as_str()).concat(
                " held by another adb server - `wadb takeover`",
            ),
            Color::Yellow,
        ),
        PortOwner::Ours(pid) => {
            if matches!(app.unit, UnitState::Active) {
                (
                    "●",
                    "supervised, pid ".to_owned().concat(decimal_of(pid as u64).as_str()),
                    Color::Green,
                )
            } else {
                ("●", "server up, unit inactive".to_owned(), Color::Yellow)
            }
        },
        PortOwner::Nobody => ("●", "server up, unit inactive".to_owned(), Color::Yellow),
    }
}

pub fn render_header(app: &App) -> (r: Line)
    ensures
        r@ == header_line(app@),
{
    let (dot, text, colour) = describe(app);
    let badge = Style { fg: Some(Color::Black), bg: Some(Color::Cyan), bold: true };
    let mut v = vec![
        styled(" wadb ".to_owned(), badge),
        raw("  "),
        styled(dot.to_owned(), Style::fg(colour)),
        raw(" "),
        styled(text, Style::fg(colour)),
    ];
    let ghost (d, t, c) = standing(app@);
    assert(spans(v@) == seq![
        styled_text(" wadb "@, badge),
        raw_text("  "@),
        styled_text(d, Style::ink(c)),
        raw_text(" "@),
        styled_text(t, Style::ink(c)),
    ]);
    if chars_of(app.message.as_str()).len() > 0 {
        push_span(&mut v, raw("   "));
        push_span(&mut v, styled(app.message.clone(), Style::fg(Color::DarkGray)));
    }
    Line { spans: v }
}

/// The journal pane: the latest lines that fit, or why there are none.
pub open spec fn journal_pane(logs: Seq<Seq<char>>, rows: nat) -> Seq<Seq<SpanView>> {
    if logs.len() == 0 {
        seq![
            seq![
                styled_text(
                    "nothing from the unit yet (a volatile journal keeps no history across reboots)"@,
                    Style::ink(Color::DarkGray),
                ),
            ],
        ]
    } else {
        tail(logs, rows).map_values(
            |l: Seq<char>| seq![styled_text(l, Style::ink(Color::DarkGray))],
        )
    }
}

/// The lines inside a pane of the given height, borders and all.
pub fn render_logs(logs: &[String], height: u16) -> (r: Vec<Line>)
    ensures
        line_views(r@) == journal_pane(
            texts(logs@),
            if height > 2 {
                (height - 2) as nat
            } else {
                0
            },
        ),
{
    let rows: usize = if height > 2 {
        height as usize - 2
    } else {
        0
    };
    let mut v: Vec<Line> = Vec::new();
    assert(line_views(v@) == Seq::<Seq<SpanView>>::empty());
    assert(texts(logs@).len() == logs@.len());
    if logs.len() == 0 {
        push_line(
            &mut v,
            line_of(
                styled(
                    "nothing from the unit yet (a volatile journal keeps no history across reboots)".to_owned(),
                    Style::fg(Color::DarkGray),
                ),
            ),
        );
        assert(line_views(v@) == journal_pane(texts(logs@), rows as nat));
        return v;
    }
    let start: usize = if logs.len() > rows {
        logs.len() - rows
    } else {
        0
    };
    let ghost shown = tail(texts(logs@), rows as nat);
    let ghost all = journal_pane(texts(logs@), rows as nat);
    assert(shown == texts(logs@).skip(start as int));
    assert(line_views(v@) == all.take(0));
    let mut i: usize = start;
    while i < logs.len()
        invariant
            start <= i <= logs.len(),
            shown == texts(logs@).skip(start as int),
            all == shown.map_values(
                |l: Seq<char>| seq![styled_text(l, Style::ink(Color::DarkGray))],
            ),
            line_views(v@) == all.take(i - start),
        decreases logs.len() - i,
    {
        assert(shown[i - start] == logs@[i as int]@);
        push_line(&mut v, line_of(styled(logs[i].clone(), Style::fg(Color::DarkGray))));
        assert(all.take(i + 1 - start) == all.take(i - start).push(all[i - start]));
        i += 1;
    }
    assert(all.take(i - start) == all);
    v
}

/// The keys on offer, each with what it does.
pub open spec fn offered_keys(app: AppView) -> Seq<(Seq<char>, Seq<char>)> {
    if app.pairing is Some {
        seq![("esc"@, "cancel pairing"@), ("q"@, "quit"@)]
    } else if app.unit is NotInstalled {
        seq![("i"@, "install"@), ("p"@, "pair"@), ("r"@, "refresh"@), ("q"@, "quit"@)]
    } else if app.unit is Inactive {
        seq![("s"@, "start"@), ("p"@, "pair"@), ("r"@, "refresh"@), ("q"@, "quit"@)]
    } else {
        seq![("p"@, "pair"@), ("r"@, "refresh"@), ("q"@, "quit"@)]
    }
}

/// The footer: every key on offer and its label.
pub open spec fn footer_line(keys: Seq<(Seq<char>, Seq<char>)>) -> Seq<SpanView>
    decreases keys.len(),
{
    if keys.len() == 0 {
        seq![]
    } else {
        let (key, label) = keys.last();
        footer_line(keys.drop_last()).push(
            styled_text(
                " "@ + key + " "@,
                Style { fg: Some(Color::Black), bg: Some(Color::DarkGray), bold: false },
            ),
        ).push(styled_text(" "@ + label + "   "@, Style::ink(Color::DarkGray)))
    }
}

fn push_key(
    v: &mut Vec<Span>,
    key: &str,
    label: &str,
    Ghost(done): Ghost<Seq<(Seq<char>, Seq<char>)>>,
)
    requires
        spans(old(v)@) == footer_line(done),
    ensures
        spans(final(v)@) == footer_line(done.push((key@, label@))),
{
    let cap = Style { fg: Some(Color::Black), bg: Some(Color::DarkGray), bold: false };
    push_span(v, styled(" ".to_owned().concat(key).concat(" "), cap));
    push_span(
        v,
        styled(" ".to_owned().concat(label).concat("   "), Style::fg(Color::DarkGray)),
    );
    assert(done.push((key@, label@)).drop_last() == done);
}

pub fn render_footer(app: &App) -> (r: Line)
    ensures
        r@ == footer_line(offered_keys(app@)),
{
    let mut v: Vec<Span> = Vec::new();
    let ghost mut done: Seq<(Seq<char>, Seq<char>)> = seq![];
    assert(spans(v@) == Seq::<SpanView>::empty());
    if app.pairing.is_some() {
        push_key(&mut v, "esc", "cancel pairing", Ghost(done));
        proof {
            done = done.push(("esc"@, "cancel pairing"@));
        }
    } else {
        if matches!(app.unit, UnitState::NotInstalled) {
            push_key(&mut v, "i", "install", Ghost(done));
            proof {
                done = done.push(("i"@, "install"@));
            }
        } else if matches!(app.unit, UnitState::Inactive) {
            push_key(&mut v, "s", "start", Ghost(done));
            proof {
                done = done.push(("s"@, "start"@));
            }
        }
        push_key(&mut v, "p", "pair", Ghost(done));
        proof {
            done = done.push(("p"@, "pair"@));
        }
        push_key(&mut v, "r", "refresh", Ghost(done));
        proof {
            done = done.push(("r"@, "refresh"@));
        }
    }
    push_key(&mut v, "q", "quit", Ghost(done));
    proof {
        done = done.push(("q"@, "quit"@));
        assert(done == offered_keys(app@));
    }
    Line { spans: v }
}

/// Everything that is on the screen.
pub enum Screen {
    /// The terminal is too small for the layout.
    TooSmall(Vec<Line>),
    Panes {
        header: Line,
        devices: DevicesPane,
        /// The columns of the pairing pane.
        pane: u16,
        pairing: Option<Vec<Line>>,
        /// The rows of the journal pane.
        journal_rows: u16,
        journal: Option<Vec<Line>>,
        footer: Line,
    },
}

pub enum ScreenView {
    TooSmall(Seq<Seq<SpanView>>),
    Panes {
        header: Seq<SpanView>,
        devices: PaneView,
        pane: nat,
        pairing: Option<Seq<Seq<SpanView>>>,
        journal_rows: u16,
        journal: Option<Seq<Seq<SpanView>>>,
        footer: Seq<SpanView>,
    },
}

pub open spec fn opt_lines(v: Option<Vec<Line>>) -> Option<Seq<Seq<SpanView>>> {
    match v {
        Some(v) => Some(line_views(v@)),
        None => None,
    }
}

impl View for Screen {
    type V = ScreenView;

    open spec fn view(&self) -> ScreenView {
        match self {
            Screen::TooSmall(v) => ScreenView::TooSmall(line_views(v@)),
            Screen::Panes { header, devices, pane, pairing, journal_rows, journal, footer } =>
                ScreenView::Panes {
                header: header@,
                devices: devices@,
                pane: *pane as nat,
                pairing: opt_lines(*pairing),
                journal_rows: *journal_rows,
                journal: opt_lines(*journal),
                footer: footer@,
            },
        }
    }
}

/// Whole seconds from one moment to another; none when the clock went back.
pub open spec fn seconds_between(then: u64, now: u64) -> u64 {
    if now >= then {
        ((now - then) / 1_000_000_000) as u64
    } else {
        0
    }
}

/// What the application looks like on a terminal of this size.
pub open spec fn screen(app: AppView, width: u16, height: u16, now: u64) -> ScreenView {
    if width < MIN_WIDTH || height < MIN_HEIGHT {
        ScreenView::TooSmall(
            seq![
                seq![raw_text("terminal too small"@)],
                seq![
                    raw_text(
                        "need "@ + decimal(MIN_WIDTH as nat) + "x"@ + decimal(MIN_HEIGHT as nat)
                            + ", have "@ + decimal(width as nat) + "x"@ + decimal(height as nat),
                    ),
                ],
            ],
        )
    } else {
        ScreenView::Panes {
            header: header_line(app),
            devices: devices_pane(app.devices, app.server_up),
            // The width comes from the code itself, so a different payload cannot clip it.
            pane: match app.pairing {
                Some(p) => pane_size(p.qr).0,
                None => 0,
            },
            pairing: match app.pairing {
                Some(p) => Some(
                    pair_lines(
                        p.qr,
                        p.phase,
                        seconds_between(p.started, now),
                        p.timeout,
                        app.tick,
                    ),
                ),
                None => None,
            },
            // The journal folds away while pairing: the code needs the height more.
            journal_rows: if app.pairing is Some {
                0
            } else {
                JOURNAL_ROWS
            },
            journal: if app.pairing is Some {
                None
            } else {
                Some(journal_pane(app.logs, (JOURNAL_ROWS - 2) as nat))
            },
            footer: footer_line(offered_keys(app)),
        }
    }
}

pub fn render(app: &App, width: u16, height: u16, now: u64) -> (r: Screen)
    requires
        app@.wf(),
    ensures
        r@ == screen(app@, width, height, now),
{
    if width < MIN_WIDTH || height < MIN_HEIGHT {
        let mut v: Vec<Line> = Vec::new();
        assert(line_views(v@) == Seq::<Seq<SpanView>>::empty());
        push_line(&mut v, line_of(raw("terminal too small")));
        let size = "need ".to_owned().concat(decimal_of(MIN_WIDTH as u64).as_str()).concat(
            "x",
        ).concat(decimal_of(MIN_HEIGHT as u64).as_str()).concat(", have ").concat(
            decimal_of(width as u64).as_str(),
        ).concat("x").concat(decimal_of(height as u64).as_str());
        push_line(&mut v, line_of(raw(size.as_str())));
        assert(line_views(v@) == screen(app@, width, height, now)->TooSmall_0);
        return Screen::TooSmall(v);
    }
    let header = render_header(app);
    let devices = devices::render(app.devices.as_slice(), app.server_up);
    let footer = render_footer(app);
    match &app.pairing {
        Some(p) => {
            let pane: u16 = min_size(&p.qr).0;
            let elapsed: u64 = if now >= p.started {
                (now - p.started) / 1_000_000_000
            } else {
                0
            };
            let view = PairView { qr: &p.qr, phase: &p.phase, elapsed, timeout: p.timeout };
            let lines = pair::render(&view, app.tick);
            Screen::Panes {
                header,
                devices,
                pane,
                pairing: Some(lines),
                journal_rows: 0,
                journal: None,
                footer,
            }
        },
        None => Screen::Panes {
            header,
            devices,
            pane: 0,
            pairing: None,
            journal_rows: JOURNAL_ROWS,
            journal: Some(render_logs(app.logs.as_slice(), JOURNAL_ROWS)),
            footer,
        },
    }
}

/// The declared minimum is enough for a pairing code: at that size, or any larger, the rows
/// between header and footer hold the whole pane while the journal is folded away, and the columns
/// hold it beside the device table.
pub proof fn the_minimum_size_fits_the_code(qr: MatrixView, width: u16, height: u16)
    requires
        qr.width <= 37,
        width >= MIN_WIDTH,
        height >= MIN_HEIGHT,
    ensures
        pane_size(qr).1 <= height - HEADER_ROWS - FOOTER_ROWS,
        pane_size(qr).0 + 30 <= width,
{
}

// ---------------------------------------------------------------------------
// Keys
// ---------------------------------------------------------------------------

/// A key press.
#[derive(Debug, Clone, Copy, PartialEq, Eq, Structural)]
pub enum Key {
    Char(char),
    Esc,
    Other,
}

/// What a key press asks of the program around the application. A worker that is running has to be
/// told to stop where `signal` says so.
#[derive(Debug, Clone, Copy, PartialEq, Eq, Structural)]
pub enum KeyAction {
    Ignored,
    Quit { signal: bool },
    Cancel { signal: bool },
    Refresh,
    /// Begin a pairing that lasts so many seconds.
    Pair { seconds: u64 },
    Install,
    Start,
}

impl KeyAction {
    /// Whether the screen should be drawn anew at once.
    pub fn redraws(self) -> (r: bool)
        ensures
            r == !(self is Ignored),
    {
        !matches!(self, KeyAction::Ignored)
    }
}

/// What a key does. Keys that make no sense right now do nothing.
pub open spec fn key_step(app: AppView, key: Key) -> (AppView, KeyAction) {
    match key {
        Key::Char('q') | Key::Char('Q') => (
            AppView { should_quit: true, ..app.cancelled() },
            KeyAction::Quit { signal: app.worker },
        ),
        Key::Esc => if app.pairing is Some {
            (
                AppView { message: "pairing cancelled"@, ..app.cancelled() },
                KeyAction::Cancel { signal: app.worker },
            )
        } else {
            (app, KeyAction::Ignored)
        },
        Key::Char('r') => (app, KeyAction::Refresh),
        Key::Char('p') => if app.pairing is None {
            (app, KeyAction::Pair { seconds: 120 })
        } else {
            (app, KeyAction::Ignored)
        },
        Key::Char('i') => if app.unit is NotInstalled {
            (app, KeyAction::Install)
        } else {
            (app, KeyAction::Ignored)
        },
        Key::Char('s') => if app.unit is Inactive {
            (app, KeyAction::Start)
        } else {
            (app, KeyAction::Ignored)
        },
        _ => (app, KeyAction::Ignored),
    }
}

/// One key press. Quitting must stop the worker too, or it keeps browsing and can pair and connect
/// after the screen is gone.
pub fn handle_key(app: &mut App, key: Key) -> (r: KeyAction)
    requires
        old(app)@.wf(),
    ensures
        (final(app)@, r) == key_step(old(app)@, key),
        final(app)@.wf(),
{
    match key {
        Key::Char('q') | Key::Char('Q') => {
            let signal = app.cancel_pairing();
            app.should_quit = true;
            KeyAction::Quit { signal }
        },
        Key::Esc => {
            if app.pairing.is_some() {
                let signal = app.cancel_pairing();
                app.message = "pairing cancelled".to_owned();
                KeyAction::Cancel { signal }
            } else {
                KeyAction::Ignored
            }
        },
        Key::Char('r') => KeyAction::Refresh,
        Key::Char('p') => {
            if app.pairing.is_none() {
                KeyAction::Pair { seconds: 120 }
            } else {
                KeyAction::Ignored
            }
        },
        Key::Char('i') => {
            if matches!(app.unit, UnitState::NotInstalled) {
                KeyAction::Install
            } else {
                KeyAction::Ignored
            }
        },
        Key::Char('s') => {
            if matches!(app.unit, UnitState::Inactive) {
                KeyAction::Start
            } else {
                KeyAction::Ignored
            }
        },
        _ => KeyAction::Ignored,
    }
}

/// What is said of an install: "`enable --now` returned 0" is not "the unit owns the port".
pub open spec fn install_message(result: Result<(Seq<char>, PortOwner), Seq<char>>) -> Seq<char> {
    match result {
        Ok((adb, PortOwner::Ours(pid))) => "supervising "@ + adb + " (pid "@ + decimal(pid as nat)
            + ")"@,
        Ok((_, PortOwner::Nobody)) => "installed, but the unit is not listening yet"@,
        Ok((_, _)) => "installed, but another adb server holds the port - press t"@,
        Err(e) => "install failed: "@ + e,
    }
}

impl App {
    /// Take in what came of an install, and the unit's state after it.
    pub fn installed(&mut self, result: Result<(String, PortOwner), String>, unit: UnitState)
        requires
            old(self)@.wf(),
        ensures
            final(self)@ == (AppView {
                message: install_message(
                    match result {
                        Ok((adb, owner)) => Ok((adb@, owner)),
                        Err(e) => Err(e@),
                    },
                ),
                unit,
                ..old(self)@
            }),
            final(self)@.wf(),
    {
        self.message = match result {
            Ok((adb, owner)) => match owner {
                PortOwner::Ours(pid) => "supervising ".to_owned().concat(adb.as_str()).concat(
                    " (pid ",
                ).concat(decimal_of(pid as u64).as_str()).concat(")"),
                PortOwner::Nobody => "installed, but the unit is not listening yet".to_owned(),
                PortOwner::Foreign | PortOwner::HeldUnknown =>
                    "installed, but another adb server holds the port - press t".to_owned(),
            },
            Err(e) => "install failed: ".to_owned().concat(e.as_str()),
        };
        self.unit = unit;
    }

    /// Take in what came of starting the unit, and its state after that.
    pub fn started(&mut self, result: Result<(), String>, unit: UnitState)
        requires
            old(self)@.wf(),
        ensures
            final(self)@ == (AppView {
                message: match result {
                    Ok(_) => "unit started"@,
                    Err(e) => "could not start the unit: "@ + e@,
                },
                unit,
                ..old(self)@
            }),
            final(self)@.wf(),
    {
        self.message = match result {
            Ok(_) => "unit started".to_owned(),
            Err(e) => "could not start the unit: ".to_owned().concat(e.as_str()),
        };
        self.unit = unit;
    }

    /// One turn of the loop is over.
    pub fn advance(&mut self)
        requires
            old(self)@.wf(),
        ensures
            final(self)@ == (AppView {
                tick: if old(self)@.tick == u64::MAX {
                    0
                } else {
                    (old(self)@.tick + 1) as u64
                },
                ..old(self)@
            }),
            final(self)@.wf(),
    {
        self.tick = if self.tick == u64::MAX {
            0
        } else {
            self.tick + 1
        };
    }
}

/// Whether what is shown is two seconds old, in nanoseconds.
pub fn refresh_due(last: u64, now: u64) -> (r: bool)
    ensures
        r == (now - last >= 2_000_000_000),
{
    now >= last && now - last >= 2_000_000_000
}

/// No key is offered that would do nothing. While no code is on the screen, no key that would do
/// something is held back either, but for the capital that quits too.
pub proof fn offered_keys_are_the_keys_that_work(app: AppView)
    ensures
        app.pairing is Some ==> {
            &&& offered_keys(app) == seq![("esc"@, "cancel pairing"@), ("q"@, "quit"@)]
            &&& !(key_step(app, Key::Esc).1 is Ignored)
            &&& !(key_step(app, Key::Char('q')).1 is Ignored)
        },
        app.pairing is None ==> {
            let keys = offered_keys(app);
            let works = |c: char| !(key_step(app, Key::Char(c)).1 is Ignored);
            &&& keys.contains(("i"@, "install"@)) <==> works('i')
            &&& keys.contains(("s"@, "start"@)) <==> works('s')
            &&& keys.contains(("p"@, "pair"@)) <==> works('p')
            &&& keys.contains(("r"@, "refresh"@)) <==> works('r')
            &&& keys.contains(("q"@, "quit"@)) <==> works('q')
        },
        app.pairing is None ==> forall|c: char|
            !(c == 'i' || c == 's' || c == 'p' || c == 'r' || c == 'q' || c == 'Q')
                ==> #[trigger] key_step(app, Key::Char(c)).1 is Ignored,
{
    if app.pairing is None {
        reveal_strlit("i");
        reveal_strlit("s");
        reveal_strlit("p");
        reveal_strlit("r");
        reveal_strlit("q");
        let keys = offered_keys(app);
        assert("i"@[0] == 'i' && "s"@[0] == 's' && "p"@[0] == 'p' && "r"@[0] == 'r' && "q"@[0]
            == 'q');
        let n = keys.len() as int;
        assert(keys[n - 1] == ("q"@, "quit"@));
        assert(keys[n - 2] == ("r"@, "refresh"@));
        assert(keys[n - 3] == ("p"@, "pair"@));
        if app.unit is NotInstalled {
            assert(keys[0] == ("i"@, "install"@));
        }
        if app.unit is Inactive {
            assert(keys[0] == ("s"@, "start"@));
        }
    }
}

/// While a worker runs, every way out of a pairing tells it to stop.
pub proof fn leaving_a_pairing_stops_the_worker(app: AppView, key: Key)
    requires
        app.worker,
        app.pairing is Some,
        key_step(app, key).0.pairing is None || key_step(app, key).0.should_quit != app.should_quit,
    ensures
        key_step(app, key).1 == (KeyAction::Quit { signal: true }) || key_step(app, key).1 == (
        KeyAction::Cancel { signal: true }),
        !key_step(app, key).0.worker,
{
}

/// Before anything is installed nothing is read from a server, whatever is on the port, and no
/// pairing can begin.
pub proof fn nothing_is_read_before_an_install(
    app: AppView,
    up: bool,
    list: Option<Seq<DeviceView>>,
    owner: PortOwner,
)
    requires
        app.unit is NotInstalled,
    ensures
        refreshed(app, up, list, owner).devices.len() == 0,
        !refreshed(app, up, list, owner).server_up,
        refreshed(app, up, list, owner).owner is Nobody,
        app.refusal() is Some,
{
}

/// Only wireless devices are listed, whatever the server reports.
pub proof fn only_wireless_devices_are_listed(
    app: AppView,
    up: bool,
    list: Option<Seq<DeviceView>>,
    owner: PortOwner,
    i: int,
)
    requires
        0 <= i < refreshed(app, up, list, owner).devices.len(),
    ensures
        refreshed(app, up, list, owner).devices[i].transport.wireless(),
        list is Some && list->0.contains(refreshed(app, up, list, owner).devices[i]),
{
    let keep = |d: DeviceView| d.transport.wireless();
    let shown = list->0.filter(keep);
    list->0.lemma_filter_pred(keep, i);
    list->0.lemma_filter_contains_rev(keep, shown[i]);
    assert(keep(shown[i]));
}

/// The journal is on the screen exactly while no code is, so that the code has its height.
pub proof fn the_journal_folds_away_while_pairing(app: AppView, width: u16, height: u16, now: u64)
    requires
        width >= MIN_WIDTH,
        height >= MIN_HEIGHT,
    ensures
        screen(app, width, height, now) matches ScreenView::Panes {
            pairing,
            journal_rows,
            journal,
            ..
        } && {
            &&& pairing is Some <==> app.pairing is Some
            &&& journal is None <==> app.pairing is Some
            &&& journal_rows == 0 <==> app.pairing is Some
        },
{
}

} // verus!
