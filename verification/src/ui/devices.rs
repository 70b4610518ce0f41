//! The wireless devices table.

use crate::adb::{devices as device_views, Device, DeviceView, Transport};
use crate::screen::{
    line_of, line_views, push_line, raw, raw_text, spans, styled, styled_text, Color, Line,
    SpanView, Style,
};
use crate::text::{chars_of, str_eq, string_of, strip_suffix, without_suffix};
use vstd::prelude::*;

verus! {

/// The colour of a state.
pub open spec fn state_color(state: Seq<char>) -> Color {
    if state == "device"@ {
        Color::Green
    } else if state == "offline"@ {
        Color::Yellow
    } else if state == "unauthorized"@ {
        Color::Red
    } else {
        Color::DarkGray
    }
}

pub fn state_style(state: &str) -> (r: Style)
    ensures
        r == Style::ink(state_color(state@)),
{
    if str_eq(state, "device") {
        Style::fg(Color::Green)
    } else if str_eq(state, "offline") {
        Style::fg(Color::Yellow)
    } else if str_eq(state, "unauthorized") {
        Style::fg(Color::Red)
    } else {
        Style::fg(Color::DarkGray)
    }
}

pub open spec fn state_mark(state: Seq<char>) -> Seq<char> {
    if state == "device"@ {
        "●"@
    } else if state == "offline"@ {
        "○"@
    } else if state == "unauthorized"@ {
        "▲"@
    } else {
        "·"@
    }
}

pub fn state_glyph(state: &str) -> (r: &'static str)
    ensures
        r@ == state_mark(state@),
{
    if str_eq(state, "device") {
        "●"
    } else if str_eq(state, "offline") {
        "○"
    } else if str_eq(state, "unauthorized") {
        "▲"
    } else {
        "·"
    }
}

/// The word for a transport.
pub open spec fn transport_word(t: Transport) -> Seq<char> {
    match t {
        Transport::Mdns => "mdns"@,
        Transport::Tcp => "tcp"@,
        Transport::Emulator => "emu"@,
        Transport::Usb => "usb"@,
    }
}

pub fn how(t: Transport) -> (r: &'static str)
    ensures
        r@ == transport_word(t),
{
    match t {
        Transport::Mdns => "mdns",
        Transport::Tcp => "tcp",
        Transport::Emulator => "emu",
        Transport::Usb => "usb",
    }
}

/// A serial without the service it came from.
pub open spec fn serial_head(serial: Seq<char>) -> Seq<char> {
    match strip_suffix(serial, "._adb-tls-connect._tcp"@) {
        Some(head) => head,
        None => serial,
    }
}

/// Shorten an mDNS serial, which is far too long for a column but whose middle segment is the
/// phone's actual identity.
pub fn short_serial(serial: &str) -> (r: String)
    ensures
        r@ == serial_head(serial@),
{
    let s = chars_of(serial);
    match without_suffix(s.as_slice(), "._adb-tls-connect._tcp") {
        Some(head) => string_of(head),
        None => serial.to_owned(),
    }
}

/// What the pane shows: lines when there is nothing to list, else a row of cells for each device.
#[derive(Debug, PartialEq, Eq)]
pub enum DevicesPane {
    Message(Vec<Line>),
    Table(Vec<Line>),
}

pub enum PaneView {
    Message(Seq<Seq<SpanView>>),
    Table(Seq<Seq<SpanView>>),
}

impl View for DevicesPane {
    type V = PaneView;

    open spec fn view(&self) -> PaneView {
        match self {
            DevicesPane::Message(v) => PaneView::Message(line_views(v@)),
            DevicesPane::Table(v) => PaneView::Table(line_views(v@)),
        }
    }
}

/// The cells of a device's row.
pub open spec fn device_cells(d: DeviceView) -> Seq<SpanView> {
    let style = Style::ink(state_color(d.state));
    seq![
        styled_text(state_mark(d.state), style),
        raw_text(
            match d.model {
                Some(m) => m,
                None => "-"@,
            },
        ),
        raw_text(serial_head(d.serial)),
        styled_text(d.state, style),
        styled_text(transport_word(d.transport), Style::ink(Color::DarkGray)),
    ]
}

/// What is said in place of an empty table.
pub open spec fn empty_message(server_up: bool) -> Seq<Seq<SpanView>> {
    if !server_up {
        seq![
            seq![styled_text("adb server is not running"@, Style::ink(Color::Red))],
            seq![raw_text(""@)],
            seq![raw_text("press i to install the service, or s to start it"@)],
        ]
    } else {
        seq![
            seq![styled_text("no wireless devices"@, Style::ink(Color::DarkGray))],
            seq![raw_text(""@)],
            seq![raw_text("press p to pair a phone over QR"@)],
            seq![
                styled_text(
                    "USB devices stay available to adb but are not listed here"@,
                    Style::ink(Color::DarkGray),
                ),
            ],
        ]
    }
}

/// The pane as a whole.
pub open spec fn devices_pane(devices: Seq<DeviceView>, server_up: bool) -> PaneView {
    if devices.len() == 0 {
        PaneView::Message(empty_message(server_up))
    } else {
        PaneView::Table(devices.map_values(|d: DeviceView| device_cells(d)))
    }
}

fn device_row(d: &Device) -> (r: Line)
    ensures
        r@ == device_cells(d@),
{
    let style = state_style(d.state.as_str());
    let model = match &d.model {
        Some(m) => m.clone(),
        None => "-".to_owned(),
    };
    let cells = vec![
        styled(state_glyph(d.state.as_str()).to_owned(), style),
        raw(model.as_str()),
        raw(short_serial(d.serial.as_str()).as_str()),
        styled(d.state.clone(), style),
        styled(how(d.transport).to_owned(), Style::fg(Color::DarkGray)),
    ];
    let r = Line { spans: cells };
    assert(r@ == device_cells(d@));
    r
}

pub fn render(devices: &[Device], server_up: bool) -> (r: DevicesPane)
    ensures
        r@ == devices_pane(device_views(devices@), server_up),
{
    assert(device_views(devices@).len() == devices@.len());
    if devices.len() == 0 {
        let mut v: Vec<Line> = Vec::new();
        assert(line_views(v@) == Seq::<Seq<SpanView>>::empty());
        if !server_up {
            push_line(
                &mut v,
                line_of(styled("adb server is not running".to_owned(), Style::fg(Color::Red))),
            );
            push_line(&mut v, line_of(raw("")));
            push_line(&mut v, line_of(raw("press i to install the service, or s to start it")));
        } else {
            push_line(
                &mut v,
                line_of(styled("no wireless devices".to_owned(), Style::fg(Color::DarkGray))),
            );
            push_line(&mut v, line_of(raw("")));
            push_line(&mut v, line_of(raw("press p to pair a phone over QR")));
            push_line(
                &mut v,
                line_of(
                    styled(
                        "USB devices stay available to adb but are not listed here".to_owned(),
                        Style::fg(Color::DarkGray),
                    ),
                ),
            );
        }
        assert(line_views(v@) == empty_message(server_up));
        return DevicesPane::Message(v);
    }
    let ghost all = device_views(devices@).map_values(|d: DeviceView| device_cells(d));
    let mut v: Vec<Line> = Vec::new();
    let mut i: usize = 0;
    assert(line_views(v@) == all.take(0));
    while i < devices.len()
        invariant
            i <= devices.len(),
            all == device_views(devices@).map_values(|d: DeviceView| device_cells(d)),
            line_views(v@) == all.take(i as int),
        decreases devices.len() - i,
    {
        push_line(&mut v, device_row(&devices[i]));
        assert(all.take(i + 1) == all.take(i as int).push(all[i as int]));
        i += 1;
    }
    assert(all.take(i as int) == all);
    DevicesPane::Table(v)
}

} // verus!
