//! The pairing pane: the QR the phone scans, and what happened after it did.

use crate::num::{decimal, decimal_of};
use crate::qr::{code_lines, Matrix, MatrixView};
use crate::screen::{
    line_of, line_views, push_line, raw, raw_text, styled, styled_text, Color, Line, SpanView,
    Style,
};
use vstd::prelude::*;

verus! {

#[derive(Debug, Clone, PartialEq, Eq)]
pub enum Phase {
    /// QR is on screen; waiting for the phone to scan it and advertise itself.
    Waiting,
    /// The phone was found; running `adb pair`.
    Pairing(String),
    Connected(String),
    Failed(String),
}

pub enum PhaseView {
    Waiting,
    Pairing(Seq<char>),
    Connected(Seq<char>),
    Failed(Seq<char>),
}

impl View for Phase {
    type V = PhaseView;

    open spec fn view(&self) -> PhaseView {
        match self {
            Phase::Waiting => PhaseView::Waiting,
            Phase::Pairing(host) => PhaseView::Pairing(host@),
            Phase::Connected(what) => PhaseView::Connected(what@),
            Phase::Failed(why) => PhaseView::Failed(why@),
        }
    }
}

pub struct PairView<'a> {
    pub qr: &'a Matrix,
    pub phase: &'a Phase,
    pub elapsed: u64,
    pub timeout: u64,
}

/// The frames of the spinner.
pub open spec fn spinner_frame(tick: u64) -> Seq<char> {
    if tick % 4 == 0 {
        "⠋"@
    } else if tick % 4 == 1 {
        "⠙"@
    } else if tick % 4 == 2 {
        "⠹"@
    } else {
        "⠸"@
    }
}

fn spinner(tick: u64) -> (r: &'static str)
    ensures
        r@ == spinner_frame(tick),
{
    if tick % 4 == 0 {
        "⠋"
    } else if tick % 4 == 1 {
        "⠙"
    } else if tick % 4 == 2 {
        "⠹"
    } else {
        "⠸"
    }
}

/// The time left; none once it is over.
pub open spec fn seconds_left(timeout: u64, elapsed: u64) -> nat {
    if timeout > elapsed {
        (timeout - elapsed) as nat
    } else {
        0
    }
}

/// The lines below the code.
pub open spec fn status_lines(phase: PhaseView, elapsed: u64, timeout: u64, tick: u64) -> Seq<
    Seq<SpanView>,
> {
    match phase {
        PhaseView::Waiting => seq![
            seq![
                styled_text(
                    spinner_frame(tick) + " waiting for a scan  "@ + decimal(
                        seconds_left(timeout, elapsed),
                    ) + "s left"@,
                    Style::ink(Color::Cyan),
                ),
            ],
            seq![
                styled_text(
                    "Settings -> Developer options -> Wireless debugging -> Pair device with QR code"@,
                    Style::ink(Color::DarkGray),
                ),
            ],
        ],
        PhaseView::Pairing(host) => seq![
            seq![
                styled_text(
                    spinner_frame(tick) + " pairing with "@ + host,
                    Style::ink(Color::Cyan),
                ),
            ],
        ],
        PhaseView::Connected(what) => seq![
            seq![styled_text("paired and connected: "@ + what, Style::ink(Color::Green))],
        ],
        PhaseView::Failed(why) => seq![
            seq![styled_text("failed: "@ + why, Style::ink(Color::Red))],
        ],
    }
}

/// The pane: the code, a blank line, and how things stand.
pub open spec fn pair_lines(
    qr: MatrixView,
    phase: PhaseView,
    elapsed: u64,
    timeout: u64,
    tick: u64,
) -> Seq<Seq<SpanView>> {
    code_lines(qr) + seq![seq![raw_text(""@)]] + status_lines(phase, elapsed, timeout, tick)
}

pub fn render(view: &PairView, tick: u64) -> (r: Vec<Line>)
    requires
        view.qr@.wf(),
    ensures
        line_views(r@) == pair_lines(view.qr@, view.phase@, view.elapsed, view.timeout, tick),
{
    let mut lines = view.qr.to_lines();
    push_line(&mut lines, line_of(raw("")));
    let ghost top = code_lines(view.qr@) + seq![seq![raw_text(""@)]];
    assert(line_views(lines@) == top);
    match view.phase {
        Phase::Waiting => {
            let left: u64 = if view.timeout > view.elapsed {
                view.timeout - view.elapsed
            } else {
                0
            };
            let text = spinner(tick).to_owned().concat(" waiting for a scan  ").concat(
                decimal_of(left).as_str(),
            ).concat("s left");
            push_line(&mut lines, line_of(styled(text, Style::fg(Color::Cyan))));
            push_line(
                &mut lines,
                line_of(
                    styled(
                        "Settings -> Developer options -> Wireless debugging -> Pair device with QR code".to_owned(),
                        Style::fg(Color::DarkGray),
                    ),
                ),
            );
        },
        Phase::Pairing(host) => {
            let text = spinner(tick).to_owned().concat(" pairing with ").concat(host.as_str());
            push_line(&mut lines, line_of(styled(text, Style::fg(Color::Cyan))));
        },
        Phase::Connected(what) => {
            let text = "paired and connected: ".to_owned().concat(what.as_str());
            push_line(&mut lines, line_of(styled(text, Style::fg(Color::Green))));
        },
        Phase::Failed(why) => {
            let text = "failed: ".to_owned().concat(why.as_str());
            push_line(&mut lines, line_of(styled(text, Style::fg(Color::Red))));
        },
    }
    assert(line_views(lines@) == top + status_lines(
        view.phase@,
        view.elapsed,
        view.timeout,
        tick,
    ));
    lines
}

/// Cells the pane needs: the code plus its borders. The width of the matrix counts the quiet zone
/// already. Below the code come a blank, the status line, and the instruction line, which wraps to
/// three.
pub open spec fn pane_size(qr: MatrixView) -> (nat, nat) {
    (qr.width + 2, (qr.width + 1) / 2 + 7)
}

pub fn min_size(qr: &Matrix) -> (r: (u16, u16))
    requires
        qr@.width <= 65533,
    ensures
        (r.0 as nat, r.1 as nat) == pane_size(qr@),
{
    let w: usize = qr.side();
    ((w + 2) as u16, ((w + 1) / 2 + 7) as u16)
}

} // verus!
