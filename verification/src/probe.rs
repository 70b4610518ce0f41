//! The isolated probe: a server of its own on a scratch port, asked whether it has an mDNS
//! backend. Each step takes what has just happened and says what to do next.

use crate::adb::{mdns_line, parse_mdns_check, MdnsSupport};
use crate::text::opt_text;
use vstd::prelude::*;

verus! {

/// How often a server is started before the probe gives up. A clash over the port is a race and
/// must not be reported as a bad binary.
pub const ATTEMPTS: u32 = 3;

/// How long a server is asked before it counts as silent, in nanoseconds. Its backend takes a
/// moment to come up, and too tight a budget reports a good binary as having none.
pub const LIFETIME: u64 = 6_000_000_000;

/// How long a server has to initialise before an empty reply counts, in nanoseconds.
pub const SETTLING: u64 = 2_000_000_000;

/// How long one check may take, in nanoseconds.
pub const CHECK_TIME: u64 = 2_500_000_000;

/// The pause between two checks, in nanoseconds.
pub const PAUSE: u64 = 150_000_000;

/// What the probe knows so far.
#[derive(Debug, PartialEq, Eq)]
pub struct Probe {
    /// Servers asked for so far.
    pub attempts: u32,
    pub answered: Option<MdnsSupport>,
    pub last_err: Option<String>,
}

pub struct ProbeView {
    pub attempts: nat,
    pub answered: Option<Option<Seq<char>>>,
    pub last_err: Option<Seq<char>>,
}

impl View for Probe {
    type V = ProbeView;

    open spec fn view(&self) -> ProbeView {
        ProbeView {
            attempts: self.attempts as nat,
            answered: match self.answered {
                Some(a) => Some(a@),
                None => None,
            },
            last_err: opt_text(self.last_err),
        }
    }
}

impl Probe {
    pub open spec fn wf(self) -> bool {
        1 <= self.attempts <= ATTEMPTS
    }

    /// A probe that has asked for its first server.
    pub fn begin() -> (r: Probe)
        ensures
            r.wf(),
            r@ == (ProbeView { attempts: 1, answered: None, last_err: None }),
    {
        Probe { attempts: 1, answered: None, last_err: None }
    }
}

/// What has just happened.
#[derive(Debug, PartialEq, Eq)]
pub enum ProbeEvent {
    /// The server asked for is running.
    Spawned,
    /// The server could not be started.
    SpawnFailed(String),
    /// The server has exited, with this status.
    Exited(String),
    /// A check came back: its output, unless it failed or timed out, and whether the server had
    /// had time to initialise by then.
    Checked { out: Option<String>, settled: bool },
    /// The time for this server is up. It may still be running.
    Deadline { running: bool },
}

pub enum ProbeEventView {
    Spawned,
    SpawnFailed(Seq<char>),
    Exited(Seq<char>),
    Checked { out: Option<Seq<char>>, settled: bool },
    Deadline { running: bool },
}

impl View for ProbeEvent {
    type V = ProbeEventView;

    open spec fn view(&self) -> ProbeEventView {
        match self {
            ProbeEvent::Spawned => ProbeEventView::Spawned,
            ProbeEvent::SpawnFailed(e) => ProbeEventView::SpawnFailed(e@),
            ProbeEvent::Exited(status) => ProbeEventView::Exited(status@),
            ProbeEvent::Checked { out, settled } => ProbeEventView::Checked {
                out: opt_text(*out),
                settled: *settled,
            },
            ProbeEvent::Deadline { running } => ProbeEventView::Deadline { running: *running },
        }
    }
}

/// What to do next.
#[derive(Debug, PartialEq, Eq)]
pub enum ProbeAction {
    /// Start a server on a free port.
    Start,
    /// Wait a moment, then look at the clock and the server, and check again.
    Check,
    /// Report what the binary supports.
    Report(MdnsSupport),
    /// Give up, with this reason.
    Fail(String),
}

pub enum ProbeActionView {
    Start,
    Check,
    Report(Option<Seq<char>>),
    Fail(Seq<char>),
}

impl View for ProbeAction {
    type V = ProbeActionView;

    open spec fn view(&self) -> ProbeActionView {
        match self {
            ProbeAction::Start => ProbeActionView::Start,
            ProbeAction::Check => ProbeActionView::Check,
            ProbeAction::Report(m) => ProbeActionView::Report(m@),
            ProbeAction::Fail(why) => ProbeActionView::Fail(why@),
        }
    }
}

/// Another server while attempts are left, else the last thing that went wrong.
pub open spec fn next_attempt(p: ProbeView, adb: Seq<char>) -> (ProbeView, ProbeActionView) {
    if p.attempts < ATTEMPTS {
        (
            ProbeView { attempts: p.attempts + 1, answered: None, ..p },
            ProbeActionView::Start,
        )
    } else {
        (
            ProbeView { answered: None, ..p },
            ProbeActionView::Fail(
                match p.last_err {
                    Some(e) => e,
                    None => "could not probe "@ + adb,
                },
            ),
        )
    }
}

/// One step of the probe.
///
/// A check that fails or times out is inconclusive, never evidence of absence. An empty reply is
/// how a build without a backend answers, so it counts once the server has had time to
/// initialise; and a server that outlives its time without a conclusive reply counts as absent.
pub open spec fn probe_step(p: ProbeView, adb: Seq<char>, e: ProbeEventView) -> (
    ProbeView,
    ProbeActionView,
) {
    match e {
        ProbeEventView::Spawned => (ProbeView { answered: None, ..p }, ProbeActionView::Check),
        ProbeEventView::SpawnFailed(e) => next_attempt(
            ProbeView { last_err: Some("could not start "@ + adb + ": "@ + e), ..p },
            adb,
        ),
        ProbeEventView::Exited(status) => next_attempt(
            ProbeView {
                last_err: Some(
                    "probe server for "@ + adb + " exited early ("@ + status
                        + "); the port may be taken"@,
                ),
                ..p
            },
            adb,
        ),
        ProbeEventView::Checked { out: Some(out), settled } => match mdns_line(out) {
            Some(line) => (
                ProbeView { answered: Some(Some(line)), ..p },
                ProbeActionView::Report(Some(line)),
            ),
            None => (
                if settled {
                    ProbeView { answered: Some(None), ..p }
                } else {
                    p
                },
                ProbeActionView::Check,
            ),
        },
        ProbeEventView::Checked { out: None, settled } => (p, ProbeActionView::Check),
        ProbeEventView::Deadline { running } => match p.answered {
            Some(a) => (p, ProbeActionView::Report(a)),
            None => if running {
                (p, ProbeActionView::Report(None))
            } else {
                next_attempt(p, adb)
            },
        },
    }
}

fn another(p: Probe, adb: &str) -> (r: (Probe, ProbeAction))
    requires
        p.wf(),
    ensures
        r.0.wf(),
        (r.0@, r.1@) == next_attempt(p@, adb@),
{
    if p.attempts < ATTEMPTS {
        (
            Probe { attempts: p.attempts + 1, answered: None, last_err: p.last_err },
            ProbeAction::Start,
        )
    } else {
        match p.last_err {
            Some(e) => (
                Probe { attempts: p.attempts, answered: None, last_err: Some(e.clone()) },
                ProbeAction::Fail(e),
            ),
            None => (
                Probe { attempts: p.attempts, answered: None, last_err: None },
                ProbeAction::Fail("could not probe ".to_owned().concat(adb)),
            ),
        }
    }
}

fn copy_support(m: &MdnsSupport) -> (r: MdnsSupport)
    ensures
        r@ == m@,
{
    match m {
        MdnsSupport::Present(line) => MdnsSupport::Present(line.clone()),
        MdnsSupport::Absent => MdnsSupport::Absent,
    }
}

/// Start `adb` as its own server on a scratch port and ask *that* server whether it has an mDNS
/// backend: what to do after `event`.
pub fn probe_mdns_support(p: Probe, adb: &str, event: ProbeEvent) -> (r: (Probe, ProbeAction))
    requires
        p.wf(),
    ensures
        r.0.wf(),
        (r.0@, r.1@) == probe_step(p@, adb@, event@),
{
    match event {
        ProbeEvent::Spawned => (
            Probe { attempts: p.attempts, answered: None, last_err: p.last_err },
            ProbeAction::Check,
        ),
        ProbeEvent::SpawnFailed(e) => {
            let why = "could not start ".to_owned().concat(adb).concat(": ").concat(e.as_str());
            another(
                Probe { attempts: p.attempts, answered: p.answered, last_err: Some(why) },
                adb,
            )
        },
        ProbeEvent::Exited(status) => {
            let why = "probe server for ".to_owned().concat(adb).concat(" exited early (").concat(
                status.as_str(),
            ).concat("); the port may be taken");
            another(
                Probe { attempts: p.attempts, answered: p.answered, last_err: Some(why) },
                adb,
            )
        },
        ProbeEvent::Checked { out: Some(out), settled } => match parse_mdns_check(out.as_str()) {
            MdnsSupport::Present(line) => {
                let answer = MdnsSupport::Present(line);
                (
                    Probe {
                        attempts: p.attempts,
                        answered: Some(copy_support(&answer)),
                        last_err: p.last_err,
                    },
                    ProbeAction::Report(answer),
                )
            },
            MdnsSupport::Absent => {
                if settled {
                    (
                        Probe {
                            attempts: p.attempts,
                            answered: Some(MdnsSupport::Absent),
                            last_err: p.last_err,
                        },
                        ProbeAction::Check,
                    )
                } else {
                    (p, ProbeAction::Check)
                }
            },
        },
        ProbeEvent::Checked { out: None, settled: _ } => (p, ProbeAction::Check),
        ProbeEvent::Deadline { running } => {
            let seen = match &p.answered {
                Some(a) => Some(copy_support(a)),
                None => None,
            };
            match seen {
                Some(a) => (p, ProbeAction::Report(a)),
                None => {
                    if running {
                        (p, ProbeAction::Report(MdnsSupport::Absent))
                    } else {
                        another(p, adb)
                    }
                },
            }
        },
    }
}

/// What a look at the clock and the server comes to, before a check: the end of its time comes
/// first, then an exit; otherwise it is asked.
pub fn look(started: u64, now: u64, exited: Option<String>) -> (r: Option<ProbeEvent>)
    ensures
        now - started >= LIFETIME ==> r == Some(
            ProbeEvent::Deadline { running: exited is None },
        ),
        now - started < LIFETIME ==> match exited {
            Some(status) => r == Some(ProbeEvent::Exited(status)),
            None => r is None,
        },
{
    if now >= started && now - started >= LIFETIME {
        return Some(ProbeEvent::Deadline { running: exited.is_none() });
    }
    match exited {
        Some(status) => Some(ProbeEvent::Exited(status)),
        None => None,
    }
}

/// What a check that has come back amounts to.
pub fn checked(started: u64, now: u64, out: Option<String>) -> (r: ProbeEvent)
    ensures
        r == (ProbeEvent::Checked { out, settled: now - started > SETTLING }),
{
    let settled = now > started && now - started > SETTLING;
    ProbeEvent::Checked { out, settled }
}

/// The state after a run of events, and the action that follows the last of them.
pub open spec fn probe_run(p: ProbeView, adb: Seq<char>, events: Seq<ProbeEventView>) -> ProbeView
    decreases events.len(),
{
    if events.len() == 0 {
        p
    } else {
        probe_step(probe_run(p, adb, events.drop_last()), adb, events.last()).0
    }
}

/// A check that failed or timed out changes nothing: it is never evidence of absence.
pub proof fn a_lost_check_says_nothing(p: ProbeView, adb: Seq<char>, settled: bool)
    ensures
        probe_step(p, adb, ProbeEventView::Checked { out: None, settled }) == (
            p,
            ProbeActionView::Check,
        ),
{
}

/// A binary is reported as having a backend only on a reply that names one, seen by the server
/// that is running now.
pub proof fn present_is_only_reported_from_a_reply(
    p: ProbeView,
    adb: Seq<char>,
    e: ProbeEventView,
    line: Seq<char>,
)
    requires
        probe_step(p, adb, e).1 == ProbeActionView::Report(Some(line)),
        p.answered != Some(Some(line)),
    ensures
        e matches ProbeEventView::Checked { out: Some(out), settled } && mdns_line(out) == Some(
            line,
        ),
{
}

/// Absence is reported only once the server's time is up.
pub proof fn absence_waits_for_the_deadline(p: ProbeView, adb: Seq<char>, e: ProbeEventView)
    requires
        probe_step(p, adb, e).1 == ProbeActionView::Report(None),
    ensures
        e is Deadline,
{
}

/// However the events fall, no more than the allowed number of servers is started.
pub proof fn attempts_are_bounded(p: ProbeView, adb: Seq<char>, events: Seq<ProbeEventView>)
    requires
        p.attempts <= ATTEMPTS,
    ensures
        p.attempts <= probe_run(p, adb, events).attempts <= ATTEMPTS,
    decreases events.len(),
{
    if events.len() > 0 {
        attempts_are_bounded(p, adb, events.drop_last());
    }
}

} // verus!
