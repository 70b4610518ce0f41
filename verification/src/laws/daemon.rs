//! What the watcher dials, what it leaves alone, and what it remembers.

use crate::adb::{devices as device_views, Device, DeviceView};
use crate::daemon::{
    already_attached, attached, backed_off, cleared, decide, decision, dialed, endpoints,
    failed_again, is_entry_of, is_settled, live, pass_lines, report, result_text, run, settle,
    settling_reports_nothing, start_pass, Action, ActionView, Failures, Outcome, Pass, PassView,
    Standing, Start, Step,
};
use crate::discovery::{first_label, services, Found, FoundView};
use crate::laws::lists::{is_pick, lemma_filter_picks, lemma_same_pick, picked_at};
use crate::text::{join, texts};
use vstd::prelude::*;

verus! {

// ---------------------------------------------------------------------------
// One service
// ---------------------------------------------------------------------------

/// Whether a device of the list is this service, in a usable state: attached at one of the
/// endpoints that it advertises, or under its mDNS name.
pub open spec fn shows(d: DeviceView, f: FoundView) -> bool {
    &&& d.state == "device"@ || d.state == "unauthorized"@
    &&& d.transport is Tcp || d.transport is Mdns
    &&& d.transport is Tcp ==> exists|k: int|
        0 <= k < endpoints(f).len() && #[trigger] endpoints(f)[k] == d.serial
    &&& d.transport is Mdns ==> first_label(d.serial) == first_label(f.fullname)
}

/// Whether the list shows the service.
pub open spec fn shown(devices: Seq<DeviceView>, f: FoundView) -> bool {
    exists|i: int| 0 <= i < devices.len() && shows(#[trigger] devices[i], f)
}

/// Whether an endpoint is left alone: it has failed three times or more in a row, and the last of
/// them is less than a minute ago.
pub open spec fn left_alone(history: Map<Seq<char>, (u32, u64)>, ep: Seq<char>, now: u64) -> bool {
    &&& history.dom().contains(ep)
    &&& history[ep].0 >= 3
    &&& now < history[ep].1 + 60_000_000_000
}

/// Whether an endpoint may be dialed now.
pub open spec fn may_be_dialed(
    history: Map<Seq<char>, (u32, u64)>,
    now: u64,
) -> spec_fn(Seq<char>) -> bool {
    |ep: Seq<char>| !left_alone(history, ep, now)
}

pub proof fn lemma_shown(devices: Seq<DeviceView>, f: FoundView)
    ensures
        shown(devices, f) <==> attached(f, devices),
{
    if shown(devices, f) {
        let i = choose|i: int| 0 <= i < devices.len() && shows(#[trigger] devices[i], f);
        if devices[i].transport is Tcp {
            let k = choose|k: int|
                0 <= k < endpoints(f).len() && #[trigger] endpoints(f)[k] == devices[i].serial;
            assert(endpoints(f).contains(devices[i].serial));
        }
        assert(is_settled(devices[i]) && is_entry_of(devices[i], f));
    }
    if attached(f, devices) {
        let i = choose|i: int|
            0 <= i < devices.len() && is_settled(#[trigger] devices[i]) && is_entry_of(
                devices[i],
                f,
            );
        if devices[i].transport is Tcp {
            let k = choose|k: int|
                0 <= k < endpoints(f).len() && endpoints(f)[k] == devices[i].serial;
            assert(endpoints(f)[k] == devices[i].serial);
        }
        assert(shows(devices[i], f));
    }
}

pub proof fn lemma_left_alone(history: Map<Seq<char>, (u32, u64)>, ep: Seq<char>, now: u64)
    ensures
        left_alone(history, ep, now) <==> backed_off(history, ep, now),
{
}

/// A service counts as attached exactly where the list shows it.
pub proof fn a_service_is_attached_where_the_list_shows_it(
    found: &Found,
    devices: &[Device],
    r: bool,
)
    requires
        call_ensures(already_attached, (found, devices), r),
    ensures
        r <==> shown(device_views(devices@), found@),
{
    lemma_shown(device_views(devices@), found@);
}

/// What the watcher does about a service: nothing where it has no address to dial or is attached,
/// and otherwise a connect to each of its endpoints that is not left alone, in order. It backs off
/// only where every one of them is.
pub proof fn a_missing_service_is_dialed(
    found: &Found,
    devices: &[Device],
    failures: &Failures,
    now: u64,
    r: Action,
)
    requires
        failures.wf(),
        call_ensures(decide, (found, devices, failures, now), r),
    ensures
        ({
            let eps = endpoints(found@);
            let at = shown(device_views(devices@), found@);
            let open = exists|k: int|
                0 <= k < eps.len() && !left_alone(failures@, #[trigger] eps[k], now);
            &&& r is NoUsableAddress <==> eps.len() == 0
            &&& r is AlreadyAttached <==> eps.len() > 0 && at
            &&& r is Connect <==> eps.len() > 0 && !at && open
            &&& r is BackingOff <==> eps.len() > 0 && !at && !open
            &&& r matches Action::Connect(v) ==> is_pick(
                eps,
                may_be_dialed(failures@, now),
                texts(v@),
            )
        }),
{
    lemma_decision(found@, device_views(devices@), failures@, now);
}

pub proof fn lemma_decision(
    f: FoundView,
    devices: Seq<DeviceView>,
    history: Map<Seq<char>, (u32, u64)>,
    now: u64,
)
    ensures
        ({
            let eps = endpoints(f);
            let at = shown(devices, f);
            let open = exists|k: int|
                0 <= k < eps.len() && !left_alone(history, #[trigger] eps[k], now);
            let d = decision(f, devices, history, now);
            &&& d is NoUsableAddress <==> eps.len() == 0
            &&& d is AlreadyAttached <==> eps.len() > 0 && at
            &&& d is Connect <==> eps.len() > 0 && !at && open
            &&& d is BackingOff <==> eps.len() > 0 && !at && !open
            &&& d matches ActionView::Connect(v) ==> v.len() > 0 && is_pick(
                eps,
                may_be_dialed(history, now),
                v,
            )
        }),
{
    let eps = endpoints(f);
    let keep = |ep: Seq<char>| !backed_off(history, ep, now);
    let v = eps.filter(keep);
    lemma_shown(devices, f);
    lemma_filter_picks(eps, keep);
    assert(eps.len() == crate::pairing::usable(f.addresses).len());
    let at = choose|at: Seq<int>| picked_at(eps, keep, v, at);
    if v.len() > 0 {
        assert(0 <= at[0] < eps.len());
        assert(at.contains(at[0]));
        assert(keep(eps[at[0]]));
        assert(!left_alone(history, eps[at[0]], now));
    } else {
        assert forall|k: int| 0 <= k < eps.len() implies left_alone(
            history,
            #[trigger] eps[k],
            now,
        ) by {
            assert(keep(eps[k]) <==> at.contains(k));
            assert(!at.contains(k));
        }
    }
    let open = may_be_dialed(history, now);
    assert forall|i: int| 0 <= i < eps.len() implies (keep(#[trigger] eps[i]) <==> open(eps[i])) by {
        lemma_left_alone(history, eps[i], now);
    }
    lemma_same_pick(eps, keep, open, v);
}

// ---------------------------------------------------------------------------
// What is remembered
// ---------------------------------------------------------------------------

/// A failure is counted, and when it was is noted. Nothing else changes.
pub proof fn a_failure_is_counted(failures: &mut Failures, ep: &str, now: u64)
    requires
        old(failures).wf(),
        call_ensures(Failures::record, (failures, ep, now), ()),
    ensures
        ({
            let before = old(failures)@;
            let after = final(failures)@;
            &&& after.dom().contains(ep@)
            &&& after[ep@].1 == now
            &&& !before.dom().contains(ep@) ==> after[ep@].0 == 1
            &&& before.dom().contains(ep@) && before[ep@].0 < u32::MAX ==> after[ep@].0
                == before[ep@].0 + 1
            &&& forall|other: Seq<char>|
                other != ep@ ==> (#[trigger] after.dom().contains(other) <==> before.dom().contains(
                    other,
                ))
            &&& forall|other: Seq<char>|
                other != ep@ && #[trigger] after.dom().contains(other) ==> after[other]
                    == before[other]
        }),
{
}

/// Whether one of the services found advertises an endpoint.
pub open spec fn advertised(found: Seq<FoundView>, ep: Seq<char>) -> bool {
    exists|i: int, k: int|
        0 <= i < found.len() && 0 <= k < endpoints(found[i]).len() && #[trigger] endpoints(
            found[i],
        )[k] == ep
}

/// Whether a service that advertises an endpoint is shown in the device list.
pub open spec fn shown_at(found: Seq<FoundView>, devices: Seq<DeviceView>, ep: Seq<char>) -> bool {
    exists|i: int|
        0 <= i < found.len() && shown(devices, #[trigger] found[i]) && endpoints(
            found[i],
        ).contains(ep)
}

pub proof fn lemma_live(found: Seq<FoundView>, ep: Seq<char>)
    ensures
        live(found).contains(ep) <==> advertised(found, ep),
    decreases found.len(),
{
    if found.len() > 0 {
        let init = found.drop_last();
        let n = found.len() - 1;
        lemma_live(init, ep);
        let a = live(init);
        let b = endpoints(found.last());
        if live(found).contains(ep) {
            let j = choose|j: int| 0 <= j < live(found).len() && live(found)[j] == ep;
            if j < a.len() {
                assert(a[j] == ep);
                assert(a.contains(ep));
                let (i, k) = choose|i: int, k: int|
                    0 <= i < init.len() && 0 <= k < endpoints(init[i]).len()
                        && #[trigger] endpoints(init[i])[k] == ep;
                assert(init[i] == found[i]);
                assert(endpoints(found[i])[k] == ep);
            } else {
                assert(b[j - a.len()] == ep);
                assert(endpoints(found[n])[j - a.len()] == ep);
            }
        }
        if advertised(found, ep) {
            let (i, k) = choose|i: int, k: int|
                0 <= i < found.len() && 0 <= k < endpoints(found[i]).len() && #[trigger] endpoints(
                    found[i],
                )[k] == ep;
            if i < n {
                assert(init[i] == found[i]);
                assert(endpoints(init[i])[k] == ep);
                let j = choose|j: int| 0 <= j < a.len() && a[j] == ep;
                assert(live(found)[j] == ep);
            } else {
                assert(live(found)[a.len() + k] == ep);
            }
        }
    }
}

/// A stretch of a pass adds nothing to what is remembered, and forgets nothing of an endpoint that
/// is advertised and whose services are not attached.
proof fn lemma_settle_remembers(s: Standing, now: u64, ep: Seq<char>)
    requires
        s.pass.wf(),
    ensures
        settle(s, now).failures.dom().contains(ep) ==> s.failures.dom().contains(ep) && settle(
            s,
            now,
        ).failures[ep] == s.failures[ep],
        s.failures.dom().contains(ep) && advertised(s.pass.found, ep) && !shown_at(
            s.pass.found,
            s.pass.devices,
            ep,
        ) ==> settle(s, now).failures.dom().contains(ep),
        settle(s, now).pass.queue.len() == 0 && settle(s, now).failures.dom().contains(ep)
            ==> advertised(s.pass.found, ep),
    decreases s.pass.found.len() - s.pass.service,
{
    let p = s.pass;
    lemma_live(p.found, ep);
    if p.queue.len() == 0 {
        if p.service >= p.found.len() {
            let kept = Set::new(|k: Seq<char>| live(p.found).contains(k));
            assert(settle(s, now).failures == s.failures.restrict(kept));
            assert(kept.contains(ep) <==> live(p.found).contains(ep));
        } else {
            let next = PassView { service: p.service + 1, ..p };
            let f = p.found[p.service as int];
            match decision(f, p.devices, s.failures, now) {
                ActionView::Connect(eps) => {
                    lemma_decision(f, p.devices, s.failures, now);
                },
                ActionView::AlreadyAttached => {
                    lemma_decision(f, p.devices, s.failures, now);
                    let t = Standing { pass: next, failures: cleared(s.failures, f) };
                    lemma_settle_remembers(t, now, ep);
                    let out = Set::new(|k: Seq<char>| !endpoints(f).contains(k));
                    assert(t.failures == s.failures.restrict(out));
                    assert(out.contains(ep) <==> !endpoints(f).contains(ep));
                    if endpoints(f).contains(ep) {
                        assert(shown(p.devices, p.found[p.service as int]));
                        assert(shown_at(p.found, p.devices, ep));
                    }
                },
                _ => {
                    lemma_settle_remembers(Standing { pass: next, ..s }, now, ep);
                },
            }
        }
    }
}

/// What a step of a pass makes of the history. An endpoint keeps its count and its time, as long as
/// any of the services found advertises it, unless it is the one that has just failed, or one of
/// its services is attached or has just been connected to. The one that has just failed is counted
/// once more. Nothing is remembered that was not, and at the end of a pass, nothing that is no
/// longer advertised.
pub proof fn a_pass_remembers_what_failed(
    pass: &mut Pass,
    failures: &mut Failures,
    result: Option<Result<String, String>>,
    now: u64,
    r: Step,
    ep: Seq<char>,
)
    requires
        old(pass)@.wf(),
        old(failures).wf(),
        result is Some <==> old(pass)@.queue.len() > 0,
        call_ensures(Pass::tick, (pass, failures, result, now), r),
    ensures
        ({
            let p = old(pass)@;
            let h = old(failures)@;
            let after = final(failures)@;
            let dialed_now = p.queue.len() > 0 && ep == p.queue[0];
            let just_failed = dialed_now && result matches Some(Err(_));
            let just_worked = (result matches Some(Ok(_))) && endpoints(
                p.found[p.service as int],
            ).contains(ep);
            let keeps = advertised(p.found, ep) && !shown_at(p.found, p.devices, ep)
                && !just_worked;
            &&& h.dom().contains(ep) && !just_failed && keeps ==> after.dom().contains(ep)
                && after[ep] == h[ep]
            &&& just_failed && keeps ==> {
                &&& after.dom().contains(ep)
                &&& after[ep].1 == now
                &&& !h.dom().contains(ep) ==> after[ep].0 == 1
                &&& h.dom().contains(ep) && h[ep].0 < u32::MAX ==> after[ep].0 == h[ep].0 + 1
            }
            &&& just_worked ==> !after.dom().contains(ep)
            &&& after.dom().contains(ep) && !just_failed ==> h.dom().contains(ep) && after[ep]
                == h[ep]
            &&& r is Done && after.dom().contains(ep) ==> advertised(p.found, ep)
        }),
{
    let s = Standing { pass: old(pass)@, failures: old(failures)@ };
    let t = match result {
        Some(result) => dialed(s, result_text(result), now),
        None => s,
    };
    assert(t.pass.wf());
    lemma_settle_remembers(t, now, ep);
    if let Some(Ok(_)) = result {
        let f = s.pass.found[s.pass.service as int];
        let out = Set::new(|k: Seq<char>| !endpoints(f).contains(k));
        assert(t.failures == s.failures.restrict(out));
        assert(out.contains(ep) <==> !endpoints(f).contains(ep));
    }
}

// ---------------------------------------------------------------------------
// What is dialed
// ---------------------------------------------------------------------------

/// Whether there is nothing to do about a service.
pub open spec fn needs_nothing(
    f: FoundView,
    devices: Seq<DeviceView>,
    history: Map<Seq<char>, (u32, u64)>,
    now: u64,
) -> bool {
    shown(devices, f) || forall|k: int|
        0 <= k < endpoints(f).len() ==> left_alone(history, #[trigger] endpoints(f)[k], now)
}

proof fn lemma_settle_dials(s: Standing, now: u64)
    requires
        s.pass.wf(),
        s.pass.queue.len() == 0,
    ensures
        ({
            let p = s.pass;
            let t = settle(s, now);
            let q = t.pass;
            &&& q.found == p.found && q.devices == p.devices
            &&& p.service <= q.service <= p.found.len()
            &&& q.connected == p.connected && q.failed == p.failed
            &&& forall|j: int|
                p.service <= j < q.service ==> needs_nothing(
                    #[trigger] p.found[j],
                    p.devices,
                    s.failures,
                    now,
                )
            &&& q.queue.len() == 0 ==> q.service == p.found.len()
            &&& q.queue.len() > 0 ==> {
                let f = p.found[q.service as int];
                &&& q.service < p.found.len()
                &&& !shown(p.devices, f)
                &&& is_pick(endpoints(f), may_be_dialed(t.failures, now), q.queue)
                &&& q.errors.len() == 0
            }
        }),
    decreases s.pass.found.len() - s.pass.service,
{
    let p = s.pass;
    let t = settle(s, now);
    if p.service < p.found.len() {
        let next = PassView { service: p.service + 1, ..p };
        let f = p.found[p.service as int];
        lemma_decision(f, p.devices, s.failures, now);
        match decision(f, p.devices, s.failures, now) {
            ActionView::Connect(eps) => {},
            ActionView::AlreadyAttached => {
                let u = Standing { pass: next, failures: cleared(s.failures, f) };
                lemma_settle_dials(u, now);
                assert forall|j: int| p.service <= j < t.pass.service implies needs_nothing(
                    #[trigger] p.found[j],
                    p.devices,
                    s.failures,
                    now,
                ) by {
                    if j > p.service {
                        assert(needs_nothing(p.found[j], p.devices, u.failures, now));
                        lemma_fewer_failures(p.found[j], p.devices, s.failures, f, now);
                    }
                }
            },
            _ => {
                let u = Standing { pass: next, ..s };
                lemma_settle_dials(u, now);
                assert forall|j: int| p.service <= j < t.pass.service implies needs_nothing(
                    #[trigger] p.found[j],
                    p.devices,
                    s.failures,
                    now,
                ) by {
                    if j > p.service {
                        assert(needs_nothing(p.found[j], p.devices, u.failures, now));
                    }
                }
            },
        }
    }
}

proof fn lemma_fewer_failures(
    g: FoundView,
    devices: Seq<DeviceView>,
    history: Map<Seq<char>, (u32, u64)>,
    f: FoundView,
    now: u64,
)
    requires
        needs_nothing(g, devices, cleared(history, f), now),
    ensures
        needs_nothing(g, devices, history, now),
{
    if !shown(devices, g) {
        let out = Set::new(|k: Seq<char>| !endpoints(f).contains(k));
        assert(cleared(history, f) == history.restrict(out));
        assert forall|k: int| 0 <= k < endpoints(g).len() implies left_alone(
            history,
            #[trigger] endpoints(g)[k],
            now,
        ) by {
            assert(left_alone(cleared(history, f), endpoints(g)[k], now));
        }
    }
}

/// A pass takes up every service that is missing, in the order in which they were found. What it
/// passes over needs nothing: it is attached, or each of its endpoints is left alone. When it comes
/// to a service that does, it dials the first of those endpoints of it that may be dialed; and it
/// is over only when it has come to the last service.
pub proof fn no_missing_service_is_passed_over(
    pass: &mut Pass,
    failures: &mut Failures,
    now: u64,
    r: Step,
)
    requires
        old(pass)@.wf(),
        old(failures).wf(),
        old(pass)@.queue.len() == 0,
        call_ensures(Pass::tick, (pass, failures, None, now), r),
    ensures
        ({
            let p = old(pass)@;
            let q = final(pass)@;
            &&& q.found == p.found && q.devices == p.devices
            &&& q.connected == p.connected && q.failed == p.failed
            &&& p.service <= q.service <= p.found.len()
            &&& forall|j: int|
                p.service <= j < q.service ==> needs_nothing(
                    #[trigger] p.found[j],
                    p.devices,
                    old(failures)@,
                    now,
                )
            &&& r is Done ==> q.service == p.found.len()
            &&& r matches Step::Dial(ep) ==> {
                let f = p.found[q.service as int];
                &&& q.service < p.found.len()
                &&& !shown(p.devices, f)
                &&& is_pick(endpoints(f), may_be_dialed(final(failures)@, now), q.queue)
                &&& q.queue.len() > 0 && ep@ == q.queue[0]
            }
        }),
{
    lemma_settle_dials(Standing { pass: old(pass)@, failures: old(failures)@ }, now);
}

/// What comes of a dial. One that works makes the service connected, as adb put it, and the pass
/// goes on to the next. One that fails makes way for the next endpoint; when there is none left,
/// the service has failed, for all the reasons there were.
pub proof fn every_dial_is_accounted_for(
    pass: &mut Pass,
    failures: &mut Failures,
    result: Result<String, String>,
    now: u64,
    r: Step,
)
    requires
        old(pass)@.wf(),
        old(failures).wf(),
        old(pass)@.queue.len() > 0,
        call_ensures(Pass::tick, (pass, failures, Some(result), now), r),
    ensures
        ({
            let p = old(pass)@;
            let q = final(pass)@;
            &&& q.found == p.found && q.devices == p.devices
            &&& result matches Ok(line) ==> q.connected == p.connected.push(line@) && q.failed
                == p.failed && q.service > p.service
            &&& result matches Err(why) ==> {
                let errors = p.errors.push(p.queue[0] + ": "@ + why@);
                &&& q.connected == p.connected
                &&& p.queue.len() > 1 ==> {
                    &&& q.failed == p.failed && q.errors == errors && q.service == p.service
                    &&& q.queue == p.queue.skip(1)
                    &&& r matches Step::Dial(ep) && ep@ == p.queue[1]
                }
                &&& p.queue.len() == 1 ==> q.failed == p.failed.push(join(errors, "; "@))
                    && q.service > p.service
            }
            &&& r matches Step::Done(outcome) ==> texts(outcome.connected@) == q.connected && texts(
                outcome.failed@,
            ) == q.failed && q.service == q.found.len()
        }),
{
    let s = Standing { pass: old(pass)@, failures: old(failures)@ };
    let t = dialed(s, result_text(result), now);
    assert(t.pass.wf());
    settling_reports_nothing(t, now);
    if t.pass.queue.len() == 0 {
        lemma_settle_dials(t, now);
    }
}

/// A pass begins with every service that was found, and with the newer of the device lists.
pub proof fn a_pass_begins_with_all_that_was_found(
    found: Vec<Found>,
    before: Vec<Device>,
    after: Option<Vec<Device>>,
    r: Pass,
)
    requires
        call_ensures(Pass::begin, (found, before, after), r),
    ensures
        r@.wf(),
        r@.found.len() == found@.len(),
        forall|i: int| 0 <= i < found@.len() ==> #[trigger] r@.found[i] == found@[i]@,
        after matches Some(d) ==> r@.devices == device_views(d@),
        after is None ==> r@.devices == device_views(before@),
        r@.service == 0,
        r@.queue.len() == 0,
        r@.connected.len() == 0,
        r@.failed.len() == 0,
{
}

/// A pass says a line for each service that it connected, and then one for each that failed.
pub proof fn a_line_for_every_service(outcome: &Outcome, r: Vec<String>)
    requires
        call_ensures(report, (outcome,), r),
    ensures
        ({
            let c = outcome.connected@.len() as int;
            &&& r@.len() == c + outcome.failed@.len()
            &&& forall|i: int| 0 <= i < c ==> (#[trigger] r@[i])@ == "wadb: "@ + outcome.connected@[i]@
            &&& forall|i: int|
                c <= i < r@.len() ==> (#[trigger] r@[i])@ == "wadb: connect failed: "@
                    + outcome.failed@[i - c]@
        }),
{
    let c = outcome.connected@.len() as int;
    let lines = pass_lines(texts(outcome.connected@), texts(outcome.failed@));
    assert(texts(r@).len() == r@.len());
    assert forall|i: int| 0 <= i < r@.len() implies (#[trigger] r@[i])@ == lines[i] by {
        assert(texts(r@)[i] == r@[i]@);
    }
}

/// Without a server nothing is done, and without a device list nothing is dialed: a list that could
/// not be read is not an empty one.
pub proof fn a_pass_needs_a_server_and_a_list(up: bool, list: Option<Vec<Device>>, r: Start)
    requires
        call_ensures(start_pass, (up, list), r),
    ensures
        r is Idle <==> !up,
        r is Browse <==> up && list is Some,
        r is Skip <==> up && list is None,
        r matches Start::Browse(d) ==> list == Some(d),
{
}

/// The history gives back what was put in, and nothing else is changed by it.
pub proof fn the_history_gives_back(
    failures: &mut Failures,
    ep: &str,
    count: u32,
    last: u64,
    after: &Failures,
    other: &str,
    r: Option<(u32, u64)>,
    s: Option<(u32, u64)>,
    before: &Failures,
    t: Option<(u32, u64)>,
)
    requires
        old(failures).wf(),
        call_ensures(Failures::insert, (failures, ep, count, last), ()),
        *after == *final(failures),
        *before == *old(failures),
        other@ != ep@,
        call_ensures(Failures::get, (after, ep), r),
        call_ensures(Failures::get, (after, other), s),
        call_ensures(Failures::get, (before, other), t),
    ensures
        r == Some((count, last)),
        s == t,
{
}

/// A new history is empty.
pub proof fn a_new_history_is_empty(failures: Failures, ep: &str, r: Option<(u32, u64)>)
    requires
        call_ensures(Failures::new, (), failures),
        call_ensures(Failures::get, (&failures, ep), r),
    ensures
        r is None,
{
}

/// What the watcher says of a pass: each line that the pass has, or why it broke off.
pub proof fn what_the_watcher_says(
    result: &Result<Outcome, String>,
    outcome: &Outcome,
    r: Vec<String>,
    lines: Vec<String>,
)
    requires
        call_ensures(run, (result,), r),
        result matches Ok(o) ==> *outcome == o,
        call_ensures(report, (outcome,), lines),
    ensures
        result is Ok ==> texts(r@) == texts(lines@),
        result matches Err(e) ==> r@.len() == 1 && r@[0]@ == "wadb: pass failed: "@ + e@,
{
    assert(texts(r@).len() == r@.len());
    if result is Err {
        assert(texts(r@)[0] == r@[0]@);
    }
}

// ---------------------------------------------------------------------------
// One pass after another
// ---------------------------------------------------------------------------

/// Whether an endpoint is the one at `k` of the service at `i`, and no other.
pub open spec fn only_at(found: Seq<FoundView>, ep: Seq<char>, i: int, k: int) -> bool {
    &&& 0 <= i < found.len()
    &&& 0 <= k < endpoints(found[i]).len()
    &&& endpoints(found[i])[k] == ep
    &&& forall|x: int, y: int|
        0 <= x < found.len() && 0 <= y < endpoints(found[x]).len() && #[trigger] endpoints(
            found[x],
        )[y] == ep ==> x == i && y == k
}

/// How often an endpoint has failed in a row.
pub open spec fn failures_of(history: Map<Seq<char>, (u32, u64)>, ep: Seq<char>) -> int {
    if history.dom().contains(ep) {
        history[ep].0 as int
    } else {
        0
    }
}

/// Whether two histories say the same of an endpoint.
spec fn same_of(
    a: Map<Seq<char>, (u32, u64)>,
    b: Map<Seq<char>, (u32, u64)>,
    ep: Seq<char>,
) -> bool {
    &&& a.dom().contains(ep) <==> b.dom().contains(ep)
    &&& a.dom().contains(ep) ==> a[ep] == b[ep]
}

/// Whether an endpoint has failed once more, at one of the times up to `n`.
spec fn once_more(
    before: Map<Seq<char>, (u32, u64)>,
    after: Map<Seq<char>, (u32, u64)>,
    ep: Seq<char>,
    times: spec_fn(int) -> u64,
    n: int,
) -> bool {
    &&& after.dom().contains(ep)
    &&& after[ep].0 == failures_of(before, ep) + 1
    &&& exists|m: int| 0 < m <= n && after[ep].1 == #[trigger] times(m)
}

spec fn at_most_once(queue: Seq<Seq<char>>, ep: Seq<char>) -> bool {
    forall|a: int, b: int|
        0 <= a < queue.len() && 0 <= b < queue.len() && #[trigger] queue[a] == ep
            && #[trigger] queue[b] == ep ==> a == b
}

/// How far a pass has come with one endpoint.
spec fn has_come_to(
    s: Standing,
    before: Map<Seq<char>, (u32, u64)>,
    found: Seq<FoundView>,
    devices: Seq<DeviceView>,
    ep: Seq<char>,
    i: int,
    times: spec_fn(int) -> u64,
    n: int,
) -> bool {
    let p = s.pass;
    &&& p.wf()
    &&& p.found == found
    &&& p.devices == devices
    &&& crate::daemon::queue_is_warranted(p)
    &&& p.service < i ==> same_of(s.failures, before, ep)
    &&& p.service == i && p.queue.len() == 0 ==> same_of(s.failures, before, ep)
    &&& p.service == i && p.queue.len() > 0 ==> at_most_once(p.queue, ep) && (if p.queue.contains(
        ep,
    ) {
        same_of(s.failures, before, ep)
    } else {
        once_more(before, s.failures, ep, times, n)
    })
    &&& p.service > i ==> once_more(before, s.failures, ep, times, n)
}

proof fn lemma_pick_holds(
    src: Seq<Seq<char>>,
    keep: spec_fn(Seq<char>) -> bool,
    out: Seq<Seq<char>>,
    k: int,
)
    requires
        is_pick(src, keep, out),
        0 <= k < src.len(),
        keep(src[k]),
        forall|y: int| 0 <= y < src.len() && #[trigger] src[y] == src[k] ==> y == k,
    ensures
        out.contains(src[k]),
        at_most_once(out, src[k]),
{
    let at = choose|at: Seq<int>| picked_at(src, keep, out, at);
    assert(at.contains(k));
    let j = choose|j: int| 0 <= j < at.len() && at[j] == k;
    assert(out[j] == src[at[j]]);
    assert forall|a: int, b: int|
        0 <= a < out.len() && 0 <= b < out.len() && #[trigger] out[a] == src[k]
            && #[trigger] out[b] == src[k] implies a == b by {
        assert(out[a] == src[at[a]] && out[b] == src[at[b]]);
        assert(at[a] == k && at[b] == k);
        if a < b {
            assert(at[a] < at[b]);
        } else if b < a {
            assert(at[b] < at[a]);
        }
    }
}

proof fn lemma_settle_comes_to(
    s: Standing,
    now: u64,
    before: Map<Seq<char>, (u32, u64)>,
    found: Seq<FoundView>,
    devices: Seq<DeviceView>,
    ep: Seq<char>,
    i: int,
    k: int,
    times: spec_fn(int) -> u64,
    n: int,
)
    requires
        only_at(found, ep, i, k),
        !shown(devices, found[i]),
        !left_alone(before, ep, now),
        has_come_to(s, before, found, devices, ep, i, times, n),
    ensures
        has_come_to(settle(s, now), before, found, devices, ep, i, times, n),
        settle(s, now).pass.queue.len() == 0 ==> settle(s, now).pass.service == found.len(),
        s.pass.queue.len() == 0 && settle(s, now).pass.service == i ==> settle(
            s,
            now,
        ).pass.queue.len() > 0,
{
    let p = s.pass;
    let t = settle(s, now);
    let q = t.pass;
    settling_reports_nothing(s, now);
    crate::daemon::only_missing_services_are_dialed(s, Ok(Seq::empty()), now);
    assert(advertised(found, ep)) by {
        assert(endpoints(found[i])[k] == ep);
    }
    assert(!shown_at(found, devices, ep)) by {
        if shown_at(found, devices, ep) {
            let x = choose|x: int|
                0 <= x < found.len() && shown(devices, #[trigger] found[x]) && endpoints(
                    found[x],
                ).contains(ep);
            let y = choose|y: int| 0 <= y < endpoints(found[x]).len() && endpoints(found[x])[y] == ep;
            assert(endpoints(found[x])[y] == ep);
        }
    }
    lemma_settle_remembers(s, now, ep);
    if p.queue.len() == 0 {
        lemma_settle_dials(s, now);
        if p.service <= i && q.service > i {
            assert(needs_nothing(p.found[i], p.devices, s.failures, now));
            assert(left_alone(s.failures, endpoints(found[i])[k], now));
        }
        if p.service <= i && q.service == i && q.queue.len() > 0 {
            let keep = may_be_dialed(t.failures, now);
            assert(same_of(t.failures, before, ep));
            assert(keep(endpoints(found[i])[k]));
            assert forall|y: int|
                0 <= y < endpoints(found[i]).len() && #[trigger] endpoints(found[i])[y] == endpoints(
                    found[i],
                )[k] implies y == k by {}
            lemma_pick_holds(endpoints(found[i]), keep, q.queue, k);
        }
    }
}

proof fn lemma_dial_comes_to(
    s: Standing,
    why: Seq<char>,
    before: Map<Seq<char>, (u32, u64)>,
    found: Seq<FoundView>,
    devices: Seq<DeviceView>,
    ep: Seq<char>,
    i: int,
    k: int,
    times: spec_fn(int) -> u64,
    n: int,
)
    requires
        only_at(found, ep, i, k),
        0 <= n,
        failures_of(before, ep) < u32::MAX,
        s.pass.queue.len() > 0,
        has_come_to(s, before, found, devices, ep, i, times, n),
    ensures
        has_come_to(
            dialed(s, Err(why), times(n + 1)),
            before,
            found,
            devices,
            ep,
            i,
            times,
            n + 1,
        ),
{
    let p = s.pass;
    let now = times(n + 1);
    let t = dialed(s, Err(why), now);
    let q = t.pass;
    crate::daemon::only_missing_services_are_dialed(s, Err(why), now);
    let f = found[p.service as int];
    let first = p.queue[0];
    assert(endpoints(f).contains(first));
    let y = choose|y: int| 0 <= y < endpoints(f).len() && endpoints(f)[y] == first;
    assert(endpoints(found[p.service as int])[y] == first);
    assert(t.failures == failed_again(s.failures, first, now));
    if first == ep {
        assert(p.service == i);
        assert(p.queue.contains(ep));
        assert(once_more(before, t.failures, ep, times, n + 1));
        if p.queue.len() > 1 {
            assert(q.queue == p.queue.skip(1));
            if q.queue.contains(ep) {
                let a = choose|a: int| 0 <= a < q.queue.len() && q.queue[a] == ep;
                assert(p.queue[a + 1] == ep && p.queue[0] == ep);
            }
            assert(at_most_once(q.queue, ep)) by {
                assert forall|a: int, b: int|
                    0 <= a < q.queue.len() && 0 <= b < q.queue.len() && #[trigger] q.queue[a] == ep
                        && #[trigger] q.queue[b] == ep implies a == b by {
                    assert(p.queue[a + 1] == ep && p.queue[b + 1] == ep);
                }
            }
        }
    } else {
        assert(same_of(t.failures, s.failures, ep));
        if once_more(before, s.failures, ep, times, n) {
            let m = choose|m: int| 0 < m <= n && s.failures[ep].1 == #[trigger] times(m);
            assert(0 < m <= n + 1 && t.failures[ep].1 == times(m));
        }
        if p.service == i && p.queue.len() > 1 {
            assert(q.queue == p.queue.skip(1));
            if p.queue.contains(ep) {
                let a = choose|a: int| 0 <= a < p.queue.len() && p.queue[a] == ep;
                assert(q.queue[a - 1] == ep);
            }
            if q.queue.contains(ep) {
                let a = choose|a: int| 0 <= a < q.queue.len() && q.queue[a] == ep;
                assert(p.queue[a + 1] == ep);
            }
            assert(at_most_once(q.queue, ep)) by {
                assert forall|a: int, b: int|
                    0 <= a < q.queue.len() && 0 <= b < q.queue.len() && #[trigger] q.queue[a] == ep
                        && #[trigger] q.queue[b] == ep implies a == b by {
                    assert(p.queue[a + 1] == ep && p.queue[b + 1] == ep);
                }
            }
        }
        if p.service == i && p.queue.len() == 1 {
            if p.queue.contains(ep) {
                let a = choose|a: int| 0 <= a < p.queue.len() && p.queue[a] == ep;
                assert(a == 0);
            }
        }
    }
}

proof fn lemma_run_comes_to(
    s: Standing,
    results: spec_fn(int) -> Result<Seq<char>, Seq<char>>,
    times: spec_fn(int) -> u64,
    n: nat,
    ep: Seq<char>,
    i: int,
    k: int,
)
    requires
        s.pass.wf(),
        s.pass.service == 0,
        s.pass.queue.len() == 0,
        only_at(s.pass.found, ep, i, k),
        !shown(s.pass.devices, s.pass.found[i]),
        failures_of(s.failures, ep) < u32::MAX,
        forall|m: int| 0 <= m <= n ==> !left_alone(s.failures, ep, #[trigger] times(m)),
        forall|m: int| 0 <= m < n ==> #[trigger] results(m) is Err,
        forall|m: nat|
            m < n ==> (#[trigger] crate::daemon::standing_after(
                s,
                results,
                times,
                m,
            )).pass.queue.len() > 0,
    ensures
        has_come_to(
            crate::daemon::standing_after(s, results, times, n),
            s.failures,
            s.pass.found,
            s.pass.devices,
            ep,
            i,
            times,
            n as int,
        ),
        crate::daemon::standing_after(s, results, times, n).pass.queue.len() == 0
            ==> crate::daemon::standing_after(s, results, times, n).pass.service
            == s.pass.found.len(),
    decreases n,
{
    let found = s.pass.found;
    let devices = s.pass.devices;
    let b = crate::daemon::standing_before(s, results, times, n);
    if n > 0 {
        let m = (n - 1) as nat;
        lemma_run_comes_to(s, results, times, m, ep, i, k);
        let last = crate::daemon::standing_after(s, results, times, m);
        assert(last.pass.queue.len() > 0);
        assert(results(m as int) is Err);
        let why = results(m as int)->Err_0;
        lemma_dial_comes_to(
            last,
            why,
            s.failures,
            found,
            devices,
            ep,
            i,
            k,
            times,
            m as int,
        );
        assert(b == dialed(last, results(m as int), times(n as int)));
    } else {
        assert(b == s);
    }
    lemma_settle_comes_to(
        b,
        times(n as int),
        s.failures,
        found,
        devices,
        ep,
        i,
        k,
        times,
        n as int,
    );
}

/// A pass over a missing service at which every dial fails counts one failure more at each endpoint
/// of it that was not left alone, however many other services are advertised.
pub proof fn a_failed_pass_counts_once(
    s: Standing,
    results: spec_fn(int) -> Result<Seq<char>, Seq<char>>,
    times: spec_fn(int) -> u64,
    n: nat,
    ep: Seq<char>,
    i: int,
    k: int,
)
    requires
        s.pass.wf(),
        s.pass.service == 0,
        s.pass.queue.len() == 0,
        only_at(s.pass.found, ep, i, k),
        !shown(s.pass.devices, s.pass.found[i]),
        failures_of(s.failures, ep) < u32::MAX,
        forall|m: int| 0 <= m <= n ==> !left_alone(s.failures, ep, #[trigger] times(m)),
        forall|m: int| 0 <= m < n ==> #[trigger] results(m) is Err,
        forall|m: nat|
            m < n ==> (#[trigger] crate::daemon::standing_after(
                s,
                results,
                times,
                m,
            )).pass.queue.len() > 0,
        crate::daemon::standing_after(s, results, times, n).pass.queue.len() == 0,
    ensures
        ({
            let after = crate::daemon::standing_after(s, results, times, n).failures;
            &&& after.dom().contains(ep)
            &&& after[ep].0 == failures_of(s.failures, ep) + 1
            &&& exists|m: int| 0 < m <= n && after[ep].1 == #[trigger] times(m)
        }),
{
    lemma_run_comes_to(s, results, times, n, ep, i, k);
}

/// A pass that begins.
pub open spec fn beginning(
    found: Seq<FoundView>,
    devices: Seq<DeviceView>,
    history: Map<Seq<char>, (u32, u64)>,
) -> Standing {
    Standing {
        pass: PassView {
            found,
            devices,
            service: 0,
            queue: seq![],
            errors: seq![],
            connected: seq![],
            failed: seq![],
        },
        failures: history,
    }
}

/// Whether a pass at which every dial fails leads from one history to another.
pub open spec fn fails_throughout(
    found: Seq<FoundView>,
    devices: Seq<DeviceView>,
    before: Map<Seq<char>, (u32, u64)>,
    results: spec_fn(int) -> Result<Seq<char>, Seq<char>>,
    times: spec_fn(int) -> u64,
    n: nat,
    after: Map<Seq<char>, (u32, u64)>,
) -> bool {
    let s = beginning(found, devices, before);
    &&& forall|m: int| 0 <= m < n ==> #[trigger] results(m) is Err
    &&& forall|m: nat|
        m < n ==> (#[trigger] crate::daemon::standing_after(s, results, times, m)).pass.queue.len()
            > 0
    &&& crate::daemon::standing_after(s, results, times, n).pass.queue.len() == 0
    &&& after == crate::daemon::standing_after(s, results, times, n).failures
}

/// An endpoint that fails in three passes running is left alone in the fourth, for a minute,
/// however many other services are advertised.
pub proof fn three_failed_passes_are_enough(
    found: Seq<FoundView>,
    devices: Seq<DeviceView>,
    ep: Seq<char>,
    i: int,
    k: int,
    history: Map<Seq<char>, (u32, u64)>,
    first: Map<Seq<char>, (u32, u64)>,
    second: Map<Seq<char>, (u32, u64)>,
    third: Map<Seq<char>, (u32, u64)>,
    results: spec_fn(int) -> Result<Seq<char>, Seq<char>>,
    times: spec_fn(int) -> u64,
    a: nat,
    b: nat,
    c: nat,
    since: u64,
    now: u64,
)
    requires
        only_at(found, ep, i, k),
        !shown(devices, found[i]),
        !history.dom().contains(ep),
        forall|m: int| since <= #[trigger] times(m),
        fails_throughout(found, devices, history, results, times, a, first),
        fails_throughout(found, devices, first, results, times, b, second),
        fails_throughout(found, devices, second, results, times, c, third),
        now < since + 60_000_000_000,
    ensures
        left_alone(third, ep, now),
{
    a_failed_pass_counts_once(beginning(found, devices, history), results, times, a, ep, i, k);
    a_failed_pass_counts_once(beginning(found, devices, first), results, times, b, ep, i, k);
    a_failed_pass_counts_once(beginning(found, devices, second), results, times, c, ep, i, k);
}

/// Retaining keeps what is on the list, removing keeps what is not, and neither changes what it
/// keeps.
pub proof fn what_is_retained(
    failures: &mut Failures,
    others: &mut Failures,
    list: &[String],
    ep: Seq<char>,
)
    requires
        old(failures).wf(),
        old(others).wf(),
        call_ensures(Failures::retain, (failures, list), ()),
        call_ensures(Failures::remove_all, (others, list), ()),
    ensures
        ({
            let listed = exists|i: int| 0 <= i < list@.len() && (#[trigger] list@[i])@ == ep;
            let a = old(failures)@;
            let b = final(failures)@;
            let c = old(others)@;
            let d = final(others)@;
            &&& b.dom().contains(ep) <==> a.dom().contains(ep) && listed
            &&& b.dom().contains(ep) ==> b[ep] == a[ep]
            &&& d.dom().contains(ep) <==> c.dom().contains(ep) && !listed
            &&& d.dom().contains(ep) ==> d[ep] == c[ep]
        }),
{
    let v = texts(list@);
    if v.contains(ep) {
        let i = choose|i: int| 0 <= i < v.len() && v[i] == ep;
        assert(list@[i]@ == ep);
    }
    if exists|i: int| 0 <= i < list@.len() && (#[trigger] list@[i])@ == ep {
        let i = choose|i: int| 0 <= i < list@.len() && (#[trigger] list@[i])@ == ep;
        assert(v[i] == ep);
    }
    let keep = Set::new(|k: Seq<char>| v.contains(k));
    let drop = Set::new(|k: Seq<char>| !v.contains(k));
    assert(keep.contains(ep) <==> v.contains(ep));
    assert(drop.contains(ep) <==> !v.contains(ep));
}

proof fn lemma_settle_forgets(s: Standing, now: u64, j: int, ep: Seq<char>)
    requires
        s.pass.wf(),
        s.pass.queue.len() == 0,
        s.pass.service <= j < settle(s, now).pass.service,
        shown(s.pass.devices, s.pass.found[j]),
        endpoints(s.pass.found[j]).contains(ep),
    ensures
        !settle(s, now).failures.dom().contains(ep),
    decreases s.pass.found.len() - s.pass.service,
{
    let p = s.pass;
    lemma_settle_dials(s, now);
    if p.service < p.found.len() {
        let next = PassView { service: p.service + 1, ..p };
        let f = p.found[p.service as int];
        lemma_decision(f, p.devices, s.failures, now);
        match decision(f, p.devices, s.failures, now) {
            ActionView::Connect(eps) => {},
            ActionView::AlreadyAttached => {
                let t = Standing { pass: next, failures: cleared(s.failures, f) };
                let out = Set::new(|k: Seq<char>| !endpoints(f).contains(k));
                assert(t.failures == s.failures.restrict(out));
                assert(out.contains(ep) <==> !endpoints(f).contains(ep));
                if j > p.service {
                    lemma_settle_forgets(t, now, j, ep);
                } else {
                    lemma_settle_remembers(t, now, ep);
                }
            },
            _ => {
                if j > p.service {
                    lemma_settle_forgets(Standing { pass: next, ..s }, now, j, ep);
                } else {
                    let k = choose|k: int| 0 <= k < endpoints(f).len() && endpoints(f)[k] == ep;
                }
            },
        }
    }
}

/// A device that came back has nothing held against it: when a pass finds a service attached,
/// whatever had failed at any of its endpoints is forgotten.
pub proof fn an_attached_service_is_forgiven(
    pass: &mut Pass,
    failures: &mut Failures,
    now: u64,
    r: Step,
    j: int,
    ep: Seq<char>,
)
    requires
        old(pass)@.wf(),
        old(failures).wf(),
        old(pass)@.queue.len() == 0,
        call_ensures(Pass::tick, (pass, failures, None, now), r),
        old(pass)@.service <= j < final(pass)@.service,
        j < old(pass)@.found.len(),
        shown(old(pass)@.devices, old(pass)@.found[j]),
        endpoints(old(pass)@.found[j]).contains(ep),
    ensures
        !final(failures)@.dom().contains(ep),
{
    let s = Standing { pass: old(pass)@, failures: old(failures)@ };
    lemma_settle_forgets(s, now, j, ep);
}

/// A phone that was connected to has nothing held against it either, at any of its addresses.
pub proof fn a_connected_service_is_forgiven(
    pass: &mut Pass,
    failures: &mut Failures,
    line: String,
    now: u64,
    r: Step,
    ep: Seq<char>,
)
    requires
        old(pass)@.wf(),
        old(failures).wf(),
        old(pass)@.queue.len() > 0,
        call_ensures(Pass::tick, (pass, failures, Some(Ok(line)), now), r),
        endpoints(old(pass)@.found[old(pass)@.service as int]).contains(ep),
    ensures
        !final(failures)@.dom().contains(ep),
{
    a_pass_remembers_what_failed(pass, failures, Some(Ok(line)), now, r, ep);
}

/// The times fit together: three passes that fail come well within a backoff, so that it can be
/// reached; and none of the times is nothing.
pub proof fn the_times_of_the_watcher_fit_together()
    ensures
        crate::daemon::POLL == 5_000_000_000,
        crate::daemon::BROWSE == 3_000_000_000,
        3 * (crate::daemon::POLL + crate::daemon::BROWSE) < crate::daemon::BACKOFF,
        crate::daemon::BACKOFF == 60_000_000_000,
        crate::daemon::FAILURES_BEFORE_BACKOFF == 3,
{
}

} // verus!
