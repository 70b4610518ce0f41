//! Reconnecting wireless devices that are advertised but not attached.
//!
//! adb attaches advertised services by itself only when its own mDNS backend can discover them.
//! Where it cannot, this watcher performs the connect: which services to dial, in what order, and
//! when to leave one alone.

use crate::adb::{devices as device_views, transport_of, Device, DeviceView, Transport};
use crate::discovery::{first_label, services, Found, FoundView};
use crate::num::{decimal, decimal_of};
use crate::pairing::{an_endpoint_splits, endpoint, endpoint_text, usable, usable_addresses};
use crate::text::{
    chars_of, clone_strings, is_text, join, join_strings, lemma_filter_step, scan_for, str_eq,
    texts, Class,
};
use vstd::prelude::*;
use vstd::slice::slice_subrange;

verus! {

/// Pause between passes, in nanoseconds. A full cycle is this plus `BROWSE`.
pub const POLL: u64 = 5_000_000_000;

/// How long each browse listens before acting on what it heard, in nanoseconds.
pub const BROWSE: u64 = 3_000_000_000;

/// After this many consecutive failures an endpoint is left alone for a while, so an unreachable
/// phone does not produce one connect every poll forever.
pub const FAILURES_BEFORE_BACKOFF: u32 = 3;

/// How long an endpoint is left alone, in nanoseconds.
pub const BACKOFF: u64 = 60_000_000_000;

// ---------------------------------------------------------------------------
// What has failed before
// ---------------------------------------------------------------------------

/// One endpoint that has failed: how often in a row, and when last.
struct Failure {
    endpoint: String,
    count: u32,
    last: u64,
}

/// The endpoints that have failed.
pub struct Failures {
    entries: Vec<Failure>,
}

spec fn distinct_endpoints(v: Seq<Failure>) -> bool {
    forall|i: int, j: int|
        0 <= i < j < v.len() ==> #[trigger] v[i].endpoint@ != #[trigger] v[j].endpoint@
}

spec fn holds(v: Seq<Failure>, ep: Seq<char>) -> bool {
    exists|i: int| 0 <= i < v.len() && #[trigger] v[i].endpoint@ == ep
}

spec fn entry_map(v: Seq<Failure>) -> Map<Seq<char>, (u32, u64)>
    decreases v.len(),
{
    if v.len() == 0 {
        Map::empty()
    } else {
        entry_map(v.drop_last()).insert(v.last().endpoint@, (v.last().count, v.last().last))
    }
}

/// The map holds exactly the entries.
proof fn lemma_entries(v: Seq<Failure>)
    requires
        distinct_endpoints(v),
    ensures
        forall|k: Seq<char>| #[trigger] entry_map(v).dom().contains(k) <==> holds(v, k),
        forall|i: int|
            0 <= i < v.len() ==> entry_map(v)[#[trigger] v[i].endpoint@] == (v[i].count, v[i].last),
    decreases v.len(),
{
    if v.len() > 0 {
        let init = v.drop_last();
        assert forall|i: int, j: int| 0 <= i < j < init.len() implies #[trigger] init[i].endpoint@
            != #[trigger] init[j].endpoint@ by {
            assert(init[i] == v[i] && init[j] == v[j]);
        }
        lemma_entries(init);
        let last = v.last();
        assert(entry_map(v) == entry_map(init).insert(last.endpoint@, (last.count, last.last)));
        assert(v[v.len() - 1] == last);
        assert forall|k: Seq<char>| #[trigger] entry_map(v).dom().contains(k) <==> holds(v, k) by {
            if holds(init, k) {
                let i = choose|i: int| 0 <= i < init.len() && #[trigger] init[i].endpoint@ == k;
                assert(v[i].endpoint@ == k);
            }
            if holds(v, k) {
                let i = choose|i: int| 0 <= i < v.len() && #[trigger] v[i].endpoint@ == k;
                if i < init.len() {
                    assert(init[i].endpoint@ == k);
                } else {
                    assert(k == last.endpoint@);
                }
            }
            assert(entry_map(v).dom().contains(k) <==> entry_map(init).dom().contains(k) || k
                == last.endpoint@);
        }
        assert forall|i: int| 0 <= i < v.len() implies entry_map(v)[#[trigger] v[i].endpoint@] == (
            v[i].count,
            v[i].last,
        ) by {
            if i < init.len() {
                assert(init[i] == v[i]);
                assert(v[i].endpoint@ != v[v.len() - 1].endpoint@);
            }
        }
    }
}

impl View for Failures {
    type V = Map<Seq<char>, (u32, u64)>;

    closed spec fn view(&self) -> Map<Seq<char>, (u32, u64)> {
        entry_map(self.entries@)
    }
}

/// One more failure.
pub open spec fn one_more(count: u32) -> u32 {
    if count == u32::MAX {
        0
    } else {
        (count + 1) as u32
    }
}

/// The failures after one more at an endpoint.
pub open spec fn failed_again(
    failures: Map<Seq<char>, (u32, u64)>,
    ep: Seq<char>,
    now: u64,
) -> Map<Seq<char>, (u32, u64)> {
    failures.insert(
        ep,
        (
            one_more(
                if failures.dom().contains(ep) {
                    failures[ep].0
                } else {
                    0
                },
            ),
            now,
        ),
    )
}

impl Failures {
    /// No endpoint has two entries.
    pub closed spec fn wf(self) -> bool {
        distinct_endpoints(self.entries@)
    }

    pub fn new() -> (r: Failures)
        ensures
            r.wf(),
            r@ == Map::<Seq<char>, (u32, u64)>::empty(),
    {
        Failures { entries: Vec::new() }
    }

    fn position(&self, ep: &str) -> (r: Option<usize>)
        ensures
            match r {
                Some(i) => i < self.entries@.len() && self.entries@[i as int].endpoint@ == ep@,
                None => !holds(self.entries@, ep@),
            },
    {
        let mut i: usize = 0;
        while i < self.entries.len()
            invariant
                i <= self.entries.len(),
                forall|j: int| 0 <= j < i ==> #[trigger] self.entries@[j].endpoint@ != ep@,
            decreases self.entries.len() - i,
        {
            if str_eq(self.entries[i].endpoint.as_str(), ep) {
                return Some(i);
            }
            i += 1;
        }
        None
    }

    /// How often an endpoint has failed in a row, and when last.
    pub fn get(&self, ep: &str) -> (r: Option<(u32, u64)>)
        requires
            self.wf(),
        ensures
            r == if self@.dom().contains(ep@) {
                Some(self@[ep@])
            } else {
                None
            },
    {
        proof {
            lemma_entries(self.entries@);
        }
        match self.position(ep) {
            Some(i) => {
                assert(holds(self.entries@, ep@));
                Some((self.entries[i].count, self.entries[i].last))
            },
            None => None,
        }
    }

    /// Set the history of an endpoint.
    pub fn insert(&mut self, ep: &str, count: u32, last: u64)
        requires
            old(self).wf(),
        ensures
            final(self).wf(),
            final(self)@ == old(self)@.insert(ep@, (count, last)),
    {
        let ghost before = self.entries@;
        proof {
            lemma_entries(before);
        }
        match self.position(ep) {
            Some(i) => {
                let e = Failure { endpoint: ep.to_owned(), count, last };
                self.entries.set(i, e);
                let ghost after = self.entries@;
                proof {
                    assert(after == before.update(i as int, e));
                    assert forall|a: int, b: int| 0 <= a < b < after.len() implies (
                    #[trigger] after[a]).endpoint@ != (#[trigger] after[b]).endpoint@ by {
                        assert(before[a].endpoint@ != before[b].endpoint@);
                    }
                    lemma_entries(after);
                    let want = entry_map(before).insert(ep@, (count, last));
                    lemma_same_map(after, want, before, i as int);
                }
            },
            None => {
                let e = Failure { endpoint: ep.to_owned(), count, last };
                self.entries.push(e);
                proof {
                    let after = self.entries@;
                    assert(after == before.push(e));
                    assert(after.drop_last() == before);
                    assert forall|a: int, b: int| 0 <= a < b < after.len() implies (
                    #[trigger] after[a]).endpoint@ != (#[trigger] after[b]).endpoint@ by {
                        assert(after[a] == before[a]);
                        if b < before.len() {
                            assert(after[b] == before[b]);
                        }
                    }
                }
            },
        }
    }

    /// Count one more failure at an endpoint.
    pub fn record(&mut self, ep: &str, now: u64)
        requires
            old(self).wf(),
        ensures
            final(self).wf(),
            final(self)@ == failed_again(old(self)@, ep@, now),
    {
        let count: u32 = match self.get(ep) {
            Some((count, _)) => count,
            None => 0,
        };
        self.insert(
            ep,
            if count == u32::MAX {
                0
            } else {
                count + 1
            },
            now,
        );
    }

    /// Keep or drop the entries at the given endpoints.
    fn sift(&mut self, eps: &[String], keep: bool)
        requires
            old(self).wf(),
        ensures
            final(self).wf(),
            final(self)@ == old(self)@.restrict(
                Set::new(|k: Seq<char>| texts(eps@).contains(k) == keep),
            ),
    {
        let ghost before = self.entries@;
        let ghost kept_keys = Set::new(|k: Seq<char>| texts(eps@).contains(k) == keep);
        proof {
            lemma_entries(before);
        }
        let mut kept: Vec<Failure> = Vec::new();
        let mut i: usize = 0;
        while i < self.entries.len()
            invariant
                i <= self.entries.len(),
                self.entries@ == before,
                distinct_endpoints(before),
                distinct_endpoints(kept@),
                kept_keys == Set::new(|k: Seq<char>| texts(eps@).contains(k) == keep),
                forall|k: Seq<char>| #[trigger]
                    holds(kept@, k) <==> holds(before.take(i as int), k) && kept_keys.contains(k),
                forall|j: int|
                    0 <= j < kept@.len() ==> exists|m: int|
                        0 <= m < i && before[m].endpoint@ == #[trigger] kept@[j].endpoint@
                            && before[m].count == kept@[j].count && before[m].last == kept@[j].last,
            decreases self.entries.len() - i,
        {
            let ghost done = kept@;
            let ghost seen = before.take(i as int);
            let e = &self.entries[i];
            proof {
                assert(before.take(i + 1) == seen.push(before[i as int]));
                lemma_holds_push(seen, before[i as int]);
                if holds(seen, e.endpoint@) {
                    let m = choose|m: int|
                        0 <= m < seen.len() && #[trigger] seen[m].endpoint@ == e.endpoint@;
                    assert(before[m].endpoint@ == before[i as int].endpoint@);
                }
            }
            if one_of(eps, e.endpoint.as_str()) == keep {
                let c = Failure { endpoint: e.endpoint.clone(), count: e.count, last: e.last };
                kept.push(c);
                proof {
                    assert(kept@ == done.push(c));
                    lemma_holds_push(done, c);
                    assert forall|a: int, b: int| 0 <= a < b < kept@.len() implies (
                    #[trigger] kept@[a]).endpoint@ != (#[trigger] kept@[b]).endpoint@ by {
                        assert(kept@[a] == done[a]);
                        if b < done.len() {
                            assert(kept@[b] == done[b]);
                        } else {
                            assert(holds(done, done[a].endpoint@));
                        }
                    }
                    assert forall|j: int| 0 <= j < kept@.len() implies exists|m: int|
                        0 <= m < i + 1 && before[m].endpoint@ == #[trigger] kept@[j].endpoint@
                            && before[m].count == kept@[j].count && before[m].last
                            == kept@[j].last by {
                        if j < done.len() {
                            assert(kept@[j] == done[j]);
                            let m = choose|m: int|
                                0 <= m < i && before[m].endpoint@ == #[trigger] done[j].endpoint@
                                    && before[m].count == done[j].count && before[m].last
                                    == done[j].last;
                            assert(before[m].endpoint@ == kept@[j].endpoint@);
                        } else {
                            assert(before[i as int].endpoint@ == kept@[j].endpoint@);
                        }
                    }
                }
            }
            i += 1;
        }
        proof {
            assert(before.take(i as int) == before);
            lemma_entries(kept@);
            let want = entry_map(before).restrict(kept_keys);
            let have = entry_map(kept@);
            assert forall|k: Seq<char>| #[trigger] have.dom().contains(k) implies have[k]
                == want[k] by {
                let j = choose|j: int| 0 <= j < kept@.len() && #[trigger] kept@[j].endpoint@ == k;
                let m = choose|m: int|
                    0 <= m < i && before[m].endpoint@ == #[trigger] kept@[j].endpoint@
                        && before[m].count == kept@[j].count && before[m].last == kept@[j].last;
                assert(entry_map(before)[before[m].endpoint@] == (before[m].count, before[m].last));
            }
            assert(entry_map(kept@) =~= want);
        }
        self.entries = kept;
    }

    /// Forget the history of these endpoints.
    pub fn remove_all(&mut self, eps: &[String])
        requires
            old(self).wf(),
        ensures
            final(self).wf(),
            final(self)@ == old(self)@.restrict(
                Set::new(|k: Seq<char>| !texts(eps@).contains(k)),
            ),
    {
        self.sift(eps, false);
        proof {
            assert(Set::new(|k: Seq<char>| texts(eps@).contains(k) == false) =~= Set::new(
                |k: Seq<char>| !texts(eps@).contains(k),
            ));
        }
    }

    /// Forget the history of every other endpoint.
    pub fn retain(&mut self, live: &[String])
        requires
            old(self).wf(),
        ensures
            final(self).wf(),
            final(self)@ == old(self)@.restrict(Set::new(|k: Seq<char>| texts(live@).contains(k))),
    {
        self.sift(live, true);
        proof {
            assert(Set::new(|k: Seq<char>| texts(live@).contains(k) == true) =~= Set::new(
                |k: Seq<char>| texts(live@).contains(k),
            ));
        }
    }
}

/// Replacing the entry of an endpoint changes the map at that endpoint alone.
proof fn lemma_same_map(
    after: Seq<Failure>,
    want: Map<Seq<char>, (u32, u64)>,
    before: Seq<Failure>,
    i: int,
)
    requires
        distinct_endpoints(before),
        distinct_endpoints(after),
        0 <= i < before.len(),
        after.len() == before.len(),
        after[i].endpoint@ == before[i].endpoint@,
        forall|j: int| 0 <= j < before.len() && j != i ==> after[j] == before[j],
        want == entry_map(before).insert(before[i].endpoint@, (after[i].count, after[i].last)),
    ensures
        entry_map(after) == want,
{
    lemma_entries(before);
    lemma_entries(after);
    assert forall|k: Seq<char>| holds(after, k) <==> holds(before, k) by {
        if holds(after, k) {
            let j = choose|j: int| 0 <= j < after.len() && #[trigger] after[j].endpoint@ == k;
            assert(before[j].endpoint@ == k);
        }
        if holds(before, k) {
            let j = choose|j: int| 0 <= j < before.len() && #[trigger] before[j].endpoint@ == k;
            assert(after[j].endpoint@ == k);
        }
    }
    assert forall|k: Seq<char>| #[trigger] entry_map(after).dom().contains(k) implies entry_map(
        after,
    )[k] == want[k] by {
        let j = choose|j: int| 0 <= j < after.len() && #[trigger] after[j].endpoint@ == k;
        if j != i {
            assert(before[j].endpoint@ == k);
        }
    }
    assert(holds(before, before[i].endpoint@));
    assert(entry_map(after) =~= want);
}

proof fn lemma_holds_push(v: Seq<Failure>, e: Failure)
    ensures
        forall|k: Seq<char>| #[trigger] holds(v.push(e), k) <==> holds(v, k) || k == e.endpoint@,
{
    let w = v.push(e);
    assert forall|k: Seq<char>| #[trigger] holds(w, k) <==> holds(v, k) || k == e.endpoint@ by {
        if holds(v, k) {
            let i = choose|i: int| 0 <= i < v.len() && #[trigger] v[i].endpoint@ == k;
            assert(w[i].endpoint@ == k);
        }
        if k == e.endpoint@ {
            assert(w[v.len() as int].endpoint@ == k);
        }
        if holds(w, k) {
            let i = choose|i: int| 0 <= i < w.len() && #[trigger] w[i].endpoint@ == k;
            if i < v.len() {
                assert(v[i].endpoint@ == k);
            }
        }
    }
}

fn one_of(v: &[String], s: &str) -> (r: bool)
    ensures
        r == texts(v@).contains(s@),
{
    let mut i: usize = 0;
    while i < v.len()
        invariant
            i <= v.len(),
            forall|j: int| 0 <= j < i ==> #[trigger] texts(v@)[j] != s@,
        decreases v.len() - i,
    {
        if str_eq(v[i].as_str(), s) {
            assert(texts(v@)[i as int] == s@);
            return true;
        }
        i += 1;
    }
    false
}

// ---------------------------------------------------------------------------
// One service
// ---------------------------------------------------------------------------

/// What adb would be given to dial for a service, in order.
pub open spec fn endpoints(f: FoundView) -> Seq<Seq<char>> {
    usable(f.addresses).map_values(|a: crate::net::IpAddr| endpoint_text(a, f.port))
}

pub(crate) fn endpoints_of(found: &Found) -> (r: Vec<String>)
    ensures
        texts(r@) == endpoints(found@),
{
    let addrs = usable_addresses(found.addresses.as_slice());
    let ghost all = endpoints(found@);
    let mut r: Vec<String> = Vec::new();
    let mut i: usize = 0;
    while i < addrs.len()
        invariant
            i <= addrs.len(),
            addrs@ == usable(found@.addresses),
            all == endpoints(found@),
            texts(r@) == all.take(i as int),
        decreases addrs.len() - i,
    {
        let ghost done = texts(r@);
        let ep = endpoint(addrs[i], found.port);
        r.push(ep);
        assert(texts(r@) == done.push(ep@));
        assert(all.take(i + 1) == all.take(i as int).push(all[i as int]));
        i += 1;
    }
    assert(all.take(i as int) == all);
    r
}

/// A device that reconnecting cannot help: one that works, or one that waits for the user to
/// accept a prompt. An `offline` entry is what a dropped link leaves behind, and does not count.
pub open spec fn is_settled(d: DeviceView) -> bool {
    d.state == "device"@ || d.state == "unauthorized"@
}

/// Whether a device entry is this service, under any address it advertises or under its mDNS
/// name. Names are compared as whole labels.
pub open spec fn is_entry_of(d: DeviceView, f: FoundView) -> bool {
    match d.transport {
        Transport::Tcp => endpoints(f).contains(d.serial),
        Transport::Mdns => first_label(d.serial) == first_label(f.fullname),
        _ => false,
    }
}

/// Whether a service is attached and usable.
pub open spec fn attached(f: FoundView, devices: Seq<DeviceView>) -> bool {
    exists|i: int|
        0 <= i < devices.len() && is_settled(#[trigger] devices[i]) && is_entry_of(devices[i], f)
}

/// Is this discovered service present AND usable?
///
/// Every advertised address is checked, not just the one that would be dialed. A phone attached
/// over its IPv6 address is attached, and dialing its IPv4 address would give the same handset a
/// second row.
pub fn already_attached(found: &Found, devices: &[Device]) -> (r: bool)
    ensures
        r == attached(found@, device_views(devices@)),
{
    let eps = endpoints_of(found);
    let instance = found.instance();
    let ghost all = device_views(devices@);
    let mut i: usize = 0;
    while i < devices.len()
        invariant
            i <= devices.len(),
            all == device_views(devices@),
            texts(eps@) == endpoints(found@),
            instance@ == first_label(found@.fullname),
            forall|j: int|
                0 <= j < i ==> !(is_settled(#[trigger] all[j]) && is_entry_of(all[j], found@)),
        decreases devices.len() - i,
    {
        let d = &devices[i];
        assert(all[i as int] == d@);
        if str_eq(d.state.as_str(), "device") || str_eq(d.state.as_str(), "unauthorized") {
            let hit = match d.transport {
                Transport::Tcp => one_of(eps.as_slice(), d.serial.as_str()),
                Transport::Mdns => {
                    let serial = chars_of(d.serial.as_str());
                    let n: usize = scan_for(serial.as_slice(), 0, Class::Is('.'));
                    let label = slice_subrange(serial.as_slice(), 0, n);
                    assert(label@ == first_label(d@.serial));
                    is_text(label, instance)
                },
                Transport::Usb => false,
                Transport::Emulator => false,
            };
            if hit {
                assert(is_settled(all[i as int]) && is_entry_of(all[i as int], found@));
                return true;
            }
        }
        i += 1;
    }
    false
}

/// What the watcher should do about one discovered service.
#[derive(Debug, PartialEq, Eq)]
pub enum Action {
    /// Addresses to try, in order. More than one, so a dead IPv4 does not hide a working IPv6.
    Connect(Vec<String>),
    AlreadyAttached,
    /// Nothing adb can dial: every address was loopback or link-local.
    NoUsableAddress,
    /// Failing repeatedly; left alone until the backoff expires.
    BackingOff,
}

pub enum ActionView {
    Connect(Seq<Seq<char>>),
    AlreadyAttached,
    NoUsableAddress,
    BackingOff,
}

impl View for Action {
    type V = ActionView;

    open spec fn view(&self) -> ActionView {
        match self {
            Action::Connect(eps) => ActionView::Connect(texts(eps@)),
            Action::AlreadyAttached => ActionView::AlreadyAttached,
            Action::NoUsableAddress => ActionView::NoUsableAddress,
            Action::BackingOff => ActionView::BackingOff,
        }
    }
}

/// The time from one moment to a later one; none when the clock went back.
pub open spec fn elapsed(now: u64, then: u64) -> int {
    if now >= then {
        now - then
    } else {
        0
    }
}

/// Whether an endpoint has failed so often, and so lately, that it is left alone.
pub open spec fn backed_off(
    failures: Map<Seq<char>, (u32, u64)>,
    ep: Seq<char>,
    now: u64,
) -> bool {
    &&& failures.dom().contains(ep)
    &&& failures[ep].0 >= FAILURES_BEFORE_BACKOFF
    &&& elapsed(now, failures[ep].1) < BACKOFF
}

/// The whole decision.
pub open spec fn decision(
    f: FoundView,
    devices: Seq<DeviceView>,
    failures: Map<Seq<char>, (u32, u64)>,
    now: u64,
) -> ActionView {
    let open = endpoints(f).filter(|ep: Seq<char>| !backed_off(failures, ep, now));
    if usable(f.addresses).len() == 0 {
        ActionView::NoUsableAddress
    } else if attached(f, devices) {
        ActionView::AlreadyAttached
    } else if open.len() == 0 {
        ActionView::BackingOff
    } else {
        ActionView::Connect(open)
    }
}

fn is_backed_off(failures: &Failures, ep: &str, now: u64) -> (r: bool)
    requires
        failures.wf(),
    ensures
        r == backed_off(failures@, ep@, now),
{
    match failures.get(ep) {
        Some((count, last)) => count >= FAILURES_BEFORE_BACKOFF && (now < last || now - last
            < BACKOFF),
        None => false,
    }
}

pub fn decide(found: &Found, devices: &[Device], failures: &Failures, now: u64) -> (r: Action)
    requires
        failures.wf(),
    ensures
        r@ == decision(found@, device_views(devices@), failures@, now),
{
    let eps = endpoints_of(found);
    let ghost all = endpoints(found@);
    assert(all.len() == usable(found@.addresses).len());
    assert(texts(eps@).len() == eps@.len());
    if eps.len() == 0 {
        return Action::NoUsableAddress;
    }
    if already_attached(found, devices) {
        return Action::AlreadyAttached;
    }
    let ghost keep = |ep: Seq<char>| !backed_off(failures@, ep, now);
    let mut candidates: Vec<String> = Vec::new();
    let mut i: usize = 0;
    proof {
        reveal(Seq::filter);
        assert(all.take(0).filter(keep) == Seq::<Seq<char>>::empty());
    }
    while i < eps.len()
        invariant
            i <= eps.len(),
            failures.wf(),
            texts(eps@) == all,
            keep == (|ep: Seq<char>| !backed_off(failures@, ep, now)),
            texts(candidates@) == all.take(i as int).filter(keep),
        decreases eps.len() - i,
    {
        let ghost done = texts(candidates@);
        proof {
            lemma_filter_step(all, keep, i as int);
            assert(eps@[i as int]@ == all[i as int]);
        }
        if !is_backed_off(failures, eps[i].as_str(), now) {
            let ep = eps[i].clone();
            candidates.push(ep);
            assert(texts(candidates@) == done.push(ep@));
        }
        i += 1;
    }
    assert(all.take(i as int) == all);
    assert(texts(candidates@).len() == candidates@.len());
    if candidates.len() == 0 {
        return Action::BackingOff;
    }
    Action::Connect(candidates)
}

// ---------------------------------------------------------------------------
// One pass over everything that was found
// ---------------------------------------------------------------------------

/// What one pass did. Failures are reported, not swallowed: a caller that printed "nothing to
/// reconnect" after every attempt failed would be lying.
#[derive(Debug, PartialEq, Eq)]
pub struct Outcome {
    pub connected: Vec<String>,
    pub failed: Vec<String>,
}

impl Default for Outcome {
    fn default() -> (r: Outcome)
        ensures
            r.connected@.len() == 0,
            r.failed@.len() == 0,
    {
        Outcome { connected: Vec::new(), failed: Vec::new() }
    }
}

/// A pass under way.
pub struct Pass {
    found: Vec<Found>,
    devices: Vec<Device>,
    /// The service at hand.
    service: usize,
    /// What is still to be dialed for it, the next first.
    queue: Vec<String>,
    /// What went wrong with those dialed before.
    errors: Vec<String>,
    connected: Vec<String>,
    failed: Vec<String>,
}

pub struct PassView {
    pub found: Seq<FoundView>,
    pub devices: Seq<DeviceView>,
    pub service: nat,
    pub queue: Seq<Seq<char>>,
    pub errors: Seq<Seq<char>>,
    pub connected: Seq<Seq<char>>,
    pub failed: Seq<Seq<char>>,
}

impl View for Pass {
    type V = PassView;

    closed spec fn view(&self) -> PassView {
        PassView {
            found: services(self.found@),
            devices: device_views(self.devices@),
            service: self.service as nat,
            queue: texts(self.queue@),
            errors: texts(self.errors@),
            connected: texts(self.connected@),
            failed: texts(self.failed@),
        }
    }
}

impl PassView {
    /// While there is something to dial, there is a service it belongs to.
    pub open spec fn wf(self) -> bool {
        &&& self.service <= self.found.len()
        &&& self.queue.len() > 0 ==> self.service < self.found.len()
        &&& self.connected.len() + self.failed.len() <= self.service
    }
}

/// Where a pass stands: its own state, and what has failed so far.
pub struct Standing {
    pub pass: PassView,
    pub failures: Map<Seq<char>, (u32, u64)>,
}

/// The history without the endpoints of a service. One address working means the phone is up, so
/// nothing about it is failing.
pub open spec fn cleared(
    failures: Map<Seq<char>, (u32, u64)>,
    f: FoundView,
) -> Map<Seq<char>, (u32, u64)> {
    failures.restrict(Set::new(|k: Seq<char>| !endpoints(f).contains(k)))
}

/// Everything that could be dialed for the services found.
pub open spec fn live(found: Seq<FoundView>) -> Seq<Seq<char>>
    decreases found.len(),
{
    if found.len() == 0 {
        seq![]
    } else {
        live(found.drop_last()) + endpoints(found.last())
    }
}

/// The next thing to dial, or the end of the pass: services that need nothing are passed over,
/// and at the end the history keeps only what is still advertised.
pub open spec fn settle(s: Standing, now: u64) -> Standing
    decreases s.pass.found.len() - s.pass.service,
{
    let p = s.pass;
    if p.queue.len() > 0 {
        s
    } else if p.service >= p.found.len() {
        Standing {
            failures: s.failures.restrict(Set::new(|k: Seq<char>| live(p.found).contains(k))),
            ..s
        }
    } else {
        let next = PassView { service: p.service + 1, ..p };
        match decision(p.found[p.service as int], p.devices, s.failures, now) {
            ActionView::Connect(eps) => Standing {
                pass: PassView { queue: eps, errors: seq![], ..p },
                ..s
            },
            ActionView::AlreadyAttached => settle(
                Standing {
                    pass: next,
                    failures: cleared(s.failures, p.found[p.service as int]),
                },
                now,
            ),
            _ => settle(Standing { pass: next, ..s }, now),
        }
    }
}

/// What a connect to the first endpoint of the queue amounts to. A service counts as connected on
/// the first address that works, and as failed only when every address failed.
pub open spec fn dialed(s: Standing, result: Result<Seq<char>, Seq<char>>, now: u64) -> Standing {
    let p = s.pass;
    match result {
        Ok(line) => Standing {
            pass: PassView {
                service: p.service + 1,
                queue: seq![],
                errors: seq![],
                connected: p.connected.push(line),
                ..p
            },
            failures: cleared(s.failures, p.found[p.service as int]),
        },
        Err(e) => {
            let errors = p.errors.push(p.queue[0] + ": "@ + e);
            Standing {
                pass: if p.queue.len() > 1 {
                    PassView { queue: p.queue.skip(1), errors, ..p }
                } else {
                    PassView {
                        service: p.service + 1,
                        queue: seq![],
                        errors: seq![],
                        failed: p.failed.push(join(errors, "; "@)),
                        ..p
                    }
                },
                failures: failed_again(s.failures, p.queue[0], now),
            }
        },
    }
}

/// The text of a result.
pub open spec fn result_text(r: Result<String, String>) -> Result<Seq<char>, Seq<char>> {
    match r {
        Ok(line) => Ok(line@),
        Err(e) => Err(e@),
    }
}

/// What to do next in a pass.
#[derive(Debug, PartialEq, Eq)]
pub enum Step {
    /// Dial this endpoint over the server's smart socket.
    Dial(String),
    /// The pass is over.
    Done(Outcome),
}

impl Pass {
    /// A pass over the services found. The browse takes seconds, so the device list is read again
    /// after it where it can be: a phone that attached meanwhile earns no redundant connect.
    pub fn begin(found: Vec<Found>, before: Vec<Device>, after: Option<Vec<Device>>) -> (r: Pass)
        ensures
            r@.wf(),
            r@ == (PassView {
                found: services(found@),
                devices: device_views(
                    (match after {
                        Some(d) => d,
                        None => before,
                    })@,
                ),
                service: 0,
                queue: seq![],
                errors: seq![],
                connected: seq![],
                failed: seq![],
            }),
    {
        let devices = match after {
            Some(d) => d,
            None => before,
        };
        let r = Pass {
            found,
            devices,
            service: 0,
            queue: Vec::new(),
            errors: Vec::new(),
            connected: Vec::new(),
            failed: Vec::new(),
        };
        assert(texts(r.queue@) == Seq::<Seq<char>>::empty());
        assert(texts(r.errors@) == Seq::<Seq<char>>::empty());
        assert(texts(r.connected@) == Seq::<Seq<char>>::empty());
        assert(texts(r.failed@) == Seq::<Seq<char>>::empty());
        r
    }

    fn live_endpoints(&self) -> (r: Vec<String>)
        ensures
            texts(r@) == live(self@.found),
    {
        let ghost all = self@.found;
        let mut r: Vec<String> = Vec::new();
        let mut i: usize = 0;
        assert(all.take(0) == Seq::<FoundView>::empty());
        while i < self.found.len()
            invariant
                i <= self.found.len(),
                all == services(self.found@),
                texts(r@) == live(all.take(i as int)),
            decreases self.found.len() - i,
        {
            let mut eps = endpoints_of(&self.found[i]);
            let ghost done = r@;
            let ghost more = eps@;
            r.append(&mut eps);
            proof {
                assert(r@ == done + more);
                assert(texts(r@) == texts(done) + texts(more));
                assert(all.take(i + 1).drop_last() == all.take(i as int));
            }
            i += 1;
        }
        assert(all.take(i as int) == all);
        r
    }

    fn note_result(&mut self, failures: &mut Failures, result: Result<String, String>, now: u64)
        requires
            old(self)@.wf(),
            old(self)@.queue.len() > 0,
            old(failures).wf(),
        ensures
            final(failures).wf(),
            final(self)@.wf(),
            (Standing { pass: final(self)@, failures: final(failures)@ }) == dialed(
                Standing { pass: old(self)@, failures: old(failures)@ },
                result_text(result),
                now,
            ),
    {
        let ghost p = self@;
        let end: usize = self.found.len();
        assert(self.service < end);
        assert(p.queue.len() == self.queue@.len());
        assert(self.found@[self.service as int]@ == p.found[p.service as int]);
        match result {
            Ok(line) => {
                let eps = endpoints_of(&self.found[self.service]);
                failures.remove_all(eps.as_slice());
                self.service = self.service + 1;
                self.queue = Vec::new();
                self.errors = Vec::new();
                self.connected.push(line);
                assert(texts(self.queue@) == Seq::<Seq<char>>::empty());
                assert(texts(self.errors@) == Seq::<Seq<char>>::empty());
                assert(texts(self.connected@) == p.connected.push(line@));
            },
            Err(e) => {
                let ep = self.queue.remove(0);
                assert(ep@ == p.queue[0]);
                assert(texts(self.queue@) == p.queue.skip(1));
                failures.record(ep.as_str(), now);
                let text = ep.concat(": ").concat(e.as_str());
                self.errors.push(text);
                assert(texts(self.errors@) == p.errors.push(text@));
                if self.queue.len() == 0 {
                    let line = join_strings(self.errors.as_slice(), "; ");
                    self.failed.push(line);
                    assert(texts(self.failed@) == p.failed.push(line@));
                    self.errors = Vec::new();
                    self.service = self.service + 1;
                    assert(texts(self.errors@) == Seq::<Seq<char>>::empty());
                    assert(texts(self.queue@) == Seq::<Seq<char>>::empty());
                } else {
                    assert(texts(self.queue@).len() == self.queue@.len());
                }
            },
        }
    }

    fn advance(&mut self, failures: &mut Failures, now: u64)
        requires
            old(self)@.wf(),
            old(failures).wf(),
        ensures
            final(failures).wf(),
            final(self)@.wf(),
            (Standing { pass: final(self)@, failures: final(failures)@ }) == settle(
                Standing { pass: old(self)@, failures: old(failures)@ },
                now,
            ),
    {
        let ghost start = Standing { pass: self@, failures: failures@ };
        assert(self@.queue.len() == self.queue@.len());
        while self.queue.len() == 0 && self.service < self.found.len()
            invariant
                self@.wf(),
                failures.wf(),
                self@.queue.len() == self.queue@.len(),
                self@.found.len() == self.found@.len(),
                settle(start, now) == settle(
                    Standing { pass: self@, failures: failures@ },
                    now,
                ),
            decreases
                    self.found@.len() - self.service,
                    if self.queue@.len() == 0 {
                        1int
                    } else {
                        0int
                    },
        {
            let ghost p = self@;
            assert(self.found@[self.service as int]@ == p.found[p.service as int]);
            match decide(
                &self.found[self.service],
                self.devices.as_slice(),
                failures,
                now,
            ) {
                Action::Connect(eps) => {
                    self.queue = eps;
                    self.errors = Vec::new();
                    assert(texts(self.errors@) == Seq::<Seq<char>>::empty());
                    assert(texts(self.queue@).len() == self.queue@.len());
                },
                Action::AlreadyAttached => {
                    let eps = endpoints_of(&self.found[self.service]);
                    failures.remove_all(eps.as_slice());
                    self.service = self.service + 1;
                },
                Action::NoUsableAddress => {
                    self.service = self.service + 1;
                },
                Action::BackingOff => {
                    self.service = self.service + 1;
                },
            }
        }
        if self.queue.len() == 0 {
            let live = self.live_endpoints();
            failures.retain(live.as_slice());
        }
    }

    /// One step of a pass: take in what came of the last dial, if there was one, and say what to
    /// do next. Connects go over the smart socket of a server that is up, so no step can start
    /// one.
    pub fn tick(
        &mut self,
        failures: &mut Failures,
        result: Option<Result<String, String>>,
        now: u64,
    ) -> (r: Step)
        requires
            old(self)@.wf(),
            old(failures).wf(),
            result is Some <==> old(self)@.queue.len() > 0,
        ensures
            final(failures).wf(),
            final(self)@.wf(),
            (Standing { pass: final(self)@, failures: final(failures)@ }) == settle(
                (match result {
                    Some(result) => dialed(
                        Standing { pass: old(self)@, failures: old(failures)@ },
                        result_text(result),
                        now,
                    ),
                    None => Standing { pass: old(self)@, failures: old(failures)@ },
                }),
                now,
            ),
            match r {
                Step::Dial(ep) => final(self)@.queue.len() > 0 && ep@ == final(self)@.queue[0],
                Step::Done(outcome) => {
                    &&& final(self)@.queue.len() == 0
                    &&& texts(outcome.connected@) == final(self)@.connected
                    &&& texts(outcome.failed@) == final(self)@.failed
                },
            },
    {
        if let Some(result) = result {
            self.note_result(failures, result, now);
        }
        self.advance(failures, now);
        assert(self@.queue.len() == self.queue@.len());
        if self.queue.len() > 0 {
            Step::Dial(self.queue[0].clone())
        } else {
            Step::Done(
                Outcome {
                    connected: clone_strings(self.connected.as_slice()),
                    failed: clone_strings(self.failed.as_slice()),
                },
            )
        }
    }

    /// Whether a dial is under way, so that the next step takes its result.
    pub fn dialing(&self) -> (r: bool)
        ensures
            r == (self@.queue.len() > 0),
    {
        assert(self@.queue.len() == self.queue@.len());
        self.queue.len() > 0
    }
}

/// What a pass has to say, one line for each service it connected or failed to.
pub open spec fn pass_lines(connected: Seq<Seq<char>>, failed: Seq<Seq<char>>) -> Seq<Seq<char>> {
    connected.map_values(|l: Seq<char>| "wadb: "@ + l) + failed.map_values(
        |l: Seq<char>| "wadb: connect failed: "@ + l,
    )
}

pub fn report(outcome: &Outcome) -> (r: Vec<String>)
    ensures
        texts(r@) == pass_lines(texts(outcome.connected@), texts(outcome.failed@)),
{
    let mut r: Vec<String> = Vec::new();
    prefix_each(&mut r, "wadb: ", outcome.connected.as_slice());
    prefix_each(&mut r, "wadb: connect failed: ", outcome.failed.as_slice());
    r
}

fn prefix_each(out: &mut Vec<String>, prefix: &str, v: &[String])
    ensures
        texts(final(out)@) == texts(old(out)@) + texts(v@).map_values(
            |l: Seq<char>| prefix@ + l,
        ),
{
    let ghost before = texts(out@);
    let ghost all = texts(v@).map_values(|l: Seq<char>| prefix@ + l);
    let mut i: usize = 0;
    assert(texts(out@) == before + all.take(0));
    while i < v.len()
        invariant
            i <= v.len(),
            all == texts(v@).map_values(|l: Seq<char>| prefix@ + l),
            texts(out@) == before + all.take(i as int),
        decreases v.len() - i,
    {
        let ghost done = texts(out@);
        let line = prefix.to_owned().concat(v[i].as_str());
        out.push(line);
        proof {
            assert(texts(out@) == done.push(line@));
            assert(all[i as int] == line@);
            assert(all.take(i + 1) == all.take(i as int).push(line@));
            assert(texts(out@) == before + all.take(i + 1));
        }
        i += 1;
    }
    assert(all.take(i as int) == all);
}

/// What the watcher says when it begins.
pub fn watching(port: u16) -> (r: String)
    ensures
        r@
            == "wadb: watching _adb-tls-connect._tcp.local. for devices to reconnect on port "@
            + decimal(port as nat),
{
    "wadb: watching _adb-tls-connect._tcp.local. for devices to reconnect on port ".to_owned().concat(
        decimal_of(port as u64).as_str(),
    )
}

/// What the watcher says of a pass, whether it came to an end or broke off.
pub fn run(result: &Result<Outcome, String>) -> (r: Vec<String>)
    ensures
        texts(r@) == (match result {
            Ok(outcome) => pass_lines(texts(outcome.connected@), texts(outcome.failed@)),
            Err(e) => seq!["wadb: pass failed: "@ + e@],
        }),
{
    match result {
        Ok(outcome) => report(outcome),
        Err(e) => vec!["wadb: pass failed: ".to_owned().concat(e.as_str())],
    }
}

/// How a pass begins.
#[derive(Debug, PartialEq, Eq)]
pub enum Start {
    /// No server, nothing to do. Asking over the socket cannot start one.
    Idle,
    /// Browse, with these devices known so far.
    Browse(Vec<Device>),
    /// The list could not be read: the pass is skipped.
    Skip(String),
}

/// A device list that could not be read is not an empty device list: treating a failed query as
/// "nothing is attached" would make every advertised phone look missing and earn a connect.
pub fn start_pass(up: bool, list: Option<Vec<Device>>) -> (r: Start)
    ensures
        !up ==> r is Idle,
        up ==> match list {
            Some(devices) => r == Start::Browse(devices),
            None => r matches Start::Skip(why) && why@
                == "could not read the device list; skipping this pass"@,
        },
{
    if !up {
        return Start::Idle;
    }
    match list {
        Some(devices) => Start::Browse(devices),
        None => Start::Skip("could not read the device list; skipping this pass".to_owned()),
    }
}

// ---------------------------------------------------------------------------
// What holds of every pass
// ---------------------------------------------------------------------------

proof fn lemma_filter_keeps(s: Seq<Seq<char>>, keep: spec_fn(Seq<char>) -> bool)
    requires
        forall|i: int| 0 <= i < s.len() ==> keep(#[trigger] s[i]),
    ensures
        s.filter(keep) == s,
    decreases s.len(),
{
    reveal(Seq::filter);
    if s.len() > 0 {
        let init = s.drop_last();
        assert forall|i: int| 0 <= i < init.len() implies keep(#[trigger] init[i]) by {
            assert(init[i] == s[i]);
        }
        lemma_filter_keeps(init, keep);
        assert(keep(s[s.len() - 1]));
        assert(init.push(s.last()) == s);
    }
}

/// A connect is only asked for where nothing usable is attached, to endpoints of that very
/// service, and to none that is being left alone.
pub proof fn a_connect_is_warranted(
    f: FoundView,
    devices: Seq<DeviceView>,
    failures: Map<Seq<char>, (u32, u64)>,
    now: u64,
)
    ensures
        decision(f, devices, failures, now) matches ActionView::Connect(eps) ==> {
            &&& eps.len() > 0
            &&& !attached(f, devices)
            &&& forall|i: int|
                0 <= i < eps.len() ==> endpoints(f).contains(#[trigger] eps[i]) && !backed_off(
                    failures,
                    eps[i],
                    now,
                )
        },
{
    let keep = |ep: Seq<char>| !backed_off(failures, ep, now);
    let open = endpoints(f).filter(keep);
    assert forall|i: int| 0 <= i < open.len() implies endpoints(f).contains(#[trigger] open[i])
        && !backed_off(failures, open[i], now) by {
        endpoints(f).lemma_filter_pred(keep, i);
        endpoints(f).lemma_filter_contains_rev(keep, open[i]);
        assert(keep(open[i]));
    }
}

/// An entry adb keeps for a device it lost does not make the device attached.
pub proof fn an_offline_entry_is_not_attachment(f: FoundView, devices: Seq<DeviceView>)
    requires
        forall|i: int| 0 <= i < devices.len() ==> !is_settled(#[trigger] devices[i]),
    ensures
        !attached(f, devices),
{
}

/// Once the time is over, a service that is missing is dialed again at every address, however
/// often it has failed.
pub proof fn backing_off_comes_to_an_end(
    f: FoundView,
    devices: Seq<DeviceView>,
    failures: Map<Seq<char>, (u32, u64)>,
    now: u64,
)
    requires
        usable(f.addresses).len() > 0,
        !attached(f, devices),
        forall|ep: Seq<char>| #[trigger]
            failures.dom().contains(ep) ==> elapsed(now, failures[ep].1) >= BACKOFF,
    ensures
        decision(f, devices, failures, now) == ActionView::Connect(endpoints(f)),
{
    let keep = |ep: Seq<char>| !backed_off(failures, ep, now);
    lemma_filter_keeps(endpoints(f), keep);
    assert(endpoints(f).len() == usable(f.addresses).len());
}

/// Fewer failures than the limit never keep an endpoint from being dialed.
pub proof fn a_few_failures_change_nothing(
    f: FoundView,
    devices: Seq<DeviceView>,
    failures: Map<Seq<char>, (u32, u64)>,
    now: u64,
)
    requires
        forall|ep: Seq<char>| #[trigger]
            failures.dom().contains(ep) ==> failures[ep].0 < FAILURES_BEFORE_BACKOFF,
    ensures
        decision(f, devices, failures, now) == decision(f, devices, Map::empty(), now),
{
    let keep = |ep: Seq<char>| !backed_off(failures, ep, now);
    let keep_all = |ep: Seq<char>|
        !backed_off(Map::<Seq<char>, (u32, u64)>::empty(), ep, now);
    lemma_filter_keeps(endpoints(f), keep);
    lemma_filter_keeps(endpoints(f), keep_all);
}

/// A connect that works clears the history of every address of that phone, not just of the one
/// that answered, and of no other phone's.
pub proof fn a_success_clears_every_address(s: Standing, line: Seq<char>, now: u64)
    requires
        s.pass.wf(),
        s.pass.queue.len() > 0,
    ensures
        ({
            let f = s.pass.found[s.pass.service as int];
            let after = dialed(s, Ok(line), now).failures;
            &&& forall|ep: Seq<char>| #[trigger]
                after.dom().contains(ep) <==> s.failures.dom().contains(ep) && !endpoints(
                    f,
                ).contains(ep)
            &&& forall|ep: Seq<char>| #[trigger]
                after.dom().contains(ep) ==> after[ep] == s.failures[ep]
        }),
{
}

/// A step over services that need nothing reports nothing, keeps the pass well formed, and never
/// goes back.
pub proof fn settling_reports_nothing(s: Standing, now: u64)
    requires
        s.pass.wf(),
    ensures
        settle(s, now).pass.wf(),
        settle(s, now).pass.connected == s.pass.connected,
        settle(s, now).pass.failed == s.pass.failed,
        settle(s, now).pass.found == s.pass.found,
        settle(s, now).pass.devices == s.pass.devices,
        settle(s, now).pass.service >= s.pass.service,
        settle(s, now).pass.queue.len() == 0 ==> settle(s, now).pass.service == s.pass.found.len(),
    decreases s.pass.found.len() - s.pass.service,
{
    let p = s.pass;
    if p.queue.len() == 0 && p.service < p.found.len() {
        let next = PassView { service: p.service + 1, ..p };
        match decision(p.found[p.service as int], p.devices, s.failures, now) {
            ActionView::Connect(eps) => {},
            ActionView::AlreadyAttached => {
                settling_reports_nothing(
                    Standing {
                        pass: next,
                        failures: cleared(s.failures, p.found[p.service as int]),
                    },
                    now,
                );
            },
            _ => {
                settling_reports_nothing(Standing { pass: next, ..s }, now);
            },
        }
    }
}

/// When a pass is over, nothing is remembered of endpoints that are no longer advertised: the
/// history cannot grow for the life of the daemon.
pub proof fn a_pass_forgets_what_is_gone(s: Standing, now: u64)
    requires
        s.pass.wf(),
        settle(s, now).pass.queue.len() == 0,
    ensures
        forall|ep: Seq<char>| #[trigger]
            settle(s, now).failures.dom().contains(ep) ==> live(s.pass.found).contains(ep),
    decreases s.pass.found.len() - s.pass.service,
{
    let p = s.pass;
    let after = settle(s, now);
    if p.service < p.found.len() {
        let next = PassView { service: p.service + 1, ..p };
        match decision(p.found[p.service as int], p.devices, s.failures, now) {
            ActionView::Connect(eps) => {},
            ActionView::AlreadyAttached => {
                let t = Standing {
                    pass: next,
                    failures: cleared(s.failures, p.found[p.service as int]),
                };
                assert(after == settle(t, now));
                a_pass_forgets_what_is_gone(t, now);
            },
            _ => {
                let t = Standing { pass: next, ..s };
                assert(after == settle(t, now));
                a_pass_forgets_what_is_gone(t, now);
            },
        }
    } else {
        let kept = Set::new(|k: Seq<char>| live(p.found).contains(k));
        assert(after.failures == s.failures.restrict(kept));
        assert forall|ep: Seq<char>| #[trigger] after.failures.dom().contains(ep) implies live(
            p.found,
        ).contains(ep) by {
            assert(kept.contains(ep));
        }
    }
}

/// Every dial brings the pass nearer its end: either its service is done with, or one address
/// fewer is left to try. A service that is done with was reported once, as connected or as
/// failed.
pub proof fn every_dial_makes_progress(
    s: Standing,
    result: Result<Seq<char>, Seq<char>>,
    now: u64,
)
    requires
        s.pass.wf(),
        s.pass.queue.len() > 0,
    ensures
        dialed(s, result, now).pass.wf(),
        ({
            let before = s.pass;
            let after = dialed(s, result, now).pass;
            ||| after.service == before.service && after.queue.len() == before.queue.len() - 1
                && after.connected == before.connected && after.failed == before.failed
            ||| after.service == before.service + 1 && after.queue.len() == 0
                && after.connected.len() + after.failed.len() == before.connected.len()
                + before.failed.len() + 1
        }),
        result is Err ==> {
            let after = dialed(s, result, now).failures;
            after.dom().contains(s.pass.queue[0]) && after[s.pass.queue[0]].1 == now
        },
{
}

/// A connect that worked settles the matter: once the endpoint that was dialed is in the device
/// list, in a usable state, the service counts as attached and is not dialed again, whatever else
/// has failed.
pub proof fn a_dialed_endpoint_is_recognised(
    f: FoundView,
    before: Seq<DeviceView>,
    failures: Map<Seq<char>, (u32, u64)>,
    now: u64,
    after: Seq<DeviceView>,
    i: int,
    k: int,
)
    requires
        decision(f, before, failures, now) is Connect,
        0 <= i < decision(f, before, failures, now)->Connect_0.len(),
        0 <= k < after.len(),
        after[k].serial == decision(f, before, failures, now)->Connect_0[i],
        after[k].state == "device"@,
        after[k].transport == transport_of(after[k].serial),
    ensures
        attached(f, after),
        forall|later: Map<Seq<char>, (u32, u64)>, then: u64| #[trigger]
            decision(f, after, later, then) is AlreadyAttached,
{
    let ep = after[k].serial;
    let keep = |e: Seq<char>| !backed_off(failures, e, now);
    let open = endpoints(f).filter(keep);
    endpoints(f).lemma_filter_contains_rev(keep, open[i]);
    assert(endpoints(f).contains(ep));
    let n = choose|n: int| 0 <= n < endpoints(f).len() && endpoints(f)[n] == ep;
    an_endpoint_splits(usable(f.addresses)[n], f.port);
    assert(is_settled(after[k]) && is_entry_of(after[k], f));
}

/// An endpoint that has failed three times in a row is left alone, until a backoff after the last
/// of them.
pub proof fn repeated_failures_back_off(
    failures: Map<Seq<char>, (u32, u64)>,
    ep: Seq<char>,
    first: u64,
    second: u64,
    third: u64,
    now: u64,
)
    requires
        !failures.dom().contains(ep),
        third <= now,
    ensures
        ({
            let once = failed_again(failures, ep, first);
            let twice = failed_again(once, ep, second);
            let thrice = failed_again(twice, ep, third);
            &&& !backed_off(once, ep, now)
            &&& !backed_off(twice, ep, now)
            &&& backed_off(thrice, ep, now) <==> now - third < BACKOFF
        }),
{
}

/// Whether everything in the queue may be dialed: it is an endpoint of the service at hand, and that
/// service is not attached.
pub open spec fn queue_is_warranted(p: PassView) -> bool {
    p.queue.len() > 0 ==> {
        let f = p.found[p.service as int];
        &&& !attached(f, p.devices)
        &&& forall|i: int| 0 <= i < p.queue.len() ==> endpoints(f).contains(#[trigger] p.queue[i])
    }
}

/// Throughout a pass, nothing is dialed but endpoints of a service that is advertised and missing.
pub proof fn only_missing_services_are_dialed(
    s: Standing,
    result: Result<Seq<char>, Seq<char>>,
    now: u64,
)
    requires
        s.pass.wf(),
        queue_is_warranted(s.pass),
    ensures
        queue_is_warranted(settle(s, now).pass),
        s.pass.queue.len() > 0 ==> queue_is_warranted(dialed(s, result, now).pass),
    decreases s.pass.found.len() - s.pass.service,
{
    let p = s.pass;
    if p.queue.len() == 0 && p.service < p.found.len() {
        let next = PassView { service: p.service + 1, ..p };
        let f = p.found[p.service as int];
        match decision(f, p.devices, s.failures, now) {
            ActionView::Connect(eps) => {
                a_connect_is_warranted(f, p.devices, s.failures, now);
            },
            ActionView::AlreadyAttached => {
                let t = Standing { pass: next, failures: cleared(s.failures, f) };
                only_missing_services_are_dialed(t, result, now);
            },
            _ => {
                only_missing_services_are_dialed(Standing { pass: next, ..s }, result, now);
            },
        }
    }
    if p.queue.len() > 0 {
        let after = dialed(s, result, now).pass;
        if after.queue.len() > 0 {
            assert(after.queue == p.queue.skip(1));
            assert forall|i: int| 0 <= i < after.queue.len() implies endpoints(
                p.found[p.service as int],
            ).contains(#[trigger] after.queue[i]) by {
                assert(after.queue[i] == p.queue[i + 1]);
            }
        }
    }
}

/// How many services the next stretch of a pass begins to dial: one, where the decision on a
/// service is to connect before the pass is through, and otherwise none.
pub open spec fn taken_up(s: Standing, now: u64) -> nat
    decreases s.pass.found.len() - s.pass.service,
{
    let p = s.pass;
    if p.queue.len() > 0 || p.service >= p.found.len() {
        0
    } else {
        let next = PassView { service: p.service + 1, ..p };
        match decision(p.found[p.service as int], p.devices, s.failures, now) {
            ActionView::Connect(eps) => 1,
            ActionView::AlreadyAttached => taken_up(
                Standing {
                    pass: next,
                    failures: cleared(s.failures, p.found[p.service as int]),
                },
                now,
            ),
            _ => taken_up(Standing { pass: next, ..s }, now),
        }
    }
}

/// Where a pass stands before the step after its `n`th dial, where the dials turn out as `results`
/// says and the steps are taken at `times`.
pub open spec fn standing_before(
    s: Standing,
    results: spec_fn(int) -> Result<Seq<char>, Seq<char>>,
    times: spec_fn(int) -> u64,
    n: nat,
) -> Standing
    decreases n, 0int,
{
    if n == 0 {
        s
    } else {
        let m = (n - 1) as nat;
        dialed(standing_after(s, results, times, m), results(m as int), times(n as int))
    }
}

/// Where it stands after that step.
pub open spec fn standing_after(
    s: Standing,
    results: spec_fn(int) -> Result<Seq<char>, Seq<char>>,
    times: spec_fn(int) -> u64,
    n: nat,
) -> Standing
    decreases n, 1int,
{
    settle(standing_before(s, results, times, n), times(n as int))
}

/// How many services the decision was to connect to, up to there.
pub open spec fn services_taken_up(
    s: Standing,
    results: spec_fn(int) -> Result<Seq<char>, Seq<char>>,
    times: spec_fn(int) -> u64,
    n: nat,
) -> nat
    decreases n,
{
    let here = taken_up(standing_before(s, results, times, n), times(n as int));
    if n == 0 {
        here
    } else {
        services_taken_up(s, results, times, (n - 1) as nat) + here
    }
}

proof fn lemma_taken_up(s: Standing, now: u64)
    requires
        s.pass.wf(),
        s.pass.queue.len() == 0,
    ensures
        taken_up(s, now) == if settle(s, now).pass.queue.len() > 0 {
            1nat
        } else {
            0nat
        },
    decreases s.pass.found.len() - s.pass.service,
{
    let p = s.pass;
    if p.service < p.found.len() {
        let next = PassView { service: p.service + 1, ..p };
        let f = p.found[p.service as int];
        match decision(f, p.devices, s.failures, now) {
            ActionView::Connect(eps) => {
                a_connect_is_warranted(f, p.devices, s.failures, now);
            },
            ActionView::AlreadyAttached => {
                lemma_taken_up(Standing { pass: next, failures: cleared(s.failures, f) }, now);
            },
            _ => {
                lemma_taken_up(Standing { pass: next, ..s }, now);
            },
        }
    }
}

/// At every step of a pass, each service that was to be connected to has been reported once, as
/// connected or as failed, but for the one that is being dialed. So a pass that is over has
/// reported exactly as many services as the decision was to connect to.
pub proof fn every_service_taken_up_is_reported(
    s: Standing,
    results: spec_fn(int) -> Result<Seq<char>, Seq<char>>,
    times: spec_fn(int) -> u64,
    n: nat,
)
    requires
        s.pass.wf(),
        s.pass.service == 0,
        s.pass.queue.len() == 0,
        s.pass.connected.len() == 0,
        s.pass.failed.len() == 0,
        forall|m: nat|
            m < n ==> (#[trigger] standing_after(s, results, times, m)).pass.queue.len() > 0,
    ensures
        ({
            let p = standing_after(s, results, times, n).pass;
            let reported = p.connected.len() + p.failed.len();
            let taken = services_taken_up(s, results, times, n);
            &&& p.wf()
            &&& p.found == s.pass.found
            &&& p.queue.len() > 0 ==> taken == reported + 1
            &&& p.queue.len() == 0 ==> taken == reported && p.service == p.found.len()
        }),
    decreases n,
{
    let before = standing_before(s, results, times, n);
    let now = times(n as int);
    if n > 0 {
        let m = (n - 1) as nat;
        every_service_taken_up_is_reported(s, results, times, m);
        let last = standing_after(s, results, times, m);
        assert(last.pass.queue.len() > 0);
        every_dial_makes_progress(last, results(m as int), now);
        assert(before == dialed(last, results(m as int), now));
    }
    settling_reports_nothing(before, now);
    if before.pass.queue.len() == 0 {
        lemma_taken_up(before, now);
    }
}


/// How many endpoints the services from `i` on have.
spec fn endpoints_from(found: Seq<FoundView>, i: int) -> nat
    decreases found.len() - i,
{
    if i < 0 || i >= found.len() {
        0
    } else {
        endpoints(found[i]).len() + endpoints_from(found, i + 1)
    }
}

proof fn lemma_endpoints_from(found: Seq<FoundView>, i: int)
    requires
        0 <= i <= found.len(),
    ensures
        live(found.take(i)).len() + endpoints_from(found, i) == live(found).len(),
    decreases found.len() - i,
{
    if i < found.len() {
        lemma_endpoints_from(found, i + 1);
        assert(found.take(i + 1).drop_last() == found.take(i));
        assert(found.take(i + 1).last() == found[i]);
    } else {
        assert(found.take(i) == found);
    }
}

/// The most dials a pass can still make.
spec fn dials_left(p: PassView) -> nat {
    if p.queue.len() > 0 {
        p.queue.len() + endpoints_from(p.found, p.service as int + 1)
    } else {
        endpoints_from(p.found, p.service as int)
    }
}

proof fn lemma_settling_adds_no_dial(s: Standing, now: u64)
    requires
        s.pass.wf(),
    ensures
        dials_left(settle(s, now).pass) <= dials_left(s.pass),
    decreases s.pass.found.len() - s.pass.service,
{
    let p = s.pass;
    if p.queue.len() == 0 && p.service < p.found.len() {
        let next = PassView { service: p.service + 1, ..p };
        let f = p.found[p.service as int];
        match decision(f, p.devices, s.failures, now) {
            ActionView::Connect(eps) => {
                let keep = |ep: Seq<char>| !backed_off(s.failures, ep, now);
                endpoints(f).lemma_filter_len(keep);
                assert(eps == endpoints(f).filter(keep));
            },
            ActionView::AlreadyAttached => {
                lemma_settling_adds_no_dial(
                    Standing { pass: next, failures: cleared(s.failures, f) },
                    now,
                );
            },
            _ => {
                lemma_settling_adds_no_dial(Standing { pass: next, ..s }, now);
            },
        }
    }
}

proof fn lemma_dials_left(
    s: Standing,
    results: spec_fn(int) -> Result<Seq<char>, Seq<char>>,
    times: spec_fn(int) -> u64,
    n: nat,
)
    requires
        s.pass.wf(),
        s.pass.service == 0,
        s.pass.queue.len() == 0,
        forall|m: nat|
            m < n ==> (#[trigger] standing_after(s, results, times, m)).pass.queue.len() > 0,
    ensures
        standing_after(s, results, times, n).pass.wf(),
        n + dials_left(standing_after(s, results, times, n).pass) <= live(s.pass.found).len(),
    decreases n,
{
    let before = standing_before(s, results, times, n);
    let now = times(n as int);
    if n > 0 {
        let m = (n - 1) as nat;
        lemma_dials_left(s, results, times, m);
        let last = standing_after(s, results, times, m);
        assert(last.pass.queue.len() > 0);
        every_dial_makes_progress(last, results(m as int), now);
        assert(before == dialed(last, results(m as int), now));
    } else {
        lemma_endpoints_from(s.pass.found, 0);
    }
    settling_reports_nothing(before, now);
    lemma_settling_adds_no_dial(before, now);
}

/// A pass comes to an end, whatever the dials come to: there are never more of them than endpoints
/// that are advertised.
pub proof fn a_pass_comes_to_an_end(
    s: Standing,
    results: spec_fn(int) -> Result<Seq<char>, Seq<char>>,
    times: spec_fn(int) -> u64,
    n: nat,
)
    requires
        s.pass.wf(),
        s.pass.service == 0,
        s.pass.queue.len() == 0,
        forall|m: nat|
            m < n ==> (#[trigger] standing_after(s, results, times, m)).pass.queue.len() > 0,
    ensures
        n <= live(s.pass.found).len(),
        n == live(s.pass.found).len() ==> standing_after(s, results, times, n).pass.queue.len()
            == 0,
{
    lemma_dials_left(s, results, times, n);
}

} // verus!
