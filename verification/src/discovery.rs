//! Services seen over mDNS.

use crate::net::IpAddr;
use crate::text::{chars_of, scan, scan_for, str_eq, Class};
use vstd::prelude::*;

verus! {

#[derive(Debug, Clone, PartialEq, Eq)]
pub struct Found {
    /// Full DNS-SD name, e.g. `studio-abc._adb-tls-pairing._tcp.local.`
    pub fullname: String,
    pub addresses: Vec<IpAddr>,
    pub port: u16,
}

pub struct FoundView {
    pub fullname: Seq<char>,
    pub addresses: Seq<IpAddr>,
    pub port: u16,
}

impl View for Found {
    type V = FoundView;

    open spec fn view(&self) -> FoundView {
        FoundView {
            fullname: self.fullname@,
            addresses: self.addresses@,
            port: self.port,
        }
    }
}

pub open spec fn services(v: Seq<Found>) -> Seq<FoundView> {
    v.map_values(|f: Found| f@)
}

/// The first label of a name.
pub open spec fn first_label(name: Seq<char>) -> Seq<char> {
    name.take(scan(name, 0, Class::Is('.')))
}

impl Found {
    /// The instance component, which is what a QR payload is matched against.
    pub fn instance(&self) -> (r: &str)
        ensures
            r@ == first_label(self.fullname@),
    {
        let s = chars_of(self.fullname.as_str());
        let n: usize = scan_for(s.as_slice(), 0, Class::Is('.'));
        let label = self.fullname.as_str().substring_char(0, n);
        assert(label@ == s@.take(n as int));
        label
    }

    /// The same service again.
    pub fn copy(&self) -> (r: Found)
        ensures
            r@ == self@,
    {
        let mut addresses: Vec<IpAddr> = Vec::new();
        let mut i: usize = 0;
        while i < self.addresses.len()
            invariant
                i <= self.addresses.len(),
                addresses@ == self.addresses@.take(i as int),
            decreases self.addresses.len() - i,
        {
            addresses.push(self.addresses[i]);
            assert(addresses@ == self.addresses@.take(i + 1));
            i += 1;
        }
        assert(addresses@ == self.addresses@);
        Found { fullname: self.fullname.clone(), addresses, port: self.port }
    }
}

/// How long to listen next, in milliseconds: until the deadline, but no longer than half a
/// second at a time. None once the deadline has come.
pub fn next_wait(now: u64, deadline: u64) -> (r: Option<u64>)
    ensures
        now >= deadline ==> r is None,
        now < deadline ==> r == Some(
            if deadline - now < 500 {
                (deadline - now) as u64
            } else {
                500u64
            },
        ),
{
    if now >= deadline {
        None
    } else if deadline - now < 500 {
        Some(deadline - now)
    } else {
        Some(500)
    }
}

/// Whether a service of this name is among those seen.
pub open spec fn was_seen(seen: Seq<FoundView>, fullname: Seq<char>) -> bool {
    exists|i: int| 0 <= i < seen.len() && #[trigger] seen[i].fullname == fullname
}

/// The services heard, each name once, as it was first resolved.
pub open spec fn distinct(heard: Seq<FoundView>) -> Seq<FoundView>
    decreases heard.len(),
{
    if heard.len() == 0 {
        seq![]
    } else {
        let before = distinct(heard.drop_last());
        if was_seen(before, heard.last().fullname) {
            before
        } else {
            before.push(heard.last())
        }
    }
}

/// Take note of a service, unless one of its name is there already.
pub fn note(seen: &mut Vec<Found>, f: &Found)
    ensures
        services(final(seen)@) == if was_seen(services(old(seen)@), f@.fullname) {
            services(old(seen)@)
        } else {
            services(old(seen)@).push(f@)
        },
{
    let ghost before = services(seen@);
    let mut i: usize = 0;
    while i < seen.len()
        invariant
            i <= seen.len(),
            seen@ == old(seen)@,
            before == services(seen@),
            forall|j: int| 0 <= j < i ==> #[trigger] before[j].fullname != f@.fullname,
        decreases seen.len() - i,
    {
        assert(before[i as int] == seen@[i as int]@);
        if str_eq(seen[i].fullname.as_str(), f.fullname.as_str()) {
            assert(before[i as int].fullname == f@.fullname);
            return;
        }
        i += 1;
    }
    let c = f.copy();
    seen.push(c);
    assert(services(seen@) == before.push(f@));
}

/// Everything heard within a window, each service once.
pub fn browse_all(heard: &[Found]) -> (r: Vec<Found>)
    ensures
        services(r@) == distinct(services(heard@)),
{
    let ghost all = services(heard@);
    let mut seen: Vec<Found> = Vec::new();
    let mut i: usize = 0;
    while i < heard.len()
        invariant
            i <= heard.len(),
            all == services(heard@),
            services(seen@) == distinct(all.take(i as int)),
        decreases heard.len() - i,
    {
        assert(all.take(i + 1).drop_last() == all.take(i as int));
        assert(all[i as int] == heard@[i as int]@);
        note(&mut seen, &heard[i]);
        i += 1;
    }
    assert(all.take(i as int) == all);
    seen
}

/// No name comes twice, every name heard comes once, and nothing comes that was not heard.
pub proof fn distinct_names(heard: Seq<FoundView>)
    ensures
        forall|i: int, j: int|
            0 <= i < j < distinct(heard).len() ==> #[trigger] distinct(heard)[i].fullname
                != #[trigger] distinct(heard)[j].fullname,
        forall|i: int|
            0 <= i < heard.len() ==> was_seen(distinct(heard), #[trigger] heard[i].fullname),
        forall|i: int|
            0 <= i < distinct(heard).len() ==> heard.contains(#[trigger] distinct(heard)[i]),
    decreases heard.len(),
{
    if heard.len() > 0 {
        let init = heard.drop_last();
        let before = distinct(init);
        let after = distinct(heard);
        distinct_names(init);
        assert forall|i: int| 0 <= i < heard.len() implies was_seen(
            after,
            #[trigger] heard[i].fullname,
        ) by {
            if i < init.len() {
                assert(init[i] == heard[i]);
                let j = choose|j: int|
                    0 <= j < before.len() && #[trigger] before[j].fullname == init[i].fullname;
                assert(after[j] == before[j]);
            } else if !was_seen(before, heard.last().fullname) {
                assert(after[before.len() as int] == heard.last());
            }
        }
        assert forall|i: int| 0 <= i < after.len() implies heard.contains(#[trigger] after[i]) by {
            if i < before.len() {
                assert(after[i] == before[i]);
                let k = choose|k: int| 0 <= k < init.len() && init[k] == before[i];
                assert(heard[k] == after[i]);
            } else {
                assert(heard[heard.len() - 1] == after[i]);
            }
        }
        assert forall|i: int, j: int| 0 <= i < j < after.len() implies #[trigger] after[i].fullname
            != #[trigger] after[j].fullname by {
            assert(after[i] == before[i]);
            if j < before.len() {
                assert(after[j] == before[j]);
            }
        }
    }
}

} // verus!
