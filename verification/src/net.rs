//! Internet addresses, and how they are written.

use crate::num::{decimal, decimal_of, hexadecimal, hexadecimal_of};
use crate::text::{join, join_strings, texts};
use vstd::prelude::*;

verus! {

/// An address: the four bytes of IPv4, or the eight segments of IPv6.
#[derive(Debug, Clone, Copy, PartialEq, Eq)]
pub enum IpAddr {
    V4([u8; 4]),
    V6([u16; 8]),
}

impl IpAddr {
    /// The loopback address `::1`.
    pub open spec fn is_loopback_v6(self) -> bool {
        self matches IpAddr::V6(s) && s@ == seq![0u16, 0u16, 0u16, 0u16, 0u16, 0u16, 0u16, 1u16]
    }

    /// An address under `fe80::/10`. adb cannot use one: it takes no scope id.
    pub open spec fn is_link_local_v6(self) -> bool {
        self matches IpAddr::V6(s) && 0xfe80 <= s@[0] < 0xfec0
    }

    /// An IPv6 address that adb can dial.
    pub open spec fn is_dialable_v6(self) -> bool {
        self is V6 && !self.is_loopback_v6() && !self.is_link_local_v6()
    }

    pub fn is_ipv4(&self) -> (r: bool)
        ensures
            r == (self is V4),
    {
        matches!(self, IpAddr::V4(_))
    }

    pub fn dialable_v6(&self) -> (r: bool)
        ensures
            r == self.is_dialable_v6(),
    {
        match self {
            IpAddr::V4(_) => false,
            IpAddr::V6(s) => {
                let loopback = s[0] == 0 && s[1] == 0 && s[2] == 0 && s[3] == 0 && s[4] == 0 && s[5]
                    == 0 && s[6] == 0 && s[7] == 1;
                proof {
                    let one = seq![0u16, 0u16, 0u16, 0u16, 0u16, 0u16, 0u16, 1u16];
                    if loopback {
                        assert(s@ == one);
                    } else if s@ == one {
                        assert(s@[0] == one[0] && s@[1] == one[1] && s@[2] == one[2] && s@[3]
                            == one[3] && s@[4] == one[4] && s@[5] == one[5] && s@[6] == one[6]
                            && s@[7] == one[7]);
                    }
                }
                let link_local = 0xfe80 <= s[0] && s[0] < 0xfec0;
                !loopback && !link_local
            },
        }
    }
}

/// Four numbers with dots between them.
pub open spec fn dotted(a: nat, b: nat, c: nat, d: nat) -> Seq<char> {
    decimal(a) + "."@ + decimal(b) + "."@ + decimal(c) + "."@ + decimal(d)
}

fn dotted_of(a: u64, b: u64, c: u64, d: u64) -> (r: String)
    ensures
        r@ == dotted(a as nat, b as nat, c as nat, d as nat),
{
    decimal_of(a).concat(".").concat(decimal_of(b).as_str()).concat(".").concat(
        decimal_of(c).as_str(),
    ).concat(".").concat(decimal_of(d).as_str())
}

/// How many segments from `i` on are zero.
pub open spec fn zero_run(s: Seq<u16>, i: int) -> nat
    decreases s.len() - i,
{
    if 0 <= i < s.len() && s[i] == 0 {
        1 + zero_run(s, i + 1)
    } else {
        0
    }
}

/// The leftmost of the first `k` positions at which the longest run of zeros starts.
pub open spec fn longest_run(s: Seq<u16>, k: nat) -> int
    decreases k,
{
    if k == 0 {
        0
    } else {
        let before = longest_run(s, (k - 1) as nat);
        if zero_run(s, k - 1) > zero_run(s, before) {
            k - 1
        } else {
            before
        }
    }
}

/// Segments in hexadecimal with colons between them.
pub open spec fn groups(s: Seq<u16>) -> Seq<char> {
    join(s.map_values(|x: u16| hexadecimal(x as nat)), ":"@)
}

/// The longest run of two or more zeros is left out, and an IPv4 address mapped into IPv6 ends
/// as it is written in IPv4.
pub open spec fn segments_text(s: Seq<u16>) -> Seq<char> {
    let start = longest_run(s, 8);
    let n = zero_run(s, start);
    if s.take(6) == seq![0u16, 0u16, 0u16, 0u16, 0u16, 0xffffu16] {
        "::ffff:"@ + dotted(
            s[6] as nat / 256,
            s[6] as nat % 256,
            s[7] as nat / 256,
            s[7] as nat % 256,
        )
    } else if n > 1 {
        groups(s.take(start)) + "::"@ + groups(s.skip(start + n))
    } else {
        groups(s)
    }
}

/// How an address is written.
pub open spec fn address_text(a: IpAddr) -> Seq<char> {
    match a {
        IpAddr::V4(b) => dotted(b@[0] as nat, b@[1] as nat, b@[2] as nat, b@[3] as nat),
        IpAddr::V6(s) => segments_text(s@),
    }
}

fn zero_run_from(s: &[u16; 8], i: usize) -> (r: usize)
    requires
        i <= 8,
    ensures
        r == zero_run(s@, i as int),
        i + r <= 8,
    decreases 8 - i,
{
    if i < 8 && s[i] == 0 {
        1 + zero_run_from(s, i + 1)
    } else {
        0
    }
}

fn groups_of(s: &[u16; 8], from: usize, to: usize) -> (r: String)
    requires
        from <= to <= 8,
    ensures
        r@ == groups(s@.subrange(from as int, to as int)),
{
    let ghost part = s@.subrange(from as int, to as int);
    let ghost all = part.map_values(|x: u16| hexadecimal(x as nat));
    let mut parts: Vec<String> = Vec::new();
    let mut i: usize = from;
    while i < to
        invariant
            from <= i <= to <= 8,
            part == s@.subrange(from as int, to as int),
            all == part.map_values(|x: u16| hexadecimal(x as nat)),
            texts(parts@) == all.take(i - from),
        decreases to - i,
    {
        let ghost done = texts(parts@);
        let group = hexadecimal_of(s[i] as u64);
        parts.push(group);
        proof {
            assert(texts(parts@) == done.push(group@));
            assert(part[i - from] == s@[i as int]);
            assert(all.take(i + 1 - from) == all.take(i - from).push(all[i - from]));
        }
        i += 1;
    }
    assert(all.take(i - from) == all);
    join_strings(parts.as_slice(), ":")
}

fn segments_text_of(s: &[u16; 8]) -> (r: String)
    ensures
        r@ == segments_text(s@),
{
    let mapped = s[0] == 0 && s[1] == 0 && s[2] == 0 && s[3] == 0 && s[4] == 0 && s[5] == 0xffff;
    proof {
        let prefix = seq![0u16, 0u16, 0u16, 0u16, 0u16, 0xffffu16];
        if mapped {
            assert(s@.take(6) == prefix);
        } else if s@.take(6) == prefix {
            assert(s@[0] == prefix[0] && s@[1] == prefix[1] && s@[2] == prefix[2] && s@[3]
                == prefix[3] && s@[4] == prefix[4] && s@[5] == prefix[5]);
        }
    }
    if mapped {
        return "::ffff:".to_owned().concat(
            dotted_of(
                s[6] as u64 / 256,
                s[6] as u64 % 256,
                s[7] as u64 / 256,
                s[7] as u64 % 256,
            ).as_str(),
        );
    }
    let mut start: usize = 0;
    let mut n: usize = zero_run_from(s, 0);
    let mut k: usize = 0;
    while k < 8
        invariant
            k <= 8,
            start == longest_run(s@, k as nat),
            n == zero_run(s@, start as int),
            start + n <= 8,
        decreases 8 - k,
    {
        let here: usize = zero_run_from(s, k);
        if here > n {
            start = k;
            n = here;
        }
        k += 1;
    }
    if n > 1 {
        assert(s@.take(start as int) == s@.subrange(0, start as int));
        assert(s@.skip(start + n) == s@.subrange(start + n, 8));
        groups_of(s, 0, start).concat("::").concat(groups_of(s, start + n, 8).as_str())
    } else {
        assert(s@ == s@.subrange(0, 8));
        groups_of(s, 0, 8)
    }
}

pub fn address_text_of(a: &IpAddr) -> (r: String)
    ensures
        r@ == address_text(*a),
{
    match a {
        IpAddr::V4(b) => dotted_of(b[0] as u64, b[1] as u64, b[2] as u64, b[3] as u64),
        IpAddr::V6(s) => segments_text_of(s),
    }
}

} // verus!
