//! What addresses, names and paths say.

use crate::discovery::{
    browse_all, distinct, distinct_names, next_wait, services, was_seen, Found, FoundView,
};
use crate::laws::text::joined_parts_are_split_again;
use crate::net::{address_text_of, dotted, groups, longest_run, zero_run, IpAddr};
use crate::num::{decimal, hexadecimal};
use crate::path::{body_start, file_name, is_name, joined, names, paths_agree};
use crate::text::{join, lemma_scan_is, Class};
use vstd::prelude::*;

verus! {

/// An IPv4 address is its four bytes in decimal, with dots between them.
pub proof fn four_bytes_and_three_dots(a: [u8; 4], r: String)
    requires
        call_ensures(address_text_of, (&IpAddr::V4(a),), r),
    ensures
        r@ == join(
            seq![
                decimal(a@[0] as nat),
                decimal(a@[1] as nat),
                decimal(a@[2] as nat),
                decimal(a@[3] as nat),
            ],
            "."@,
        ),
{
    let v = seq![
        decimal(a@[0] as nat),
        decimal(a@[1] as nat),
        decimal(a@[2] as nat),
        decimal(a@[3] as nat),
    ];
    assert(v.drop_last().drop_last().drop_last() == seq![v[0]]);
    assert(v.drop_last().drop_last() == seq![v[0], v[1]]);
    assert(v.drop_last() == seq![v[0], v[1], v[2]]);
    assert(join(seq![v[0]], "."@) == v[0]);
    assert(seq![v[0], v[1]].drop_last() == seq![v[0]]);
    assert(join(seq![v[0], v[1]], "."@) == v[0] + "."@ + v[1]);
    assert(seq![v[0], v[1], v[2]].drop_last() == seq![v[0], v[1]]);
    assert(join(seq![v[0], v[1], v[2]], "."@) == v[0] + "."@ + v[1] + "."@ + v[2]);
    assert(join(v, "."@) == v[0] + "."@ + v[1] + "."@ + v[2] + "."@ + v[3]);
}

/// Groups of an address as they are written: in hexadecimal, with colons between them.
pub open spec fn written_groups(s: Seq<u16>) -> Seq<char> {
    join(s.map_values(|x: u16| hexadecimal(x as nat)), ":"@)
}

proof fn lemma_zero_run(s: Seq<u16>, i: int)
    requires
        0 <= i <= s.len(),
    ensures
        i + zero_run(s, i) <= s.len(),
        forall|j: int| i <= j < i + zero_run(s, i) ==> s[j] == 0,
        i + zero_run(s, i) < s.len() ==> s[i + zero_run(s, i)] != 0,
    decreases s.len() - i,
{
    if i < s.len() && s[i] == 0 {
        lemma_zero_run(s, i + 1);
    }
}

proof fn lemma_longest_run(s: Seq<u16>, k: nat)
    requires
        k <= s.len(),
        s.len() > 0,
    ensures
        0 <= longest_run(s, k) < s.len(),
        forall|j: int| 0 <= j < k ==> #[trigger] zero_run(s, j) <= zero_run(s, longest_run(s, k)),
        longest_run(s, k) < k || k == 0,
        forall|j: int|
            0 <= j < longest_run(s, k) ==> #[trigger] zero_run(s, j) < zero_run(
                s,
                longest_run(s, k),
            ),
    decreases k,
{
    if k > 0 {
        lemma_longest_run(s, (k - 1) as nat);
    }
}

/// An IPv6 address says what its eight groups are. Either all eight are written, or two colons
/// stand for some zeros, and what is written before and after them is the rest. Nothing longer
/// could have been left out, and nothing as long further to the left. Only an IPv4 address in IPv6
/// clothes is written with dots.
pub proof fn eight_groups_or_two_colons(a: [u16; 8], r: String)
    requires
        call_ensures(address_text_of, (&IpAddr::V6(a),), r),
    ensures
        a@.take(6) == seq![0u16, 0u16, 0u16, 0u16, 0u16, 0xffffu16] ==> r@ == "::ffff:"@ + dotted(
            a@[6] as nat / 256,
            a@[6] as nat % 256,
            a@[7] as nat / 256,
            a@[7] as nat % 256,
        ),
        a@.take(6) != seq![0u16, 0u16, 0u16, 0u16, 0u16, 0xffffu16] ==> {
            ||| r@ == written_groups(a@) && forall|i: int|
                0 <= i < 7 ==> !(#[trigger] a@[i] == 0 && a@[i + 1] == 0)
            ||| exists|i: int, j: int|
                {
                    &&& 0 <= i && i + 2 <= j <= 8
                    &&& all_zero(a@, i, j)
                    &&& r@ == written_groups(#[trigger] a@.take(i)) + "::"@ + written_groups(
                        #[trigger] a@.skip(j),
                    )
                    &&& forall|x: int, y: int|
                        0 <= x < y <= 8 && #[trigger] all_zero(a@, x, y) ==> y - x <= j - i && (y - x
                            == j - i ==> x >= i)
                }
        },
{
    let s = a@;
    let start = longest_run(s, 8);
    lemma_longest_run(s, 8);
    let n = zero_run(s, start);
    lemma_zero_run(s, start);
    if s.take(6) != seq![0u16, 0u16, 0u16, 0u16, 0u16, 0xffffu16] {
        if n > 1 {
            let i = start;
            let j = start + n;
            assert forall|x: int, y: int|
                0 <= x < y <= 8 && #[trigger] all_zero(s, x, y) implies y - x <= j - i && (y - x
                == j - i ==> x >= i) by {
                lemma_zero_run(s, x);
                assert(zero_run(s, x) <= n);
                if x < i {
                    assert(zero_run(s, x) < n);
                }
            }
            assert(all_zero(s, i, j));
            assert(r@ == written_groups(s.take(i)) + "::"@ + written_groups(s.skip(j)));
        } else {
            assert forall|i: int| 0 <= i < 7 implies !(#[trigger] s[i] == 0 && s[i + 1] == 0) by {
                if s[i] == 0 && s[i + 1] == 0 {
                    assert(zero_run(s, i + 1) >= 1);
                    assert(zero_run(s, i) >= 2);
                }
            }
            assert(r@ == written_groups(s));
        }
    }
}

/// The groups from `x` up to `y` are zero.
pub open spec fn all_zero(s: Seq<u16>, x: int, y: int) -> bool {
    forall|k: int| x <= k < y ==> #[trigger] s[k] == 0
}

// ---------------------------------------------------------------------------
// What was heard
// ---------------------------------------------------------------------------

/// A service's own name is what stands before the first dot, or all of it.
pub proof fn a_name_ends_at_the_first_dot(label: Seq<char>, rest: Seq<char>, f: &Found, r: &str)
    requires
        !label.contains('.'),
        f.fullname@ == label || f.fullname@ == label.push('.') + rest,
        call_ensures(Found::instance, (f,), r),
    ensures
        r@ == label,
{
    let s = f.fullname@;
    let n = label.len() as int;
    assert forall|j: int| 0 <= j < n implies !Class::Is('.').has(#[trigger] s[j]) by {
        assert(s[j] == label[j]);
        if s[j] == '.' {
            assert(label.contains('.'));
        }
    }
    lemma_scan_is(s, 0, Class::Is('.'), n);
    assert(s.take(n) == label);
}

/// Whether nothing that was heard before has the name of what was heard at `i`.
pub open spec fn is_new(heard: Seq<FoundView>, i: int) -> bool {
    forall|j: int| 0 <= j < i ==> (#[trigger] heard[j]).fullname != heard[i].fullname
}

/// `out` is what was heard at the places `at`, in order: exactly those at which a name was heard
/// for the first time.
pub open spec fn first_heard(heard: Seq<FoundView>, out: Seq<FoundView>, at: Seq<int>) -> bool {
    &&& at.len() == out.len()
    &&& forall|k: int| 0 <= k < at.len() ==> 0 <= #[trigger] at[k] < heard.len() && out[k] == heard[at[k]]
    &&& forall|j: int, k: int| 0 <= j < k < at.len() ==> #[trigger] at[j] < #[trigger] at[k]
    &&& forall|i: int| 0 <= i < heard.len() ==> (at.contains(i) <==> #[trigger] is_new(heard, i))
}

proof fn lemma_first_heard(heard: Seq<FoundView>) -> (at: Seq<int>)
    ensures
        first_heard(heard, distinct(heard), at),
    decreases heard.len(),
{
    let out = distinct(heard);
    if heard.len() == 0 {
        Seq::empty()
    } else {
        let init = heard.drop_last();
        let n = heard.len() - 1;
        let before = distinct(init);
        let at = lemma_first_heard(init);
        distinct_names(init);
        let fresh = !was_seen(before, heard.last().fullname);
        let then = if fresh {
            at.push(n)
        } else {
            at
        };
        assert forall|k: int| 0 <= k < then.len() implies 0 <= #[trigger] then[k] < heard.len()
            && out[k] == heard[then[k]] by {
            if k < at.len() {
                assert(0 <= at[k] < init.len());
                assert(init[at[k]] == heard[at[k]]);
            }
        }
        assert forall|j: int, k: int| 0 <= j < k < then.len() implies #[trigger] then[j]
            < #[trigger] then[k] by {
            assert(0 <= at[j] < init.len());
        }
        assert forall|i: int| 0 <= i < heard.len() implies (then.contains(i) <==> #[trigger] is_new(
            heard,
            i,
        )) by {
            if i < n {
                assert(forall|j: int| 0 <= j <= i ==> #[trigger] init[j] == heard[j]);
                assert(at.contains(i) <==> is_new(init, i));
                if is_new(init, i) {
                    assert forall|j: int| 0 <= j < i implies (#[trigger] heard[j]).fullname
                        != heard[i].fullname by {
                        assert(init[j].fullname != init[i].fullname);
                    }
                }
                if is_new(heard, i) {
                    assert forall|j: int| 0 <= j < i implies (#[trigger] init[j]).fullname
                        != init[i].fullname by {
                        assert(heard[j].fullname != heard[i].fullname);
                    }
                }
                if at.contains(i) {
                    let k = choose|k: int| 0 <= k < at.len() && at[k] == i;
                    assert(then[k] == i);
                }
                if then.contains(i) {
                    let k = choose|k: int| 0 <= k < then.len() && then[k] == i;
                    assert(at[k] == i);
                }
            } else if fresh {
                assert(then[at.len() as int] == n);
                assert forall|j: int| 0 <= j < i implies (#[trigger] heard[j]).fullname
                    != heard[i].fullname by {
                    assert(was_seen(before, init[j].fullname));
                    assert(init[j] == heard[j]);
                }
            } else {
                if then.contains(i) {
                    let k = choose|k: int| 0 <= k < then.len() && then[k] == i;
                    assert(0 <= at[k] < init.len());
                }
                let k = choose|k: int|
                    0 <= k < before.len() && #[trigger] before[k].fullname
                        == heard.last().fullname;
                assert(0 <= at[k] < init.len());
                assert(heard[at[k]].fullname == heard[i].fullname);
            }
        }
        assert(first_heard(heard, out, then));
        then
    }
}

/// Of everything that was heard, each name is kept once, as it was first heard, in that order.
pub proof fn each_name_is_kept_as_first_heard(heard: &[Found], r: Vec<Found>) -> (at: Seq<int>)
    requires
        call_ensures(browse_all, (heard,), r),
    ensures
        first_heard(services(heard@), services(r@), at),
{
    lemma_first_heard(services(heard@))
}

/// A wait ends by the deadline, and no later than half a second on; past the deadline there is
/// none.
pub proof fn a_wait_ends_by_the_deadline(now: u64, deadline: u64, r: Option<u64>)
    requires
        call_ensures(next_wait, (now, deadline), r),
    ensures
        r is Some <==> now < deadline,
        r matches Some(w) ==> 0 < w <= 500 && now + w <= deadline && (w == 500 || now + w
            == deadline),
{
}

// ---------------------------------------------------------------------------
// Paths
// ---------------------------------------------------------------------------

/// A path under a directory: one slash between them, unless the path is absolute and stands alone.
pub proof fn a_path_under_a_directory(base: &str, rel: &str, r: String)
    requires
        call_ensures(joined, (base, rel), r),
    ensures
        rel@.len() > 0 && rel@[0] == '/' ==> r@ == rel@,
        !(rel@.len() > 0 && rel@[0] == '/') && base@.len() > 0 && base@.last() == '/' ==> r@ == base@
            + rel@,
        !(rel@.len() > 0 && rel@[0] == '/') && base@.len() > 0 && base@.last() != '/' ==> r@
            == base@.push('/') + rel@,
        base@.len() == 0 ==> r@ == rel@,
{
    assert(base@ + seq!['/'] + rel@ == base@.push('/') + rel@);
    assert(base@.len() == 0 ==> base@ + rel@ == rel@);
}

/// A name in a path.
pub open spec fn plain_name(n: Seq<char>) -> bool {
    n.len() > 0 && !n.contains('/') && n != seq!['.']
}

/// Two absolute paths agree exactly where they lead through the same names.
pub proof fn absolute_paths_agree_by_their_names(
    a: Seq<Seq<char>>,
    b: Seq<Seq<char>>,
    p: &str,
    q: &str,
    r: bool,
)
    requires
        a.len() > 0,
        b.len() > 0,
        forall|i: int| 0 <= i < a.len() ==> plain_name(#[trigger] a[i]),
        forall|i: int| 0 <= i < b.len() ==> plain_name(#[trigger] b[i]),
        p@ == seq!['/'] + join(a, seq!['/']),
        q@ == seq!['/'] + join(b, seq!['/']),
        call_ensures(paths_agree, (p, q), r),
    ensures
        r <==> a == b,
{
    lemma_names(a, p@);
    lemma_names(b, q@);
}

proof fn lemma_names(a: Seq<Seq<char>>, p: Seq<char>)
    requires
        a.len() > 0,
        forall|i: int| 0 <= i < a.len() ==> plain_name(#[trigger] a[i]),
        p == seq!['/'] + join(a, seq!['/']),
    ensures
        names(p) == a,
        body_start(p) == 1,
        p[0] == '/',
{
    assert(p.skip(1) == join(a, seq!['/']));
    assert forall|i: int| 0 <= i < a.len() implies !(#[trigger] a[i]).contains('/') by {
        assert(plain_name(a[i]));
    }
    joined_parts_are_split_again(a, '/');
    let keep = |c: Seq<char>| is_name(c);
    lemma_all_kept(a, keep);
}

proof fn lemma_all_kept(s: Seq<Seq<char>>, keep: spec_fn(Seq<char>) -> bool)
    requires
        forall|i: int| 0 <= i < s.len() ==> plain_name(#[trigger] s[i]),
        forall|c: Seq<char>| plain_name(c) ==> #[trigger] keep(c),
    ensures
        s.filter(keep) == s,
    decreases s.len(),
{
    reveal(Seq::filter);
    if s.len() > 0 {
        let init = s.drop_last();
        assert forall|i: int| 0 <= i < init.len() implies plain_name(#[trigger] init[i]) by {
            assert(init[i] == s[i]);
        }
        lemma_all_kept(init, keep);
        assert(plain_name(s[s.len() - 1]));
        assert(keep(s.last()));
        assert(init.push(s.last()) == s);
    }
}

/// What is heard is noted once for each name.
pub proof fn what_is_heard_is_noted(seen: &mut Vec<Found>, f: &Found)
    requires
        call_ensures(crate::discovery::note, (seen, f), ()),
    ensures
        ({
            let before = services(old(seen)@);
            let after = services(final(seen)@);
            let known = exists|i: int|
                0 <= i < before.len() && #[trigger] before[i].fullname == f.fullname@;
            &&& known ==> after == before
            &&& !known ==> after == before.push(f@)
        }),
{
}

/// An absolute path that ends in a name.
pub open spec fn ends_in_a_name(p: Seq<char>) -> bool {
    exists|dir: Seq<char>, name: Seq<char>|
        {
            &&& p == #[trigger] (dir.push('/') + name)
            &&& plain_name(name)
            &&& dir.len() == 0 || dir[0] == '/'
        }
}

proof fn lemma_last_name(dir: Seq<char>, name: Seq<char>)
    requires
        plain_name(name),
        dir.len() == 0 || dir[0] == '/',
    ensures
        ({
            let p = dir.push('/') + name;
            &&& body_start(p) == 1
            &&& crate::path::trim_pieces(p) == p
            &&& crate::path::last_piece(p) == (
                name,
                if dir.len() == 0 {
                    1int
                } else {
                    dir.len() as int
                },
            )
        }),
{
    let p = dir.push('/') + name;
    assert(p[0] == '/');
    let s = p.skip(1);
    crate::text::lemma_last_index(s, '/');
    let k = crate::text::last_index(s, '/');
    if dir.len() == 0 {
        assert(s =~= name);
        if k >= 0 {
            assert(name.contains('/'));
        }
        assert(p.skip(1) =~= name);
    } else {
        assert(s[dir.len() - 1] == '/');
        assert(k >= dir.len() - 1);
        if k > dir.len() - 1 {
            assert(s[k] == name[k - dir.len()]);
            assert(name.contains('/'));
        }
        assert(p.skip(1 + k + 1) =~= name);
    }
    assert(is_name(name));
    assert(crate::path::trim_pieces(p) == p);
}

/// The last name of a path is its file name, and what stands before it is its parent.
pub proof fn a_path_is_a_directory_and_a_name(
    dir: Seq<char>,
    name: Seq<char>,
    p: &str,
    file: Option<String>,
    parent: Option<String>,
)
    requires
        plain_name(name),
        name != seq!['.', '.'],
        ends_in_a_name(dir),
        p@ == dir.push('/') + name,
        call_ensures(crate::path::file_name_of, (p,), file),
        call_ensures(crate::path::parent_of, (p,), parent),
    ensures
        file matches Some(f) && f@ == name,
        parent matches Some(d) && d@ == dir,
{
    let (up, last) = choose|up: Seq<char>, last: Seq<char>|
        {
            &&& dir == #[trigger] (up.push('/') + last)
            &&& plain_name(last)
            &&& up.len() == 0 || up[0] == '/'
        };
    assert(dir[0] == '/') by {
        if up.len() > 0 {
            assert(dir[0] == up[0]);
        }
    }
    lemma_last_name(dir, name);
    lemma_last_name(up, last);
    assert(p@.take(dir.len() as int) =~= dir);
}

pub proof fn lemma_parent(dir: Seq<char>, name: Seq<char>)
    requires
        plain_name(name),
        ends_in_a_name(dir),
    ensures
        crate::path::parent(dir.push('/') + name) == Some(dir),
{
    let p = dir.push('/') + name;
    let (up, last) = choose|up: Seq<char>, last: Seq<char>|
        {
            &&& dir == #[trigger] (up.push('/') + last)
            &&& plain_name(last)
            &&& up.len() == 0 || up[0] == '/'
        };
    assert(dir[0] == '/') by {
        if up.len() > 0 {
            assert(dir[0] == up[0]);
        }
    }
    lemma_last_name(dir, name);
    lemma_last_name(up, last);
    assert(p.take(dir.len() as int) =~= dir);
}

/// A name alone is its own file name.
pub proof fn a_name_is_its_own_file_name(name: Seq<char>, p: &str, file: Option<String>)
    requires
        plain_name(name),
        name != seq!['.', '.'],
        p@ == name,
        call_ensures(crate::path::file_name_of, (p,), file),
    ensures
        file matches Some(f) && f@ == name,
{
    crate::text::lemma_last_index(name, '/');
    let k = crate::text::last_index(name, '/');
    if k >= 0 {
        assert(name.contains('/'));
    }
    if name[0] == '/' {
        assert(name.contains('/'));
    }
    if name[0] == '.' && name.len() == 1 {
        assert(name =~= seq!['.']);
    }
    if name.len() > 1 && name[1] == '/' {
        assert(name.contains('/'));
    }
    assert(body_start(name) == 0);
    assert(name.skip(0) =~= name);
    assert(crate::path::trim_pieces(name) == name);
}

/// A program is known by the last name of its path.
pub proof fn a_program_is_known_by_its_last_name(
    dir: Seq<char>,
    name: Seq<char>,
    program: &str,
    r: String,
)
    requires
        plain_name(name),
        name != seq!['.', '.'],
        program@ == name || (ends_in_a_name(dir) && program@ == dir.push('/') + name),
        call_ensures(crate::tray::terminal::basename, (program,), r),
    ensures
        r@ == name,
        crate::tray::terminal::program_name(program@) == name,
{
    if program@ == name {
        lemma_own_name(name);
    } else {
        let (up, last) = choose|up: Seq<char>, last: Seq<char>|
            {
                &&& dir == #[trigger] (up.push('/') + last)
                &&& plain_name(last)
                &&& up.len() == 0 || up[0] == '/'
            };
        assert(dir[0] == '/') by {
            if up.len() > 0 {
                assert(dir[0] == up[0]);
            }
        }
        lemma_last_name(dir, name);
    }
}

proof fn lemma_own_name(name: Seq<char>)
    requires
        plain_name(name),
        name != seq!['.', '.'],
    ensures
        file_name(name) == Some(name),
{
    crate::text::lemma_last_index(name, '/');
    let k = crate::text::last_index(name, '/');
    if k >= 0 {
        assert(name.contains('/'));
    }
    if name[0] == '/' {
        assert(name.contains('/'));
    }
    if name[0] == '.' && name.len() == 1 {
        assert(name =~= seq!['.']);
    }
    if name.len() > 1 && name[1] == '/' {
        assert(name.contains('/'));
    }
    assert(body_start(name) == 0);
    assert(name.skip(0) =~= name);
    assert(crate::path::trim_pieces(name) == name);
}

/// A path leads through a name exactly where that is one of its names.
pub proof fn which_names_a_path_leads_through(
    a: Seq<Seq<char>>,
    p: &str,
    name: &str,
    r: bool,
)
    requires
        a.len() > 0,
        forall|i: int| 0 <= i < a.len() ==> plain_name(#[trigger] a[i]),
        p@ == seq!['/'] + join(a, seq!['/']),
        call_ensures(crate::path::path_has_name, (p, name), r),
    ensures
        r <==> a.contains(name@),
        names(p@) == a,
{
    lemma_names(a, p@);
}

} // verus!
