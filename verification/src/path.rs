//! Unix paths as text: joining, the parent directory, the file name, and comparison.

use crate::text::{
    chars_of, is_text, last_index, lemma_filter_step, lemma_last_index, rsplit_at, same, slices,
    split, split_on, string_of,
};
use vstd::prelude::*;
use vstd::slice::slice_subrange;

verus! {

/// `rel` as seen from `base`: an absolute path stands for itself.
pub open spec fn join(base: Seq<char>, rel: Seq<char>) -> Seq<char> {
    if rel.len() > 0 && rel[0] == '/' {
        rel
    } else if base.len() == 0 || base.last() == '/' {
        base + rel
    } else {
        base + seq!['/'] + rel
    }
}

pub fn joined(base: &str, rel: &str) -> (r: String)
    ensures
        r@ == join(base@, rel@),
{
    let b = chars_of(base);
    let e = chars_of(rel);
    if e.len() > 0 && e[0] == '/' {
        return rel.to_owned();
    }
    let mut r = base.to_owned();
    if b.len() > 0 && b[b.len() - 1] != '/' {
        r.push('/');
        assert(r@ == base@ + seq!['/']);
    }
    r.concat(rel)
}

/// Where the components begin: after the root, or after a leading `.`.
pub open spec fn body_start(p: Seq<char>) -> int {
    if p.len() > 0 && (p[0] == '/' || (p[0] == '.' && (p.len() == 1 || p[1] == '/'))) {
        1
    } else {
        0
    }
}

/// The last piece between separators, and where the path ends without it.
pub open spec fn last_piece(p: Seq<char>) -> (Seq<char>, int) {
    let b = body_start(p);
    let k = last_index(p.skip(b), '/');
    if k < 0 {
        (p.skip(b), b)
    } else {
        (p.skip(b + k + 1), b + k)
    }
}

/// An empty piece and a single dot name nothing.
pub open spec fn is_name(c: Seq<char>) -> bool {
    c.len() > 0 && c != seq!['.']
}

/// The path without the pieces at its end that name nothing.
pub open spec fn trim_pieces(p: Seq<char>) -> Seq<char>
    decreases p.len(),
    via trim_pieces_decreases
{
    if p.len() <= body_start(p) || is_name(last_piece(p).0) {
        p
    } else {
        trim_pieces(p.take(last_piece(p).1))
    }
}

#[via_fn]
proof fn trim_pieces_decreases(p: Seq<char>) {
    lemma_last_index(p.skip(body_start(p)), '/');
}

/// The final name of the path; `..` is not a name, and the root has none.
pub open spec fn file_name(p: Seq<char>) -> Option<Seq<char>> {
    let t = trim_pieces(p);
    if t.len() <= body_start(t) || last_piece(t).0 == seq!['.', '.'] {
        None
    } else {
        Some(last_piece(t).0)
    }
}

/// The path without its final component. The root and the empty path have no parent.
pub open spec fn parent(p: Seq<char>) -> Option<Seq<char>> {
    let t = trim_pieces(p);
    if t.len() > body_start(t) {
        Some(trim_pieces(t.take(last_piece(t).1)))
    } else if t.len() == 1 && t[0] == '.' {
        Some(seq![])
    } else {
        None
    }
}

fn body_start_of(p: &[char]) -> (r: usize)
    ensures
        r == body_start(p@),
        r <= p@.len(),
{
    if p.len() > 0 && (p[0] == '/' || (p[0] == '.' && (p.len() == 1 || p[1] == '/'))) {
        1
    } else {
        0
    }
}

fn last_piece_of(p: &[char]) -> (r: (&[char], usize))
    ensures
        r.0@ == last_piece(p@).0,
        r.1 == last_piece(p@).1,
        r.1 <= p@.len(),
        p@.len() > body_start(p@) ==> r.1 < p@.len(),
{
    let b: usize = body_start_of(p);
    let body = slice_subrange(p, b, p.len());
    assert(body@ == p@.skip(b as int));
    proof {
        lemma_last_index(body@, '/');
    }
    match rsplit_at(body, '/') {
        Some((head, tail)) => {
            assert(tail@ == p@.skip(last_index(body@, '/') + b + 1));
            (tail, b + head.len())
        },
        None => (body, b),
    }
}

fn trimmed_pieces(p: &[char]) -> (r: &[char])
    ensures
        r@ == trim_pieces(p@),
{
    let mut t = p;
    loop
        invariant
            trim_pieces(t@) == trim_pieces(p@),
        decreases t@.len(),
    {
        if t.len() <= body_start_of(t) {
            return t;
        }
        let (name, end) = last_piece_of(t);
        let named: bool = name.len() > 0 && !(name.len() == 1 && name[0] == '.');
        assert(named == is_name(name@)) by {
            if name@.len() == 1 && name@[0] == '.' {
                assert(name@ == seq!['.']);
            }
        }
        if named {
            return t;
        }
        let next = slice_subrange(t, 0, end);
        assert(next@ == t@.take(end as int));
        t = next;
    }
}

pub fn file_name_of(p: &str) -> (r: Option<String>)
    ensures
        match r {
            Some(name) => file_name(p@) == Some(name@),
            None => file_name(p@) is None,
        },
{
    let p = chars_of(p);
    let t = trimmed_pieces(p.as_slice());
    if t.len() <= body_start_of(t) {
        return None;
    }
    let (name, _) = last_piece_of(t);
    if name.len() == 2 && name[0] == '.' && name[1] == '.' {
        assert(name@ == seq!['.', '.']);
        None
    } else {
        Some(string_of(name))
    }
}

pub fn parent_of(p: &str) -> (r: Option<String>)
    ensures
        match r {
            Some(dir) => parent(p@) == Some(dir@),
            None => parent(p@) is None,
        },
{
    let p = chars_of(p);
    let t = trimmed_pieces(p.as_slice());
    if t.len() > body_start_of(t) {
        let (_, end) = last_piece_of(t);
        let head = slice_subrange(t, 0, end);
        assert(head@ == t@.take(end as int));
        let dir = trimmed_pieces(head);
        Some(string_of(dir))
    } else if t.len() == 1 && t[0] == '.' {
        Some(String::new())
    } else {
        None
    }
}

/// The names a path is made of, in order.
pub open spec fn names(p: Seq<char>) -> Seq<Seq<char>> {
    split(p.skip(body_start(p)), '/').filter(|c: Seq<char>| is_name(c))
}

/// Do two paths have the same components? Repeated separators and inner dots do not count.
pub open spec fn same_path(p: Seq<char>, q: Seq<char>) -> bool {
    &&& body_start(p) == body_start(q)
    &&& body_start(p) == 1 ==> p[0] == q[0]
    &&& names(p) == names(q)
}

fn names_of(p: &[char]) -> (r: Vec<&[char]>)
    ensures
        slices(r@) == names(p@),
{
    let b: usize = body_start_of(p);
    let body = slice_subrange(p, b, p.len());
    assert(body@ == p@.skip(b as int));
    let pieces = split_on(body, '/');
    let ghost all = split(body@, '/');
    let ghost keep = |c: Seq<char>| is_name(c);
    let mut r: Vec<&[char]> = Vec::new();
    let mut i: usize = 0;
    proof {
        reveal(Seq::filter);
        assert(all.take(0).filter(keep) == Seq::<Seq<char>>::empty());
    }
    while i < pieces.len()
        invariant
            i <= pieces.len(),
            slices(pieces@) == all,
            keep == (|c: Seq<char>| is_name(c)),
            slices(r@) == all.take(i as int).filter(keep),
        decreases pieces.len() - i,
    {
        let name = pieces[i];
        let ghost before = slices(r@);
        assert(all[i as int] == name@);
        proof {
            lemma_filter_step(all, keep, i as int);
        }
        let named: bool = name.len() > 0 && !(name.len() == 1 && name[0] == '.');
        assert(named == is_name(name@)) by {
            if name@.len() == 1 && name@[0] == '.' {
                assert(name@ == seq!['.']);
            }
        }
        if named {
            r.push(name);
            assert(slices(r@) == before.push(name@));
        }
        i += 1;
    }
    assert(all.take(i as int) == all);
    r
}

pub fn paths_agree(p: &str, q: &str) -> (r: bool)
    ensures
        r == same_path(p@, q@),
{
    let left = chars_of(p);
    let right = chars_of(q);
    let b: usize = body_start_of(left.as_slice());
    if b != body_start_of(right.as_slice()) {
        return false;
    }
    if b == 1 && left[0] != right[0] {
        return false;
    }
    let a = names_of(left.as_slice());
    let c = names_of(right.as_slice());
    if a.len() != c.len() {
        assert(slices(a@).len() != slices(c@).len());
        return false;
    }
    let mut i: usize = 0;
    while i < a.len()
        invariant
            i <= a.len(),
            a.len() == c.len(),
            slices(a@) == names(p@),
            slices(c@) == names(q@),
            forall|j: int| 0 <= j < i ==> slices(a@)[j] == slices(c@)[j],
        decreases a.len() - i,
    {
        if !same(a[i], c[i]) {
            assert(slices(a@)[i as int] != slices(c@)[i as int]);
            return false;
        }
        i += 1;
    }
    assert(slices(a@) == slices(c@));
    true
}

proof fn lemma_trim_pieces_prefix(p: Seq<char>)
    ensures
        exists|n: int| 0 <= n <= p.len() && trim_pieces(p) == #[trigger] p.take(n),
    decreases p.len(),
{
    if p.len() <= body_start(p) || is_name(last_piece(p).0) {
        assert(trim_pieces(p) == p.take(p.len() as int));
    } else {
        let k = last_piece(p).1;
        lemma_last_index(p.skip(body_start(p)), '/');
        lemma_trim_pieces_prefix(p.take(k));
        let n = choose|n: int|
            0 <= n <= p.take(k).len() && trim_pieces(p.take(k)) == #[trigger] p.take(k).take(n);
        assert(p.take(k).take(n) == p.take(n));
    }
}

/// A parent directory is written as the beginning of the path.
pub proof fn lemma_parent_prefix(p: Seq<char>)
    ensures
        parent(p) matches Some(d) ==> exists|n: int| 0 <= n <= p.len() && d == #[trigger] p.take(n),
{
    let t = trim_pieces(p);
    lemma_trim_pieces_prefix(p);
    let n = choose|n: int| 0 <= n <= p.len() && t == #[trigger] p.take(n);
    if t.len() > body_start(t) {
        let k = last_piece(t).1;
        lemma_last_index(t.skip(body_start(t)), '/');
        let u = t.take(k);
        lemma_trim_pieces_prefix(u);
        let m = choose|m: int| 0 <= m <= u.len() && trim_pieces(u) == #[trigger] u.take(m);
        assert(u.take(m) == p.take(m));
    } else if t.len() == 1 && t[0] == '.' {
        assert(p.take(0) == Seq::<char>::empty());
    }
}

/// Whether one of a path's components has this name.
pub fn path_has_name(p: &str, name: &str) -> (r: bool)
    ensures
        r == names(p@).contains(name@),
{
    let s = chars_of(p);
    let v = names_of(s.as_slice());
    let ghost all = names(p@);
    let mut i: usize = 0;
    while i < v.len()
        invariant
            i <= v.len(),
            slices(v@) == all,
            all == names(p@),
            forall|j: int| 0 <= j < i ==> #[trigger] all[j] != name@,
        decreases v.len() - i,
    {
        assert(v@[i as int]@ == all[i as int]);
        if is_text(v[i], name) {
            return true;
        }
        i += 1;
    }
    assert(slices(v@).len() == v@.len());
    false
}

} // verus!
