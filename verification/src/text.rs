//! Text as a sequence of characters: searching, splitting, trimming and joining.

use vstd::prelude::*;
use vstd::slice::slice_subrange;

verus! {

/// `String::push` appends one character to the end of the string.
pub assume_specification[ String::push ](s: &mut String, c: char)
    ensures
        final(s)@ == old(s)@.push(c),
;

// ---------------------------------------------------------------------------
// Character classes
// ---------------------------------------------------------------------------

/// The Unicode `White_Space` property.
pub open spec fn is_space(c: char) -> bool {
    let n = c as u32;
    ||| 0x9 <= n <= 0xd
    ||| n == 0x20
    ||| n == 0x85
    ||| n == 0xa0
    ||| n == 0x1680
    ||| 0x2000 <= n <= 0x200a
    ||| n == 0x2028
    ||| n == 0x2029
    ||| n == 0x202f
    ||| n == 0x205f
    ||| n == 0x3000
}

pub fn space(c: char) -> (r: bool)
    ensures
        r == is_space(c),
{
    let n: u32 = c as u32;
    (0x9 <= n && n <= 0xd) || n == 0x20 || n == 0x85 || n == 0xa0 || n == 0x1680 || (0x2000 <= n
        && n <= 0x200a) || n == 0x2028 || n == 0x2029 || n == 0x202f || n == 0x205f || n == 0x3000
}

/// What a scan over text stops at.
#[derive(Clone, Copy, PartialEq, Eq, Structural, Debug)]
pub enum Class {
    Is(char),
    Space,
    NotSpace,
    Digit,
    NotDigit,
    SpaceOr(char),
    AnyOf(char, char, char),
}

impl Class {
    pub open spec fn has(self, c: char) -> bool {
        match self {
            Class::Is(d) => c == d,
            Class::Space => is_space(c),
            Class::NotSpace => !is_space(c),
            Class::Digit => '0' <= c <= '9',
            Class::NotDigit => !('0' <= c <= '9'),
            Class::SpaceOr(d) => is_space(c) || c == d,
            Class::AnyOf(x, y, z) => c == x || c == y || c == z,
        }
    }

    pub fn contains(self, c: char) -> (r: bool)
        ensures
            r == self.has(c),
    {
        match self {
            Class::Is(d) => c == d,
            Class::Space => space(c),
            Class::NotSpace => !space(c),
            Class::Digit => '0' <= c && c <= '9',
            Class::NotDigit => !('0' <= c && c <= '9'),
            Class::SpaceOr(d) => space(c) || c == d,
            Class::AnyOf(x, y, z) => c == x || c == y || c == z,
        }
    }
}

// ---------------------------------------------------------------------------
// Between strings and characters
// ---------------------------------------------------------------------------

/// The characters of each string of a list.
pub open spec fn texts(v: Seq<String>) -> Seq<Seq<char>> {
    v.map_values(|s: String| s@)
}

/// The characters of each slice of a list.
pub open spec fn slices(v: Seq<&[char]>) -> Seq<Seq<char>> {
    v.map_values(|s: &[char]| s@)
}

/// The text of an optional string.
pub open spec fn opt_text(s: Option<String>) -> Option<Seq<char>> {
    match s {
        Some(s) => Some(s@),
        None => None,
    }
}

pub fn chars_of(s: &str) -> (r: Vec<char>)
    ensures
        r@ == s@,
{
    let mut r: Vec<char> = Vec::new();
    for c in it: s.chars()
        invariant
            r@ == s@.take(it.index()),
            it.seq() == s@,
    {
        r.push(c);
    }
    r
}

pub fn string_of(s: &[char]) -> (r: String)
    ensures
        r@ == s@,
{
    let mut r = String::new();
    let mut i: usize = 0;
    while i < s.len()
        invariant
            i <= s.len(),
            r@ == s@.take(i as int),
        decreases s.len() - i,
    {
        r.push(s[i]);
        i += 1;
    }
    r
}

// ---------------------------------------------------------------------------
// Equality, prefixes and suffixes
// ---------------------------------------------------------------------------

pub fn same(a: &[char], b: &[char]) -> (r: bool)
    ensures
        r == (a@ == b@),
{
    if a.len() != b.len() {
        return false;
    }
    let mut i: usize = 0;
    while i < a.len()
        invariant
            i <= a.len(),
            a.len() == b.len(),
            a@.take(i as int) == b@.take(i as int),
        decreases a.len() - i,
    {
        if a[i] != b[i] {
            return false;
        }
        assert(a@.take(i + 1) == a@.take(i as int).push(a@[i as int]));
        assert(b@.take(i + 1) == b@.take(i as int).push(b@[i as int]));
        i += 1;
    }
    assert(a@.take(i as int) == a@);
    assert(b@.take(i as int) == b@);
    true
}

pub fn is_text(a: &[char], b: &str) -> (r: bool)
    ensures
        r == (a@ == b@),
{
    let b = chars_of(b);
    same(a, b.as_slice())
}

pub fn str_eq(a: &str, b: &str) -> (r: bool)
    ensures
        r == (a@ == b@),
{
    let a = chars_of(a);
    is_text(a.as_slice(), b)
}

/// Is `p` found in `s` at index `i`?
pub open spec fn matches_at(s: Seq<char>, p: Seq<char>, i: int) -> bool {
    0 <= i && i + p.len() <= s.len() && s.subrange(i, i + p.len()) == p
}

pub open spec fn starts_with(s: Seq<char>, p: Seq<char>) -> bool {
    matches_at(s, p, 0)
}

pub open spec fn ends_with(s: Seq<char>, p: Seq<char>) -> bool {
    matches_at(s, p, s.len() - p.len())
}

pub fn match_at(s: &[char], p: &[char], i: usize) -> (r: bool)
    ensures
        r == matches_at(s@, p@, i as int),
{
    if i > s.len() || p.len() > s.len() - i {
        return false;
    }
    same(slice_subrange(s, i, i + p.len()), p)
}

pub fn has_prefix(s: &[char], p: &str) -> (r: bool)
    ensures
        r == starts_with(s@, p@),
{
    let p = chars_of(p);
    match_at(s, p.as_slice(), 0)
}

pub fn has_suffix(s: &[char], p: &str) -> (r: bool)
    ensures
        r == ends_with(s@, p@),
{
    let p = chars_of(p);
    if p.len() > s.len() {
        return false;
    }
    match_at(s, p.as_slice(), s.len() - p.len())
}

/// What follows the prefix, when the text starts with it.
pub open spec fn strip_prefix(s: Seq<char>, p: Seq<char>) -> Option<Seq<char>> {
    if starts_with(s, p) {
        Some(s.skip(p.len() as int))
    } else {
        None
    }
}

/// What precedes the suffix, when the text ends with it.
pub open spec fn strip_suffix(s: Seq<char>, p: Seq<char>) -> Option<Seq<char>> {
    if ends_with(s, p) {
        Some(s.take(s.len() - p.len()))
    } else {
        None
    }
}

/// The characters of an optional slice.
pub open spec fn opt_slice(s: Option<&[char]>) -> Option<Seq<char>> {
    match s {
        Some(s) => Some(s@),
        None => None,
    }
}

pub fn without_prefix<'a>(s: &'a [char], p: &str) -> (r: Option<&'a [char]>)
    ensures
        opt_slice(r) == strip_prefix(s@, p@),
{
    let p = chars_of(p);
    if match_at(s, p.as_slice(), 0) {
        let rest = slice_subrange(s, p.len(), s.len());
        assert(rest@ == s@.skip(p@.len() as int));
        Some(rest)
    } else {
        None
    }
}

pub fn without_suffix<'a>(s: &'a [char], p: &str) -> (r: Option<&'a [char]>)
    ensures
        opt_slice(r) == strip_suffix(s@, p@),
{
    if has_suffix(s, p) {
        let p = chars_of(p);
        let head = slice_subrange(s, 0, s.len() - p.len());
        assert(head@ == s@.take(s@.len() - p@.len()));
        Some(head)
    } else {
        None
    }
}

// ---------------------------------------------------------------------------
// Scanning
// ---------------------------------------------------------------------------

/// The first index from `i` on whose character is in the class, or the length.
pub open spec fn scan(s: Seq<char>, i: int, k: Class) -> int
    decreases s.len() - i,
{
    if i < 0 || i >= s.len() {
        s.len() as int
    } else if k.has(s[i]) {
        i
    } else {
        scan(s, i + 1, k)
    }
}

/// A scan stops at the first character of the class, and skips none.
pub proof fn lemma_scan(s: Seq<char>, i: int, k: Class)
    requires
        0 <= i <= s.len(),
    ensures
        i <= scan(s, i, k) <= s.len(),
        forall|j: int| i <= j < scan(s, i, k) ==> !k.has(#[trigger] s[j]),
        scan(s, i, k) < s.len() ==> k.has(s[scan(s, i, k)]),
    decreases s.len() - i,
{
    if i < s.len() && !k.has(s[i]) {
        lemma_scan(s, i + 1, k);
    }
}

/// The converse: the index with these properties is the one the scan finds.
pub proof fn lemma_scan_is(s: Seq<char>, i: int, k: Class, n: int)
    requires
        0 <= i <= n <= s.len(),
        forall|j: int| i <= j < n ==> !k.has(#[trigger] s[j]),
        n < s.len() ==> k.has(s[n]),
    ensures
        scan(s, i, k) == n,
    decreases n - i,
{
    if i < n {
        lemma_scan_is(s, i + 1, k, n);
    }
}

pub fn scan_for(s: &[char], i: usize, k: Class) -> (r: usize)
    requires
        i <= s.len(),
    ensures
        r == scan(s@, i as int, k),
        i <= r <= s.len(),
{
    let mut n: usize = i;
    while n < s.len()
        invariant
            i <= n <= s.len(),
            scan(s@, i as int, k) == scan(s@, n as int, k),
        decreases s.len() - n,
    {
        if k.contains(s[n]) {
            return n;
        }
        n += 1;
    }
    n
}

/// Does any character belong to the class?
pub open spec fn any_in(s: Seq<char>, k: Class) -> bool {
    exists|i: int| 0 <= i < s.len() && k.has(#[trigger] s[i])
}

pub fn has_any(s: &[char], k: Class) -> (r: bool)
    ensures
        r == any_in(s@, k),
{
    let n: usize = scan_for(s, 0, k);
    proof {
        lemma_scan(s@, 0, k);
    }
    n < s.len()
}

// ---------------------------------------------------------------------------
// Trimming
// ---------------------------------------------------------------------------

pub open spec fn trim_start(s: Seq<char>) -> Seq<char> {
    s.skip(scan(s, 0, Class::NotSpace))
}

pub open spec fn trim_end(s: Seq<char>) -> Seq<char>
    decreases s.len(),
{
    if s.len() > 0 && is_space(s.last()) {
        trim_end(s.drop_last())
    } else {
        s
    }
}

/// The text without the white space at either end.
pub open spec fn trim(s: Seq<char>) -> Seq<char> {
    trim_end(trim_start(s))
}

pub fn trimmed_start(s: &[char]) -> (r: &[char])
    ensures
        r@ == trim_start(s@),
{
    let n: usize = scan_for(s, 0, Class::NotSpace);
    let rest = slice_subrange(s, n, s.len());
    assert(rest@ == s@.skip(n as int));
    rest
}

pub fn trimmed_end(s: &[char]) -> (r: &[char])
    ensures
        r@ == trim_end(s@),
{
    let mut n: usize = s.len();
    assert(s@.take(n as int) == s@);
    while n > 0 && space(s[n - 1])
        invariant
            n <= s.len(),
            trim_end(s@) == trim_end(s@.take(n as int)),
        decreases n,
    {
        assert(s@.take(n as int).drop_last() == s@.take(n - 1));
        n -= 1;
    }
    let head = slice_subrange(s, 0, n);
    assert(head@ == s@.take(n as int));
    head
}

pub fn trimmed(s: &[char]) -> (r: &[char])
    ensures
        r@ == trim(s@),
{
    trimmed_end(trimmed_start(s))
}

// ---------------------------------------------------------------------------
// Searching and splitting
// ---------------------------------------------------------------------------

/// The first index from `i` on at which `p` is found.
pub open spec fn find_from(s: Seq<char>, p: Seq<char>, i: int) -> Option<int>
    decreases s.len() - i + 1,
{
    if i < 0 || i + p.len() > s.len() {
        None
    } else if matches_at(s, p, i) {
        Some(i)
    } else {
        find_from(s, p, i + 1)
    }
}

pub open spec fn find(s: Seq<char>, p: Seq<char>) -> Option<int> {
    find_from(s, p, 0)
}

/// Does `p` occur anywhere in `s`?
pub open spec fn contains(s: Seq<char>, p: Seq<char>) -> bool {
    exists|i: int| matches_at(s, p, i)
}

/// The search finds the first occurrence, and finds one when there is one.
pub proof fn lemma_find(s: Seq<char>, p: Seq<char>, i: int)
    requires
        0 <= i,
    ensures
        match find_from(s, p, i) {
            Some(n) => i <= n && matches_at(s, p, n) && forall|j: int|
                i <= j < n ==> !matches_at(s, p, j),
            None => forall|j: int| i <= j ==> !matches_at(s, p, j),
        },
    decreases s.len() - i + 1,
{
    if i + p.len() <= s.len() && !matches_at(s, p, i) {
        lemma_find(s, p, i + 1);
    }
}

/// The converse: the first occurrence is what the search finds.
pub proof fn lemma_find_is(s: Seq<char>, p: Seq<char>, i: int, n: int)
    requires
        0 <= i <= n,
        matches_at(s, p, n),
        forall|j: int| i <= j < n ==> !matches_at(s, p, j),
    ensures
        find_from(s, p, i) == Some(n),
    decreases n - i,
{
    if i < n {
        lemma_find_is(s, p, i + 1, n);
    }
}

/// A text without the first character of a pattern holds no match of it.
pub proof fn lemma_no_match(s: Seq<char>, p: Seq<char>, i: int, end: int)
    requires
        p.len() > 0,
        0 <= i <= end <= s.len(),
        forall|j: int| i <= j < end ==> s[j] != p[0],
    ensures
        forall|j: int| i <= j < end ==> !#[trigger] matches_at(s, p, j),
{
    assert forall|j: int| i <= j < end implies !#[trigger] matches_at(s, p, j) by {
        if matches_at(s, p, j) {
            assert(s.subrange(j, j + p.len() as int)[0] == s[j]);
        }
    }
}

pub fn find_text(s: &[char], p: &[char]) -> (r: Option<usize>)
    ensures
        match r {
            Some(n) => find(s@, p@) == Some(n as int) && n + p@.len() <= s@.len(),
            None => find(s@, p@) is None,
        },
{
    let mut i: usize = 0;
    while i < s.len() && p.len() <= s.len() - i
        invariant
            i <= s.len(),
            find(s@, p@) == find_from(s@, p@, i as int),
        decreases s.len() - i,
    {
        if match_at(s, p, i) {
            return Some(i);
        }
        i += 1;
    }
    if match_at(s, p, i) {
        return Some(i);
    }
    proof {
        lemma_find(s@, p@, i as int);
    }
    None
}

pub fn contains_text(s: &[char], p: &str) -> (r: bool)
    ensures
        r == contains(s@, p@),
{
    let p = chars_of(p);
    proof {
        lemma_find(s@, p@, 0);
    }
    find_text(s, p.as_slice()).is_some()
}

/// What precedes and what follows the first occurrence of `p`.
pub open spec fn split_once(s: Seq<char>, p: Seq<char>) -> Option<(Seq<char>, Seq<char>)> {
    match find(s, p) {
        Some(n) => Some((s.take(n), s.skip(n + p.len()))),
        None => None,
    }
}

pub open spec fn opt_pair(r: Option<(&[char], &[char])>) -> Option<(Seq<char>, Seq<char>)> {
    match r {
        Some((a, b)) => Some((a@, b@)),
        None => None,
    }
}

pub fn split_at_text<'a>(s: &'a [char], p: &str) -> (r: Option<(&'a [char], &'a [char])>)
    ensures
        opt_pair(r) == split_once(s@, p@),
{
    let p = chars_of(p);
    match find_text(s, p.as_slice()) {
        Some(n) => {
            let end: usize = s.len();
            let head = slice_subrange(s, 0, n);
            let tail = slice_subrange(s, n + p.len(), end);
            assert(head@ == s@.take(n as int));
            assert(tail@ == s@.skip(n + p@.len()));
            Some((head, tail))
        },
        None => None,
    }
}

/// The last index holding the character, or -1.
pub open spec fn last_index(s: Seq<char>, c: char) -> int
    decreases s.len(),
{
    if s.len() == 0 {
        -1
    } else if s.last() == c {
        s.len() - 1
    } else {
        last_index(s.drop_last(), c)
    }
}

/// What precedes and what follows the last occurrence of the character.
pub open spec fn rsplit_once(s: Seq<char>, c: char) -> Option<(Seq<char>, Seq<char>)> {
    let n = last_index(s, c);
    if n < 0 {
        None
    } else {
        Some((s.take(n), s.skip(n + 1)))
    }
}

pub proof fn lemma_last_index(s: Seq<char>, c: char)
    ensures
        -1 <= last_index(s, c) < s.len(),
        last_index(s, c) >= 0 ==> s[last_index(s, c)] == c,
        forall|j: int| last_index(s, c) < j < s.len() ==> s[j] != c,
    decreases s.len(),
{
    if s.len() > 0 && s.last() != c {
        lemma_last_index(s.drop_last(), c);
        assert forall|j: int| last_index(s, c) < j < s.len() implies s[j] != c by {
            if j < s.len() - 1 {
                assert(s[j] == s.drop_last()[j]);
            }
        }
    }
}

pub fn rsplit_at<'a>(s: &'a [char], c: char) -> (r: Option<(&'a [char], &'a [char])>)
    ensures
        opt_pair(r) == rsplit_once(s@, c),
{
    let mut n: usize = s.len();
    assert(s@.take(n as int) == s@);
    while n > 0
        invariant
            n <= s.len(),
            last_index(s@, c) == last_index(s@.take(n as int), c),
        decreases n,
    {
        assert(s@.take(n as int).drop_last() == s@.take(n - 1));
        if s[n - 1] == c {
            let head = slice_subrange(s, 0, n - 1);
            let tail = slice_subrange(s, n, s.len());
            assert(head@ == s@.take(n - 1));
            assert(tail@ == s@.skip(n as int));
            return Some((head, tail));
        }
        n -= 1;
    }
    None
}

/// The pieces between the occurrences of a separator character; never empty.
pub open spec fn split(s: Seq<char>, c: char) -> Seq<Seq<char>>
    decreases s.len(),
{
    let n = scan(s, 0, Class::Is(c));
    if n < 0 || n >= s.len() {
        seq![s]
    } else {
        seq![s.take(n)] + split(s.skip(n + 1), c)
    }
}

pub fn split_on(s: &[char], c: char) -> (r: Vec<&[char]>)
    ensures
        slices(r@) == split(s@, c),
        r@.len() > 0,
{
    let mut r: Vec<&[char]> = Vec::new();
    let mut rest = s;
    assert(slices(r@) + split(rest@, c) == split(s@, c));
    loop
        invariant
            slices(r@) + split(rest@, c) == split(s@, c),
        decreases rest@.len(),
    {
        let n: usize = scan_for(rest, 0, Class::Is(c));
        let ghost done = slices(r@);
        if n == rest.len() {
            r.push(rest);
            assert(slices(r@) == done.push(rest@));
            assert(done.push(rest@) == done + seq![rest@]);
            return r;
        }
        let head = slice_subrange(rest, 0, n);
        let tail = slice_subrange(rest, n + 1, rest.len());
        assert(head@ == rest@.take(n as int));
        assert(tail@ == rest@.skip(n + 1));
        r.push(head);
        assert(slices(r@) == done.push(head@));
        assert(done.push(head@) + split(tail@, c) == done + (seq![head@] + split(tail@, c)));
        rest = tail;
    }
}

/// A line's text without the carriage return that may end it.
pub open spec fn chomp(s: Seq<char>) -> Seq<char> {
    if s.len() > 0 && s.last() == '\r' {
        s.drop_last()
    } else {
        s
    }
}

/// The lines of a text. A line ends at `\n` or `\r\n`; the end of the last one is optional.
pub open spec fn lines(s: Seq<char>) -> Seq<Seq<char>>
    decreases s.len(),
{
    if s.len() == 0 {
        seq![]
    } else {
        let n = scan(s, 0, Class::Is('\n'));
        if n < 0 || n >= s.len() {
            seq![s]
        } else {
            seq![chomp(s.take(n))] + lines(s.skip(n + 1))
        }
    }
}

pub fn lines_of(s: &[char]) -> (r: Vec<&[char]>)
    ensures
        slices(r@) == lines(s@),
{
    let mut r: Vec<&[char]> = Vec::new();
    let mut rest = s;
    assert(slices(r@) + lines(rest@) == lines(s@));
    while rest.len() > 0
        invariant
            slices(r@) + lines(rest@) == lines(s@),
        decreases rest@.len(),
    {
        let n: usize = scan_for(rest, 0, Class::Is('\n'));
        let ghost done = slices(r@);
        if n == rest.len() {
            r.push(rest);
            assert(slices(r@) == done.push(rest@));
            assert(done.push(rest@) == done + seq![rest@]);
            return r;
        }
        let end: usize = if n > 0 && rest[n - 1] == '\r' {
            n - 1
        } else {
            n
        };
        let head = slice_subrange(rest, 0, end);
        let tail = slice_subrange(rest, n + 1, rest.len());
        assert(head@ == chomp(rest@.take(n as int)));
        assert(tail@ == rest@.skip(n + 1));
        r.push(head);
        assert(slices(r@) == done.push(head@));
        assert(done.push(head@) + lines(tail@) == done + (seq![head@] + lines(tail@)));
        rest = tail;
    }
    assert(slices(r@) + lines(rest@) == slices(r@));
    r
}

/// A text of whole lines.
pub open spec fn text_of_lines(v: Seq<Seq<char>>) -> Seq<char>
    decreases v.len(),
{
    if v.len() == 0 {
        seq![]
    } else {
        text_of_lines(v.drop_last()) + v.last() + "\n"@
    }
}

pub fn write_lines(v: &[String]) -> (r: String)
    ensures
        r@ == text_of_lines(texts(v@)),
{
    let ghost all = texts(v@);
    let mut r = String::new();
    let mut i: usize = 0;
    assert(all.take(0) == Seq::<Seq<char>>::empty());
    while i < v.len()
        invariant
            i <= v.len(),
            all == texts(v@),
            r@ == text_of_lines(all.take(i as int)),
        decreases v.len() - i,
    {
        assert(all.take(i + 1).drop_last() == all.take(i as int));
        assert(all[i as int] == v@[i as int]@);
        r = r.concat(v[i].as_str()).concat("\n");
        i += 1;
    }
    assert(all.take(i as int) == all);
    r
}

/// The text of some lines is its first line and the text of the others.
proof fn lemma_first_line(v: Seq<Seq<char>>)
    requires
        v.len() > 0,
    ensures
        text_of_lines(v) == v[0] + "\n"@ + text_of_lines(v.skip(1)),
    decreases v.len(),
{
    if v.len() == 1 {
        assert(v.drop_last() == Seq::<Seq<char>>::empty());
        assert(v.skip(1) == Seq::<Seq<char>>::empty());
        assert(text_of_lines(v.drop_last()) == Seq::<char>::empty());
        assert(text_of_lines(v) == v[0] + "\n"@ + text_of_lines(v.skip(1)));
    } else {
        let init = v.drop_last();
        lemma_first_line(init);
        assert(init.skip(1) == v.skip(1).drop_last());
        assert(text_of_lines(v) == v[0] + "\n"@ + text_of_lines(v.skip(1)));
    }
}

/// Lines that were written out are read back, but for a carriage return at their ends.
pub proof fn lemma_lines_of_text(v: Seq<Seq<char>>)
    requires
        forall|i: int| 0 <= i < v.len() ==> !any_in(#[trigger] v[i], Class::Is('\n')),
    ensures
        lines(text_of_lines(v)) == v.map_values(|l: Seq<char>| chomp(l)),
    decreases v.len(),
{
    let want = v.map_values(|l: Seq<char>| chomp(l));
    if v.len() == 0 {
        assert(want == Seq::<Seq<char>>::empty());
    } else {
        reveal_strlit("\n");
        lemma_first_line(v);
        let s = text_of_lines(v);
        let rest = v.skip(1);
        let n = v[0].len() as int;
        assert forall|i: int| 0 <= i < rest.len() implies !any_in(
            #[trigger] rest[i],
            Class::Is('\n'),
        ) by {
            assert(rest[i] == v[i + 1]);
        }
        lemma_lines_of_text(rest);
        assert(s[n] == '\n');
        assert forall|j: int| 0 <= j < n implies !Class::Is('\n').has(#[trigger] s[j]) by {
            assert(s[j] == v[0][j]);
        }
        lemma_scan_is(s, 0, Class::Is('\n'), n);
        assert(s.take(n) == v[0]);
        assert(s.skip(n + 1) == text_of_lines(rest));
        assert(seq![chomp(v[0])] + rest.map_values(|l: Seq<char>| chomp(l)) == want);
    }
}

/// A text that ends with a line break may be read apart from what follows it.
pub proof fn lemma_lines_apart(a: Seq<char>, b: Seq<char>)
    requires
        a.len() == 0 || a.last() == '\n',
    ensures
        lines(a + b) == lines(a) + lines(b),
    decreases a.len(),
{
    if a.len() == 0 {
        assert(a + b == b);
        assert(lines(a) + lines(b) == lines(b));
    } else {
        let s = a + b;
        let n = scan(a, 0, Class::Is('\n'));
        lemma_scan(a, 0, Class::Is('\n'));
        assert(n < a.len()) by {
            if n == a.len() {
                assert(!Class::Is('\n').has(a[a.len() - 1]));
            }
        }
        assert forall|j: int| 0 <= j < n implies !Class::Is('\n').has(#[trigger] s[j]) by {
            assert(s[j] == a[j]);
        }
        assert(s[n] == a[n]);
        lemma_scan_is(s, 0, Class::Is('\n'), n);
        let rest = a.skip(n + 1);
        assert(rest.len() > 0 ==> rest.last() == a.last());
        lemma_lines_apart(rest, b);
        assert(s.take(n) == a.take(n));
        assert(s.skip(n + 1) == rest + b);
        let first = seq![chomp(a.take(n))];
        assert(first + (lines(rest) + lines(b)) == first + lines(rest) + lines(b));
    }
}

/// The words of a text: its maximal runs of characters that are not white space.
pub open spec fn words(s: Seq<char>) -> Seq<Seq<char>>
    decreases s.len(),
{
    let a = scan(s, 0, Class::NotSpace);
    let b = scan(s, a, Class::Space);
    if 0 <= a < b <= s.len() {
        seq![s.subrange(a, b)] + words(s.skip(b))
    } else {
        seq![]
    }
}

pub fn words_of(s: &[char]) -> (r: Vec<&[char]>)
    ensures
        slices(r@) == words(s@),
{
    let mut r: Vec<&[char]> = Vec::new();
    let mut rest = s;
    assert(slices(r@) + words(rest@) == words(s@));
    loop
        invariant
            slices(r@) + words(rest@) == words(s@),
        decreases rest@.len(),
    {
        let ghost done = slices(r@);
        let a: usize = scan_for(rest, 0, Class::NotSpace);
        let b: usize = scan_for(rest, a, Class::Space);
        proof {
            lemma_scan(rest@, 0, Class::NotSpace);
            lemma_scan(rest@, a as int, Class::Space);
        }
        if a == rest.len() {
            assert(done + words(rest@) == done);
            return r;
        }
        assert(a < b);
        let word = slice_subrange(rest, a, b);
        let tail = slice_subrange(rest, b, rest.len());
        assert(tail@ == rest@.skip(b as int));
        r.push(word);
        assert(slices(r@) == done.push(word@));
        assert(done.push(word@) + words(tail@) == done + (seq![word@] + words(tail@)));
        rest = tail;
    }
}

/// A word that is followed by white space, or by nothing, is the first of the words.
pub proof fn lemma_first_word(w: Seq<char>, rest: Seq<char>)
    requires
        w.len() > 0,
        !any_in(w, Class::Space),
        rest.len() == 0 || is_space(rest[0]),
    ensures
        words(w + rest).len() > 0,
        words(w + rest)[0] == w,
{
    let s = w + rest;
    let n = w.len() as int;
    assert(s[0] == w[0]);
    assert(!Class::Space.has(w[0]));
    lemma_scan_is(s, 0, Class::NotSpace, 0);
    assert forall|j: int| 0 <= j < n implies !Class::Space.has(#[trigger] s[j]) by {
        assert(s[j] == w[j]);
    }
    if rest.len() > 0 {
        assert(s[n] == rest[0]);
    }
    lemma_scan_is(s, 0, Class::Space, n);
    assert(s.subrange(0, n) == w);
}

/// Text that begins and ends with something else than white space is trimmed already.
pub proof fn lemma_trim_same(s: Seq<char>)
    requires
        s.len() > 0,
        !is_space(s[0]),
        !is_space(s.last()),
    ensures
        trim(s) == s,
{
    lemma_scan_is(s, 0, Class::NotSpace, 0);
    assert(s.skip(0) == s);
}

// ---------------------------------------------------------------------------
// Lists
// ---------------------------------------------------------------------------

/// Filtering one item more keeps what was kept, and the item when it passes.
pub proof fn lemma_filter_step<T>(s: Seq<T>, keep: spec_fn(T) -> bool, i: int)
    requires
        0 <= i < s.len(),
    ensures
        s.take(i + 1).filter(keep) == (if keep(s[i]) {
            s.take(i).filter(keep).push(s[i])
        } else {
            s.take(i).filter(keep)
        }),
{
    reveal(Seq::filter);
    assert(s.take(i + 1).drop_last() == s.take(i));
}

/// The first result that `f` gives for an item of the list.
pub open spec fn find_map<T>(v: Seq<Seq<char>>, f: spec_fn(Seq<char>) -> Option<T>) -> Option<T>
    decreases v.len(),
{
    if v.len() == 0 {
        None
    } else {
        match f(v[0]) {
            Some(x) => Some(x),
            None => find_map(v.skip(1), f),
        }
    }
}

/// Items that give nothing may be left out from the front.
pub proof fn lemma_find_map<T>(v: Seq<Seq<char>>, f: spec_fn(Seq<char>) -> Option<T>, i: int)
    requires
        0 <= i <= v.len(),
        forall|j: int| 0 <= j < i ==> f(#[trigger] v[j]) is None,
    ensures
        find_map(v, f) == find_map(v.skip(i), f),
        i < v.len() && f(v[i]) is Some ==> find_map(v, f) == f(v[i]),
        i == v.len() ==> find_map(v, f) is None,
    decreases i,
{
    if i == 0 {
        assert(v.skip(0) == v);
    } else {
        let rest = v.skip(1);
        assert forall|j: int| 0 <= j < i - 1 implies f(#[trigger] rest[j]) is None by {
            assert(rest[j] == v[j + 1]);
        }
        assert(f(v[0]) is None);
        lemma_find_map(rest, f, i - 1);
        assert(rest.skip(i - 1) == v.skip(i));
        if i < v.len() {
            assert(rest[i - 1] == v[i]);
        }
    }
}

/// Whether the only white space in a text is plain blanks.
pub open spec fn only_blanks(s: Seq<char>) -> bool {
    forall|i: int| 0 <= i < s.len() && is_space(#[trigger] s[i]) ==> s[i] == ' '
}

/// Whether the only white space in a text is single blanks between its words.
pub open spec fn is_collapsed(s: Seq<char>) -> bool {
    &&& only_blanks(s)
    &&& s.len() > 0 ==> !is_space(s[0]) && !is_space(s.last())
    &&& forall|i: int| 0 <= i < s.len() - 1 && #[trigger] is_space(s[i]) ==> !is_space(s[i + 1])
}

pub proof fn lemma_words_have_no_space(s: Seq<char>)
    ensures
        forall|i: int|
            0 <= i < words(s).len() ==> (#[trigger] words(s)[i]).len() > 0 && !any_in(
                words(s)[i],
                Class::Space,
            ),
    decreases s.len(),
{
    let a = scan(s, 0, Class::NotSpace);
    let b = scan(s, a, Class::Space);
    if 0 <= a < b <= s.len() {
        lemma_scan(s, a, Class::Space);
        lemma_words_have_no_space(s.skip(b));
        let w = s.subrange(a, b);
        assert(!any_in(w, Class::Space)) by {
            assert forall|j: int| 0 <= j < w.len() implies !Class::Space.has(#[trigger] w[j]) by {
                assert(w[j] == s[a + j]);
            }
        }
        assert forall|i: int| 0 <= i < words(s).len() implies (#[trigger] words(s)[i]).len() > 0
            && !any_in(words(s)[i], Class::Space) by {
            if i > 0 {
                assert(words(s)[i] == words(s.skip(b))[i - 1]);
            }
        }
    }
}

/// Words with single blanks between them are a collapsed text.
pub proof fn lemma_joined_words(v: Seq<Seq<char>>)
    requires
        forall|i: int|
            0 <= i < v.len() ==> (#[trigger] v[i]).len() > 0 && !any_in(v[i], Class::Space),
    ensures
        is_collapsed(join(v, " "@)),
        v.len() > 0 ==> join(v, " "@).len() > 0,
    decreases v.len(),
{
    reveal_strlit(" ");
    if v.len() > 0 {
        let r = join(v, " "@);
        let w = v.last();
        assert(w.len() > 0 && !any_in(w, Class::Space));
        assert forall|i: int| 0 <= i < w.len() implies !is_space(#[trigger] w[i]) by {
            assert(!Class::Space.has(w[i]));
        }
        if v.len() > 1 {
            let init = join(v.drop_last(), " "@);
            assert forall|i: int| 0 <= i < v.drop_last().len() implies (
            #[trigger] v.drop_last()[i]).len() > 0 && !any_in(
                v.drop_last()[i],
                Class::Space,
            ) by {
                assert(v.drop_last()[i] == v[i]);
            }
            lemma_joined_words(v.drop_last());
            let n = init.len() as int;
            assert(r == init + " "@ + w);
            assert(r.last() == w.last());
            assert(r[0] == init[0]);
            assert(r[n] == ' ');
            assert forall|i: int| 0 <= i < r.len() && is_space(#[trigger] r[i]) implies r[i]
                == ' ' by {
                if i < n {
                    assert(r[i] == init[i]);
                } else if i > n {
                    assert(r[i] == w[i - n - 1]);
                }
            }
            assert forall|i: int| 0 <= i < r.len() - 1 && #[trigger] is_space(
                r[i],
            ) implies !is_space(r[i + 1]) by {
                if i < n - 1 {
                    assert(r[i] == init[i]);
                    assert(r[i + 1] == init[i + 1]);
                } else if i == n - 1 {
                    assert(r[i] == init.last());
                } else if i == n {
                    assert(r[i + 1] == w[0]);
                } else {
                    assert(r[i] == w[i - n - 1]);
                }
            }
        }
    }
}

/// White space before the first word makes no difference.
pub proof fn lemma_words_after_space(s: Seq<char>)
    requires
        s.len() > 0,
        is_space(s[0]),
    ensures
        words(s) == words(s.skip(1)),
{
    let t = s.skip(1);
    let a = scan(t, 0, Class::NotSpace);
    lemma_scan(t, 0, Class::NotSpace);
    assert forall|j: int| 0 <= j < a + 1 implies !Class::NotSpace.has(#[trigger] s[j]) by {
        if j > 0 {
            assert(s[j] == t[j - 1]);
        }
    }
    if a < t.len() {
        assert(s[a + 1] == t[a]);
    }
    lemma_scan_is(s, 0, Class::NotSpace, a + 1);
    let b = scan(t, a, Class::Space);
    lemma_scan(t, a, Class::Space);
    assert forall|j: int| a + 1 <= j < b + 1 implies !Class::Space.has(#[trigger] s[j]) by {
        assert(s[j] == t[j - 1]);
    }
    if b < t.len() {
        assert(s[b + 1] == t[b]);
    }
    lemma_scan_is(s, a + 1, Class::Space, b + 1);
    assert(s.subrange(a + 1, b + 1) == t.subrange(a, b));
    assert(s.skip(b + 1) == t.skip(b));
}

pub proof fn lemma_join_front(w: Seq<char>, rest: Seq<Seq<char>>, sep: Seq<char>)
    requires
        rest.len() > 0,
    ensures
        join(seq![w] + rest, sep) == w + sep + join(rest, sep),
    decreases rest.len(),
{
    let v = seq![w] + rest;
    assert(v.last() == rest.last());
    if rest.len() == 1 {
        assert(v.drop_last() == seq![w]);
        assert(join(v.drop_last(), sep) == w);
    } else {
        lemma_join_front(w, rest.drop_last(), sep);
        assert(v.drop_last() == seq![w] + rest.drop_last());
    }
    assert(join(v, sep) == w + sep + join(rest, sep));
}

/// A collapsed text is its words with single blanks between them.
pub proof fn lemma_collapsed_words(s: Seq<char>)
    requires
        is_collapsed(s),
    ensures
        join(words(s), " "@) == s,
    decreases s.len(),
{
    reveal_strlit(" ");
    if s.len() == 0 {
        assert(join(words(s), " "@) == s);
    } else {
        lemma_scan_is(s, 0, Class::NotSpace, 0);
        let b = scan(s, 0, Class::Space);
        lemma_scan(s, 0, Class::Space);
        assert(b > 0);
        let w = s.subrange(0, b);
        assert(words(s) == seq![w] + words(s.skip(b)));
        if b == s.len() {
            assert(s.skip(b).len() == 0);
            assert(words(s.skip(b)) == Seq::<Seq<char>>::empty());
            assert(words(s) == seq![w]);
            assert(w == s);
        } else {
            assert(is_space(s[b]));
            let t = s.skip(b + 1);
            assert(s.skip(b).skip(1) == t);
            lemma_words_after_space(s.skip(b));
            assert(b < s.len() - 1) by {
                assert(!is_space(s[s.len() - 1]));
            }
            assert(t[0] == s[b + 1]);
            assert(t.last() == s.last());
            assert forall|i: int| 0 <= i < t.len() && is_space(#[trigger] t[i]) implies t[i]
                == ' ' by {
                assert(t[i] == s[i + b + 1]);
            }
            assert forall|i: int| 0 <= i < t.len() - 1 && #[trigger] is_space(
                t[i],
            ) implies !is_space(t[i + 1]) by {
                assert(t[i] == s[i + b + 1]);
                assert(t[i + 1] == s[i + b + 2]);
            }
            lemma_collapsed_words(t);
            assert(words(t).len() > 0);
            lemma_join_front(w, words(t), " "@);
            assert(w + " "@ + t == s);
        }
    }
}

/// The items of a list, each followed by the separator except the last.
pub open spec fn join(v: Seq<Seq<char>>, sep: Seq<char>) -> Seq<char>
    decreases v.len(),
{
    if v.len() == 0 {
        seq![]
    } else if v.len() == 1 {
        v[0]
    } else {
        join(v.drop_last(), sep) + sep + v.last()
    }
}

pub fn join_slices(v: &Vec<&[char]>, sep: &str) -> (r: String)
    ensures
        r@ == join(slices(v@), sep@),
{
    let mut r = String::new();
    let mut i: usize = 0;
    while i < v.len()
        invariant
            i <= v.len(),
            r@ == join(slices(v@).take(i as int), sep@),
        decreases v.len() - i,
    {
        assert(slices(v@).take(i + 1).drop_last() == slices(v@).take(i as int));
        let piece = string_of(v[i]);
        if i == 0 {
            r = piece;
        } else {
            r = r.concat(sep).concat(piece.as_str());
        }
        i += 1;
    }
    assert(slices(v@).take(i as int) == slices(v@));
    r
}

pub fn join_strings(v: &[String], sep: &str) -> (r: String)
    ensures
        r@ == join(texts(v@), sep@),
{
    let mut r = String::new();
    let mut i: usize = 0;
    while i < v.len()
        invariant
            i <= v.len(),
            r@ == join(texts(v@).take(i as int), sep@),
        decreases v.len() - i,
    {
        assert(texts(v@).take(i + 1).drop_last() == texts(v@).take(i as int));
        if i == 0 {
            r = v[i].clone();
        } else {
            r = r.concat(sep).concat(v[i].as_str());
        }
        i += 1;
    }
    assert(texts(v@).take(i as int) == texts(v@));
    r
}

pub fn clone_strings(v: &[String]) -> (r: Vec<String>)
    ensures
        texts(r@) == texts(v@),
{
    let mut r: Vec<String> = Vec::new();
    let mut i: usize = 0;
    while i < v.len()
        invariant
            i <= v.len(),
            texts(r@) == texts(v@).take(i as int),
        decreases v.len() - i,
    {
        let ghost done = texts(r@);
        r.push(v[i].clone());
        assert(texts(r@) == done.push(v@[i as int]@));
        assert(texts(r@) == texts(v@).take(i + 1));
        i += 1;
    }
    assert(texts(v@).take(i as int) == texts(v@));
    r
}

pub fn clone_opt(s: &Option<String>) -> (r: Option<String>)
    ensures
        opt_text(r) == opt_text(*s),
{
    match s {
        Some(s) => Some(s.clone()),
        None => None,
    }
}

// ---------------------------------------------------------------------------
// Letter case
// ---------------------------------------------------------------------------

/// Text in lower case.
pub uninterp spec fn lower(s: Seq<char>) -> Seq<char>;

/// A letter of ASCII in lower case; any other character as it is.
pub open spec fn ascii_lower(c: char) -> char {
    if 'A' <= c <= 'Z' {
        ((c as u8) + 32) as u8 as char
    } else {
        c
    }
}

/// `str::to_lowercase`: what it gives depends on the text alone, and text in ASCII has its
/// letters changed one for one. How letters outside ASCII change is not spelled out.
#[verifier::external_body]
pub(crate) fn lowercased(s: &str) -> (r: String)
    ensures
        r@ == lower(s@),
        (forall|i: int| 0 <= i < s@.len() ==> (#[trigger] s@[i] as u32) < 128) ==> r@
            == s@.map_values(|c: char| ascii_lower(c)),
{
    s.to_lowercase()
}

} // verus!
