//! What the words for text mean: white space, lines, words, and where one text occurs in another.

use crate::text::{
    any_in, chomp, contains, ends_with, find_map, is_space, join, lemma_find, lemma_find_is,
    lemma_join_front, lemma_last_index, lemma_lines_of_text, lemma_scan, lemma_scan_is,
    lemma_words_after_space, lines, matches_at, rsplit_once, scan, split, split_once, starts_with,
    strip_prefix, strip_suffix, text_of_lines, trim, trim_end, trim_start, words, Class,
};
use vstd::prelude::*;

verus! {

/// Nothing but white space.
pub open spec fn blank(s: Seq<char>) -> bool {
    forall|i: int| 0 <= i < s.len() ==> is_space(#[trigger] s[i])
}

/// A word: something, and no white space in it.
pub open spec fn is_word(s: Seq<char>) -> bool {
    &&& s.len() > 0
    &&& forall|i: int| 0 <= i < s.len() ==> !is_space(#[trigger] s[i])
}

/// Something without white space at either end.
pub open spec fn is_core(s: Seq<char>) -> bool {
    s.len() > 0 && !is_space(s[0]) && !is_space(s.last())
}

/// A text within which there is no line break.
pub open spec fn is_line(s: Seq<char>) -> bool {
    forall|i: int| 0 <= i < s.len() ==> #[trigger] s[i] != '\n'
}

/// Blanks, tabs and the ends of lines are white space; letters, digits and signs are not.
pub proof fn white_space_is_what_it_says(c: char)
    ensures
        is_space(' '),
        is_space('\t'),
        is_space('\n'),
        is_space('\r'),
        is_space('\u{b}'),
        is_space('\u{c}'),
        is_space('\u{a0}'),
        '!' <= c <= '~' ==> !is_space(c),
{
}

proof fn lemma_trim_end(core: Seq<char>, b: Seq<char>)
    requires
        core.len() == 0 || !is_space(core.last()),
        blank(b),
    ensures
        trim_end(core + b) == core,
    decreases b.len(),
{
    let s = core + b;
    if b.len() == 0 {
        assert(s == core);
    } else {
        assert(s.last() == b.last());
        assert(is_space(b[b.len() - 1]));
        assert(s.drop_last() == core + b.drop_last());
        assert forall|i: int| 0 <= i < b.drop_last().len() implies is_space(
            #[trigger] b.drop_last()[i],
        ) by {
            assert(b.drop_last()[i] == b[i]);
        }
        lemma_trim_end(core, b.drop_last());
    }
}

/// Trimming takes off the white space at both ends, and nothing else.
pub proof fn trimming_takes_off_the_ends(a: Seq<char>, core: Seq<char>, b: Seq<char>)
    requires
        blank(a),
        blank(b),
        is_core(core),
    ensures
        trim(a + core + b) == core,
        trim_end(a + core + b) == a + core,
        trim_start(a + core + b) == core + b,
        trim(a).len() == 0,
{
    let s = a + core + b;
    let n = a.len() as int;
    assert forall|j: int| 0 <= j < n implies !Class::NotSpace.has(#[trigger] s[j]) by {
        assert(s[j] == a[j]);
    }
    assert(s[n] == core[0]);
    lemma_scan_is(s, 0, Class::NotSpace, n);
    assert(s.skip(n) == core + b);
    lemma_trim_end(core, b);
    assert((a + core).last() == core.last());
    lemma_trim_end(a + core, b);
    assert forall|j: int| 0 <= j < n implies !Class::NotSpace.has(#[trigger] a[j]) by {}
    lemma_scan_is(a, 0, Class::NotSpace, n);
    assert(a.skip(n) == Seq::<char>::empty());
}

/// One text occurs in another exactly where the other is made of something, the text, and
/// something.
pub proof fn an_occurrence_has_a_before_and_an_after(s: Seq<char>, p: Seq<char>)
    ensures
        contains(s, p) <==> exists|a: Seq<char>, b: Seq<char>| s == #[trigger] (a + p + b),
{
    if contains(s, p) {
        let i = choose|i: int| matches_at(s, p, i);
        let a = s.take(i);
        let b = s.skip(i + p.len());
        assert(s == a + p + b) by {
            assert forall|j: int| 0 <= j < s.len() implies s[j] == (a + p + b)[j] by {
                if i <= j < i + p.len() {
                    assert(s.subrange(i, i + p.len() as int)[j - i] == s[j]);
                }
            }
            assert(s.len() == (a + p + b).len());
        }
    }
    if exists|a: Seq<char>, b: Seq<char>| s == #[trigger] (a + p + b) {
        let (a, b) = choose|a: Seq<char>, b: Seq<char>| s == #[trigger] (a + p + b);
        let i = a.len() as int;
        assert(s.subrange(i, i + p.len() as int) == p);
        assert(matches_at(s, p, i));
    }
}

/// A text begins and ends as it is put together.
pub proof fn prefixes_and_suffixes(p: Seq<char>, rest: Seq<char>)
    ensures
        starts_with(p + rest, p),
        strip_prefix(p + rest, p) == Some(rest),
        ends_with(rest + p, p),
        strip_suffix(rest + p, p) == Some(rest),
{
    assert((p + rest).subrange(0, p.len() as int) == p);
    assert((p + rest).skip(p.len() as int) == rest);
    let s = rest + p;
    assert(s.subrange(rest.len() as int, rest.len() as int + p.len() as int) == p);
    assert(s.take(rest.len() as int) == rest);
}

/// What begins with a text is that text and something after it; what ends with one, something
/// before it.
pub proof fn nothing_else_is_a_prefix(s: Seq<char>, p: Seq<char>)
    ensures
        starts_with(s, p) <==> s.len() >= p.len() && s.take(p.len() as int) == p,
        ends_with(s, p) <==> s.len() >= p.len() && s.skip(s.len() - p.len()) == p,
        strip_prefix(s, p) is Some <==> starts_with(s, p),
        strip_suffix(s, p) is Some <==> ends_with(s, p),
{
    if s.len() >= p.len() {
        assert(s.take(p.len() as int) == s.subrange(0, p.len() as int));
        assert(s.skip(s.len() - p.len()) == s.subrange(s.len() - p.len(), s.len() as int));
    }
}

/// A text is split at the first occurrence of another, and only where it occurs.
pub proof fn a_split_is_at_the_first(a: Seq<char>, p: Seq<char>, b: Seq<char>)
    requires
        forall|j: int| 0 <= j < a.len() ==> !#[trigger] matches_at(a + p + b, p, j),
    ensures
        split_once(a + p + b, p) == Some((a, b)),
{
    let s = a + p + b;
    let n = a.len() as int;
    assert(s.subrange(n, n + p.len() as int) == p);
    lemma_find_is(s, p, 0, n);
    assert(s.take(n) == a);
    assert(s.skip(n + p.len() as int) == b);
}

/// Without an occurrence there is no split.
pub proof fn no_split_without_an_occurrence(s: Seq<char>, p: Seq<char>)
    ensures
        split_once(s, p) is Some <==> contains(s, p),
{
    lemma_find(s, p, 0);
}

/// A split from the end is at the last such character.
pub proof fn a_split_from_the_end(a: Seq<char>, c: char, b: Seq<char>)
    requires
        !b.contains(c),
    ensures
        rsplit_once(a.push(c) + b, c) == Some((a, b)),
        rsplit_once(b, c) is None,
{
    let s = a.push(c) + b;
    lemma_last_index(s, c);
    lemma_last_index(b, c);
    let n = crate::text::last_index(s, c);
    assert(s[a.len() as int] == c);
    assert(n >= a.len());
    if n > a.len() {
        assert(s[n] == b[n - a.len() - 1]);
    }
    assert(s.take(n) == a);
    assert(s.skip(n + 1) == b);
    if crate::text::last_index(b, c) >= 0 {
        assert(b.contains(c));
    }
}

/// A word that white space follows is the first of the words, and the rest gives the others.
/// White space alone gives none, and a text without any is one word.
pub proof fn words_are_what_white_space_parts(w: Seq<char>, gap: Seq<char>, rest: Seq<char>)
    requires
        is_word(w),
        blank(gap),
    ensures
        gap.len() > 0 ==> words(w + gap + rest) == seq![w] + words(rest),
        words(gap + rest) == words(rest),
        words(w) == seq![w],
        words(gap).len() == 0,
{
    lemma_gap(gap, rest);
    lemma_gap(gap, Seq::empty());
    assert(gap + Seq::<char>::empty() == gap);
    lemma_word_first(w, Seq::empty());
    assert(w + Seq::<char>::empty() == w);
    assert(words(Seq::<char>::empty()) == Seq::<Seq<char>>::empty());
    assert(words(w) == seq![w]);
    if gap.len() > 0 {
        assert((gap + rest)[0] == gap[0]);
        lemma_word_first(w, gap + rest);
        assert(w + (gap + rest) == w + gap + rest);
    }
}

pub proof fn lemma_gap(gap: Seq<char>, rest: Seq<char>)
    requires
        blank(gap),
    ensures
        words(gap + rest) == words(rest),
    decreases gap.len(),
{
    if gap.len() == 0 {
        assert(gap + rest == rest);
    } else {
        let s = gap + rest;
        assert(s[0] == gap[0]);
        lemma_words_after_space(s);
        assert(s.skip(1) == gap.skip(1) + rest);
        assert forall|i: int| 0 <= i < gap.skip(1).len() implies is_space(
            #[trigger] gap.skip(1)[i],
        ) by {
            assert(gap.skip(1)[i] == gap[i + 1]);
        }
        lemma_gap(gap.skip(1), rest);
    }
}

pub proof fn lemma_word_first(w: Seq<char>, rest: Seq<char>)
    requires
        is_word(w),
        rest.len() == 0 || is_space(rest[0]),
    ensures
        words(w + rest) == seq![w] + words(rest),
{
    let s = w + rest;
    let n = w.len() as int;
    assert(s[0] == w[0]);
    lemma_scan_is(s, 0, Class::NotSpace, 0);
    assert forall|j: int| 0 <= j < n implies !Class::Space.has(#[trigger] s[j]) by {
        assert(s[j] == w[j]);
    }
    if rest.len() > 0 {
        assert(s[n] == rest[0]);
    }
    lemma_scan_is(s, 0, Class::Space, n);
    assert(s.subrange(0, n) == w);
    assert(s.skip(n) == rest);
}

/// Words written with single blanks between them are read back, all of them and in order.
pub proof fn written_words_are_read_back(v: Seq<Seq<char>>)
    requires
        forall|i: int| 0 <= i < v.len() ==> is_word(#[trigger] v[i]),
    ensures
        words(join(v, " "@)) == v,
        v.len() > 0 ==> is_core(join(v, " "@)),
    decreases v.len(),
{
    reveal_strlit(" ");
    if v.len() == 0 {
        assert(words(join(v, " "@)) == v);
    } else if v.len() == 1 {
        lemma_word_first(v[0], Seq::empty());
        assert(v[0] + Seq::<char>::empty() == v[0]);
        assert(words(Seq::<char>::empty()) == Seq::<Seq<char>>::empty());
        assert(words(v[0]) == v);
    } else {
        let rest = v.skip(1);
        assert forall|i: int| 0 <= i < rest.len() implies is_word(#[trigger] rest[i]) by {
            assert(rest[i] == v[i + 1]);
        }
        written_words_are_read_back(rest);
        assert(v == seq![v[0]] + rest);
        lemma_join_front(v[0], rest, " "@);
        let tail = join(rest, " "@);
        let s = join(v, " "@);
        assert(s == v[0] + (" "@ + tail));
        lemma_word_first(v[0], " "@ + tail);
        assert(blank(" "@));
        lemma_gap(" "@, tail);
        assert(words(s) == v);
        assert(s[0] == v[0][0]);
        assert(s.last() == tail.last());
    }
}

/// Lines that are written out are read back, all of them and in order, whichever way they end.
pub proof fn written_lines_are_read_back(v: Seq<Seq<char>>)
    requires
        forall|i: int|
            0 <= i < v.len() ==> is_line(#[trigger] v[i]) && (v[i].len() > 0 ==> v[i].last()
                != '\r'),
    ensures
        lines(text_of_lines(v)) == v,
{
    assert forall|i: int| 0 <= i < v.len() implies !any_in(#[trigger] v[i], Class::Is('\n')) by {
        assert(is_line(v[i]));
    }
    lemma_lines_of_text(v);
    assert(v.map_values(|l: Seq<char>| chomp(l)) == v);
}

/// A line and what follows it, one at a time: the line ends at `\n` or `\r\n`, and the last may do
/// without.
pub proof fn a_line_ends_at_its_break(l: Seq<char>, rest: Seq<char>)
    requires
        is_line(l),
    ensures
        l.len() > 0 ==> lines(l) == seq![l],
        l.len() == 0 || l.last() != '\r' ==> lines(l.push('\n') + rest) == seq![l] + lines(rest),
        lines(l.push('\r').push('\n') + rest) == seq![l] + lines(rest),
        lines(Seq::<char>::empty()).len() == 0,
{
    lemma_line_then(l, rest);
    let k = l.push('\r');
    assert(is_line(k));
    lemma_line_then(k, rest);
    assert(chomp(k) == l);
    if l.len() > 0 {
        assert forall|j: int| 0 <= j < l.len() implies !Class::Is('\n').has(#[trigger] l[j]) by {}
        lemma_scan_is(l, 0, Class::Is('\n'), l.len() as int);
    }
}

proof fn lemma_line_then(l: Seq<char>, rest: Seq<char>)
    requires
        is_line(l),
    ensures
        lines(l.push('\n') + rest) == seq![chomp(l)] + lines(rest),
{
    let s = l.push('\n') + rest;
    let n = l.len() as int;
    assert(s[n] == '\n');
    assert forall|j: int| 0 <= j < n implies !Class::Is('\n').has(#[trigger] s[j]) by {
        assert(s[j] == l[j]);
    }
    lemma_scan_is(s, 0, Class::Is('\n'), n);
    assert(s.take(n) == l);
    assert(s.skip(n + 1) == rest);
}

/// What is joined with a character is split at it again, every part and in order.
pub proof fn joined_parts_are_split_again(v: Seq<Seq<char>>, c: char)
    requires
        v.len() > 0,
        forall|i: int| 0 <= i < v.len() ==> !(#[trigger] v[i]).contains(c),
    ensures
        split(join(v, seq![c]), c) == v,
    decreases v.len(),
{
    let s = join(v, seq![c]);
    let w = v[0];
    assert(!w.contains(c));
    assert forall|j: int| 0 <= j < w.len() implies !Class::Is(c).has(#[trigger] w[j]) by {
        if w[j] == c {
            assert(w.contains(c));
        }
    }
    if v.len() == 1 {
        lemma_scan_is(w, 0, Class::Is(c), w.len() as int);
        assert(split(s, c) == v);
    } else {
        let rest = v.skip(1);
        assert forall|i: int| 0 <= i < rest.len() implies !(#[trigger] rest[i]).contains(c) by {
            assert(rest[i] == v[i + 1]);
        }
        joined_parts_are_split_again(rest, c);
        assert(v == seq![w] + rest);
        lemma_join_front(w, rest, seq![c]);
        let n = w.len() as int;
        assert(s[n] == c);
        assert forall|j: int| 0 <= j < n implies !Class::Is(c).has(#[trigger] s[j]) by {
            assert(s[j] == w[j]);
        }
        lemma_scan_is(s, 0, Class::Is(c), n);
        assert(s.take(n) == w);
        assert(s.skip(n + 1) == join(rest, seq![c]));
        assert(split(s, c) == v);
    }
}

/// A search through a list gives what the first item that gives anything gives.
pub proof fn a_search_gives_the_first<T>(
    v: Seq<Seq<char>>,
    f: spec_fn(Seq<char>) -> Option<T>,
)
    ensures
        match find_map(v, f) {
            Some(x) => exists|i: int|
                {
                    &&& 0 <= i < v.len()
                    &&& #[trigger] f(v[i]) == Some(x)
                    &&& forall|j: int| 0 <= j < i ==> f(#[trigger] v[j]) is None
                },
            None => forall|i: int| 0 <= i < v.len() ==> f(#[trigger] v[i]) is None,
        },
    decreases v.len(),
{
    if v.len() > 0 && f(v[0]) is None {
        let rest = v.skip(1);
        a_search_gives_the_first(rest, f);
        match find_map(v, f) {
            Some(x) => {
                let i = choose|i: int|
                    {
                        &&& 0 <= i < rest.len()
                        &&& #[trigger] f(rest[i]) == Some(x)
                        &&& forall|j: int| 0 <= j < i ==> f(#[trigger] rest[j]) is None
                    };
                assert(f(v[i + 1]) == Some(x));
                assert forall|j: int| 0 <= j < i + 1 implies f(#[trigger] v[j]) is None by {
                    if j > 0 {
                        assert(f(rest[j - 1]) is None);
                    }
                }
            },
            None => {
                assert forall|i: int| 0 <= i < v.len() implies f(#[trigger] v[i]) is None by {
                    if i > 0 {
                        assert(f(rest[i - 1]) is None);
                    }
                }
            },
        }
    } else if v.len() > 0 {
        assert(f(v[0]) is Some);
    }
}

proof fn lemma_blank_or_word(s: Seq<char>) -> (parts: (Seq<char>, Seq<char>, Seq<char>))
    ensures
        blank(s) || {
            let (a, w, rest) = parts;
            &&& s == a + w + rest
            &&& blank(a)
            &&& is_word(w)
            &&& rest.len() == 0 || is_space(rest[0])
            &&& rest.len() < s.len()
        },
{
    let a = scan(s, 0, Class::NotSpace);
    lemma_scan(s, 0, Class::NotSpace);
    let b = scan(s, a, Class::Space);
    lemma_scan(s, a, Class::Space);
    if a < s.len() {
        assert(Class::NotSpace.has(s[a]));
        assert(b > a);
        let w = s.subrange(a, b);
        assert forall|i: int| 0 <= i < w.len() implies !is_space(#[trigger] w[i]) by {
            assert(w[i] == s[a + i]);
            assert(!Class::Space.has(s[a + i]));
        }
        assert forall|i: int| 0 <= i < s.take(a).len() implies is_space(#[trigger] s.take(a)[i]) by {
            assert(!Class::NotSpace.has(s[i]));
        }
        if b < s.len() {
            assert(Class::Space.has(s[b]));
            assert(s.skip(b)[0] == s[b]);
        }
        assert(s =~= s.take(a) + w + s.skip(b));
        (s.take(a), w, s.skip(b))
    } else {
        assert forall|i: int| 0 <= i < s.len() implies is_space(#[trigger] s[i]) by {
            assert(!Class::NotSpace.has(s[i]));
        }
        (s, s, s)
    }
}

/// White space after the last word makes no difference.
pub proof fn white_space_at_the_end_is_no_word(s: Seq<char>, gap: Seq<char>)
    requires
        blank(gap),
    ensures
        words(s + gap) == words(s),
    decreases s.len(),
{
    let (a, w, rest) = lemma_blank_or_word(s);
    if blank(s) {
        lemma_gap(s, gap);
        lemma_gap(s, Seq::empty());
        lemma_gap(gap, Seq::empty());
        assert(s + Seq::<char>::empty() =~= s);
        assert(gap + Seq::<char>::empty() =~= gap);
    } else {
        white_space_at_the_end_is_no_word(rest, gap);
        assert(s + gap =~= a + (w + (rest + gap)));
        assert(s =~= a + (w + rest));
        lemma_gap(a, w + (rest + gap));
        lemma_gap(a, w + rest);
        if rest.len() > 0 {
            assert((rest + gap)[0] == rest[0]);
        } else if gap.len() > 0 {
            assert((rest + gap)[0] == gap[0]);
        }
        lemma_word_first(w, rest + gap);
        lemma_word_first(w, rest);
    }
}

pub proof fn lemma_trimmed_end(s: Seq<char>) -> (gap: Seq<char>)
    ensures
        blank(gap),
        s == trim_end(s) + gap,
        trim_end(s).len() == 0 || !is_space(trim_end(s).last()),
    decreases s.len(),
{
    if s.len() > 0 && is_space(s.last()) {
        let gap = lemma_trimmed_end(s.drop_last());
        let more = gap.push(s.last());
        assert(trim_end(s) == trim_end(s.drop_last()));
        assert(s =~= s.drop_last().push(s.last()));
        assert(s =~= trim_end(s) + more);
        more
    } else {
        assert(s =~= s + Seq::<char>::empty());
        Seq::empty()
    }
}

} // verus!
