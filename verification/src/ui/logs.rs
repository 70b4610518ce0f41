//! The journal pane: reading journal lines, and keeping the ones worth reading.

use crate::text::{
    chars_of, contains, contains_text, ends_with, has_prefix, has_suffix, lines, lines_of, scan,
    scan_for, slices, split, split_at_text, split_on, split_once, starts_with, string_of, texts,
    trim, trimmed, Class,
};
use vstd::prelude::*;
use vstd::slice::slice_subrange;

verus! {

/// One journal line in two: `<iso-ts> <host> <unit>[<pid>]: <message>`. A line that does not begin
/// with a year is no entry.
pub open spec fn journal_entry(line: Seq<char>) -> Option<(Seq<char>, Seq<char>)> {
    match split_once(line, " "@) {
        Some((timestamp, rest)) => if starts_with(timestamp, "20"@) {
            Some(
                (
                    timestamp,
                    trim(
                        match split_once(rest, "]: "@) {
                            Some((_, message)) => message,
                            None => rest,
                        },
                    ),
                ),
            )
        } else {
            None
        },
        None => None,
    }
}

fn split_journal_line(line: &[char]) -> (r: Option<(String, String)>)
    ensures
        match r {
            Some((t, m)) => journal_entry(line@) == Some((t@, m@)),
            None => journal_entry(line@) is None,
        },
{
    match split_at_text(line, " ") {
        Some((timestamp, rest)) => {
            if !has_prefix(timestamp, "20") {
                return None;
            }
            let message = match split_at_text(rest, "]: ") {
                Some((_, message)) => message,
                None => rest,
            };
            Some((string_of(timestamp), string_of(trimmed(message))))
        },
        None => None,
    }
}

/// One journal line, split so it can be sorted, filtered and rendered.
pub fn parse_journal_line(line: &str) -> (r: Option<(String, String)>)
    ensures
        match r {
            Some((t, m)) => journal_entry(line@) == Some((t@, m@)),
            None => journal_entry(line@) is None,
        },
{
    let s = chars_of(line);
    split_journal_line(s.as_slice())
}

/// The last of the tokens that is a single ASCII character.
pub open spec fn last_single(tokens: Seq<Seq<char>>) -> Option<char>
    decreases tokens.len(),
{
    if tokens.len() == 0 {
        None
    } else {
        let t = tokens.last();
        if t.len() == 1 && (t[0] as u32) < 0x80 {
            Some(t[0])
        } else {
            last_single(tokens.drop_last())
        }
    }
}

/// The level in `<pid> <tid> <level> adb : file.cpp:NN message`, where there is one.
pub open spec fn log_level(message: Seq<char>) -> Option<char> {
    last_single(
        split(
            match split_once(message, " adb "@) {
                Some((head, _)) => head,
                None => message,
            },
            ' ',
        ),
    )
}

/// adb's own chatter is left out by its level. Its warnings and errors are worth reading.
pub open spec fn is_worth_showing(message: Seq<char>) -> bool {
    let level = log_level(message);
    trim(message).len() > 0 && level != Some('I') && level != Some('D') && level != Some('V')
}

/// Is this journal message worth a user's attention?
pub fn worth_showing(message: &str) -> (r: bool)
    ensures
        r == is_worth_showing(message@),
{
    let s = chars_of(message);
    if trimmed(s.as_slice()).len() == 0 {
        return false;
    }
    let head = match split_at_text(s.as_slice(), " adb ") {
        Some((head, _)) => head,
        None => s.as_slice(),
    };
    let tokens = split_on(head, ' ');
    let ghost all = split(head@, ' ');
    let mut i: usize = tokens.len();
    assert(slices(tokens@).len() == tokens@.len());
    assert(all.take(i as int) == all);
    while i > 0
        invariant
            i <= tokens.len(),
            slices(tokens@) == all,
            log_level(message@) == last_single(all.take(i as int)),
            trim(message@).len() > 0,
        decreases i,
    {
        let t = tokens[i - 1];
        proof {
            assert(all.take(i as int).drop_last() == all.take(i - 1));
            assert(all.take(i as int).last() == all[i - 1]);
            assert(all[i - 1] == t@);
        }
        if t.len() == 1 && (t[0] as u32) < 0x80 {
            let c: char = t[0];
            return c != 'I' && c != 'D' && c != 'V';
        }
        i -= 1;
    }
    true
}

/// What is left of a message without adb's source location, and without systemd's restatement of
/// a unit's description.
pub open spec fn shortened(message: Seq<char>) -> Seq<char> {
    let m = match split_once(message, ".cpp:"@) {
        Some((_, rest)) => match split_once(rest, " "@) {
            Some((_, m)) => m,
            None => message,
        },
        None => message,
    };
    match split_once(m, " - "@) {
        Some((head, _)) => if ends_with(head, ".service"@) || contains(head, ".service:"@) {
            head
        } else {
            trim(m)
        },
        None => trim(m),
    }
}

/// Trim a message to what is readable in a narrow pane.
pub fn shorten_log(message: &str) -> (r: String)
    ensures
        r@ == shortened(message@),
{
    let s = chars_of(message);
    let m = match split_at_text(s.as_slice(), ".cpp:") {
        Some((_, rest)) => match split_at_text(rest, " ") {
            Some((_, m)) => m,
            None => s.as_slice(),
        },
        None => s.as_slice(),
    };
    match split_at_text(m, " - ") {
        Some((head, _)) => {
            if has_suffix(head, ".service") || contains_text(head, ".service:") {
                string_of(head)
            } else {
                string_of(trimmed(m))
            }
        },
        None => string_of(trimmed(m)),
    }
}

// ---------------------------------------------------------------------------
// Order
// ---------------------------------------------------------------------------

/// One text comes before another, or they are the same: the first difference decides, and a text
/// comes before what continues it.
pub open spec fn comes_first(a: Seq<char>, b: Seq<char>) -> bool
    decreases a.len(),
{
    if a.len() == 0 {
        true
    } else if b.len() == 0 {
        false
    } else if a[0] == b[0] {
        comes_first(a.skip(1), b.skip(1))
    } else {
        a[0] < b[0]
    }
}

fn text_comes_first(a: &[char], b: &[char]) -> (r: bool)
    ensures
        r == comes_first(a@, b@),
{
    let mut i: usize = 0;
    assert(a@.skip(0) == a@ && b@.skip(0) == b@);
    while i < a.len()
        invariant
            i <= a.len(),
            i <= b.len(),
            comes_first(a@, b@) == comes_first(a@.skip(i as int), b@.skip(i as int)),
        decreases a.len() - i,
    {
        if i >= b.len() {
            return false;
        }
        if a[i] != b[i] {
            return a[i] < b[i];
        }
        assert(a@.skip(i as int).skip(1) == a@.skip(i + 1));
        assert(b@.skip(i as int).skip(1) == b@.skip(i + 1));
        i += 1;
    }
    true
}

/// A journal entry: when, and what.
pub type EntryView = (Seq<char>, Seq<char>);

pub open spec fn entries(v: Seq<(String, String)>) -> Seq<EntryView> {
    v.map_values(|e: (String, String)| (e.0@, e.1@))
}

/// An entry put in its place: behind every entry that is not later.
pub open spec fn placed(v: Seq<EntryView>, e: EntryView) -> Seq<EntryView>
    decreases v.len(),
{
    if v.len() == 0 || comes_first(v.last().0, e.0) {
        v.push(e)
    } else {
        placed(v.drop_last(), e).push(v.last())
    }
}

/// The entries by their time, those of one time in the order they came in.
pub open spec fn by_time(v: Seq<EntryView>) -> Seq<EntryView>
    decreases v.len(),
{
    if v.len() == 0 {
        v
    } else {
        placed(by_time(v.drop_last()), v.last())
    }
}

fn place(v: &mut Vec<(String, String)>, e: (String, String))
    ensures
        entries(final(v)@) == placed(entries(old(v)@), (e.0@, e.1@)),
{
    let ghost before = entries(v@);
    let ghost entry = (e.0@, e.1@);
    let t = chars_of(e.0.as_str());
    let mut i: usize = v.len();
    assert(before.take(i as int) == before);
    assert(before.skip(i as int) == Seq::<EntryView>::empty());
    assert(placed(before, entry) == placed(before.take(i as int), entry) + before.skip(i as int));
    while i > 0
        invariant
            i <= v.len(),
            v@ == old(v)@,
            before == entries(v@),
            t@ == entry.0,
            placed(before, entry) == placed(before.take(i as int), entry) + before.skip(i as int),
        ensures
            i == 0 || comes_first(before[i - 1].0, entry.0),
        decreases i,
    {
        let other = chars_of(v[i - 1].0.as_str());
        assert(before[i - 1].0 == other@);
        assert(before.take(i as int).last() == before[i - 1]);
        if text_comes_first(other.as_slice(), t.as_slice()) {
            break;
        }
        proof {
            assert(before.take(i as int).drop_last() == before.take(i - 1));
            assert(placed(before.take(i as int), entry) == placed(before.take(i - 1), entry).push(
                before[i - 1],
            ));
            assert(placed(before.take(i - 1), entry).push(before[i - 1]) + before.skip(i as int)
                == placed(before.take(i - 1), entry) + before.skip(i - 1));
        }
        i -= 1;
    }
    proof {
        if i > 0 {
            assert(before.take(i as int).last() == before[i - 1]);
        }
        assert(placed(before.take(i as int), entry) == before.take(i as int).push(entry));
    }
    v.insert(i, e);
    assert(entries(v@) == before.take(i as int).push(entry) + before.skip(i as int));
}

fn sort_entries(v: Vec<(String, String)>) -> (r: Vec<(String, String)>)
    ensures
        entries(r@) == by_time(entries(v@)),
{
    let ghost all = entries(v@);
    let mut r: Vec<(String, String)> = Vec::new();
    let mut i: usize = 0;
    assert(all.take(0) == Seq::<EntryView>::empty());
    while i < v.len()
        invariant
            i <= v.len(),
            all == entries(v@),
            entries(r@) == by_time(all.take(i as int)),
        decreases v.len() - i,
    {
        assert(all.take(i + 1).drop_last() == all.take(i as int));
        assert(all[i as int] == (v@[i as int].0@, v@[i as int].1@));
        place(&mut r, (v[i].0.clone(), v[i].1.clone()));
        i += 1;
    }
    assert(all.take(i as int) == all);
    r
}

proof fn lemma_order_is_total(a: Seq<char>, b: Seq<char>)
    ensures
        comes_first(a, b) || comes_first(b, a),
        comes_first(a, a),
    decreases a.len(),
{
    if a.len() > 0 {
        if b.len() > 0 {
            lemma_order_is_total(a.skip(1), b.skip(1));
        } else {
            lemma_order_is_total(a.skip(1), b);
        }
    }
}

proof fn lemma_order_is_transitive(a: Seq<char>, b: Seq<char>, c: Seq<char>)
    requires
        comes_first(a, b),
        comes_first(b, c),
    ensures
        comes_first(a, c),
    decreases a.len(),
{
    if a.len() > 0 && b.len() > 0 && c.len() > 0 && a[0] == b[0] && b[0] == c[0] {
        lemma_order_is_transitive(a.skip(1), b.skip(1), c.skip(1));
    }
}

/// No entry comes before one that is earlier.
pub open spec fn in_order(v: Seq<EntryView>) -> bool {
    forall|i: int, j: int|
        0 <= i < j < v.len() ==> comes_first((#[trigger] v[i]).0, (#[trigger] v[j]).0)
}

/// The entries of one time.
pub open spec fn at_time(v: Seq<EntryView>, t: Seq<char>) -> Seq<EntryView> {
    v.filter(|e: EntryView| e.0 == t)
}

proof fn lemma_at_time_push(v: Seq<EntryView>, e: EntryView, t: Seq<char>)
    ensures
        at_time(v.push(e), t) == if e.0 == t {
            at_time(v, t).push(e)
        } else {
            at_time(v, t)
        },
{
    reveal(Seq::filter);
    assert(v.push(e).drop_last() == v);
}

proof fn lemma_placed(v: Seq<EntryView>, e: EntryView, t: Seq<char>)
    requires
        in_order(v),
    ensures
        in_order(placed(v, e)),
        placed(v, e).len() == v.len() + 1,
        placed(v, e).to_multiset() == v.to_multiset().insert(e),
        at_time(placed(v, e), t) == if e.0 == t {
            at_time(v, t).push(e)
        } else {
            at_time(v, t)
        },
        v.len() > 0 ==> placed(v, e).last() == e || placed(v, e).last() == v.last(),
        v.len() == 0 ==> placed(v, e).last() == e,
        v.len() > 0 && !comes_first(v.last().0, e.0) ==> placed(v, e).last() == v.last(),
    decreases v.len(),
{
    broadcast use vstd::seq_lib::group_to_multiset_ensures;

    let p = placed(v, e);
    if v.len() == 0 || comes_first(v.last().0, e.0) {
        lemma_at_time_push(v, e, t);
        assert forall|i: int, j: int| 0 <= i < j < p.len() implies comes_first(
            (#[trigger] p[i]).0,
            (#[trigger] p[j]).0,
        ) by {
            if j == v.len() {
                if i < v.len() - 1 {
                    assert(comes_first(v[i].0, v[v.len() - 1].0));
                    lemma_order_is_transitive(v[i].0, v.last().0, e.0);
                }
            } else {
                assert(p[i] == v[i] && p[j] == v[j]);
            }
        }
    } else {
        let init = v.drop_last();
        let last = v.last();
        assert(in_order(init)) by {
            assert forall|i: int, j: int| 0 <= i < j < init.len() implies comes_first(
                (#[trigger] init[i]).0,
                (#[trigger] init[j]).0,
            ) by {
                assert(init[i] == v[i] && init[j] == v[j]);
            }
        }
        lemma_placed(init, e, t);
        let q = placed(init, e);
        assert(p == q.push(last));
        assert(v == init.push(last));
        lemma_at_time_push(q, last, t);
        lemma_at_time_push(init, last, t);
        lemma_order_is_total(last.0, e.0);
        assert(last.0 != e.0);
        assert(p.to_multiset() == q.to_multiset().insert(last));
        assert(v.to_multiset() == init.to_multiset().insert(last));
        assert(init.to_multiset().insert(e).insert(last) == init.to_multiset().insert(last).insert(
            e,
        ));
        assert forall|i: int, j: int| 0 <= i < j < p.len() implies comes_first(
            (#[trigger] p[i]).0,
            (#[trigger] p[j]).0,
        ) by {
            assert(p[i] == q[i]);
            if j == q.len() {
                assert(q.to_multiset().contains(q[i]));
                assert(init.to_multiset().insert(e).contains(q[i]));
                if q[i] != e {
                    assert(init.to_multiset().contains(q[i]));
                    assert(init.contains(q[i]));
                    let k = choose|k: int| 0 <= k < init.len() && init[k] == q[i];
                    assert(comes_first(v[k].0, v[v.len() - 1].0));
                }
            } else {
                assert(p[j] == q[j]);
            }
        }
    }
}

/// Sorting loses and invents no entry, puts none behind a later one, and leaves those of one time
/// in the order they came in.
pub proof fn sorting_is_by_time_and_stable(v: Seq<EntryView>, t: Seq<char>)
    ensures
        in_order(by_time(v)),
        by_time(v).len() == v.len(),
        by_time(v).to_multiset() == v.to_multiset(),
        at_time(by_time(v), t) == at_time(v, t),
    decreases v.len(),
{
    broadcast use vstd::seq_lib::group_to_multiset_ensures;

    if v.len() > 0 {
        let init = v.drop_last();
        sorting_is_by_time_and_stable(init, t);
        lemma_placed(by_time(init), v.last(), t);
        lemma_at_time_push(init, v.last(), t);
        assert(v == init.push(v.last()));
    }
}

// ---------------------------------------------------------------------------
// The pane's lines
// ---------------------------------------------------------------------------

/// How many bytes a character takes in UTF-8.
pub open spec fn utf8_width(c: char) -> int {
    let n = c as u32;
    if n < 0x80 {
        1
    } else if n < 0x800 {
        2
    } else if n < 0x1_0000 {
        3
    } else {
        4
    }
}

/// The first `room` bytes of a text, or all of it; none where that would cut a character.
pub open spec fn first_bytes(s: Seq<char>, room: int) -> Option<Seq<char>>
    decreases s.len(),
{
    if s.len() == 0 || room <= 0 {
        Some(seq![])
    } else if utf8_width(s[0]) > room {
        None
    } else {
        match first_bytes(s.skip(1), room - utf8_width(s[0])) {
            Some(rest) => Some(seq![s[0]] + rest),
            None => None,
        }
    }
}

/// The time of day in a timestamp: what follows its `T`.
pub open spec fn clock(timestamp: Seq<char>) -> Seq<char> {
    match split_once(timestamp, "T"@) {
        Some((_, rest)) => rest.take(scan(rest, 0, Class::Is('T'))),
        None => timestamp,
    }
}

fn clock_text(timestamp: &str) -> (r: Option<String>)
    ensures
        match r {
            Some(t) => first_bytes(clock(timestamp@), 8) == Some(t@),
            None => first_bytes(clock(timestamp@), 8) is None,
        },
{
    let s = chars_of(timestamp);
    let c = match split_at_text(s.as_slice(), "T") {
        Some((_, rest)) => {
            let n: usize = scan_for(rest, 0, Class::Is('T'));
            let c = slice_subrange(rest, 0, n);
            assert(c@ == rest@.take(n as int));
            c
        },
        None => s.as_slice(),
    };
    let mut room: u32 = 8;
    let mut i: usize = 0;
    assert(c@.skip(0) == c@);
    proof {
        match first_bytes(c@, 8) {
            Some(rest) => {
                assert(c@.take(0) + rest == rest);
            },
            None => {},
        }
    }
    while i < c.len() && room > 0
        invariant
            i <= c.len(),
            room <= 8,
            c@ == clock(timestamp@),
            match first_bytes(c@.skip(i as int), room as int) {
                Some(rest) => first_bytes(c@, 8) == Some(c@.take(i as int) + rest),
                None => first_bytes(c@, 8) is None,
            },
        decreases c.len() - i,
    {
        let n: u32 = c[i] as u32;
        let width: u32 = if n < 0x80 {
            1
        } else if n < 0x800 {
            2
        } else if n < 0x1_0000 {
            3
        } else {
            4
        };
        let ghost here = c@.skip(i as int);
        assert(here[0] == c@[i as int]);
        if width > room {
            return None;
        }
        proof {
            assert(here.skip(1) == c@.skip(i + 1));
            match first_bytes(here.skip(1), room - width) {
                Some(rest) => {
                    assert(c@.take(i as int) + (seq![here[0]] + rest) == c@.take(i + 1) + rest);
                },
                None => {},
            }
        }
        room = room - width;
        i += 1;
    }
    let t = slice_subrange(c, 0, i);
    assert(t@ == c@.take(i as int));
    assert(t@ + Seq::<char>::empty() == t@);
    Some(string_of(t))
}

/// One line of the pane.
pub open spec fn pane_line(e: EntryView) -> Seq<char> {
    first_bytes(clock(e.0), 8)->0 + "  "@ + shortened(e.1)
}

/// The entries among some journal lines that are worth showing.
pub open spec fn kept(lines: Seq<Seq<char>>) -> Seq<EntryView>
    decreases lines.len(),
{
    if lines.len() == 0 {
        seq![]
    } else {
        let init = kept(lines.drop_last());
        match journal_entry(lines.last()) {
            Some(e) => if is_worth_showing(e.1) {
                init.push(e)
            } else {
                init
            },
            None => init,
        }
    }
}

fn kept_entries(journal: &str) -> (r: Vec<(String, String)>)
    ensures
        entries(r@) == kept(lines(journal@)),
{
    let s = chars_of(journal);
    let ls = lines_of(s.as_slice());
    let ghost all = lines(journal@);
    let mut r: Vec<(String, String)> = Vec::new();
    let mut i: usize = 0;
    assert(all.take(0) == Seq::<Seq<char>>::empty());
    while i < ls.len()
        invariant
            i <= ls.len(),
            slices(ls@) == all,
            entries(r@) == kept(all.take(i as int)),
        decreases ls.len() - i,
    {
        assert(all.take(i + 1).drop_last() == all.take(i as int));
        assert(ls@[i as int]@ == all[i as int]);
        let ghost done = entries(r@);
        if let Some((t, m)) = split_journal_line(ls[i]) {
            if worth_showing(m.as_str()) {
                r.push((t, m));
                assert(entries(r@) == done.push((t@, m@)));
            }
        }
        i += 1;
    }
    assert(slices(ls@).len() == ls@.len());
    assert(all.take(i as int) == all);
    r
}

/// Whether no clock among the entries worth showing is cut inside a character.
pub open spec fn clocks_are_whole(journal: Seq<char>) -> bool {
    forall|i: int|
        0 <= i < kept(lines(journal)).len() ==> first_bytes(
            clock((#[trigger] kept(lines(journal))[i]).0),
            8,
        ) is Some
}

pub fn whole_clocks(journal: &str) -> (r: bool)
    ensures
        r == clocks_are_whole(journal@),
{
    let v = kept_entries(journal);
    let ghost all = kept(lines(journal@));
    let mut i: usize = 0;
    while i < v.len()
        invariant
            i <= v.len(),
            entries(v@) == all,
            all == kept(lines(journal@)),
            forall|j: int| 0 <= j < i ==> first_bytes(clock((#[trigger] all[j]).0), 8) is Some,
        decreases v.len() - i,
    {
        assert(all[i as int].0 == v@[i as int].0@);
        if clock_text(v[i].0.as_str()).is_none() {
            return false;
        }
        i += 1;
    }
    assert(entries(v@).len() == v@.len());
    true
}

/// The lines of the pane, from the journals of both units: the watcher's, where a reconnect is
/// reported, and the server's.
pub open spec fn journal(watcher: Seq<char>, server: Seq<char>) -> Seq<Seq<char>> {
    by_time(kept(lines(watcher)) + kept(lines(server))).map_values(|e: EntryView| pane_line(e))
}

/// Both units' journals, so the pane shows history from before it was opened.
pub fn journal_lines(watcher: &str, server: &str) -> (r: Vec<String>)
    requires
        clocks_are_whole(watcher@),
        clocks_are_whole(server@),
    ensures
        texts(r@) == journal(watcher@, server@),
{
    let mut v = kept_entries(watcher);
    let mut more = kept_entries(server);
    let ghost first = v@;
    let ghost second = more@;
    v.append(&mut more);
    let ghost all = kept(lines(watcher@)) + kept(lines(server@));
    proof {
        assert(v@ == first + second);
        assert(entries(v@) == all);
    }
    let sorted = sort_entries(v);
    let ghost ordered = by_time(all);
    let ghost want = journal(watcher@, server@);
    proof {
        lemma_sorted_clocks(all);
    }
    let mut r: Vec<String> = Vec::new();
    let mut i: usize = 0;
    assert(entries(sorted@).len() == sorted@.len());
    while i < sorted.len()
        invariant
            i <= sorted.len(),
            entries(sorted@) == ordered,
            want == ordered.map_values(|e: EntryView| pane_line(e)),
            forall|j: int|
                0 <= j < ordered.len() ==> first_bytes(clock((#[trigger] ordered[j]).0), 8) is Some,
            texts(r@) == want.take(i as int),
        decreases sorted.len() - i,
    {
        let ghost done = texts(r@);
        assert(ordered[i as int] == (sorted@[i as int].0@, sorted@[i as int].1@));
        let when = match clock_text(sorted[i].0.as_str()) {
            Some(t) => t,
            None => {
                assert(false);
                String::new()
            },
        };
        let line = when.concat("  ").concat(shorten_log(sorted[i].1.as_str()).as_str());
        r.push(line);
        proof {
            assert(texts(r@) == done.push(line@));
            assert(want[i as int] == line@);
            assert(want.take(i + 1) == want.take(i as int).push(line@));
        }
        i += 1;
    }
    assert(want.take(i as int) == want);
    r
}

/// Sorting brings no clock in that was not there.
proof fn lemma_sorted_clocks(v: Seq<EntryView>)
    requires
        forall|i: int| 0 <= i < v.len() ==> first_bytes(clock((#[trigger] v[i]).0), 8) is Some,
    ensures
        forall|i: int|
            0 <= i < by_time(v).len() ==> first_bytes(clock((#[trigger] by_time(v)[i]).0), 8)
                is Some,
{
    broadcast use vstd::seq_lib::group_to_multiset_ensures;

    sorting_is_by_time_and_stable(v, seq![]);
    let s = by_time(v);
    assert forall|i: int| 0 <= i < s.len() implies first_bytes(clock((#[trigger] s[i]).0), 8)
        is Some by {
        assert(s.to_multiset().contains(s[i]));
        assert(v.contains(s[i]));
    }
}

/// The journalctl arguments for the watcher's unit or the server's. Two narrow queries: the
/// server's volume is such that a merged window would be entirely its own chatter.
pub fn journal_query(watcher: bool) -> (r: Vec<String>)
    ensures
        texts(r@) == seq![
            "--user"@,
            "-u"@,
            if watcher {
                "wadb-connect.service"@
            } else {
                "wadb.service"@
            },
            "-n"@,
            if watcher {
                "40"@
            } else {
                "200"@
            },
            "--no-pager"@,
            "-o"@,
            "short-iso"@,
        ],
{
    let (unit, count) = if watcher {
        ("wadb-connect.service", "40")
    } else {
        ("wadb.service", "200")
    };
    vec![
        "--user".to_owned(),
        "-u".to_owned(),
        unit.to_owned(),
        "-n".to_owned(),
        count.to_owned(),
        "--no-pager".to_owned(),
        "-o".to_owned(),
        "short-iso".to_owned(),
    ]
}

/// The last `rows` of a list.
pub open spec fn tail(v: Seq<Seq<char>>, rows: nat) -> Seq<Seq<char>> {
    if v.len() > rows {
        v.skip(v.len() - rows)
    } else {
        v
    }
}

} // verus!
