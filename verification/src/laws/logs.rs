//! What the journal pane makes of the journal.

use crate::laws::text::{
    a_split_is_at_the_first, joined_parts_are_split_again, no_split_without_an_occurrence,
};
use crate::text::{
    contains, ends_with, join, lemma_scan_is, lines, matches_at, split_once, starts_with, texts,
    trim, Class,
};
use crate::ui::logs::{
    at_time, by_time, clock, clocks_are_whole, comes_first, first_bytes, journal, journal_lines,
    journal_query, kept, last_single, pane_line, parse_journal_line, shorten_log,
    sorting_is_by_time_and_stable, utf8_width, worth_showing, EntryView,
};
use vstd::prelude::*;

verus! {

/// A line of the journal is when it was written, by whom, and what: the time is the first word, and
/// the message is what follows the first `]: `, or all the rest where there is none. What does not
/// begin with a year is no such line.
pub proof fn a_line_is_a_time_and_a_message(
    time: Seq<char>,
    who: Seq<char>,
    message: Seq<char>,
    line: &str,
    r: Option<(String, String)>,
)
    requires
        call_ensures(parse_journal_line, (line,), r),
        !time.contains(' '),
    ensures
        line@ == time ==> r is None,
        line@ == time.push(' ') + message && !starts_with(time, "20"@) ==> r is None,
        line@ == time.push(' ') + message && starts_with(time, "20"@) && !contains(
            message,
            "]: "@,
        ) ==> (r matches Some((t, m)) && t@ == time && m@ == trim(message)),
        line@ == time.push(' ') + (who + "]: "@ + message) && starts_with(time, "20"@) && (forall|
            j: int,
        |
            0 <= j < who.len() ==> !#[trigger] matches_at(who + "]: "@ + message, "]: "@, j)) ==> (
        r matches Some((t, m)) && t@ == time && m@ == trim(message)),
{
    reveal_strlit(" ");
    let a = message;
    let b = who + "]: "@ + message;
    lemma_after_time(time, a);
    lemma_after_time(time, b);
    assert(time.push(' ') + a =~= time + " "@ + a);
    assert(time.push(' ') + b =~= time + " "@ + b);
    no_split_without_an_occurrence(a, "]: "@);
    if forall|j: int| 0 <= j < who.len() ==> !#[trigger] matches_at(b, "]: "@, j) {
        a_split_is_at_the_first(who, "]: "@, message);
    }
    if line@ == time {
        no_split_without_an_occurrence(time, " "@);
        if contains(time, " "@) {
            let i = choose|i: int| matches_at(time, " "@, i);
            assert(time.subrange(i, i + 1)[0] == time[i]);
            assert(time.contains(' '));
        }
    }
}

proof fn lemma_after_time(time: Seq<char>, rest: Seq<char>)
    requires
        !time.contains(' '),
    ensures
        split_once(time + " "@ + rest, " "@) == Some((time, rest)),
{
    reveal_strlit(" ");
    let s = time + " "@ + rest;
    assert forall|j: int| 0 <= j < time.len() implies !#[trigger] matches_at(s, " "@, j) by {
        if matches_at(s, " "@, j) {
            assert(s.subrange(j, j + 1)[0] == s[j]);
            assert(s[j] == time[j]);
            assert(time.contains(' '));
        }
    }
    a_split_is_at_the_first(time, " "@, rest);
}

/// Whether a word is a single letter of ASCII, as adb's levels are.
pub open spec fn is_level(w: Seq<char>) -> bool {
    w.len() == 1 && (w[0] as u32) < 0x80
}

/// What adb itself has to say is shown only where it is more than chatter: the level is the last
/// single letter before its name, and `I`, `D` and `V` are not shown. What has no level is always
/// shown, unless it is blank.
pub proof fn chatter_is_not_shown(
    before: Seq<Seq<char>>,
    level: char,
    after: Seq<Seq<char>>,
    rest: Seq<char>,
    message: &str,
    r: bool,
)
    requires
        call_ensures(worth_showing, (message,), r),
        before.len() + after.len() > 0,
        forall|i: int| 0 <= i < before.len() ==> !(#[trigger] before[i]).contains(' '),
        forall|i: int|
            0 <= i < after.len() ==> !(#[trigger] after[i]).contains(' ') && !is_level(after[i]),
        level != ' ' && (level as u32) < 0x80,
        trim(message@).len() > 0,
    ensures
        ({
            let head = join(before.push(seq![level]) + after, seq![' ']);
            let quiet = level == 'I' || level == 'D' || level == 'V';
            &&& message@ == head && !contains(message@, " adb "@) ==> (r <==> !quiet)
            &&& message@ == head + " adb "@ + rest && (forall|j: int|
                0 <= j < head.len() ==> !#[trigger] matches_at(message@, " adb "@, j)) ==> (r
                <==> !quiet)
        }),
{
    let v = before.push(seq![level]) + after;
    let head = join(v, seq![' ']);
    assert forall|i: int| 0 <= i < v.len() implies !(#[trigger] v[i]).contains(' ') by {
        if i < before.len() {
            assert(v[i] == before[i]);
        } else if i == before.len() {
            assert(v[i] == seq![level]);
        } else {
            assert(v[i] == after[i - before.len() - 1]);
        }
    }
    joined_parts_are_split_again(v, ' ');
    lemma_last_single(before, level, after);
    no_split_without_an_occurrence(message@, " adb "@);
    if message@ == head + " adb "@ + rest && (forall|j: int|
        0 <= j < head.len() ==> !#[trigger] matches_at(message@, " adb "@, j)) {
        a_split_is_at_the_first(head, " adb "@, rest);
    }
}

proof fn lemma_last_single(before: Seq<Seq<char>>, level: char, after: Seq<Seq<char>>)
    requires
        (level as u32) < 0x80,
        forall|i: int| 0 <= i < after.len() ==> !is_level(#[trigger] after[i]),
    ensures
        last_single(before.push(seq![level]) + after) == Some(level),
    decreases after.len(),
{
    let v = before.push(seq![level]) + after;
    if after.len() == 0 {
        assert(v.last() == seq![level]);
        assert(v.last().len() == 1);
    } else {
        assert(v.last() == after[after.len() - 1]);
        assert(v.drop_last() =~= before.push(seq![level]) + after.drop_last());
        assert forall|i: int| 0 <= i < after.drop_last().len() implies !is_level(
            #[trigger] after.drop_last()[i],
        ) by {
            assert(after.drop_last()[i] == after[i]);
        }
        lemma_last_single(before, level, after.drop_last());
    }
}

/// What has no level at all is shown, and what is blank is not.
pub proof fn what_has_no_level_is_shown(parts: Seq<Seq<char>>, message: &str, r: bool)
    requires
        call_ensures(worth_showing, (message,), r),
        parts.len() > 0,
        forall|i: int|
            0 <= i < parts.len() ==> !(#[trigger] parts[i]).contains(' ') && !is_level(parts[i]),
        message@ == join(parts, seq![' ']),
        !contains(message@, " adb "@),
    ensures
        r <==> trim(message@).len() > 0,
{
    assert forall|i: int| 0 <= i < parts.len() implies !(#[trigger] parts[i]).contains(' ') by {}
    joined_parts_are_split_again(parts, ' ');
    no_split_without_an_occurrence(message@, " adb "@);
    lemma_no_single(parts);
}

proof fn lemma_no_single(parts: Seq<Seq<char>>)
    requires
        forall|i: int| 0 <= i < parts.len() ==> !is_level(#[trigger] parts[i]),
    ensures
        last_single(parts) is None,
    decreases parts.len(),
{
    if parts.len() > 0 {
        assert(!is_level(parts[parts.len() - 1]));
        assert forall|i: int| 0 <= i < parts.drop_last().len() implies !is_level(
            #[trigger] parts.drop_last()[i],
        ) by {
            assert(parts.drop_last()[i] == parts[i]);
        }
        lemma_no_single(parts.drop_last());
    }
}

/// Of a message, what stands before the place in adb's sources is dropped, and of systemd's own
/// what stands after the name of the unit. Nothing else is, but the white space around it.
pub proof fn what_is_dropped_of_a_message(
    pre: Seq<char>,
    place: Seq<char>,
    text: Seq<char>,
    unit: Seq<char>,
    description: Seq<char>,
    message: &str,
    r: String,
)
    requires
        call_ensures(shorten_log, (message,), r),
        !place.contains(' '),
    ensures
        !contains(message@, ".cpp:"@) && !contains(message@, " - "@) ==> r@ == trim(message@),
        message@ == pre + ".cpp:"@ + (place.push(' ') + text) && (forall|j: int|
            0 <= j < pre.len() ==> !#[trigger] matches_at(message@, ".cpp:"@, j)) && !contains(
            text,
            " - "@,
        ) ==> r@ == trim(text),
        message@ == unit + " - "@ + description && !contains(message@, ".cpp:"@) && (forall|j: int|
            0 <= j < unit.len() ==> !#[trigger] matches_at(message@, " - "@, j)) && ends_with(
            unit,
            ".service"@,
        ) ==> r@ == unit,
        message@ == unit + " - "@ + description && !contains(message@, ".cpp:"@) && (forall|j: int|
            0 <= j < unit.len() ==> !#[trigger] matches_at(message@, " - "@, j)) && !ends_with(
            unit,
            ".service"@,
        ) && !contains(unit, ".service:"@) ==> r@ == trim(message@),
{
    reveal_strlit(" ");
    let m = message@;
    no_split_without_an_occurrence(m, ".cpp:"@);
    no_split_without_an_occurrence(m, " - "@);
    no_split_without_an_occurrence(text, " - "@);
    let rest = place.push(' ') + text;
    if m == pre + ".cpp:"@ + rest && (forall|j: int|
        0 <= j < pre.len() ==> !#[trigger] matches_at(m, ".cpp:"@, j)) {
        a_split_is_at_the_first(pre, ".cpp:"@, rest);
        assert(rest =~= place + " "@ + text);
        lemma_after_time(place, text);
    }
    if m == unit + " - "@ + description && (forall|j: int|
        0 <= j < unit.len() ==> !#[trigger] matches_at(m, " - "@, j)) {
        a_split_is_at_the_first(unit, " - "@, description);
    }
}

/// One text comes before another where it is a beginning of it, or where it has the smaller
/// character at the first place at which they differ.
pub proof fn what_comes_first(
    common: Seq<char>,
    x: char,
    y: char,
    a: Seq<char>,
    b: Seq<char>,
)
    ensures
        comes_first(common, common + a),
        x != y ==> (comes_first(common.push(x) + a, common.push(y) + b) <==> x < y),
        a.len() > 0 ==> !comes_first(common + a, common),
    decreases common.len(),
{
    if common.len() == 0 {
        let s = common.push(x) + a;
        let t = common.push(y) + b;
        assert(s[0] == x && t[0] == y);
        assert(common + a =~= a);
    } else {
        let rest = common.skip(1);
        what_comes_first(rest, x, y, a, b);
        let s = common.push(x) + a;
        let t = common.push(y) + b;
        assert(s[0] == common[0] && t[0] == common[0]);
        assert(s.skip(1) =~= rest.push(x) + a);
        assert(t.skip(1) =~= rest.push(y) + b);
        assert((common + a)[0] == common[0]);
        assert((common + a).skip(1) =~= rest + a);
    }
}

/// What is kept of a journal: of each line that is one and is worth showing its time and its
/// message, in order, and of no other anything.
pub proof fn what_is_kept(
    ls: Seq<Seq<char>>,
    line: &str,
    entry: Option<(String, String)>,
    message: &str,
    worth: bool,
)
    requires
        call_ensures(parse_journal_line, (line,), entry),
        entry matches Some((_, m)) ==> message@ == m@,
        call_ensures(worth_showing, (message,), worth),
    ensures
        kept(Seq::<Seq<char>>::empty()).len() == 0,
        entry is None || !worth ==> kept(ls.push(line@)) == kept(ls),
        entry is Some && worth ==> (entry matches Some((t, m)) && kept(ls.push(line@)) == kept(
            ls,
        ).push((t@, m@))),
{
    assert(ls.push(line@).drop_last() =~= ls);
    assert(ls.push(line@).last() == line@);
}

/// The pane shows everything that is kept of both journals, nothing twice and nothing else, by the
/// time at which it was written; and what was written at one time stays in its order.
pub proof fn the_pane_shows_both_journals_by_time(
    watcher: &str,
    server: &str,
    r: Vec<String>,
    t: Seq<char>,
) -> (sorted: Seq<EntryView>)
    requires
        clocks_are_whole(watcher@),
        clocks_are_whole(server@),
        call_ensures(journal_lines, (watcher, server), r),
    ensures
        ({
            let all = kept(lines(watcher@)) + kept(lines(server@));
            &&& sorted.to_multiset() == all.to_multiset()
            &&& sorted.len() == all.len()
            &&& at_time(sorted, t) == at_time(all, t)
        }),
        forall|i: int, j: int|
            0 <= i < j < sorted.len() ==> comes_first(
                (#[trigger] sorted[i]).0,
                (#[trigger] sorted[j]).0,
            ),
        r@.len() == sorted.len(),
        forall|i: int| 0 <= i < r@.len() ==> (#[trigger] r@[i])@ == pane_line(sorted[i]),
{
    let all = kept(lines(watcher@)) + kept(lines(server@));
    let sorted = by_time(all);
    sorting_is_by_time_and_stable(all, t);
    assert(texts(r@).len() == r@.len());
    assert forall|i: int| 0 <= i < r@.len() implies (#[trigger] r@[i])@ == pane_line(sorted[i]) by {
        assert(texts(r@)[i] == r@[i]@);
    }
    sorted
}

/// A line of the pane is the time of day, to the second, and the message in short.
pub proof fn a_line_of_the_pane(
    date: Seq<char>,
    time: Seq<char>,
    zone: Seq<char>,
    message: &str,
    short: String,
)
    requires
        !date.contains('T'),
        !time.contains('T'),
        !zone.contains('T'),
        time.len() == 8,
        forall|i: int| 0 <= i < 8 ==> (#[trigger] time[i] as u32) < 0x80,
        call_ensures(shorten_log, (message,), short),
    ensures
        pane_line((date.push('T') + time + zone, message@)) == time + "  "@ + short@,
{
    reveal_strlit("T");
    let stamp = date.push('T') + time + zone;
    let rest = time + zone;
    assert(stamp =~= date + "T"@ + rest);
    assert forall|j: int| 0 <= j < date.len() implies !#[trigger] matches_at(
        date + "T"@ + rest,
        "T"@,
        j,
    ) by {
        let s = date + "T"@ + rest;
        if matches_at(s, "T"@, j) {
            assert(s.subrange(j, j + 1)[0] == s[j]);
            assert(s[j] == date[j]);
            assert(date.contains('T'));
        }
    }
    a_split_is_at_the_first(date, "T"@, rest);
    assert forall|j: int| 0 <= j < rest.len() implies !Class::Is('T').has(#[trigger] rest[j]) by {
        if j < 8 {
            assert(rest[j] == time[j]);
            if time[j] == 'T' {
                assert(time.contains('T'));
            }
        } else {
            assert(rest[j] == zone[j - 8]);
            if zone[j - 8] == 'T' {
                assert(zone.contains('T'));
            }
        }
    }
    lemma_scan_is(rest, 0, Class::Is('T'), rest.len() as int);
    assert(rest.take(rest.len() as int) =~= rest);
    assert(clock(stamp) == rest);
    lemma_first_bytes(time, zone);
}

proof fn lemma_first_bytes(s: Seq<char>, rest: Seq<char>)
    requires
        forall|i: int| 0 <= i < s.len() ==> (#[trigger] s[i] as u32) < 0x80,
    ensures
        first_bytes(s + rest, s.len() as int) == Some(s),
    decreases s.len(),
{
    if s.len() == 0 {
        assert(first_bytes(s + rest, 0) == Some(Seq::<char>::empty()));
        assert(s =~= Seq::<char>::empty());
    } else {
        let t = s.skip(1);
        assert forall|i: int| 0 <= i < t.len() implies (#[trigger] t[i] as u32) < 0x80 by {
            assert(t[i] == s[i + 1]);
        }
        lemma_first_bytes(t, rest);
        assert((s + rest)[0] == s[0]);
        assert((s + rest).skip(1) =~= t + rest);
        assert(utf8_width(s[0]) == 1);
        assert(seq![s[0]] + t =~= s);
    }
}

/// The journals of the two units are asked for in the same way, of each unit its own, and of
/// neither more than its share.
pub proof fn what_is_asked_of_the_journal(watcher: Vec<String>, server: Vec<String>)
    requires
        call_ensures(journal_query, (true,), watcher),
        call_ensures(journal_query, (false,), server),
    ensures
        ({
            let w = texts(watcher@);
            let s = texts(server@);
            &&& w.len() == 8 && s.len() == 8
            &&& w[0] == "--user"@ && s[0] == w[0]
            &&& w[1] == "-u"@ && s[1] == w[1]
            &&& w[2] == "wadb-connect.service"@ && s[2] == "wadb.service"@
            &&& w[3] == "-n"@ && s[3] == w[3]
            &&& w[4] == "40"@ && s[4] == "200"@
            &&& w[5] == "--no-pager"@ && s[5] == w[5]
            &&& w[6] == "-o"@ && s[6] == w[6]
            &&& w[7] == "short-iso"@ && s[7] == w[7]
        }),
{
}

/// What stands before the place in adb's sources makes no difference to how the rest is shortened.
pub proof fn the_place_in_the_sources_makes_no_difference(
    pre: Seq<char>,
    place: Seq<char>,
    text: &str,
    message: &str,
    r: String,
    s: String,
)
    requires
        !place.contains(' '),
        message@ == pre + ".cpp:"@ + (place.push(' ') + text@),
        forall|j: int| 0 <= j < pre.len() ==> !#[trigger] matches_at(message@, ".cpp:"@, j),
        !contains(text@, ".cpp:"@),
        call_ensures(shorten_log, (message,), r),
        call_ensures(shorten_log, (text,), s),
    ensures
        r@ == s@,
{
    reveal_strlit(" ");
    let rest = place.push(' ') + text@;
    a_split_is_at_the_first(pre, ".cpp:"@, rest);
    assert(rest =~= place + " "@ + text@);
    lemma_after_time(place, text@);
    no_split_without_an_occurrence(text@, ".cpp:"@);
}

/// Of what systemd says of a unit, the description is dropped, wherever the unit's name stands before
/// it.
pub proof fn a_description_is_dropped(
    unit: Seq<char>,
    description: Seq<char>,
    message: &str,
    r: String,
)
    requires
        message@ == unit + " - "@ + description,
        !contains(message@, ".cpp:"@),
        forall|j: int| 0 <= j < unit.len() ==> !#[trigger] matches_at(message@, " - "@, j),
        call_ensures(shorten_log, (message,), r),
    ensures
        r@ == if ends_with(unit, ".service"@) || contains(unit, ".service:"@) {
            unit
        } else {
            trim(message@)
        },
{
    no_split_without_an_occurrence(message@, ".cpp:"@);
    a_split_is_at_the_first(unit, " - "@, description);
}

} // verus!
