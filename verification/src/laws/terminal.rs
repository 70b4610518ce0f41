//! Which terminal is opened, and how.

use crate::laws::lists::{a_pick_is_one_list, is_pick, lemma_filter_picks, lemma_same_pick};
use crate::laws::text::{a_split_is_at_the_first, joined_parts_are_split_again};
use crate::num::decimal;
use crate::path::join as join_path;
use crate::text::{
    any_in, contains, join, lemma_scan, lemma_scan_is, lines, matches_at, opt_text, scan,
    split_once, starts_with, texts, trim, words, Class,
};
use crate::tray::terminal::{
    a_named_terminal_comes_first, application_dirs, argv, candidate_views, candidates, colon_list,
    command_line, config_places, deduplicated, entry_fold, exec_word, files_view, first_dash,
    first_file, first_size, from_env, id_paths, id_variants, is_field_code, is_file, is_id,
    known_terminals, list_files, list_files_in, lists_in, named_terminal, parse_desktop_entry,
    parse_terminal_list, program_name, program_paths, programs_to_look_for, ranking, resolve,
    resolved, runnable, same_terminal, search_dirs, separator, size, size_args, size_words,
    spawn_checked, Candidate, CandidateView, DesktopEntry, FileAt, FilesView, OpenStep, Opening,
    Settled, Surroundings, SurroundingsView,
};
use vstd::prelude::*;

verus! {

// ---------------------------------------------------------------------------
// Where things are looked for
// ---------------------------------------------------------------------------

proof fn lemma_colon_list(dirs: Seq<Seq<char>>, named: Seq<Seq<char>>)
    requires
        dirs.len() > 0,
        forall|i: int| 0 <= i < dirs.len() ==> !(#[trigger] dirs[i]).contains(':'),
        is_pick(dirs, |d: Seq<char>| d.len() > 0, named),
    ensures
        colon_list(join(dirs, seq![':'])) == named,
{
    joined_parts_are_split_again(dirs, ':');
    let keep = |d: Seq<char>| d.len() > 0;
    lemma_filter_picks(dirs, keep);
    a_pick_is_one_list(dirs, keep, named, dirs.filter(keep));
}

/// A program is looked for in every directory of the search path that is named, in order. One with
/// a slash in its name is where it says.
pub proof fn where_a_program_is_looked_for(
    dirs: Seq<Seq<char>>,
    named: Seq<Seq<char>>,
    path: &Option<String>,
    program: &str,
    r: Vec<String>,
)
    requires
        call_ensures(program_paths, (path, program), r),
        dirs.len() > 0,
        forall|i: int| 0 <= i < dirs.len() ==> !(#[trigger] dirs[i]).contains(':'),
        is_pick(dirs, |d: Seq<char>| d.len() > 0, named),
        path matches Some(p) ==> p@ == join(dirs, seq![':']),
    ensures
        program@.contains('/') ==> r@.len() == 1 && r@[0]@ == program@,
        !program@.contains('/') && path is None ==> r@.len() == 0,
        !program@.contains('/') && path is Some ==> {
            &&& r@.len() == named.len()
            &&& forall|i: int|
                0 <= i < named.len() ==> (#[trigger] r@[i])@ == join_path(named[i], program@)
        },
{
    assert(texts(r@).len() == r@.len());
    if program@.contains('/') {
        let i = choose|i: int| 0 <= i < program@.len() && program@[i] == '/';
        assert(Class::Is('/').has(program@[i]));
        assert(texts(r@)[0] == r@[0]@);
    } else {
        if any_in(program@, Class::Is('/')) {
            let i = choose|i: int| 0 <= i < program@.len() && Class::Is('/').has(#[trigger] program@[i]);
            assert(program@.contains('/'));
        }
        if path is Some {
            lemma_colon_list(dirs, named);
            assert forall|i: int| 0 <= i < named.len() implies (#[trigger] r@[i])@ == join_path(
                named[i],
                program@,
            ) by {
                assert(texts(r@)[i] == r@[i]@);
            }
        }
    }
}

/// A program is the first of its places at which there is a file, and none where there is no such
/// place.
pub proof fn a_program_is_the_first_file(
    path: &Option<String>,
    files: &[FileAt],
    program: &str,
    places: Vec<String>,
    r: Option<String>,
)
    requires
        call_ensures(program_paths, (path, program), places),
        call_ensures(resolve, (path, files, program), r),
    ensures
        ({
            let there = |p: Seq<char>|
                exists|k: int| 0 <= k < files@.len() && (#[trigger] files@[k]).path@ == p;
            &&& r is None <==> forall|i: int|
                0 <= i < places@.len() ==> !there((#[trigger] places@[i])@)
            &&& r matches Some(p) ==> exists|i: int|
                {
                    &&& 0 <= i < places@.len()
                    &&& p@ == (#[trigger] places@[i])@
                    &&& there(p@)
                    &&& forall|j: int| 0 <= j < i ==> !there((#[trigger] places@[j])@)
                }
        }),
{
    let there = |p: Seq<char>|
        exists|k: int| 0 <= k < files@.len() && (#[trigger] files@[k]).path@ == p;
    let v = texts(places@);
    let f = files_view(files@);
    assert(v.len() == places@.len());
    assert forall|p: Seq<char>| #[trigger] there(p) <==> is_file(f, p) by {
        if there(p) {
            let k = choose|k: int| 0 <= k < files@.len() && (#[trigger] files@[k]).path@ == p;
            assert(f[k].0 == p);
        }
        if is_file(f, p) {
            let k = choose|k: int| 0 <= k < f.len() && (#[trigger] f[k]).0 == p;
            assert(files@[k].path@ == p);
        }
    }
    lemma_first_file(v, f);
    assert forall|i: int| 0 <= i < places@.len() implies #[trigger] v[i] == places@[i]@ by {}
    match first_file(v, f) {
        Some(p) => {
            let i = choose|i: int|
                {
                    &&& 0 <= i < v.len()
                    &&& p == #[trigger] v[i]
                    &&& is_file(f, p)
                    &&& forall|j: int| 0 <= j < i ==> !is_file(f, #[trigger] v[j])
                };
            assert(places@[i]@ == p);
            assert(there(p));
            assert forall|j: int| 0 <= j < i implies !there((#[trigger] places@[j])@) by {
                assert(v[j] == places@[j]@);
                assert(!is_file(f, v[j]));
            }
        },
        None => {
            assert forall|i: int| 0 <= i < places@.len() implies !there((#[trigger] places@[i])@) by {
                assert(v[i] == places@[i]@);
                assert(!is_file(f, v[i]));
            }
        },
    }
}

proof fn lemma_first_file(v: Seq<Seq<char>>, f: FilesView)
    ensures
        match first_file(v, f) {
            Some(p) => exists|i: int|
                {
                    &&& 0 <= i < v.len()
                    &&& p == #[trigger] v[i]
                    &&& is_file(f, p)
                    &&& forall|j: int| 0 <= j < i ==> !is_file(f, #[trigger] v[j])
                },
            None => forall|i: int| 0 <= i < v.len() ==> !is_file(f, #[trigger] v[i]),
        },
    decreases v.len(),
{
    if v.len() > 0 {
        if is_file(f, v[0]) {
            assert(v[0] == v[0]);
        } else {
            let rest = v.skip(1);
            lemma_first_file(rest, f);
            match first_file(rest, f) {
                Some(p) => {
                    let i = choose|i: int|
                        {
                            &&& 0 <= i < rest.len()
                            &&& p == #[trigger] rest[i]
                            &&& is_file(f, p)
                            &&& forall|j: int| 0 <= j < i ==> !is_file(f, #[trigger] rest[j])
                        };
                    assert(v[i + 1] == p);
                    assert forall|j: int| 0 <= j < i + 1 implies !is_file(f, #[trigger] v[j]) by {
                        if j > 0 {
                            assert(rest[j - 1] == v[j]);
                        }
                    }
                },
                None => {
                    assert forall|i: int| 0 <= i < v.len() implies !is_file(f, #[trigger] v[i]) by {
                        if i > 0 {
                            assert(rest[i - 1] == v[i]);
                        }
                    }
                },
            }
        }
    }
}

/// Applications are looked for under the user's own data directory first, and then under each of
/// the system's, in order; and a variable that is not set has its usual value.
pub proof fn where_applications_are_looked_for(
    dirs: Seq<Seq<char>>,
    named: Seq<Seq<char>>,
    e: &Surroundings,
    r: Vec<String>,
)
    requires
        call_ensures(application_dirs, (e,), r),
        dirs.len() > 0,
        forall|i: int| 0 <= i < dirs.len() ==> !(#[trigger] dirs[i]).contains(':'),
        is_pick(dirs, |d: Seq<char>| d.len() > 0, named),
        e.data_dirs is Some && e.data_dirs->0@ == join(dirs, seq![':']) && trim(
            e.data_dirs->0@,
        ).len() > 0,
    ensures
        r@.len() == 1 + named.len(),
        e.data_home is Some && e.data_home->0@.len() > 0 ==> r@[0]@ == join_path(
            e.data_home->0@,
            "applications"@,
        ),
        e.data_home is None && e.home is Some ==> r@[0]@ == join_path(
            e.home->0@,
            ".local/share/applications"@,
        ),
        forall|i: int|
            0 <= i < named.len() ==> (#[trigger] r@[i + 1])@ == join_path(
                named[i],
                "applications"@,
            ),
{
    lemma_colon_list(dirs, named);
    assert(texts(r@).len() == r@.len());
    assert(texts(r@)[0] == r@[0]@);
    assert forall|i: int| 0 <= i < named.len() implies (#[trigger] r@[i + 1])@ == join_path(
        named[i],
        "applications"@,
    ) by {
        assert(texts(r@)[i + 1] == r@[i + 1]@);
    }
}

/// In each directory, in order, the lists of the desktops come before the one for all of them.
pub proof fn where_lists_are_looked_for(
    dirs: &[String],
    more: &[String],
    desktops: &[String],
    r: Vec<String>,
    s: Vec<String>,
)
    requires
        more@.len() == dirs@.len() + 1,
        forall|i: int| 0 <= i < dirs@.len() ==> (#[trigger] more@[i])@ == dirs@[i]@,
        call_ensures(list_files_in, (dirs, desktops), r),
        call_ensures(list_files_in, (more, desktops), s),
    ensures
        dirs@.len() == 0 ==> r@.len() == 0,
        ({
            let n = r@.len() as int;
            let m = desktops@.len() as int;
            let dir = more@[dirs@.len() as int]@;
            &&& s@.len() == n + m + 1
            &&& forall|i: int| 0 <= i < n ==> (#[trigger] s@[i])@ == r@[i]@
            &&& forall|j: int|
                0 <= j < m ==> (#[trigger] s@[n + j])@ == join_path(
                    dir,
                    desktops@[j]@ + "-xdg-terminals.list"@,
                )
            &&& s@[n + m]@ == join_path(dir, "xdg-terminals.list"@)
        }),
{
    let n = r@.len() as int;
    let m = desktops@.len() as int;
    let dir = more@[dirs@.len() as int]@;
    assert(texts(more@).drop_last() =~= texts(dirs@));
    assert(texts(more@).last() == dir);
    assert(texts(s@) == texts(r@) + lists_in(dir, texts(desktops@)));
    assert(texts(r@).len() == n && texts(s@).len() == s@.len());
    assert(texts(desktops@).len() == m);
    assert forall|i: int| 0 <= i < n implies (#[trigger] s@[i])@ == r@[i]@ by {
        assert(texts(s@)[i] == s@[i]@);
        assert(texts(r@)[i] == r@[i]@);
    }
    assert forall|j: int| 0 <= j < m implies (#[trigger] s@[n + j])@ == join_path(
        dir,
        desktops@[j]@ + "-xdg-terminals.list"@,
    ) by {
        assert(texts(s@)[n + j] == s@[n + j]@);
        assert(lists_in(dir, texts(desktops@))[j] == join_path(
            dir,
            texts(desktops@)[j] + "-xdg-terminals.list"@,
        ));
    }
    assert(texts(s@)[n + m] == s@[n + m]@);
    assert(lists_in(dir, texts(desktops@))[m] == join_path(dir, "xdg-terminals.list"@));
    if dirs@.len() == 0 {
        assert(texts(dirs@).len() == 0);
        assert(list_files(texts(dirs@), texts(desktops@)).len() == 0);
    }
}

/// A list of terminals is its lines without the white space around them: all of them, in order, but
/// for those that are blank or begin with `#`.
pub proof fn a_list_is_its_lines(contents: &str, r: Vec<String>)
    requires
        call_ensures(parse_terminal_list, (contents,), r),
    ensures
        is_pick(
            lines(contents@).map_values(|l: Seq<char>| trim(l)),
            |l: Seq<char>| l.len() > 0 && l[0] != '#',
            texts(r@),
        ),
{
    let all = lines(contents@).map_values(|l: Seq<char>| trim(l));
    let keep = |l: Seq<char>| is_id(l);
    lemma_filter_picks(all, keep);
    lemma_same_pick(all, keep, |l: Seq<char>| l.len() > 0 && l[0] != '#', texts(r@));
}

// ---------------------------------------------------------------------------
// Desktop entries
// ---------------------------------------------------------------------------

/// A field code: a percent sign and one of thirteen letters.
pub open spec fn stands_for_a_file(w: Seq<char>) -> bool {
    w.len() == 2 && w[0] == '%' && (w[1] == 'f' || w[1] == 'F' || w[1] == 'u' || w[1] == 'U' || w[1]
        == 'i' || w[1] == 'c' || w[1] == 'k' || w[1] == 'd' || w[1] == 'D' || w[1] == 'n' || w[1]
        == 'N' || w[1] == 'v' || w[1] == 'm')
}

proof fn lemma_field_code(w: Seq<char>)
    ensures
        stands_for_a_file(w) <==> is_field_code(w),
{
    reveal_strlit("%f");
    reveal_strlit("%F");
    reveal_strlit("%u");
    reveal_strlit("%U");
    reveal_strlit("%i");
    reveal_strlit("%c");
    reveal_strlit("%k");
    reveal_strlit("%d");
    reveal_strlit("%D");
    reveal_strlit("%n");
    reveal_strlit("%N");
    reveal_strlit("%v");
    reveal_strlit("%m");
    if stands_for_a_file(w) {
        let s = seq!['%', w[1]];
        assert(w =~= s);
        assert("%f"@ =~= seq!['%', 'f']);
        assert("%F"@ =~= seq!['%', 'F']);
        assert("%u"@ =~= seq!['%', 'u']);
        assert("%U"@ =~= seq!['%', 'U']);
        assert("%i"@ =~= seq!['%', 'i']);
        assert("%c"@ =~= seq!['%', 'c']);
        assert("%k"@ =~= seq!['%', 'k']);
        assert("%d"@ =~= seq!['%', 'd']);
        assert("%D"@ =~= seq!['%', 'D']);
        assert("%n"@ =~= seq!['%', 'n']);
        assert("%N"@ =~= seq!['%', 'N']);
        assert("%v"@ =~= seq!['%', 'v']);
        assert("%m"@ =~= seq!['%', 'm']);
    }
}

/// The program that a command line of an entry runs: its first word, where nothing but field codes
/// follows it. With other arguments it is not known how to add ours.
pub open spec fn runs(exec: Seq<char>, program: Option<Seq<char>>) -> bool {
    let w = words(exec);
    let plain = w.len() > 0 && forall|i: int|
        1 <= i < w.len() ==> stands_for_a_file(#[trigger] w[i]);
    &&& program is Some <==> plain
    &&& plain ==> program == Some(w[0])
}

proof fn lemma_runs(exec: Seq<char>)
    ensures
        runs(exec, exec_word(exec)),
{
    let w = words(exec);
    assert forall|i: int| 1 <= i < w.len() implies (stands_for_a_file(#[trigger] w[i])
        <==> is_field_code(w[i])) by {
        lemma_field_code(w[i]);
    }
}

/// Whether the lines so far end within the entry proper: the last heading among them is its.
pub open spec fn within_entry(ls: Seq<Seq<char>>) -> bool {
    exists|i: int|
        {
            &&& 0 <= i < ls.len()
            &&& trim(#[trigger] ls[i]) == "[Desktop Entry]"@
            &&& forall|j: int|
                i < j < ls.len() ==> !(trim(#[trigger] ls[j]).len() > 0 && trim(ls[j])[0] == '[')
        }
}

proof fn lemma_within(ls: Seq<Seq<char>>)
    ensures
        entry_fold(ls).0 <==> within_entry(ls),
    decreases ls.len(),
{
    reveal_strlit("[Desktop Entry]");
    if ls.len() > 0 {
        let init = ls.drop_last();
        let n = ls.len() - 1;
        let l = trim(ls.last());
        lemma_within(init);
        let heading = l.len() > 0 && l[0] == '[';
        if heading {
            if l == "[Desktop Entry]"@ {
                assert(trim(ls[n]) == "[Desktop Entry]"@);
            }
            if within_entry(ls) {
                let i = choose|i: int|
                    {
                        &&& 0 <= i < ls.len()
                        &&& trim(#[trigger] ls[i]) == "[Desktop Entry]"@
                        &&& forall|j: int|
                            i < j < ls.len() ==> !(trim(#[trigger] ls[j]).len() > 0 && trim(
                                ls[j],
                            )[0] == '[')
                    };
                assert(trim(ls[n]) == l);
                assert(i == n);
            }
        } else {
            if within_entry(init) {
                let i = choose|i: int|
                    {
                        &&& 0 <= i < init.len()
                        &&& trim(#[trigger] init[i]) == "[Desktop Entry]"@
                        &&& forall|j: int|
                            i < j < init.len() ==> !(trim(#[trigger] init[j]).len() > 0 && trim(
                                init[j],
                            )[0] == '[')
                    };
                assert(trim(ls[i]) == "[Desktop Entry]"@);
                assert forall|j: int| i < j < ls.len() implies !(trim(#[trigger] ls[j]).len() > 0
                    && trim(ls[j])[0] == '[') by {
                    if j < n {
                        assert(init[j] == ls[j]);
                    }
                }
            }
            if within_entry(ls) {
                let i = choose|i: int|
                    {
                        &&& 0 <= i < ls.len()
                        &&& trim(#[trigger] ls[i]) == "[Desktop Entry]"@
                        &&& forall|j: int|
                            i < j < ls.len() ==> !(trim(#[trigger] ls[j]).len() > 0 && trim(
                                ls[j],
                            )[0] == '[')
                    };
                assert("[Desktop Entry]"@[0] == '[');
                assert(i < n);
                assert(trim(init[i]) == "[Desktop Entry]"@);
                assert forall|j: int| i < j < init.len() implies !(trim(#[trigger] init[j]).len()
                    > 0 && trim(init[j])[0] == '[') by {
                    assert(init[j] == ls[j]);
                }
            }
        }
    }
}

/// What one more line makes of an entry. Under another heading it makes nothing of it; in the entry
/// proper, the program, the probe and the separator are what follows their own keys, the last time
/// they are given.
pub proof fn what_a_line_of_an_entry_says(
    before: &str,
    line: Seq<char>,
    after: &str,
    r: DesktopEntry,
    s: DesktopEntry,
    value: Seq<char>,
)
    requires
        call_ensures(parse_desktop_entry, (before,), r),
        call_ensures(parse_desktop_entry, (after,), s),
        lines(after@) == lines(before@).push(line),
    ensures
        ({
            let proper = within_entry(lines(before@));
            let l = trim(line);
            let heading = l.len() > 0 && l[0] == '[';
            &&& !proper || heading ==> s@ == r@
            &&& proper && l == "Exec="@ + value ==> runs(trim(value), s@.program) && s@.try_exec
                == r@.try_exec && s@.exec_arg == r@.exec_arg
            &&& proper && l == "TryExec="@ + value ==> s@.try_exec == Some(trim(value)) && s@.program
                == r@.program && s@.exec_arg == r@.exec_arg
            &&& proper && l == "X-ExecArg="@ + value ==> s@.exec_arg == Some(trim(value))
                && s@.program == r@.program && s@.try_exec == r@.try_exec
            &&& proper && !heading && !starts_with(l, "Exec"@) && !starts_with(l, "TryExec"@)
                && !starts_with(l, "X-ExecArg"@) && l.len() > 0 ==> s@ == r@
        }),
{
    let ls = lines(before@);
    let l = trim(line);
    lemma_within(ls);
    assert(lines(after@).drop_last() =~= ls);
    reveal_strlit("=");
    reveal_strlit("Exec");
    reveal_strlit("Exec=");
    reveal_strlit("TryExec");
    reveal_strlit("TryExec=");
    reveal_strlit("X-ExecArg");
    reveal_strlit("X-ExecArg=");
    lemma_runs(trim(value));
    assert("Exec"@[0] == 'E' && "TryExec"@[0] == 'T' && "X-ExecArg"@[0] == 'X');
    if l == "Exec="@ + value {
        lemma_key(l, "Exec"@, value);
        assert("Exec"@ + "="@ + value =~= l);
    }
    if l == "TryExec="@ + value {
        lemma_key(l, "TryExec"@, value);
        assert("TryExec"@ + "="@ + value =~= l);
    }
    if l == "X-ExecArg="@ + value {
        lemma_key(l, "X-ExecArg"@, value);
        assert("X-ExecArg"@ + "="@ + value =~= l);
    }
    if l.len() > 0 && !starts_with(l, "Exec"@) && !starts_with(l, "TryExec"@) && !starts_with(
        l,
        "X-ExecArg"@,
    ) {
        lemma_other_key(line, "Exec"@);
        lemma_other_key(line, "TryExec"@);
        lemma_other_key(line, "X-ExecArg"@);
    }
}

proof fn lemma_key(l: Seq<char>, key: Seq<char>, value: Seq<char>)
    requires
        l =~= key + "="@ + value,
        key.len() > 0,
        key == "Exec"@ || key == "TryExec"@ || key == "X-ExecArg"@,
    ensures
        split_once(l, "="@) == Some((key, value)),
        trim(key) == key,
        l[0] == key[0],
{
    reveal_strlit("=");
    reveal_strlit("Exec");
    reveal_strlit("TryExec");
    reveal_strlit("X-ExecArg");
    assert forall|j: int| 0 <= j < key.len() implies !#[trigger] matches_at(
        key + "="@ + value,
        "="@,
        j,
    ) by {
        let s = key + "="@ + value;
        if matches_at(s, "="@, j) {
            assert(s.subrange(j, j + 1)[0] == s[j]);
            assert(s[j] == key[j]);
        }
    }
    a_split_is_at_the_first(key, "="@, value);
    crate::text::lemma_trim_same(key);
}

proof fn lemma_other_key(line: Seq<char>, key: Seq<char>)
    requires
        key.len() > 0,
        trim(line).len() > 0,
        !starts_with(trim(line), key),
    ensures
        split_once(trim(line), "="@) matches Some((k, _)) ==> trim(k) != key,
{
    reveal_strlit("=");
    let l = trim(line);
    crate::text::lemma_find(l, "="@, 0);
    if let Some((k, v)) = split_once(l, "="@) {
        if trim(k) == key {
            lemma_trim_first(line);
            lemma_trim_prefix(k);
            let n = k.len() as int;
            assert(k == l.take(n));
            if k.len() > 0 {
                assert(k[0] == l[0]);
            }
            assert(l.subrange(0, key.len() as int) =~= key) by {
                assert(k.subrange(0, key.len() as int) == key);
            }
        }
    }
}

/// A trimmed text does not begin with white space.
proof fn lemma_trim_first(s: Seq<char>)
    ensures
        trim(s).len() > 0 ==> !crate::text::is_space(trim(s)[0]),
{
    let a = scan(s, 0, Class::NotSpace);
    lemma_scan(s, 0, Class::NotSpace);
    let t = s.skip(a);
    lemma_trim_end_is_prefix(t);
    if trim(s).len() > 0 {
        assert(trim(s)[0] == t[0]);
        assert(t[0] == s[a]);
        assert(Class::NotSpace.has(s[a]));
    }
}

proof fn lemma_trim_end_is_prefix(s: Seq<char>)
    ensures
        crate::text::trim_end(s).len() <= s.len(),
        crate::text::trim_end(s) == s.take(crate::text::trim_end(s).len() as int),
    decreases s.len(),
{
    if s.len() > 0 && crate::text::is_space(s.last()) {
        lemma_trim_end_is_prefix(s.drop_last());
        let n = crate::text::trim_end(s).len() as int;
        assert(s.drop_last().take(n) =~= s.take(n));
    } else {
        assert(s.take(s.len() as int) =~= s);
    }
}

/// Of a text that does not begin with white space, trimming leaves a beginning.
proof fn lemma_trim_prefix(s: Seq<char>)
    requires
        s.len() > 0 ==> !crate::text::is_space(s[0]),
    ensures
        trim(s).len() <= s.len(),
        trim(s) == s.take(trim(s).len() as int),
{
    if s.len() > 0 {
        lemma_scan_is(s, 0, Class::NotSpace, 0);
    } else {
        lemma_scan(s, 0, Class::NotSpace);
    }
    assert(s.skip(0) =~= s);
    lemma_trim_end_is_prefix(s);
}

// ---------------------------------------------------------------------------
// Names
// ---------------------------------------------------------------------------

/// How many dashes there are before `n`.
pub open spec fn dashes(id: Seq<char>, n: int) -> nat
    decreases n,
{
    if n <= 0 {
        0
    } else {
        dashes(id, n - 1) + if id[n - 1] == '-' {
            1nat
        } else {
            0nat
        }
    }
}

/// An identifier under which the first `k` dashes are slashes.
pub open spec fn with_slashes(id: Seq<char>, k: int) -> Seq<char> {
    Seq::new(
        id.len(),
        |i: int|
            if id[i] == '-' && dashes(id, i) < k {
                '/'
            } else {
                id[i]
            },
    )
}

proof fn lemma_no_dash(id: Seq<char>, n: int)
    requires
        0 <= n <= id.len(),
        forall|i: int| 0 <= i < n ==> #[trigger] id[i] != '-',
    ensures
        dashes(id, n) == 0,
    decreases n,
{
    if n > 0 {
        lemma_no_dash(id, n - 1);
    }
}

proof fn lemma_one_fewer(id: Seq<char>, d: int, n: int)
    requires
        0 <= d < id.len(),
        id[d] == '-',
        forall|i: int| 0 <= i < d ==> #[trigger] id[i] != '-',
        0 <= n <= id.len(),
    ensures
        dashes(id.update(d, '/'), n) == if n > d {
            (dashes(id, n) - 1) as nat
        } else {
            0
        },
        n > d ==> dashes(id, n) > 0,
        n <= d ==> dashes(id, n) == 0,
    decreases n,
{
    if n > 0 {
        lemma_one_fewer(id, d, n - 1);
    }
}

proof fn lemma_variants(id: Seq<char>)
    ensures
        id_variants(id).len() == dashes(id, id.len() as int) + 1,
        forall|k: int|
            0 <= k < id_variants(id).len() ==> #[trigger] id_variants(id)[k] == with_slashes(id, k),
    decreases dashes(id, id.len() as int),
{
    let n = id.len() as int;
    let d = first_dash(id);
    lemma_scan(id, 0, Class::Is('-'));
    assert(with_slashes(id, 0) =~= id);
    if d < id.len() {
        assert(id[d] == '-');
        assert forall|i: int| 0 <= i < d implies #[trigger] id[i] != '-' by {
            assert(!Class::Is('-').has(id[i]));
        }
        let next = id.update(d, '/');
        lemma_one_fewer(id, d, n);
        lemma_variants(next);
        assert(id_variants(id) == seq![id] + id_variants(next));
        assert forall|k: int| 0 <= k < id_variants(id).len() implies #[trigger] id_variants(id)[k]
            == with_slashes(id, k) by {
            if k > 0 {
                assert(id_variants(id)[k] == id_variants(next)[k - 1]);
                assert(id_variants(next)[k - 1] == with_slashes(next, k - 1));
                assert forall|i: int| 0 <= i < n implies with_slashes(next, k - 1)[i]
                    == with_slashes(id, k)[i] by {
                    lemma_one_fewer(id, d, i);
                    lemma_one_fewer(id, d, d);
                    if i != d {
                        assert(next[i] == id[i]);
                    }
                }
                assert(with_slashes(next, k - 1) =~= with_slashes(id, k));
            }
        }
    } else {
        assert forall|i: int| 0 <= i < n implies #[trigger] id[i] != '-' by {
            assert(!Class::Is('-').has(id[i]));
        }
        lemma_no_dash(id, n);
        assert(id_variants(id) =~= seq![id]);
    }
}

/// An identifier is looked for as it is, and then with its dashes turned into slashes, one more at
/// a time from the left, until all of them are.
pub proof fn an_identifier_may_be_a_path(id: &str, r: Vec<String>)
    requires
        call_ensures(id_paths, (id,), r),
    ensures
        r@.len() == dashes(id@, id@.len() as int) + 1,
        forall|k: int| 0 <= k < r@.len() ==> (#[trigger] r@[k])@ == with_slashes(id@, k),
{
    lemma_variants(id@);
    assert(texts(r@).len() == r@.len());
    assert forall|k: int| 0 <= k < r@.len() implies (#[trigger] r@[k])@ == with_slashes(id@, k) by {
        assert(texts(r@)[k] == r@[k]@);
    }
}

/// The terminal that the user names is the first word, and the others are kept. Where the last of
/// them already says that a command follows, nothing is put between it and the command.
pub proof fn a_terminal_by_name(spec: &str, r: Option<Candidate>)
    requires
        call_ensures(from_env, (spec,), r),
    ensures
        ({
            let w = words(spec@);
            &&& r is None <==> w.len() == 0
            &&& r matches Some(c) ==> {
                &&& w == seq![c.program@] + texts(c.extra@)
                &&& c.explicit
                &&& c.exec_arg is None
                &&& c.user_separator <==> w.len() > 1 && (w.last() == "-e"@ || w.last() == "-x"@
                    || w.last() == "--command"@ || w.last() == "--"@)
            }
        }),
{
    let w = words(spec@);
    if w.len() > 0 {
        assert(w =~= seq![w[0]] + w.skip(1));
    }
}

// ---------------------------------------------------------------------------
// The ranking
// ---------------------------------------------------------------------------

/// What was found, without those that merely repeat their neighbour: nothing is left out but a
/// candidate whose program is the one just before it, where the user named neither.
proof fn lemma_deduplicated(v: Seq<CandidateView>)
    ensures
        forall|i: int|
            0 <= i < v.len() ==> exists|k: int|
                0 <= k < deduplicated(v).len() && (#[trigger] deduplicated(v)[k]).program
                    == (#[trigger] v[i]).program,
        forall|k: int| 0 <= k < deduplicated(v).len() ==> v.contains(#[trigger] deduplicated(v)[k]),
        v.len() > 0 ==> deduplicated(v).len() > 0 && deduplicated(v).last().program
            == v.last().program,
    decreases v.len(),
{
    if v.len() > 0 {
        let init = v.drop_last();
        lemma_deduplicated(init);
        let d = deduplicated(v);
        let e = deduplicated(init);
        let n = v.len() - 1;
        assert forall|i: int| 0 <= i < v.len() implies exists|k: int|
            0 <= k < d.len() && (#[trigger] d[k]).program == (#[trigger] v[i]).program by {
            if i < n {
                assert(init[i] == v[i]);
                let k = choose|k: int|
                    0 <= k < e.len() && (#[trigger] e[k]).program == init[i].program;
                assert(d[k] == e[k]);
                assert(d[k].program == v[i].program);
            } else {
                assert(d[d.len() - 1].program == v[n].program);
            }
        }
        assert forall|k: int| 0 <= k < d.len() implies v.contains(#[trigger] d[k]) by {
            if k < e.len() {
                assert(d[k] == e[k]);
                assert(init.contains(e[k]));
                let j = choose|j: int| 0 <= j < init.len() && init[j] == e[k];
                assert(v[j] == e[k]);
            } else {
                assert(v[n] == d[k]);
            }
        }
    }
}

proof fn lemma_runnable(names: Seq<Seq<char>>, path: Option<Seq<char>>, files: FilesView)
    ensures
        forall|i: int|
            0 <= i < names.len() && resolved(path, files, #[trigger] names[i]) is Some ==> exists|
                k: int,
            |
                0 <= k < runnable(names, path, files).len() && (#[trigger] runnable(
                    names,
                    path,
                    files,
                )[k]).program == names[i],
        forall|k: int|
            0 <= k < runnable(names, path, files).len() ==> resolved(
                path,
                files,
                (#[trigger] runnable(names, path, files)[k]).program,
            ) is Some,
    decreases names.len(),
{
    if names.len() > 0 {
        let init = names.drop_last();
        lemma_runnable(init, path, files);
        let r = runnable(names, path, files);
        let s = runnable(init, path, files);
        let n = names.len() - 1;
        assert forall|i: int|
            0 <= i < names.len() && resolved(path, files, #[trigger] names[i]) is Some implies exists|
            k: int,
        | 0 <= k < r.len() && (#[trigger] r[k]).program == names[i] by {
            if i < n {
                assert(init[i] == names[i]);
                let k = choose|k: int| 0 <= k < s.len() && (#[trigger] s[k]).program == init[i];
                assert(r[k] == s[k]);
            } else {
                assert(r[s.len() as int].program == names[n]);
            }
        }
        assert forall|k: int| 0 <= k < r.len() implies resolved(
            path,
            files,
            (#[trigger] r[k]).program,
        ) is Some by {
            if k < s.len() {
                assert(r[k] == s[k]);
            }
        }
    }
}

/// The place of a known terminal in the order in which they are tried.
spec fn known_place(p: Seq<char>) -> int {
    if p == "kitty"@ {
        0
    } else if p == "alacritty"@ {
        1
    } else if p == "foot"@ {
        2
    } else if p == "xfce4-terminal"@ {
        3
    } else if p == "konsole"@ {
        4
    } else if p == "gnome-terminal"@ {
        5
    } else {
        6
    }
}

proof fn lemma_is_ranked(
    e: SurroundingsView,
    files: FilesView,
    target: Option<Seq<char>>,
    p: Seq<char>,
)
    requires
        p == "kitty"@ || p == "alacritty"@ || p == "foot"@ || p == "xfce4-terminal"@ || p
            == "konsole"@ || p == "gnome-terminal"@ || p == "xterm"@ || p == "x-terminal-emulator"@,
        resolved(e.path, files, p) is Some,
    ensures
        exists|i: int|
            0 <= i < ranking(e, files, target).len() && (#[trigger] ranking(
                e,
                files,
                target,
            )[i]).program == p,
{
    let v = ranking(e, files, target);
    let known = known_terminals();
    let last = seq!["x-terminal-emulator"@];
    let a = runnable(known, e.path, files);
    let b = runnable(last, e.path, files);
    let head = v.len() - a.len() - b.len();
    lemma_runnable(known, e.path, files);
    lemma_runnable(last, e.path, files);
    if p == "x-terminal-emulator"@ {
        assert(last[0] == p);
        let k = choose|k: int| 0 <= k < b.len() && (#[trigger] b[k]).program == last[0];
        assert(v[head + a.len() + k] == b[k]);
    } else {
        let i = known_place(p);
        assert(known[i] == p);
        let k = choose|k: int| 0 <= k < a.len() && (#[trigger] a[k]).program == known[i];
        assert(v[head + k] == a[k]);
    }
}

/// Every terminal that is known and installed is tried, and the one the user names before all
/// others.
pub proof fn every_known_terminal_is_tried(
    e: &Surroundings,
    files: &[FileAt],
    target: Option<&str>,
    r: Vec<Candidate>,
    program: &str,
    place: Option<String>,
    spec: &str,
    named: Option<Candidate>,
)
    requires
        call_ensures(candidates, (e, files, target), r),
        program@ == "kitty"@ || program@ == "alacritty"@ || program@ == "foot"@ || program@
            == "xfce4-terminal"@ || program@ == "konsole"@ || program@ == "gnome-terminal"@
            || program@ == "xterm"@ || program@ == "x-terminal-emulator"@,
        call_ensures(resolve, (&e.path, files, program), place),
        e.terminal matches Some(t) ==> spec@ == t@,
        call_ensures(from_env, (spec,), named),
    ensures
        place is Some ==> exists|k: int| 0 <= k < r@.len() && (#[trigger] r@[k]).program@ == program@,
        e.terminal is Some ==> (named matches Some(c) ==> r@.len() > 0 && r@[0]@ == c@),
{
    let fv = files_view(files@);
    let t = match target {
        Some(t) => Some(t@),
        None => None,
    };
    let v = ranking(e@, fv, t);
    let d = deduplicated(v);
    assert(candidate_views(r@) == d);
    assert(d.len() == r@.len());
    let p = program@;
    if place is Some {
        assert(resolved(e@.path, fv, p) is Some);
        lemma_is_ranked(e@, fv, t, p);
        let i = choose|i: int| 0 <= i < v.len() && (#[trigger] v[i]).program == p;
        lemma_there(v, d, r@, i, p);
    }
    if e.terminal is Some && named is Some {
        a_named_terminal_comes_first(e@, fv, t);
        assert(candidate_views(r@)[0] == r@[0]@);
    }
}

proof fn lemma_there(
    v: Seq<CandidateView>,
    d: Seq<CandidateView>,
    r: Seq<Candidate>,
    i: int,
    p: Seq<char>,
)
    requires
        0 <= i < v.len(),
        v[i].program == p,
        d == deduplicated(v),
        candidate_views(r) == d,
    ensures
        exists|k: int| 0 <= k < r.len() && (#[trigger] r[k]).program@ == p,
{
    lemma_deduplicated(v);
    let k = choose|k: int|
        0 <= k < deduplicated(v).len() && (#[trigger] deduplicated(v)[k]).program == v[i].program;
    assert(candidate_views(r)[k] == r[k]@);
    assert(r[k].program@ == p);
}

/// The programs that are looked for are the terminals that are known, and the system's alternative
/// last.
pub proof fn which_programs_are_looked_for(r: Vec<String>)
    requires
        call_ensures(programs_to_look_for, (), r),
    ensures
        texts(r@) == seq![
            "kitty"@,
            "alacritty"@,
            "foot"@,
            "xfce4-terminal"@,
            "konsole"@,
            "gnome-terminal"@,
            "xterm"@,
            "x-terminal-emulator"@,
        ],
{
    assert(texts(r@) =~= seq![
        "kitty"@,
        "alacritty"@,
        "foot"@,
        "xfce4-terminal"@,
        "konsole"@,
        "gnome-terminal"@,
        "xterm"@,
        "x-terminal-emulator"@,
    ]);
}

// ---------------------------------------------------------------------------
// The command line
// ---------------------------------------------------------------------------

/// A command line is the terminal, what the user wrote, the size, what says that a command follows,
/// and the command. What the entry says comes before what is known of the terminal; and where the
/// user has already said that a command follows, nothing is put in between.
pub proof fn how_a_terminal_is_run(
    c: &Candidate,
    exe: &str,
    sizes: &[String],
    r: Vec<String>,
    program: &str,
    sep: Option<&str>,
)
    requires
        call_ensures(argv, (c, exe, sizes), r),
        program@ == c.program@,
        call_ensures(separator, (program,), sep),
    ensures
        ({
            let first = seq![c.program@] + texts(c.extra@);
            let between = match c.exec_arg {
                Some(a) => if a@.len() == 0 {
                    Seq::<Seq<char>>::empty()
                } else {
                    seq![a@]
                },
                None => match sep {
                    Some(s) => seq![s@],
                    None => Seq::<Seq<char>>::empty(),
                },
            };
            &&& c.user_separator ==> texts(r@) == first.push(exe@)
            &&& !c.user_separator ==> texts(r@) == (first + texts(sizes@) + between).push(exe@)
        }),
{
    let first = seq![c.program@] + texts(c.extra@);
    if c.user_separator {
        assert(first + seq![exe@] =~= first.push(exe@));
    } else {
        let w = texts(r@);
        assert(w =~= w.drop_last().push(exe@));
    }
}

/// What says that a command follows: nothing for one terminal, a word of their own for three, and
/// `-e` for all the others.
pub proof fn what_says_that_a_command_follows(program: &str, r: Option<&str>)
    requires
        call_ensures(separator, (program,), r),
    ensures
        ({
            let n = program_name(program@);
            &&& r is None <==> n == "foot"@
            &&& n == "xfce4-terminal"@ ==> (r matches Some(s) && s@ == "-x"@)
            &&& n == "gnome-terminal"@ || n == "ptyxis"@ ==> (r matches Some(s) && s@ == "--"@)
            &&& n != "foot"@ && n != "xfce4-terminal"@ && n != "gnome-terminal"@ && n != "ptyxis"@
                ==> (r matches Some(s) && s@ == "-e"@)
        }),
{
    reveal_strlit("foot");
    reveal_strlit("xfce4-terminal");
    reveal_strlit("gnome-terminal");
    reveal_strlit("ptyxis");
    assert("foot"@.len() == 4 && "xfce4-terminal"@.len() == 14 && "gnome-terminal"@.len() == 14
        && "ptyxis"@.len() == 6);
    assert("xfce4-terminal"@[0] == 'x' && "gnome-terminal"@[0] == 'g');
}

/// The window is two columns wider and two rows higher than the least the screen needs.
pub proof fn how_large_the_window_is(r: (u16, u16))
    requires
        call_ensures(size, (), r),
    ensures
        r.0 == 80 && r.1 == 32,
{
}

/// A terminal is told its size in its own words, with the columns and the rows each in their place;
/// one whose words are not known is not told.
pub proof fn how_a_terminal_is_told_its_size(program: &str, cols: u16, rows: u16, r: Vec<String>)
    requires
        call_ensures(size_args, (program, cols, rows), r),
    ensures
        ({
            let n = program_name(program@);
            let c = decimal(cols as nat);
            let l = decimal(rows as nat);
            &&& n == "kitty"@ ==> texts(r@) == seq![
                "-o"@,
                "remember_window_size=no"@,
                "-o"@,
                "initial_window_width="@ + c + "c"@,
                "-o"@,
                "initial_window_height="@ + l + "c"@,
            ]
            &&& n == "alacritty"@ ==> texts(r@) == seq![
                "-o"@,
                "window.dimensions.columns="@ + c,
                "-o"@,
                "window.dimensions.lines="@ + l,
            ]
            &&& n == "foot"@ ==> texts(r@) == seq!["--window-size-chars="@ + c + "x"@ + l]
            &&& n == "xfce4-terminal"@ ==> texts(r@) == seq!["--geometry="@ + c + "x"@ + l]
            &&& n == "konsole"@ ==> texts(r@) == seq![
                "-p"@,
                "TerminalColumns="@ + c,
                "-p"@,
                "TerminalRows="@ + l,
            ]
            &&& n == "xterm"@ ==> texts(r@) == seq!["-geometry"@, c + "x"@ + l]
            &&& n == "gnome-terminal"@ ==> r@.len() == 0
        }),
{
    reveal_strlit("kitty");
    reveal_strlit("alacritty");
    reveal_strlit("foot");
    reveal_strlit("xfce4-terminal");
    reveal_strlit("konsole");
    reveal_strlit("xterm");
    reveal_strlit("gnome-terminal");
    assert("kitty"@[0] == 'k' && "xterm"@[0] == 'x');
    assert("kitty"@.len() == 5 && "alacritty"@.len() == 9 && "foot"@.len() == 4
        && "xfce4-terminal"@.len() == 14 && "konsole"@.len() == 7 && "xterm"@.len() == 5
        && "gnome-terminal"@.len() == 14);
    assert("xfce4-terminal"@[0] == 'x' && "gnome-terminal"@[0] == 'g');
    assert(texts(r@).len() == r@.len());
}

/// A child that is alive when its time is up is a window; one that has exited says itself how it
/// went; and before that nothing is known.
pub proof fn what_a_child_is(exited: Option<bool>, now: u64, deadline: u64, r: Settled)
    requires
        call_ensures(spawn_checked, (exited, now, deadline), r),
    ensures
        r is Finished <==> exited == Some(true),
        r is Died <==> exited == Some(false),
        r is Window <==> exited is None && now >= deadline,
        r is Wait <==> exited is None && now < deadline,
{
}

/// One step of the search. A window that stays is the end of it, and the user is told where one
/// they named had failed. What dies is tried once more without a size, where it had been given one,
/// and then the next is; after the last, there is nothing left.
pub proof fn how_the_search_goes_on(
    o: &mut Opening,
    exe: &str,
    result: Option<bool>,
    r: OpenStep,
)
    requires
        old(o)@.wf(),
        result is Some ==> old(o)@.at < old(o)@.candidates.len(),
        call_ensures(Opening::open, (o, exe, result), r),
    ensures
        ({
            let a = old(o)@;
            let b = final(o)@;
            let c = a.candidates[a.at as int];
            &&& b.candidates == a.candidates
            &&& r is Opened <==> result == Some(true)
            &&& r is Failed <==> result != Some(true) && b.at == b.candidates.len()
            &&& result is None || result == Some(true) ==> b == a
            &&& result == Some(true) ==> (r matches OpenStep::Opened(note) && (note is Some
                <==> a.refused is Some))
            &&& result == Some(false) && !a.retry && first_size(c).len() > 0 ==> b.at == a.at
                && b.retry && b.refused == a.refused
            &&& result == Some(false) && (a.retry || first_size(c).len() == 0) ==> b.at == a.at + 1
                && !b.retry && (if c.explicit {
                b.refused == Some(c.program)
            } else {
                b.refused == a.refused
            })
            &&& r matches OpenStep::Spawn(args) ==> {
                let d = b.candidates[b.at as int];
                texts(args@) == command_line(
                    d,
                    exe@,
                    if b.retry {
                        Seq::<Seq<char>>::empty()
                    } else {
                        first_size(d)
                    },
                )
            }
        }),
{
}

/// The size a candidate is first given is the one that its terminal understands; where the user
/// wrote the command line, none is.
pub proof fn which_size_is_tried_first(c: &Candidate, program: &str, r: Vec<String>)
    requires
        program@ == c.program@,
        call_ensures(size_args, (program, 80u16, 32u16), r),
    ensures
        c.user_separator ==> first_size(c@).len() == 0,
        !c.user_separator ==> first_size(c@) == texts(r@),
{
}

// ---------------------------------------------------------------------------
// What the desktop says
// ---------------------------------------------------------------------------

/// What is in a file, among those that were read: the first of them with that path tells.
pub open spec fn holds_text(files: Seq<FileAt>, path: Seq<char>, text: Option<Seq<char>>) -> bool {
    ||| text is None && forall|k: int| 0 <= k < files.len() ==> (#[trigger] files[k]).path@ != path
    ||| exists|k: int|
        {
            &&& 0 <= k < files.len()
            &&& (#[trigger] files[k]).path@ == path
            &&& opt_text(files[k].contents) == text
            &&& forall|j: int| 0 <= j < k ==> (#[trigger] files[j]).path@ != path
        }
}

proof fn lemma_contents(files: Seq<FileAt>, path: Seq<char>)
    ensures
        holds_text(files, path, crate::tray::terminal::contents_at(files_view(files), path)),
    decreases files.len(),
{
    let v = files_view(files);
    if files.len() > 0 {
        assert(v[0].0 == files[0].path@);
        if files[0].path@ != path {
            let rest = files.skip(1);
            assert(files_view(rest) =~= v.skip(1));
            lemma_contents(rest, path);
            let text = crate::tray::terminal::contents_at(files_view(rest), path);
            if forall|k: int| 0 <= k < rest.len() ==> (#[trigger] rest[k]).path@ != path {
                assert forall|k: int| 0 <= k < files.len() implies (#[trigger] files[k]).path@
                    != path by {
                    if k > 0 {
                        assert(rest[k - 1] == files[k]);
                    }
                }
                if !(text is None) {
                    let k = choose|k: int|
                        0 <= k < rest.len() && (#[trigger] rest[k]).path@ == path;
                }
            } else {
                let k = choose|k: int|
                    {
                        &&& 0 <= k < rest.len()
                        &&& (#[trigger] rest[k]).path@ == path
                        &&& opt_text(rest[k].contents) == text
                        &&& forall|j: int| 0 <= j < k ==> (#[trigger] rest[j]).path@ != path
                    };
                assert(files[k + 1].path@ == path);
                assert forall|j: int| 0 <= j < k + 1 implies (#[trigger] files[j]).path@ != path by {
                    if j > 0 {
                        assert(rest[j - 1] == files[j]);
                    }
                }
            }
        } else {
            assert(files[0].path@ == path);
        }
    }
}

proof fn lemma_one_text(
    files: Seq<FileAt>,
    path: Seq<char>,
    a: Option<Seq<char>>,
    b: Option<Seq<char>>,
)
    requires
        holds_text(files, path, a),
        holds_text(files, path, b),
    ensures
        a == b,
{
    if exists|k: int| 0 <= k < files.len() && (#[trigger] files[k]).path@ == path {
        let i = choose|k: int|
            {
                &&& 0 <= k < files.len()
                &&& (#[trigger] files[k]).path@ == path
                &&& opt_text(files[k].contents) == a
                &&& forall|j: int| 0 <= j < k ==> (#[trigger] files[j]).path@ != path
            };
        let j = choose|k: int|
            {
                &&& 0 <= k < files.len()
                &&& (#[trigger] files[k]).path@ == path
                &&& opt_text(files[k].contents) == b
                &&& forall|j: int| 0 <= j < k ==> (#[trigger] files[j]).path@ != path
            };
        assert(files[i].path@ == path && files[j].path@ == path);
        assert(i == j);
    }
}

/// The terminals that are listed are those of all the lists, one list after another, each in its
/// own order. A list that cannot be read says nothing.
pub proof fn every_list_is_read(
    lists: &[String],
    more: &[String],
    files: &[FileAt],
    r: Vec<String>,
    s: Vec<String>,
    text: Option<Seq<char>>,
    contents: &str,
    ids: Vec<String>,
)
    requires
        more@.len() == lists@.len() + 1,
        forall|i: int| 0 <= i < lists@.len() ==> (#[trigger] more@[i])@ == lists@[i]@,
        call_ensures(crate::tray::terminal::listed_ids, (lists, files), r),
        call_ensures(crate::tray::terminal::listed_ids, (more, files), s),
        holds_text(files@, more@[lists@.len() as int]@, text),
        text matches Some(t) ==> contents@ == t,
        call_ensures(parse_terminal_list, (contents,), ids),
    ensures
        lists@.len() == 0 ==> r@.len() == 0,
        text is None ==> texts(s@) == texts(r@),
        text is Some ==> texts(s@) == texts(r@) + texts(ids@),
{
    let last = more@[lists@.len() as int]@;
    assert(texts(more@).drop_last() =~= texts(lists@));
    assert(texts(more@).last() == last);
    lemma_contents(files@, last);
    lemma_one_text(
        files@,
        last,
        text,
        crate::tray::terminal::contents_at(files_view(files@), last),
    );
    assert(texts(r@).len() == r@.len());
    if lists@.len() == 0 {
        assert(texts(lists@).len() == 0);
    }
}

/// An entry is looked for in every directory, in order, under each path that its identifier may
/// stand for.
pub proof fn every_directory_may_hold_an_entry(
    dirs: &[String],
    more: &[String],
    id: &str,
    r: Vec<String>,
    s: Vec<String>,
    paths: Vec<String>,
)
    requires
        more@.len() == dirs@.len() + 1,
        forall|i: int| 0 <= i < dirs@.len() ==> (#[trigger] more@[i])@ == dirs@[i]@,
        call_ensures(crate::tray::terminal::entry_paths, (dirs, id), r),
        call_ensures(crate::tray::terminal::entry_paths, (more, id), s),
        call_ensures(id_paths, (id,), paths),
    ensures
        dirs@.len() == 0 ==> r@.len() == 0,
        s@.len() == r@.len() + paths@.len(),
        forall|i: int| 0 <= i < r@.len() ==> (#[trigger] s@[i])@ == r@[i]@,
        forall|j: int|
            0 <= j < paths@.len() ==> (#[trigger] s@[r@.len() + j])@ == join_path(
                more@[dirs@.len() as int]@,
                paths@[j]@,
            ),
{
    let last = more@[dirs@.len() as int]@;
    assert(texts(more@).drop_last() =~= texts(dirs@));
    assert(texts(more@).last() == last);
    assert(texts(r@).len() == r@.len() && texts(s@).len() == s@.len());
    assert(texts(paths@).len() == paths@.len());
    let under = id_variants(id@).map_values(|rel: Seq<char>| join_path(last, rel));
    assert(texts(s@) == texts(r@) + under);
    assert forall|i: int| 0 <= i < r@.len() implies (#[trigger] s@[i])@ == r@[i]@ by {
        assert(texts(s@)[i] == s@[i]@);
        assert(texts(r@)[i] == r@[i]@);
    }
    assert forall|j: int| 0 <= j < paths@.len() implies (#[trigger] s@[r@.len() + j])@ == join_path(
        last,
        paths@[j]@,
    ) by {
        assert(texts(s@)[r@.len() + j] == s@[r@.len() + j]@);
        assert(under[j] == join_path(last, texts(paths@)[j]));
    }
    if dirs@.len() == 0 {
        assert(texts(dirs@).len() == 0);
    }
}

proof fn lemma_first_entry(places: Seq<Seq<char>>, files: FilesView, i: int)
    requires
        0 <= i <= places.len(),
        forall|j: int|
            0 <= j < i ==> crate::tray::terminal::contents_at(files, #[trigger] places[j]) is None,
    ensures
        i == places.len() ==> crate::tray::terminal::first_entry(places, files) is None,
        i < places.len() ==> (crate::tray::terminal::contents_at(files, places[i]) matches Some(t)
            ==> crate::tray::terminal::first_entry(places, files) == Some(entry_fold(lines(t)).1)),
    decreases places.len(),
{
    if i > 0 {
        let rest = places.skip(1);
        assert forall|j: int| 0 <= j < i - 1 implies crate::tray::terminal::contents_at(
            files,
            #[trigger] rest[j],
        ) is None by {
            assert(rest[j] == places[j + 1]);
        }
        lemma_first_entry(rest, files, i - 1);
        assert(crate::tray::terminal::contents_at(files, places[0]) is None);
        if i < places.len() {
            assert(rest[i - 1] == places[i]);
        }
    }
}

/// A terminal that is listed is tried where its entry can be read and names a program that is
/// there; what the entry says of probing has to be there too. The first entry that can be read
/// tells.
pub proof fn a_listed_terminal_is_tried_by_its_entry(
    id: &str,
    dirs: &[String],
    path: &Option<String>,
    files: &[FileAt],
    places: Vec<String>,
    i: int,
    contents: &str,
    entry: DesktopEntry,
    program: &str,
    there: Option<String>,
    probe: &str,
    probed: Option<String>,
    r: Option<Candidate>,
)
    requires
        call_ensures(crate::tray::terminal::entry_paths, (dirs, id), places),
        0 <= i < places@.len(),
        forall|j: int| 0 <= j < i ==> holds_text(files@, (#[trigger] places@[j])@, None),
        holds_text(files@, places@[i]@, Some(contents@)),
        call_ensures(parse_desktop_entry, (contents,), entry),
        entry.program matches Some(p) ==> program@ == p@,
        call_ensures(resolve, (path, files, program), there),
        entry.try_exec matches Some(p) ==> probe@ == p@,
        call_ensures(resolve, (path, files, probe), probed),
        call_ensures(crate::tray::terminal::candidate_for_id, (id, dirs, path, files), r),
    ensures
        r is Some <==> entry.program is Some && there is Some && (entry.try_exec is None || probed
            is Some),
        r matches Some(c) ==> {
            &&& c.program@ == entry.program->0@
            &&& opt_text(c.exec_arg) == opt_text(entry.exec_arg)
            &&& c.extra@.len() == 0
            &&& !c.explicit && !c.user_separator
        },
{
    let v = texts(places@);
    let f = files_view(files@);
    assert forall|j: int| 0 <= j < i implies crate::tray::terminal::contents_at(
        f,
        #[trigger] v[j],
    ) is None by {
        assert(v[j] == places@[j]@);
        lemma_contents(files@, v[j]);
        lemma_one_text(files@, v[j], None, crate::tray::terminal::contents_at(f, v[j]));
    }
    assert(v[i] == places@[i]@);
    lemma_contents(files@, v[i]);
    lemma_one_text(
        files@,
        v[i],
        Some(contents@),
        crate::tray::terminal::contents_at(f, v[i]),
    );
    lemma_first_entry(v, f, i);
    if let Some(c) = r {
        assert(texts(c.extra@).len() == c.extra@.len());
    }
}

/// `out` is what stands in `src` at the places `at`, in order, and what is left out merely repeats
/// the program just before it, where the user named neither.
pub open spec fn without_repeats(
    src: Seq<CandidateView>,
    out: Seq<CandidateView>,
    at: Seq<int>,
) -> bool {
    &&& at.len() == out.len()
    &&& forall|k: int| 0 <= k < at.len() ==> 0 <= #[trigger] at[k] < src.len() && out[k] == src[at[k]]
    &&& forall|j: int, k: int| 0 <= j < k < at.len() ==> #[trigger] at[j] < #[trigger] at[k]
    &&& forall|i: int|
        0 <= i < src.len() && !at.contains(i) ==> i > 0 && (#[trigger] src[i]).program == src[i
            - 1].program && !src[i].explicit
}

proof fn lemma_without_repeats(v: Seq<CandidateView>) -> (at: Seq<int>)
    ensures
        without_repeats(v, deduplicated(v), at),
        v.len() > 0 ==> deduplicated(v).len() > 0 && deduplicated(v).last().program
            == v.last().program,
    decreases v.len(),
{
    if v.len() == 0 {
        Seq::empty()
    } else {
        let init = v.drop_last();
        let n = v.len() - 1;
        let at = lemma_without_repeats(init);
        let e = deduplicated(init);
        let d = deduplicated(v);
        let keep = !(e.len() > 0 && same_terminal(v.last(), e.last()));
        let then = if keep {
            at.push(n)
        } else {
            at
        };
        assert forall|k: int| 0 <= k < then.len() implies 0 <= #[trigger] then[k] < v.len() && d[k]
            == v[then[k]] by {
            if k < at.len() {
                assert(0 <= at[k] < init.len());
                assert(init[at[k]] == v[at[k]]);
            }
        }
        assert forall|j: int, k: int| 0 <= j < k < then.len() implies #[trigger] then[j]
            < #[trigger] then[k] by {
            assert(0 <= at[j] < init.len());
        }
        assert forall|i: int| 0 <= i < v.len() && !then.contains(i) implies i > 0 && (
        #[trigger] v[i]).program == v[i - 1].program && !v[i].explicit by {
            if i < n {
                if at.contains(i) {
                    let k = choose|k: int| 0 <= k < at.len() && at[k] == i;
                    assert(then[k] == i);
                }
                assert(init[i] == v[i] && (i > 0 ==> init[i - 1] == v[i - 1]));
            } else {
                if keep {
                    assert(then[at.len() as int] == n);
                }
                assert(init.last() == v[n - 1]);
            }
        }
        then
    }
}

/// The order in which terminals are tried: the one the user names, those that the desktop lists,
/// the system's alternative where it can be told its size, those that are known, and the
/// alternative last. Nothing is left out of that order but what merely repeats the one before it.
pub proof fn the_order_in_which_terminals_are_tried(
    e: &Surroundings,
    files: &[FileAt],
    target: Option<&str>,
    r: Vec<Candidate>,
    lists: Vec<String>,
    list_slice: &[String],
    ids: Vec<String>,
    dirs: Vec<String>,
) -> (at: Seq<int>)
    requires
        call_ensures(candidates, (e, files, target), r),
        call_ensures(crate::tray::terminal::terminal_list_files, (e,), lists),
        list_slice@ == lists@,
        call_ensures(crate::tray::terminal::listed_ids, (list_slice, files), ids),
        call_ensures(application_dirs, (e,), dirs),
    ensures
        ({
            let f = files_view(files@);
            let path = opt_text(e.path);
            let named = match e.terminal {
                Some(t) => match named_terminal(t@) {
                    Some(c) => seq![c],
                    None => Seq::<CandidateView>::empty(),
                },
                None => Seq::<CandidateView>::empty(),
            };
            let listed = crate::tray::terminal::ids_candidates(texts(dirs@), texts(ids@), path, f);
            let sized = match target {
                Some(t) => if resolved(path, f, "x-terminal-emulator"@) is Some && size_words(
                    program_name(t@),
                    80,
                    32,
                ).len() > 0 {
                    seq![crate::tray::terminal::bare(t@)]
                } else {
                    Seq::<CandidateView>::empty()
                },
                None => Seq::<CandidateView>::empty(),
            };
            let known = runnable(
                seq![
                    "kitty"@,
                    "alacritty"@,
                    "foot"@,
                    "xfce4-terminal"@,
                    "konsole"@,
                    "gnome-terminal"@,
                    "xterm"@,
                ],
                path,
                f,
            );
            let last = runnable(seq!["x-terminal-emulator"@], path, f);
            without_repeats(named + listed + sized + known + last, candidate_views(r@), at)
        }),
{
    let f = files_view(files@);
    let t = match target {
        Some(t) => Some(t@),
        None => None,
    };
    let v = ranking(e@, f, t);
    lemma_without_repeats(v)
}

/// Those that the desktop lists are tried in its order, each that can be.
pub proof fn listed_terminals_are_tried_in_order(
    dirs: &[String],
    ids: Seq<Seq<char>>,
    id: &str,
    path: &Option<String>,
    files: &[FileAt],
    r: Option<Candidate>,
)
    requires
        call_ensures(crate::tray::terminal::candidate_for_id, (id, dirs, path, files), r),
    ensures
        ({
            let f = files_view(files@);
            let p = opt_text(*path);
            let before = crate::tray::terminal::ids_candidates(texts(dirs@), ids, p, f);
            let after = crate::tray::terminal::ids_candidates(texts(dirs@), ids.push(id@), p, f);
            &&& ids.len() == 0 ==> before.len() == 0
            &&& r is None ==> after == before
            &&& r matches Some(c) ==> after == before.push(c@)
        }),
{
    assert(ids.push(id@).drop_last() =~= ids);
    assert(ids.push(id@).last() == id@);
}

/// Those that are known are tried in order, each that is there, with nothing added.
pub proof fn known_terminals_are_tried_in_order(
    names: Seq<Seq<char>>,
    name: &str,
    path: &Option<String>,
    files: &[FileAt],
    r: Option<String>,
    plain: Candidate,
)
    requires
        call_ensures(resolve, (path, files, name), r),
        call_ensures(Candidate::plain, (name,), plain),
    ensures
        ({
            let f = files_view(files@);
            let p = opt_text(*path);
            &&& names.len() == 0 ==> runnable(names, p, f).len() == 0
            &&& r is None ==> runnable(names.push(name@), p, f) == runnable(names, p, f)
            &&& r is Some ==> runnable(names.push(name@), p, f) == runnable(names, p, f).push(
                plain@,
            )
        }),
        plain.program@ == name@ && plain.extra@.len() == 0 && !plain.explicit
            && !plain.user_separator && plain.exec_arg is None,
{
    assert(names.push(name@).drop_last() =~= names);
    assert(names.push(name@).last() == name@);
    assert(texts(plain.extra@).len() == plain.extra@.len());
}

/// A search begins with the first candidate, with its size.
pub proof fn what_a_search_begins_with(
    all: Vec<Candidate>,
    o: Opening,
)
    requires
        call_ensures(Opening::begin, (all,), o),
    ensures
        o@.wf(),
        o@.candidates.len() == all@.len(),
        forall|i: int| 0 <= i < all@.len() ==> #[trigger] o@.candidates[i] == all@[i]@,
        o@.at == 0 && !o@.retry && o@.refused is None,
{
}

/// Lists are looked for under the user's own configuration first, and then under each of the
/// system's; applications come after all of them.
pub proof fn which_directories_are_searched(
    dirs: Seq<Seq<char>>,
    named: Seq<Seq<char>>,
    e: &Surroundings,
    r: Vec<String>,
    apps: Vec<String>,
)
    requires
        call_ensures(search_dirs, (e,), r),
        call_ensures(application_dirs, (e,), apps),
        dirs.len() > 0,
        forall|i: int| 0 <= i < dirs.len() ==> !(#[trigger] dirs[i]).contains(':'),
        is_pick(dirs, |d: Seq<char>| d.len() > 0, named),
        e.config_dirs is Some && e.config_dirs->0@ == join(dirs, seq![':']) && trim(
            e.config_dirs->0@,
        ).len() > 0,
    ensures
        r@.len() == 1 + named.len() + apps@.len(),
        e.config_home is Some && e.config_home->0@.len() > 0 ==> r@[0]@ == e.config_home->0@,
        e.config_home is None && e.home is Some ==> r@[0]@ == join_path(e.home->0@, ".config"@),
        forall|i: int| 0 <= i < named.len() ==> (#[trigger] r@[i + 1])@ == named[i],
        forall|i: int|
            0 <= i < apps@.len() ==> (#[trigger] r@[1 + named.len() + i])@ == apps@[i]@,
{
    lemma_colon_list(dirs, named);
    assert(texts(r@).len() == r@.len());
    assert(texts(apps@).len() == apps@.len());
    let c = config_places(e@);
    assert(texts(r@) == c + texts(apps@));
    assert(c.len() == 1 + named.len());
    assert(texts(r@)[0] == r@[0]@);
    assert forall|i: int| 0 <= i < named.len() implies (#[trigger] r@[i + 1])@ == named[i] by {
        assert(texts(r@)[i + 1] == r@[i + 1]@);
    }
    assert forall|i: int| 0 <= i < apps@.len() implies (#[trigger] r@[1 + named.len() + i])@
        == apps@[i]@ by {
        assert(texts(r@)[1 + named.len() + i] == r@[1 + named.len() + i]@);
        assert(texts(apps@)[i] == apps@[i]@);
    }
}

/// The lists that are looked for are those of the directories that are searched for them, for the
/// desktops of the session, in small letters.
pub proof fn which_lists_are_looked_for(
    e: &Surroundings,
    r: Vec<String>,
    dirs: &[String],
    desktops: &[String],
    s: Vec<String>,
    names: Seq<Seq<char>>,
    named: Seq<Seq<char>>,
)
    requires
        call_ensures(crate::tray::terminal::terminal_list_files, (e,), r),
        texts(dirs@) == config_places(e@),
        e.current_desktop is None ==> desktops@.len() == 0,
        e.current_desktop matches Some(d) ==> {
            &&& names.len() > 0
            &&& forall|i: int| 0 <= i < names.len() ==> !(#[trigger] names[i]).contains(':')
            &&& d@ == join(names, seq![':'])
            &&& is_pick(names, |x: Seq<char>| x.len() > 0, named)
            &&& desktops@.len() == named.len()
            &&& forall|i: int|
                0 <= i < named.len() ==> (#[trigger] desktops@[i])@ == crate::text::lower(named[i])
        },
        call_ensures(list_files_in, (dirs, desktops), s),
    ensures
        texts(r@) == texts(s@),
{
    let want = crate::tray::terminal::desktop_names(e@);
    assert(texts(desktops@).len() == desktops@.len());
    if e.current_desktop is Some {
        lemma_colon_list(names, named);
        assert(texts(desktops@) =~= want);
    } else {
        assert(texts(desktops@) =~= want);
    }
}

} // verus!
