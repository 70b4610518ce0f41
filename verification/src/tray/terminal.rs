//! Choosing a terminal for the TUI, and asking it for a window the TUI actually fits in.
//!
//! The user's preference is recorded in the freedesktop terminal lists. What is on disk comes in
//! as a snapshot of the files that were looked at.

use crate::num::{decimal, decimal_of};
use crate::path::{file_name, file_name_of, join, joined};
use crate::text::{
    any_in, chars_of, clone_opt, clone_strings, has_any, is_text, lemma_filter_step, lemma_scan,
    lines, lines_of, lower, lowercased, opt_text, scan, scan_for, slices, split, split_at_text,
    split_on, split_once, str_eq, string_of, texts, trim, trimmed, words, words_of, Class,
};
use crate::ui::{MIN_HEIGHT, MIN_WIDTH};
use vstd::prelude::*;

verus! {

/// How long to wait for a terminal to reject its own arguments, in milliseconds. A terminal that
/// starts and then exits does so at once; anything still alive after this is a real window.
pub const SETTLE: u64 = 400;

/// How often to look meanwhile, in milliseconds.
pub const POLL: u64 = 20;

/// The window the TUI needs, plus a little slack, from the TUI's own constants: if those move,
/// this moves with them.
pub fn size() -> (r: (u16, u16))
    ensures
        r.0 == MIN_WIDTH + 2,
        r.1 == MIN_HEIGHT + 2,
{
    (MIN_WIDTH + 2, MIN_HEIGHT + 2)
}

// ---------------------------------------------------------------------------
// How a terminal is driven
// ---------------------------------------------------------------------------

/// The program name a table row is keyed on.
pub open spec fn program_name(program: Seq<char>) -> Seq<char> {
    match file_name(program) {
        Some(name) => name,
        None => program,
    }
}

/// The program name a table row is keyed on. A wrapper script is deliberately **not** unwrapped to
/// its target: it implements the xterm convention rather than that of the terminal it runs.
pub fn basename(program: &str) -> (r: String)
    ensures
        r@ == program_name(program@),
{
    match file_name_of(program) {
        Some(name) => name,
        None => program.to_owned(),
    }
}

/// How to ask a terminal of this name for a window of that many cells. None at all means that it
/// cannot be sized from the command line.
pub open spec fn size_words(name: Seq<char>, cols: u16, rows: u16) -> Seq<Seq<char>> {
    let c = decimal(cols as nat);
    let r = decimal(rows as nat);
    if name == "kitty"@ {
        seq![
            "-o"@,
            "remember_window_size=no"@,
            "-o"@,
            "initial_window_width="@ + c + "c"@,
            "-o"@,
            "initial_window_height="@ + r + "c"@,
        ]
    } else if name == "alacritty"@ {
        seq![
            "-o"@,
            "window.dimensions.columns="@ + c,
            "-o"@,
            "window.dimensions.lines="@ + r,
        ]
    } else if name == "foot"@ {
        seq!["--window-size-chars="@ + c + "x"@ + r]
    } else if name == "xfce4-terminal"@ {
        seq!["--geometry="@ + c + "x"@ + r]
    } else if name == "konsole"@ {
        seq!["-p"@, "TerminalColumns="@ + c, "-p"@, "TerminalRows="@ + r]
    } else if name == "xterm"@ {
        seq!["-geometry"@, c + "x"@ + r]
    } else {
        seq![]
    }
}

/// How to ask this terminal for a `cols` by `rows` window.
///
/// kitty's remembered size *overrides* its initial one, so it is told not to remember. GNOME
/// Terminal ignores a size and hands off to its server at once, so it is asked for none.
pub fn size_args(program: &str, cols: u16, rows: u16) -> (r: Vec<String>)
    ensures
        texts(r@) == size_words(program_name(program@), cols, rows),
{
    let name = basename(program);
    let c = decimal_of(cols as u64);
    let r = decimal_of(rows as u64);
    if str_eq(name.as_str(), "kitty") {
        let width = "initial_window_width=".to_owned().concat(c.as_str()).concat("c");
        let height = "initial_window_height=".to_owned().concat(r.as_str()).concat("c");
        vec![
            "-o".to_owned(),
            "remember_window_size=no".to_owned(),
            "-o".to_owned(),
            width,
            "-o".to_owned(),
            height,
        ]
    } else if str_eq(name.as_str(), "alacritty") {
        vec![
            "-o".to_owned(),
            "window.dimensions.columns=".to_owned().concat(c.as_str()),
            "-o".to_owned(),
            "window.dimensions.lines=".to_owned().concat(r.as_str()),
        ]
    } else if str_eq(name.as_str(), "foot") {
        vec![
            "--window-size-chars=".to_owned().concat(c.as_str()).concat("x").concat(r.as_str()),
        ]
    } else if str_eq(name.as_str(), "xfce4-terminal") {
        vec!["--geometry=".to_owned().concat(c.as_str()).concat("x").concat(r.as_str())]
    } else if str_eq(name.as_str(), "konsole") {
        vec![
            "-p".to_owned(),
            "TerminalColumns=".to_owned().concat(c.as_str()),
            "-p".to_owned(),
            "TerminalRows=".to_owned().concat(r.as_str()),
        ]
    } else if str_eq(name.as_str(), "xterm") {
        vec!["-geometry".to_owned(), c.concat("x").concat(r.as_str())]
    } else {
        let none: Vec<String> = Vec::new();
        assert(texts(none@) == Seq::<Seq<char>>::empty());
        none
    }
}

/// The word that introduces the command, where there is one.
pub open spec fn separator_word(name: Seq<char>) -> Option<Seq<char>> {
    if name == "foot"@ {
        None
    } else if name == "xfce4-terminal"@ {
        Some("-x"@)
    } else if name == "gnome-terminal"@ || name == "ptyxis"@ {
        Some("--"@)
    } else {
        Some("-e"@)
    }
}

/// The word that introduces the command, or `None` when the command is simply the last argument.
/// `-e` is not universal.
pub fn separator(program: &str) -> (r: Option<&'static str>)
    ensures
        match r {
            Some(s) => separator_word(program_name(program@)) == Some(s@),
            None => separator_word(program_name(program@)) is None,
        },
{
    let name = basename(program);
    if str_eq(name.as_str(), "foot") {
        None
    } else if str_eq(name.as_str(), "xfce4-terminal") {
        Some("-x")
    } else if str_eq(name.as_str(), "gnome-terminal") || str_eq(name.as_str(), "ptyxis") {
        Some("--")
    } else {
        Some("-e")
    }
}

// ---------------------------------------------------------------------------
// Where to look
// ---------------------------------------------------------------------------

/// The variables that say where the lists, the desktop entries and the programs are.
#[derive(Debug, PartialEq, Eq)]
pub struct Surroundings {
    pub home: Option<String>,
    pub config_home: Option<String>,
    pub config_dirs: Option<String>,
    pub data_home: Option<String>,
    pub data_dirs: Option<String>,
    pub current_desktop: Option<String>,
    pub path: Option<String>,
    /// `$TERMINAL`.
    pub terminal: Option<String>,
}

pub struct SurroundingsView {
    pub home: Option<Seq<char>>,
    pub config_home: Option<Seq<char>>,
    pub config_dirs: Option<Seq<char>>,
    pub data_home: Option<Seq<char>>,
    pub data_dirs: Option<Seq<char>>,
    pub current_desktop: Option<Seq<char>>,
    pub path: Option<Seq<char>>,
    pub terminal: Option<Seq<char>>,
}

impl View for Surroundings {
    type V = SurroundingsView;

    open spec fn view(&self) -> SurroundingsView {
        SurroundingsView {
            home: opt_text(self.home),
            config_home: opt_text(self.config_home),
            config_dirs: opt_text(self.config_dirs),
            data_home: opt_text(self.data_home),
            data_dirs: opt_text(self.data_dirs),
            current_desktop: opt_text(self.current_desktop),
            path: opt_text(self.path),
            terminal: opt_text(self.terminal),
        }
    }
}

/// The parts of a list with colons between them, empty ones left out.
pub open spec fn colon_list(s: Seq<char>) -> Seq<Seq<char>> {
    split(s, ':').filter(|d: Seq<char>| d.len() > 0)
}

fn colon_list_of(s: &str) -> (r: Vec<String>)
    ensures
        texts(r@) == colon_list(s@),
{
    let c = chars_of(s);
    let parts = split_on(c.as_slice(), ':');
    let ghost all = split(s@, ':');
    let ghost keep = |d: Seq<char>| d.len() > 0;
    let mut r: Vec<String> = Vec::new();
    let mut i: usize = 0;
    proof {
        reveal(Seq::filter);
        assert(all.take(0).filter(keep) == Seq::<Seq<char>>::empty());
        assert(texts(r@) == all.take(0).filter(keep));
    }
    while i < parts.len()
        invariant
            i <= parts.len(),
            slices(parts@) == all,
            keep == (|d: Seq<char>| d.len() > 0),
            texts(r@) == all.take(i as int).filter(keep),
        decreases parts.len() - i,
    {
        let ghost done = texts(r@);
        proof {
            lemma_filter_step(all, keep, i as int);
            assert(parts@[i as int]@ == all[i as int]);
        }
        if parts[i].len() > 0 {
            let d = string_of(parts[i]);
            r.push(d);
            assert(texts(r@) == done.push(d@));
        }
        i += 1;
    }
    assert(slices(parts@).len() == parts@.len());
    assert(all.take(i as int) == all);
    r
}

/// The directories a variable names, or the default ones where it names none.
pub open spec fn dirs_or(value: Option<Seq<char>>, default: Seq<char>) -> Seq<Seq<char>> {
    match value {
        Some(v) => if trim(v).len() > 0 {
            colon_list(v)
        } else {
            colon_list(default)
        },
        None => colon_list(default),
    }
}

fn dirs_from(value: &Option<String>, default: &str) -> (r: Vec<String>)
    ensures
        texts(r@) == dirs_or(opt_text(*value), default@),
{
    if let Some(v) = value {
        let c = chars_of(v.as_str());
        if trimmed(c.as_slice()).len() > 0 {
            return colon_list_of(v.as_str());
        }
    }
    colon_list_of(default)
}

/// A directory a variable names, or one under the home directory.
pub open spec fn dir_or_home(
    value: Option<Seq<char>>,
    home: Option<Seq<char>>,
    default: Seq<char>,
) -> Seq<char> {
    match value {
        Some(v) => if v.len() > 0 {
            v
        } else {
            under_home(home, default)
        },
        None => under_home(home, default),
    }
}

pub open spec fn under_home(home: Option<Seq<char>>, rel: Seq<char>) -> Seq<char> {
    join(
        match home {
            Some(h) => h,
            None => ""@,
        },
        rel,
    )
}

fn dir_from(value: &Option<String>, home: &Option<String>, default: &str) -> (r: String)
    ensures
        r@ == dir_or_home(opt_text(*value), opt_text(*home), default@),
{
    if let Some(v) = value {
        if chars_of(v.as_str()).len() > 0 {
            return v.clone();
        }
    }
    match home {
        Some(h) => joined(h.as_str(), default),
        None => joined("", default),
    }
}

/// The configuration directories, the user's own first. The defaults matter as much as the
/// variables: a session that exports none of them must still find the user's list.
pub open spec fn config_places(e: SurroundingsView) -> Seq<Seq<char>> {
    seq![dir_or_home(e.config_home, e.home, ".config"@)] + dirs_or(e.config_dirs, "/etc/xdg"@)
}

/// The directories of desktop entries, the user's own first.
pub open spec fn application_places(e: SurroundingsView) -> Seq<Seq<char>> {
    seq![
        match e.data_home {
            Some(v) => if v.len() > 0 {
                join(v, "applications"@)
            } else {
                under_home(e.home, ".local/share/applications"@)
            },
            None => under_home(e.home, ".local/share/applications"@),
        },
    ] + dirs_or(e.data_dirs, "/usr/local/share:/usr/share"@).map_values(
        |d: Seq<char>| join(d, "applications"@),
    )
}

fn config_dirs(e: &Surroundings) -> (r: Vec<String>)
    ensures
        texts(r@) == config_places(e@),
{
    let first = dir_from(&e.config_home, &e.home, ".config");
    let mut r = vec![first];
    let mut rest = dirs_from(&e.config_dirs, "/etc/xdg");
    let ghost a = r@;
    let ghost b = rest@;
    r.append(&mut rest);
    proof {
        assert(texts(a) == seq![first@]);
        assert(r@ == a + b);
        assert(texts(r@) == texts(a) + texts(b));
    }
    r
}

pub fn application_dirs(e: &Surroundings) -> (r: Vec<String>)
    ensures
        texts(r@) == application_places(e@),
{
    let named = match &e.data_home {
        Some(v) => chars_of(v.as_str()).len() > 0,
        None => false,
    };
    let first = if named {
        match &e.data_home {
            Some(v) => joined(v.as_str(), "applications"),
            None => String::new(),
        }
    } else {
        match &e.home {
            Some(h) => joined(h.as_str(), ".local/share/applications"),
            None => joined("", ".local/share/applications"),
        }
    };
    let mut r = vec![first];
    let rest = dirs_from(&e.data_dirs, "/usr/local/share:/usr/share");
    let ghost all = dirs_or(e@.data_dirs, "/usr/local/share:/usr/share"@);
    let ghost under = |d: Seq<char>| join(d, "applications"@);
    let mut i: usize = 0;
    assert(texts(r@) == seq![first@] + all.take(0).map_values(under));
    while i < rest.len()
        invariant
            i <= rest.len(),
            texts(rest@) == all,
            under == (|d: Seq<char>| join(d, "applications"@)),
            texts(r@) == seq![first@] + all.take(i as int).map_values(under),
        decreases rest.len() - i,
    {
        let ghost done = texts(r@);
        assert(all[i as int] == rest@[i as int]@);
        let d = joined(rest[i].as_str(), "applications");
        r.push(d);
        proof {
            assert(texts(r@) == done.push(d@));
            assert(all.take(i + 1) == all.take(i as int).push(all[i as int]));
            assert(all.take(i + 1).map_values(under) == all.take(i as int).map_values(under).push(
                d@,
            ));
            assert(texts(r@) == seq![first@] + all.take(i + 1).map_values(under));
        }
        i += 1;
    }
    assert(texts(rest@).len() == rest@.len());
    assert(all.take(i as int) == all);
    r
}

/// Where the terminal lists and the desktop entries live: the config directories first, then the
/// application directories.
pub fn search_dirs(e: &Surroundings) -> (r: Vec<String>)
    ensures
        texts(r@) == config_places(e@) + application_places(e@),
{
    let mut r = config_dirs(e);
    let mut more = application_dirs(e);
    let ghost a = r@;
    let ghost b = more@;
    r.append(&mut more);
    proof {
        assert(r@ == a + b);
        assert(texts(r@) == texts(a) + texts(b));
    }
    r
}

/// The lists of one directory: one for each desktop, then the plain one.
pub open spec fn lists_in(dir: Seq<char>, desktops: Seq<Seq<char>>) -> Seq<Seq<char>> {
    desktops.map_values(|d: Seq<char>| join(dir, d + "-xdg-terminals.list"@)).push(
        join(dir, "xdg-terminals.list"@),
    )
}

/// The terminal lists, in the order they are read.
pub open spec fn list_files(dirs: Seq<Seq<char>>, desktops: Seq<Seq<char>>) -> Seq<Seq<char>>
    decreases dirs.len(),
{
    if dirs.len() == 0 {
        seq![]
    } else {
        list_files(dirs.drop_last(), desktops) + lists_in(dirs.last(), desktops)
    }
}

/// The desktops of a session, in lower case.
pub open spec fn desktop_names(e: SurroundingsView) -> Seq<Seq<char>> {
    match e.current_desktop {
        Some(d) => colon_list(d).map_values(|s: Seq<char>| lower(s)),
        None => seq![],
    }
}

fn lists_in_dir(out: &mut Vec<String>, dir: &str, desktops: &[String])
    ensures
        texts(final(out)@) == texts(old(out)@) + lists_in(dir@, texts(desktops@)),
{
    let ghost before = texts(out@);
    let ghost all = texts(desktops@).map_values(
        |d: Seq<char>| join(dir@, d + "-xdg-terminals.list"@),
    );
    let mut i: usize = 0;
    assert(texts(out@) == before + all.take(0));
    while i < desktops.len()
        invariant
            i <= desktops.len(),
            all == texts(desktops@).map_values(
                |d: Seq<char>| join(dir@, d + "-xdg-terminals.list"@),
            ),
            texts(out@) == before + all.take(i as int),
        decreases desktops.len() - i,
    {
        let ghost done = texts(out@);
        let name = desktops[i].clone().concat("-xdg-terminals.list");
        let p = joined(dir, name.as_str());
        out.push(p);
        proof {
            assert(texts(out@) == done.push(p@));
            assert(all[i as int] == p@);
            assert(before + all.take(i + 1) == (before + all.take(i as int)).push(p@));
        }
        i += 1;
    }
    assert(all.take(i as int) == all);
    let ghost done = texts(out@);
    let plain = joined(dir, "xdg-terminals.list");
    out.push(plain);
    proof {
        assert(texts(out@) == done.push(plain@));
        assert(before + lists_in(dir@, texts(desktops@)) == (before + all).push(plain@));
    }
}

/// The lists to read, for directories and desktops already known.
pub fn list_files_in(dirs: &[String], desktops: &[String]) -> (r: Vec<String>)
    ensures
        texts(r@) == list_files(texts(dirs@), texts(desktops@)),
{
    let ghost all = texts(dirs@);
    let mut out: Vec<String> = Vec::new();
    let mut i: usize = 0;
    assert(all.take(0) == Seq::<Seq<char>>::empty());
    assert(texts(out@) == Seq::<Seq<char>>::empty());
    while i < dirs.len()
        invariant
            i <= dirs.len(),
            all == texts(dirs@),
            texts(out@) == list_files(all.take(i as int), texts(desktops@)),
        decreases dirs.len() - i,
    {
        assert(all.take(i + 1).drop_last() == all.take(i as int));
        assert(all[i as int] == dirs@[i as int]@);
        lists_in_dir(&mut out, dirs[i].as_str(), desktops);
        i += 1;
    }
    assert(all.take(i as int) == all);
    out
}

/// The terminal lists: within each config directory, one per desktop of the session, then the
/// unprefixed one.
pub fn terminal_list_files(e: &Surroundings) -> (r: Vec<String>)
    ensures
        texts(r@) == list_files(config_places(e@), desktop_names(e@)),
{
    let mut desktops: Vec<String> = Vec::new();
    assert(texts(desktops@) == Seq::<Seq<char>>::empty());
    if let Some(d) = &e.current_desktop {
        let raw = colon_list_of(d.as_str());
        let ghost all = colon_list(d@);
        let ghost low = |s: Seq<char>| lower(s);
        let mut i: usize = 0;
        assert(texts(desktops@) == all.take(0).map_values(low));
        while i < raw.len()
            invariant
                i <= raw.len(),
                texts(raw@) == all,
                low == (|s: Seq<char>| lower(s)),
                texts(desktops@) == all.take(i as int).map_values(low),
            decreases raw.len() - i,
        {
            let ghost done = texts(desktops@);
            assert(all[i as int] == raw@[i as int]@);
            let name = lowercased(raw[i].as_str());
            desktops.push(name);
            proof {
                assert(texts(desktops@) == done.push(name@));
                assert(all.take(i + 1) == all.take(i as int).push(all[i as int]));
                assert(all.take(i + 1).map_values(low) == all.take(i as int).map_values(low).push(
                    name@,
                ));
            }
            i += 1;
        }
        assert(texts(raw@).len() == raw@.len());
        assert(all.take(i as int) == all);
    }
    let dirs = config_dirs(e);
    list_files_in(dirs.as_slice(), desktops.as_slice())
}

// ---------------------------------------------------------------------------
// Lists and desktop entries
// ---------------------------------------------------------------------------

/// A line of a list that names a desktop entry: neither blank nor a comment.
pub open spec fn is_id(line: Seq<char>) -> bool {
    line.len() > 0 && line[0] != '#'
}

/// The desktop-file ids of a list.
pub open spec fn list_ids(contents: Seq<char>) -> Seq<Seq<char>> {
    lines(contents).map_values(|l: Seq<char>| trim(l)).filter(|l: Seq<char>| is_id(l))
}

/// Desktop-file ids, one per line. Blank lines and `#` comments are not ids.
pub fn parse_terminal_list(contents: &str) -> (r: Vec<String>)
    ensures
        texts(r@) == list_ids(contents@),
{
    let s = chars_of(contents);
    let ls = lines_of(s.as_slice());
    let ghost all = lines(contents@).map_values(|l: Seq<char>| trim(l));
    let ghost keep = |l: Seq<char>| is_id(l);
    let mut r: Vec<String> = Vec::new();
    let mut i: usize = 0;
    proof {
        reveal(Seq::filter);
        assert(all.take(0).filter(keep) == Seq::<Seq<char>>::empty());
        assert(texts(r@) == all.take(0).filter(keep));
        assert(slices(ls@).len() == ls@.len());
    }
    while i < ls.len()
        invariant
            i <= ls.len(),
            slices(ls@) == lines(contents@),
            all == lines(contents@).map_values(|l: Seq<char>| trim(l)),
            keep == (|l: Seq<char>| is_id(l)),
            texts(r@) == all.take(i as int).filter(keep),
        decreases ls.len() - i,
    {
        let ghost done = texts(r@);
        let l = trimmed(ls[i]);
        proof {
            lemma_filter_step(all, keep, i as int);
            assert(ls@[i as int]@ == lines(contents@)[i as int]);
            assert(all[i as int] == l@);
        }
        if l.len() > 0 && l[0] != '#' {
            let id = string_of(l);
            r.push(id);
            assert(texts(r@) == done.push(id@));
        }
        i += 1;
    }
    assert(all.take(i as int) == all);
    r
}

/// What wadb needs out of a desktop entry.
#[derive(Debug, PartialEq, Eq)]
pub struct DesktopEntry {
    /// `Exec`'s first field, the program that actually runs. `None` when `Exec` is missing, or
    /// when it carries arguments other than field codes.
    pub program: Option<String>,
    /// The probe key. Present means "check this exists before showing the entry".
    pub try_exec: Option<String>,
    /// The terminal's own exec separator. Present and empty means "no separator".
    pub exec_arg: Option<String>,
}

pub struct EntryView {
    pub program: Option<Seq<char>>,
    pub try_exec: Option<Seq<char>>,
    pub exec_arg: Option<Seq<char>>,
}

impl View for DesktopEntry {
    type V = EntryView;

    open spec fn view(&self) -> EntryView {
        EntryView {
            program: opt_text(self.program),
            try_exec: opt_text(self.try_exec),
            exec_arg: opt_text(self.exec_arg),
        }
    }
}

impl Default for DesktopEntry {
    fn default() -> (r: DesktopEntry)
        ensures
            r@ == no_entry(),
    {
        DesktopEntry { program: None, try_exec: None, exec_arg: None }
    }
}

pub open spec fn no_entry() -> EntryView {
    EntryView { program: None, try_exec: None, exec_arg: None }
}

/// The field codes an `Exec` may carry; they expand to filenames that are not being passed.
pub open spec fn is_field_code(w: Seq<char>) -> bool {
    ||| w == "%f"@
    ||| w == "%F"@
    ||| w == "%u"@
    ||| w == "%U"@
    ||| w == "%i"@
    ||| w == "%c"@
    ||| w == "%k"@
    ||| w == "%d"@
    ||| w == "%D"@
    ||| w == "%n"@
    ||| w == "%N"@
    ||| w == "%v"@
    ||| w == "%m"@
}

fn field_code(w: &[char]) -> (r: bool)
    ensures
        r == is_field_code(w@),
{
    is_text(w, "%f") || is_text(w, "%F") || is_text(w, "%u") || is_text(w, "%U") || is_text(
        w,
        "%i",
    ) || is_text(w, "%c") || is_text(w, "%k") || is_text(w, "%d") || is_text(w, "%D") || is_text(
        w,
        "%n",
    ) || is_text(w, "%N") || is_text(w, "%v") || is_text(w, "%m")
}

/// `Exec`'s first field, but only when it could be run faithfully: an `Exec` that carries anything
/// but field codes has a wrapper for its first field, and running that alone would launch something
/// different, or nothing.
pub open spec fn exec_word(exec: Seq<char>) -> Option<Seq<char>> {
    let w = words(exec);
    if w.len() > 0 && (forall|i: int| 1 <= i < w.len() ==> is_field_code(#[trigger] w[i])) {
        Some(w[0])
    } else {
        None
    }
}

fn exec_program(exec: &[char]) -> (r: Option<String>)
    ensures
        opt_text(r) == exec_word(exec@),
{
    let w = words_of(exec);
    let ghost all = words(exec@);
    assert(slices(w@).len() == w@.len());
    if w.len() == 0 {
        return None;
    }
    let mut i: usize = 1;
    while i < w.len()
        invariant
            1 <= i <= w.len(),
            slices(w@) == all,
            all == words(exec@),
            forall|j: int| 1 <= j < i ==> is_field_code(#[trigger] all[j]),
        decreases w.len() - i,
    {
        assert(w@[i as int]@ == all[i as int]);
        if !field_code(w[i]) {
            return None;
        }
        i += 1;
    }
    assert(w@[0]@ == all[0]);
    Some(string_of(w[0]))
}

/// What one line adds to an entry, and whether what follows belongs to the entry's group. Other
/// groups carry an `Exec` of their own that runs something else entirely.
pub open spec fn entry_step(state: (bool, EntryView), line: Seq<char>) -> (bool, EntryView) {
    let (in_entry, e) = state;
    let l = trim(line);
    if l.len() > 0 && l[0] == '[' {
        (l == "[Desktop Entry]"@, e)
    } else if !in_entry {
        state
    } else {
        match split_once(l, "="@) {
            None => state,
            Some((key, value)) => if trim(key) == "Exec"@ {
                (true, EntryView { program: exec_word(trim(value)), ..e })
            } else if trim(key) == "TryExec"@ {
                (true, EntryView { try_exec: Some(trim(value)), ..e })
            } else if trim(key) == "X-ExecArg"@ {
                (true, EntryView { exec_arg: Some(trim(value)), ..e })
            } else {
                state
            },
        }
    }
}

pub open spec fn entry_fold(lines: Seq<Seq<char>>) -> (bool, EntryView)
    decreases lines.len(),
{
    if lines.len() == 0 {
        (false, no_entry())
    } else {
        entry_step(entry_fold(lines.drop_last()), lines.last())
    }
}

/// Read the `[Desktop Entry]` group, and only that group.
pub fn parse_desktop_entry(contents: &str) -> (r: DesktopEntry)
    ensures
        r@ == entry_fold(lines(contents@)).1,
{
    let s = chars_of(contents);
    let ls = lines_of(s.as_slice());
    let ghost all = lines(contents@);
    let mut entry = DesktopEntry { program: None, try_exec: None, exec_arg: None };
    let mut in_entry = false;
    let mut i: usize = 0;
    assert(all.take(0) == Seq::<Seq<char>>::empty());
    assert(slices(ls@).len() == ls@.len());
    while i < ls.len()
        invariant
            i <= ls.len(),
            slices(ls@) == all,
            (in_entry, entry@) == entry_fold(all.take(i as int)),
        decreases ls.len() - i,
    {
        proof {
            assert(all.take(i + 1).drop_last() == all.take(i as int));
            assert(ls@[i as int]@ == all[i as int]);
        }
        let l = trimmed(ls[i]);
        if l.len() > 0 && l[0] == '[' {
            in_entry = is_text(l, "[Desktop Entry]");
        } else if in_entry {
            if let Some((key, value)) = split_at_text(l, "=") {
                let k = trimmed(key);
                let v = trimmed(value);
                if is_text(k, "Exec") {
                    entry.program = exec_program(v);
                } else if is_text(k, "TryExec") {
                    entry.try_exec = Some(string_of(v));
                } else if is_text(k, "X-ExecArg") {
                    entry.exec_arg = Some(string_of(v));
                }
            }
        }
        i += 1;
    }
    assert(all.take(i as int) == all);
    entry
}

/// Where the first dash is, or the length.
pub open spec fn first_dash(s: Seq<char>) -> int {
    scan(s, 0, Class::Is('-'))
}

/// `foo-bar.desktop` may live at `foo-bar.desktop` or at `foo/bar.desktop`.
pub open spec fn id_variants(id: Seq<char>) -> Seq<Seq<char>>
    decreases id.len() - first_dash(id),
    via id_variants_decreases
{
    if first_dash(id) < id.len() {
        seq![id] + id_variants(id.update(first_dash(id), '/'))
    } else {
        seq![id]
    }
}

#[via_fn]
proof fn id_variants_decreases(id: Seq<char>) {
    lemma_next_dash(id);
}

/// With its first dash replaced, a text has its first dash further on.
proof fn lemma_next_dash(id: Seq<char>)
    ensures
        0 <= first_dash(id) <= id.len(),
        first_dash(id) < id.len() ==> first_dash(id) < first_dash(
            id.update(first_dash(id), '/'),
        ) <= id.len(),
{
    lemma_scan(id, 0, Class::Is('-'));
    let n = first_dash(id);
    let next = id.update(n, '/');
    lemma_scan(next, 0, Class::Is('-'));
    if n < id.len() && first_dash(next) < n {
        assert(Class::Is('-').has(next[first_dash(next)]));
        assert(id[first_dash(next)] == next[first_dash(next)]);
    }
}

pub fn id_paths(id: &str) -> (r: Vec<String>)
    ensures
        texts(r@) == id_variants(id@),
{
    let mut current = chars_of(id);
    let mut out: Vec<String> = Vec::new();
    let ghost whole = id_variants(id@);
    assert(texts(out@) + id_variants(current@) == whole);
    loop
        invariant
            whole == id_variants(id@),
            texts(out@) + id_variants(current@) == whole,
        decreases current@.len() - first_dash(current@),
    {
        let ghost done = texts(out@);
        let n: usize = scan_for(current.as_slice(), 0, Class::Is('-'));
        let text = string_of(current.as_slice());
        out.push(text);
        assert(texts(out@) == done.push(text@));
        if n >= current.len() {
            assert(done + seq![text@] == done.push(text@));
            return out;
        }
        proof {
            lemma_next_dash(current@);
            let next = current@.update(n as int, '/');
            assert(done + (seq![text@] + id_variants(next)) == done.push(text@) + id_variants(
                next,
            ));
        }
        current.set(n, '/');
    }
}

// ---------------------------------------------------------------------------
// What is on disk
// ---------------------------------------------------------------------------

/// One file that was found: where, and what it holds if it could be read as text.
#[derive(Debug, PartialEq, Eq)]
pub struct FileAt {
    pub path: String,
    pub contents: Option<String>,
}

/// The files that were found.
pub type FilesView = Seq<(Seq<char>, Option<Seq<char>>)>;

pub open spec fn files_view(v: Seq<FileAt>) -> FilesView {
    v.map_values(|f: FileAt| (f.path@, opt_text(f.contents)))
}

/// Whether there is a file at this path.
pub open spec fn is_file(files: FilesView, path: Seq<char>) -> bool {
    exists|i: int| 0 <= i < files.len() && (#[trigger] files[i]).0 == path
}

/// What the file at this path holds, where there is one that can be read.
pub open spec fn contents_at(files: FilesView, path: Seq<char>) -> Option<Seq<char>>
    decreases files.len(),
{
    if files.len() == 0 {
        None
    } else if files[0].0 == path {
        files[0].1
    } else {
        contents_at(files.skip(1), path)
    }
}

fn is_file_at(files: &[FileAt], path: &str) -> (r: bool)
    ensures
        r == is_file(files_view(files@), path@),
{
    let ghost all = files_view(files@);
    let mut i: usize = 0;
    while i < files.len()
        invariant
            i <= files.len(),
            all == files_view(files@),
            forall|j: int| 0 <= j < i ==> (#[trigger] all[j]).0 != path@,
        decreases files.len() - i,
    {
        assert(all[i as int].0 == files@[i as int].path@);
        if str_eq(files[i].path.as_str(), path) {
            return true;
        }
        i += 1;
    }
    assert(all.len() == files@.len());
    false
}

fn contents_of<'a>(files: &'a [FileAt], path: &str) -> (r: Option<&'a str>)
    ensures
        match r {
            Some(t) => contents_at(files_view(files@), path@) == Some(t@),
            None => contents_at(files_view(files@), path@) is None,
        },
{
    let ghost all = files_view(files@);
    let mut i: usize = 0;
    assert(all.skip(0) == all);
    while i < files.len()
        invariant
            i <= files.len(),
            all == files_view(files@),
            contents_at(all, path@) == contents_at(all.skip(i as int), path@),
        decreases files.len() - i,
    {
        assert(all.skip(i as int)[0] == all[i as int]);
        assert(all[i as int].0 == files@[i as int].path@);
        assert(all.skip(i as int).skip(1) == all.skip(i + 1));
        if str_eq(files[i].path.as_str(), path) {
            return match &files[i].contents {
                Some(t) => Some(t.as_str()),
                None => None,
            };
        }
        i += 1;
    }
    assert(all.len() == files@.len());
    None
}

/// Where a program may be: a name with a slash in it stands for itself, and a bare one is looked
/// up in every directory of the search path.
pub open spec fn program_places(path: Option<Seq<char>>, program: Seq<char>) -> Seq<Seq<char>> {
    if any_in(program, Class::Is('/')) {
        seq![program]
    } else {
        match path {
            Some(p) => colon_list(p).map_values(|d: Seq<char>| join(d, program)),
            None => seq![],
        }
    }
}

pub fn program_paths(path: &Option<String>, program: &str) -> (r: Vec<String>)
    ensures
        texts(r@) == program_places(opt_text(*path), program@),
{
    let p = chars_of(program);
    let mut r: Vec<String> = Vec::new();
    if has_any(p.as_slice(), Class::Is('/')) {
        r.push(program.to_owned());
        assert(texts(r@) == seq![program@]);
        return r;
    }
    assert(texts(r@) == Seq::<Seq<char>>::empty());
    if let Some(path) = path {
        let dirs = colon_list_of(path.as_str());
        let ghost all = colon_list(path@);
        let ghost under = |d: Seq<char>| join(d, program@);
        let mut i: usize = 0;
        assert(texts(r@) == all.take(0).map_values(under));
        while i < dirs.len()
            invariant
                i <= dirs.len(),
                texts(dirs@) == all,
                under == (|d: Seq<char>| join(d, program@)),
                texts(r@) == all.take(i as int).map_values(under),
            decreases dirs.len() - i,
        {
            let ghost done = texts(r@);
            assert(all[i as int] == dirs@[i as int]@);
            let d = joined(dirs[i].as_str(), program);
            r.push(d);
            proof {
                assert(texts(r@) == done.push(d@));
                assert(all.take(i + 1) == all.take(i as int).push(all[i as int]));
                assert(all.take(i + 1).map_values(under) == all.take(i as int).map_values(
                    under,
                ).push(d@));
            }
            i += 1;
        }
        assert(texts(dirs@).len() == dirs@.len());
        assert(all.take(i as int) == all);
    }
    r
}

/// The first of the places at which there is a file.
pub open spec fn first_file(places: Seq<Seq<char>>, files: FilesView) -> Option<Seq<char>>
    decreases places.len(),
{
    if places.len() == 0 {
        None
    } else if is_file(files, places[0]) {
        Some(places[0])
    } else {
        first_file(places.skip(1), files)
    }
}

/// Where a program is, if it can be run at all.
pub open spec fn resolved(
    path: Option<Seq<char>>,
    files: FilesView,
    program: Seq<char>,
) -> Option<Seq<char>> {
    first_file(program_places(path, program), files)
}

/// Is this program runnable? An absolute name is a file on disk; a bare name is looked up on
/// `PATH`.
pub fn resolve(path: &Option<String>, files: &[FileAt], program: &str) -> (r: Option<String>)
    ensures
        opt_text(r) == resolved(opt_text(*path), files_view(files@), program@),
{
    let places = program_paths(path, program);
    let ghost all = program_places(opt_text(*path), program@);
    let mut i: usize = 0;
    assert(all.skip(0) == all);
    while i < places.len()
        invariant
            i <= places.len(),
            texts(places@) == all,
            all == program_places(opt_text(*path), program@),
            first_file(all, files_view(files@)) == first_file(
                all.skip(i as int),
                files_view(files@),
            ),
        decreases places.len() - i,
    {
        assert(all.skip(i as int)[0] == places@[i as int]@);
        assert(all.skip(i as int).skip(1) == all.skip(i + 1));
        if is_file_at(files, places[i].as_str()) {
            return Some(places[i].clone());
        }
        i += 1;
    }
    assert(texts(places@).len() == places@.len());
    None
}

// ---------------------------------------------------------------------------
// Candidates
// ---------------------------------------------------------------------------

/// A terminal that might be opened, and what is known about driving it.
#[derive(Debug, Clone, PartialEq, Eq)]
pub struct Candidate {
    pub program: String,
    /// Extra words the user put in `$TERMINAL`, kept in front of ours.
    pub extra: Vec<String>,
    /// `$TERMINAL` already ended in an exec separator, so nothing but the command is appended.
    pub user_separator: bool,
    /// `X-ExecArg` from the desktop entry, which beats the table.
    pub exec_arg: Option<String>,
    /// This came from `$TERMINAL`, so a failure is worth naming rather than swallowing.
    pub explicit: bool,
}

pub struct CandidateView {
    pub program: Seq<char>,
    pub extra: Seq<Seq<char>>,
    pub user_separator: bool,
    pub exec_arg: Option<Seq<char>>,
    pub explicit: bool,
}

impl View for Candidate {
    type V = CandidateView;

    open spec fn view(&self) -> CandidateView {
        CandidateView {
            program: self.program@,
            extra: texts(self.extra@),
            user_separator: self.user_separator,
            exec_arg: opt_text(self.exec_arg),
            explicit: self.explicit,
        }
    }
}

pub open spec fn candidate_views(v: Seq<Candidate>) -> Seq<CandidateView> {
    v.map_values(|c: Candidate| c@)
}

/// A terminal of which nothing but its name is known.
pub open spec fn bare(program: Seq<char>) -> CandidateView {
    CandidateView {
        program,
        extra: seq![],
        user_separator: false,
        exec_arg: None,
        explicit: false,
    }
}

impl Candidate {
    pub fn plain(program: &str) -> (r: Candidate)
        ensures
            r@ == bare(program@),
    {
        let r = Candidate {
            program: program.to_owned(),
            extra: Vec::new(),
            user_separator: false,
            exec_arg: None,
            explicit: false,
        };
        assert(texts(r.extra@) == Seq::<Seq<char>>::empty());
        r
    }

    fn copy(&self) -> (r: Candidate)
        ensures
            r@ == self@,
    {
        Candidate {
            program: self.program.clone(),
            extra: clone_strings(self.extra.as_slice()),
            user_separator: self.user_separator,
            exec_arg: clone_opt(&self.exec_arg),
            explicit: self.explicit,
        }
    }
}

fn push_candidate(v: &mut Vec<Candidate>, c: Candidate)
    ensures
        candidate_views(final(v)@) == candidate_views(old(v)@).push(c@),
{
    let ghost before = candidate_views(v@);
    v.push(c);
    assert(candidate_views(v@) == before.push(c@));
}

/// Words that mean "everything after this is the command".
pub open spec fn is_exec_separator(w: Seq<char>) -> bool {
    w == "-e"@ || w == "-x"@ || w == "--command"@ || w == "--"@
}

/// `$TERMINAL`, split on white space. Only the *last* word can be a separator: an option may well
/// end in two dashes.
pub open spec fn named_terminal(spec: Seq<char>) -> Option<CandidateView> {
    let w = words(spec);
    if w.len() == 0 {
        None
    } else {
        Some(
            CandidateView {
                program: w[0],
                extra: w.skip(1),
                user_separator: w.len() > 1 && is_exec_separator(w.last()),
                exec_arg: None,
                explicit: true,
            },
        )
    }
}

/// `$TERMINAL`, split on whitespace. Empty or whitespace-only counts as unset.
pub fn from_env(spec: &str) -> (r: Option<Candidate>)
    ensures
        match r {
            Some(c) => named_terminal(spec@) == Some(c@),
            None => named_terminal(spec@) is None,
        },
{
    let s = chars_of(spec);
    let w = words_of(s.as_slice());
    let ghost all = words(spec@);
    assert(slices(w@).len() == w@.len());
    if w.len() == 0 {
        return None;
    }
    assert(w@[0]@ == all[0]);
    let program = string_of(w[0]);
    let mut extra: Vec<String> = Vec::new();
    let ghost rest = all.skip(1);
    assert(texts(extra@) == rest.take(0));
    let mut i: usize = 1;
    while i < w.len()
        invariant
            1 <= i <= w.len(),
            slices(w@) == all,
            rest == all.skip(1),
            texts(extra@) == rest.take(i - 1),
        decreases w.len() - i,
    {
        let ghost done = texts(extra@);
        assert(rest[i - 1] == w@[i as int]@);
        let word = string_of(w[i]);
        extra.push(word);
        assert(texts(extra@) == done.push(word@));
        assert(rest.take(i as int) == rest.take(i - 1).push(word@));
        i += 1;
    }
    assert(rest.take(i - 1) == rest);
    let n: usize = w.len();
    assert(w@[n - 1]@ == all[n - 1]);
    let last = w[n - 1];
    let user_separator = n > 1 && (is_text(last, "-e") || is_text(last, "-x") || is_text(
        last,
        "--command",
    ) || is_text(last, "--"));
    Some(Candidate { program, extra, user_separator, exec_arg: None, explicit: true })
}

/// Every place where an id's desktop entry may be, in order.
pub open spec fn entry_places(dirs: Seq<Seq<char>>, id: Seq<char>) -> Seq<Seq<char>>
    decreases dirs.len(),
{
    if dirs.len() == 0 {
        seq![]
    } else {
        entry_places(dirs.drop_last(), id) + id_variants(id).map_values(
            |rel: Seq<char>| join(dirs.last(), rel),
        )
    }
}

pub fn entry_paths(dirs: &[String], id: &str) -> (r: Vec<String>)
    ensures
        texts(r@) == entry_places(texts(dirs@), id@),
{
    let rels = id_paths(id);
    let ghost all = texts(dirs@);
    let ghost variants = id_variants(id@);
    let mut out: Vec<String> = Vec::new();
    let mut i: usize = 0;
    assert(all.take(0) == Seq::<Seq<char>>::empty());
    assert(texts(out@) == Seq::<Seq<char>>::empty());
    assert(texts(rels@).len() == rels@.len());
    while i < dirs.len()
        invariant
            i <= dirs.len(),
            all == texts(dirs@),
            variants == id_variants(id@),
            texts(rels@) == variants,
            texts(out@) == entry_places(all.take(i as int), id@),
        decreases dirs.len() - i,
    {
        let ghost before = texts(out@);
        let ghost dir = dirs@[i as int]@;
        let ghost here = variants.map_values(|rel: Seq<char>| join(dir, rel));
        let mut j: usize = 0;
        assert(texts(out@) == before + here.take(0));
        while j < rels.len()
            invariant
                i < dirs.len(),
                j <= rels.len(),
                texts(rels@) == variants,
                dir == dirs@[i as int]@,
                here == variants.map_values(|rel: Seq<char>| join(dir, rel)),
                texts(out@) == before + here.take(j as int),
            decreases rels.len() - j,
        {
            let ghost done = texts(out@);
            assert(variants[j as int] == rels@[j as int]@);
            let p = joined(dirs[i].as_str(), rels[j].as_str());
            out.push(p);
            proof {
                assert(texts(out@) == done.push(p@));
                assert(here[j as int] == p@);
                assert(before + here.take(j + 1) == (before + here.take(j as int)).push(p@));
            }
            j += 1;
        }
        proof {
            assert(texts(rels@).len() == rels@.len());
            assert(here.take(j as int) == here);
            assert(all.take(i + 1).drop_last() == all.take(i as int));
            assert(all.take(i + 1).last() == dir);
        }
        i += 1;
    }
    assert(all.take(i as int) == all);
    out
}

/// The first of the places that holds an entry which can be read.
pub open spec fn first_entry(places: Seq<Seq<char>>, files: FilesView) -> Option<EntryView>
    decreases places.len(),
{
    if places.len() == 0 {
        None
    } else {
        match contents_at(files, places[0]) {
            Some(text) => Some(entry_fold(lines(text)).1),
            None => first_entry(places.skip(1), files),
        }
    }
}

/// The terminal a desktop entry stands for. `TryExec` is a probe, and only where it is there:
/// `Exec` is what runs. Both have to be found.
pub open spec fn entry_candidate(
    e: EntryView,
    path: Option<Seq<char>>,
    files: FilesView,
) -> Option<CandidateView> {
    if e.try_exec is Some && resolved(path, files, e.try_exec->0) is None {
        None
    } else if e.program is None || resolved(path, files, e.program->0) is None {
        None
    } else {
        Some(CandidateView { exec_arg: e.exec_arg, ..bare(e.program->0) })
    }
}

/// The terminal an id stands for: the first entry that can be read decides.
pub open spec fn id_candidate(
    dirs: Seq<Seq<char>>,
    id: Seq<char>,
    path: Option<Seq<char>>,
    files: FilesView,
) -> Option<CandidateView> {
    match first_entry(entry_places(dirs, id), files) {
        Some(e) => entry_candidate(e, path, files),
        None => None,
    }
}

pub fn candidate_for_id(
    id: &str,
    dirs: &[String],
    path: &Option<String>,
    files: &[FileAt],
) -> (r: Option<Candidate>)
    ensures
        match r {
            Some(c) => id_candidate(texts(dirs@), id@, opt_text(*path), files_view(files@)) == Some(
                c@,
            ),
            None => id_candidate(texts(dirs@), id@, opt_text(*path), files_view(files@)) is None,
        },
{
    let places = entry_paths(dirs, id);
    let ghost all = entry_places(texts(dirs@), id@);
    let ghost disk = files_view(files@);
    let mut i: usize = 0;
    assert(all.skip(0) == all);
    assert(texts(places@).len() == places@.len());
    while i < places.len()
        invariant
            i <= places.len(),
            texts(places@) == all,
            all == entry_places(texts(dirs@), id@),
            disk == files_view(files@),
            first_entry(all, disk) == first_entry(all.skip(i as int), disk),
        decreases places.len() - i,
    {
        assert(all.skip(i as int)[0] == places@[i as int]@);
        assert(all.skip(i as int).skip(1) == all.skip(i + 1));
        if let Some(text) = contents_of(files, places[i].as_str()) {
            let entry = parse_desktop_entry(text);
            if let Some(probe) = &entry.try_exec {
                if resolve(path, files, probe.as_str()).is_none() {
                    return None;
                }
            }
            return match entry.program {
                Some(program) => {
                    if resolve(path, files, program.as_str()).is_none() {
                        None
                    } else {
                        let extra: Vec<String> = Vec::new();
                        assert(texts(extra@) == Seq::<Seq<char>>::empty());
                        Some(
                            Candidate {
                                program,
                                extra,
                                user_separator: false,
                                exec_arg: entry.exec_arg,
                                explicit: false,
                            },
                        )
                    }
                },
                None => None,
            };
        }
        i += 1;
    }
    None
}

/// The terminals that ids stand for, those that cannot be used left out.
pub open spec fn ids_candidates(
    dirs: Seq<Seq<char>>,
    ids: Seq<Seq<char>>,
    path: Option<Seq<char>>,
    files: FilesView,
) -> Seq<CandidateView>
    decreases ids.len(),
{
    if ids.len() == 0 {
        seq![]
    } else {
        let init = ids_candidates(dirs, ids.drop_last(), path, files);
        match id_candidate(dirs, ids.last(), path, files) {
            Some(c) => init.push(c),
            None => init,
        }
    }
}

/// The ids of every list that can be read, in order.
pub open spec fn all_ids(lists: Seq<Seq<char>>, files: FilesView) -> Seq<Seq<char>>
    decreases lists.len(),
{
    if lists.len() == 0 {
        seq![]
    } else {
        let init = all_ids(lists.drop_last(), files);
        match contents_at(files, lists.last()) {
            Some(text) => init + list_ids(text),
            None => init,
        }
    }
}

/// The ids in the lists that were found.
pub fn listed_ids(lists: &[String], files: &[FileAt]) -> (r: Vec<String>)
    ensures
        texts(r@) == all_ids(texts(lists@), files_view(files@)),
{
    let ghost all = texts(lists@);
    let ghost disk = files_view(files@);
    let mut out: Vec<String> = Vec::new();
    let mut i: usize = 0;
    assert(all.take(0) == Seq::<Seq<char>>::empty());
    assert(texts(out@) == Seq::<Seq<char>>::empty());
    while i < lists.len()
        invariant
            i <= lists.len(),
            all == texts(lists@),
            disk == files_view(files@),
            texts(out@) == all_ids(all.take(i as int), disk),
        decreases lists.len() - i,
    {
        assert(all.take(i + 1).drop_last() == all.take(i as int));
        assert(all[i as int] == lists@[i as int]@);
        if let Some(text) = contents_of(files, lists[i].as_str()) {
            let mut ids = parse_terminal_list(text);
            let ghost a = out@;
            let ghost b = ids@;
            out.append(&mut ids);
            assert(out@ == a + b);
            assert(texts(out@) == texts(a) + texts(b));
        }
        i += 1;
    }
    assert(all.take(i as int) == all);
    out
}

fn from_terminal_lists(e: &Surroundings, files: &[FileAt]) -> (r: Vec<Candidate>)
    ensures
        candidate_views(r@) == ids_candidates(
            application_places(e@),
            all_ids(list_files(config_places(e@), desktop_names(e@)), files_view(files@)),
            e@.path,
            files_view(files@),
        ),
{
    let dirs = application_dirs(e);
    let lists = terminal_list_files(e);
    let ids = listed_ids(lists.as_slice(), files);
    let ghost all = texts(ids@);
    let ghost disk = files_view(files@);
    let mut out: Vec<Candidate> = Vec::new();
    let mut i: usize = 0;
    assert(all.take(0) == Seq::<Seq<char>>::empty());
    assert(candidate_views(out@) == Seq::<CandidateView>::empty());
    while i < ids.len()
        invariant
            i <= ids.len(),
            all == texts(ids@),
            disk == files_view(files@),
            texts(dirs@) == application_places(e@),
            candidate_views(out@) == ids_candidates(
                application_places(e@),
                all.take(i as int),
                e@.path,
                disk,
            ),
        decreases ids.len() - i,
    {
        assert(all.take(i + 1).drop_last() == all.take(i as int));
        assert(all[i as int] == ids@[i as int]@);
        if let Some(c) = candidate_for_id(ids[i].as_str(), dirs.as_slice(), &e.path, files) {
            push_candidate(&mut out, c);
        }
        i += 1;
    }
    assert(all.take(i as int) == all);
    out
}

/// Terminals worth trying when nothing has expressed a preference, in order.
pub open spec fn known_terminals() -> Seq<Seq<char>> {
    seq![
        "kitty"@,
        "alacritty"@,
        "foot"@,
        "xfce4-terminal"@,
        "konsole"@,
        "gnome-terminal"@,
        "xterm"@,
    ]
}

fn known_names() -> (r: Vec<String>)
    ensures
        texts(r@) == known_terminals(),
{
    vec![
        "kitty".to_owned(),
        "alacritty".to_owned(),
        "foot".to_owned(),
        "xfce4-terminal".to_owned(),
        "konsole".to_owned(),
        "gnome-terminal".to_owned(),
        "xterm".to_owned(),
    ]
}

/// The programs a choice may depend on whatever the lists say: the known terminals, and the
/// distribution's alternative.
pub fn programs_to_look_for() -> (r: Vec<String>)
    ensures
        texts(r@) == known_terminals().push("x-terminal-emulator"@),
{
    let mut r = known_names();
    let ghost before = texts(r@);
    r.push("x-terminal-emulator".to_owned());
    assert(texts(r@) == before.push("x-terminal-emulator"@));
    r
}

/// Those of the names that can be run.
pub open spec fn runnable(names: Seq<Seq<char>>, path: Option<Seq<char>>, files: FilesView) -> Seq<
    CandidateView,
>
    decreases names.len(),
{
    if names.len() == 0 {
        seq![]
    } else {
        let init = runnable(names.drop_last(), path, files);
        if resolved(path, files, names.last()) is Some {
            init.push(bare(names.last()))
        } else {
            init
        }
    }
}

fn push_runnable(
    out: &mut Vec<Candidate>,
    names: &[String],
    path: &Option<String>,
    files: &[FileAt],
)
    ensures
        candidate_views(final(out)@) == candidate_views(old(out)@) + runnable(
            texts(names@),
            opt_text(*path),
            files_view(files@),
        ),
{
    let ghost before = candidate_views(out@);
    let ghost all = texts(names@);
    let mut i: usize = 0;
    assert(all.take(0) == Seq::<Seq<char>>::empty());
    assert(before == before + Seq::<CandidateView>::empty());
    while i < names.len()
        invariant
            i <= names.len(),
            all == texts(names@),
            candidate_views(out@) == before + runnable(
                all.take(i as int),
                opt_text(*path),
                files_view(files@),
            ),
        decreases names.len() - i,
    {
        let ghost done = candidate_views(out@);
        let ghost some = runnable(all.take(i as int), opt_text(*path), files_view(files@));
        assert(all.take(i + 1).drop_last() == all.take(i as int));
        assert(all[i as int] == names@[i as int]@);
        if resolve(path, files, names[i].as_str()).is_some() {
            push_candidate(out, Candidate::plain(names[i].as_str()));
            assert((before + some).push(bare(all[i as int])) == before + some.push(
                bare(all[i as int]),
            ));
        }
        i += 1;
    }
    assert(all.take(i as int) == all);
}

/// Whether two neighbours are one terminal, neither of which the user asked for by name.
pub open spec fn same_terminal(a: CandidateView, b: CandidateView) -> bool {
    a.program == b.program && !a.explicit && !b.explicit
}

/// A list without repetitions next to each other.
pub open spec fn deduplicated(v: Seq<CandidateView>) -> Seq<CandidateView>
    decreases v.len(),
{
    if v.len() == 0 {
        seq![]
    } else {
        let init = deduplicated(v.drop_last());
        if init.len() > 0 && same_terminal(v.last(), init.last()) {
            init
        } else {
            init.push(v.last())
        }
    }
}

fn deduplicate(v: &Vec<Candidate>) -> (r: Vec<Candidate>)
    ensures
        candidate_views(r@) == deduplicated(candidate_views(v@)),
{
    let ghost all = candidate_views(v@);
    let mut r: Vec<Candidate> = Vec::new();
    let mut i: usize = 0;
    assert(all.take(0) == Seq::<CandidateView>::empty());
    assert(candidate_views(r@) == Seq::<CandidateView>::empty());
    while i < v.len()
        invariant
            i <= v.len(),
            all == candidate_views(v@),
            candidate_views(r@) == deduplicated(all.take(i as int)),
        decreases v.len() - i,
    {
        assert(all.take(i + 1).drop_last() == all.take(i as int));
        assert(all[i as int] == v@[i as int]@);
        assert(candidate_views(r@).len() == r@.len());
        let n: usize = r.len();
        let repeated = if n > 0 {
            assert(candidate_views(r@).last() == r@[n - 1]@);
            str_eq(v[i].program.as_str(), r[n - 1].program.as_str()) && !v[i].explicit
                && !r[n - 1].explicit
        } else {
            false
        };
        if !repeated {
            push_candidate(&mut r, v[i].copy());
        }
        i += 1;
    }
    assert(all.take(i as int) == all);
    r
}

/// The distribution's own alternative, where its target is one that can be sized.
pub open spec fn sized_alternative(
    path: Option<Seq<char>>,
    files: FilesView,
    target: Option<Seq<char>>,
) -> Seq<CandidateView> {
    if resolved(path, files, "x-terminal-emulator"@) is Some && target is Some && size_words(
        program_name(target->0),
        (MIN_WIDTH + 2) as u16,
        (MIN_HEIGHT + 2) as u16,
    ).len() > 0 {
        seq![bare(target->0)]
    } else {
        seq![]
    }
}

/// The terminals to try, best first: what the user said, what the user's desktop recorded, the
/// distribution's alternative where it can be sized, those known by name, and the alternative
/// unsized as a last resort.
pub open spec fn ranking(e: SurroundingsView, files: FilesView, target: Option<Seq<char>>) -> Seq<
    CandidateView,
> {
    (match e.terminal {
        Some(t) => match named_terminal(t) {
            Some(c) => seq![c],
            None => seq![],
        },
        None => seq![],
    }) + ids_candidates(
        application_places(e),
        all_ids(list_files(config_places(e), desktop_names(e)), files),
        e.path,
        files,
    ) + sized_alternative(e.path, files, target) + runnable(known_terminals(), e.path, files)
        + runnable(seq!["x-terminal-emulator"@], e.path, files)
}

/// The terminals to try, best first. `target` is what `x-terminal-emulator`, where it is found,
/// resolves to once its symlinks are followed.
pub fn candidates(e: &Surroundings, files: &[FileAt], target: Option<&str>) -> (r: Vec<Candidate>)
    ensures
        candidate_views(r@) == deduplicated(
            ranking(
                e@,
                files_view(files@),
                match target {
                    Some(t) => Some(t@),
                    None => None,
                },
            ),
        ),
{
    let ghost disk = files_view(files@);
    let mut out: Vec<Candidate> = Vec::new();
    let ghost first: Seq<CandidateView> = match e@.terminal {
        Some(t) => match named_terminal(t) {
            Some(c) => seq![c],
            None => seq![],
        },
        None => seq![],
    };
    assert(candidate_views(out@) == Seq::<CandidateView>::empty());
    if let Some(t) = &e.terminal {
        if let Some(c) = from_env(t.as_str()) {
            push_candidate(&mut out, c);
        }
    }
    assert(candidate_views(out@) == first);
    let mut recorded = from_terminal_lists(e, files);
    let ghost a = out@;
    let ghost b = recorded@;
    out.append(&mut recorded);
    proof {
        assert(out@ == a + b);
        assert(candidate_views(out@) == candidate_views(a) + candidate_views(b));
    }
    let ghost before = candidate_views(out@);
    let (cols, rows) = size();
    if resolve(&e.path, files, "x-terminal-emulator").is_some() {
        if let Some(t) = target {
            let sized = size_args(t, cols, rows);
            assert(texts(sized@).len() == sized@.len());
            if sized.len() > 0 {
                push_candidate(&mut out, Candidate::plain(t));
            }
        }
    }
    assert(candidate_views(out@) == before + sized_alternative(
        e@.path,
        disk,
        match target {
            Some(t) => Some(t@),
            None => None,
        },
    ));
    let known = known_names();
    push_runnable(&mut out, known.as_slice(), &e.path, files);
    let last = vec!["x-terminal-emulator".to_owned()];
    assert(texts(last@) == seq!["x-terminal-emulator"@]);
    push_runnable(&mut out, last.as_slice(), &e.path, files);
    deduplicate(&out)
}

// ---------------------------------------------------------------------------
// Opening one
// ---------------------------------------------------------------------------

/// The words between the size and the command. `X-ExecArg` is authoritative where the table is a
/// guess; present and empty means that the command simply goes last.
pub open spec fn introduction(c: CandidateView) -> Seq<Seq<char>> {
    match c.exec_arg {
        Some(arg) => if arg.len() == 0 {
            seq![]
        } else {
            seq![arg]
        },
        None => match separator_word(program_name(c.program)) {
            Some(sep) => seq![sep],
            None => seq![],
        },
    }
}

/// The full command line. Where the user wrote the invocation, it is only finished: a size after
/// something like `--command` would be taken for the program to run.
pub open spec fn command_line(
    c: CandidateView,
    exe: Seq<char>,
    size_args: Seq<Seq<char>>,
) -> Seq<Seq<char>> {
    if c.user_separator {
        seq![c.program] + c.extra + seq![exe]
    } else {
        seq![c.program] + c.extra + size_args + introduction(c) + seq![exe]
    }
}

fn push_text(v: &mut Vec<String>, s: String)
    ensures
        texts(final(v)@) == texts(old(v)@) + seq![s@],
{
    let ghost before = texts(v@);
    v.push(s);
    assert(texts(v@) == before + seq![s@]);
}

fn push_all(v: &mut Vec<String>, more: &[String])
    ensures
        texts(final(v)@) == texts(old(v)@) + texts(more@),
{
    let mut copy = clone_strings(more);
    let ghost a = v@;
    let ghost b = copy@;
    v.append(&mut copy);
    assert(v@ == a + b);
    assert(texts(v@) == texts(a) + texts(b));
}

/// The full command line. Size arguments go before the separator, which every terminal that has
/// one requires.
pub fn argv(candidate: &Candidate, exe: &str, size_args: &[String]) -> (r: Vec<String>)
    ensures
        texts(r@) == command_line(candidate@, exe@, texts(size_args@)),
{
    let mut r: Vec<String> = vec![candidate.program.clone()];
    assert(texts(r@) == seq![candidate@.program]);
    push_all(&mut r, candidate.extra.as_slice());
    if candidate.user_separator {
        push_text(&mut r, exe.to_owned());
        return r;
    }
    push_all(&mut r, size_args);
    let ghost before = texts(r@);
    match &candidate.exec_arg {
        Some(arg) => {
            if chars_of(arg.as_str()).len() > 0 {
                push_text(&mut r, arg.clone());
            }
        },
        None => {
            if let Some(sep) = separator(candidate.program.as_str()) {
                push_text(&mut r, sep.to_owned());
            }
        },
    }
    assert(texts(r@) == before + introduction(candidate@));
    push_text(&mut r, exe.to_owned());
    r
}

/// What is known of a child that was just started.
#[derive(Debug, Clone, Copy, PartialEq, Eq, Structural)]
pub enum Settled {
    /// It has exited, and says that all went well.
    Finished,
    /// It has exited with a failure: whatever it was, it is no window.
    Died,
    /// It is still alive after the settle time, so it is a real window.
    Window,
    /// Too early to tell.
    Wait,
}

/// What to make of a child, from whether it has exited and how. A terminal that dislikes a flag
/// starts, complains and exits *afterwards*, so the start alone proves nothing.
pub fn spawn_checked(exited: Option<bool>, now: u64, deadline: u64) -> (r: Settled)
    ensures
        r == (match exited {
            Some(true) => Settled::Finished,
            Some(false) => Settled::Died,
            None => if now >= deadline {
                Settled::Window
            } else {
                Settled::Wait
            },
        }),
{
    match exited {
        Some(success) => {
            if success {
                Settled::Finished
            } else {
                Settled::Died
            }
        },
        None => {
            if now >= deadline {
                Settled::Window
            } else {
                Settled::Wait
            }
        },
    }
}

/// The size arguments a candidate is first tried with: none where the user wrote the invocation.
pub open spec fn first_size(c: CandidateView) -> Seq<Seq<char>> {
    if c.user_separator {
        seq![]
    } else {
        size_words(program_name(c.program), (MIN_WIDTH + 2) as u16, (MIN_HEIGHT + 2) as u16)
    }
}

fn first_size_of(c: &Candidate) -> (r: Vec<String>)
    ensures
        texts(r@) == first_size(c@),
{
    if c.user_separator {
        let none: Vec<String> = Vec::new();
        assert(texts(none@) == Seq::<Seq<char>>::empty());
        none
    } else {
        let (cols, rows) = size();
        size_args(c.program.as_str(), cols, rows)
    }
}

/// How far the search for a terminal that opens has come.
pub struct Opening {
    candidates: Vec<Candidate>,
    at: usize,
    /// The candidate at hand has died on its size arguments, and is tried again without them.
    retry: bool,
    /// The terminal the user asked for, if it failed.
    refused: Option<String>,
}

pub struct OpeningView {
    pub candidates: Seq<CandidateView>,
    pub at: nat,
    pub retry: bool,
    pub refused: Option<Seq<char>>,
}

impl View for Opening {
    type V = OpeningView;

    closed spec fn view(&self) -> OpeningView {
        OpeningView {
            candidates: candidate_views(self.candidates@),
            at: self.at as nat,
            retry: self.retry,
            refused: opt_text(self.refused),
        }
    }
}

/// What to do next.
#[derive(Debug, PartialEq, Eq)]
pub enum OpenStep {
    /// Start this command line, and see whether it settles.
    Spawn(Vec<String>),
    /// It is open, with something the user should be told.
    Opened(Option<String>),
    /// Nothing opened.
    Failed,
}

impl OpeningView {
    pub open spec fn wf(self) -> bool {
        self.at <= self.candidates.len()
    }

    /// The command line to try now.
    pub open spec fn attempt(self, exe: Seq<char>) -> Seq<Seq<char>> {
        let c = self.candidates[self.at as int];
        command_line(
            c,
            exe,
            if self.retry {
                seq![]
            } else {
                first_size(c)
            },
        )
    }

    /// After an attempt that failed. A candidate that was sent size arguments is tried once more
    /// without them; one that was sent none is not, since that would be the same command twice.
    pub open spec fn failed(self) -> OpeningView {
        let c = self.candidates[self.at as int];
        if !self.retry && first_size(c).len() > 0 {
            OpeningView { retry: true, ..self }
        } else {
            OpeningView {
                at: self.at + 1,
                retry: false,
                refused: if c.explicit {
                    Some(c.program)
                } else {
                    self.refused
                },
                ..self
            }
        }
    }

    /// What the user is told once a terminal is open: one asked for by name must not be silently
    /// overridden.
    pub open spec fn note(self) -> Option<Seq<char>> {
        match self.refused {
            Some(failed) => Some(
                "$TERMINAL ("@ + failed + ") failed; opened "@
                    + self.candidates[self.at as int].program + " instead"@,
            ),
            None => None,
        }
    }
}

impl Opening {
    pub fn begin(candidates: Vec<Candidate>) -> (r: Opening)
        ensures
            r@.wf(),
            r@ == (OpeningView {
                candidates: candidate_views(candidates@),
                at: 0,
                retry: false,
                refused: None,
            }),
    {
        Opening { candidates, at: 0, retry: false, refused: None }
    }

    /// One step: take in whether the last attempt opened a window, if there was one, and say what
    /// to do next.
    pub fn open(&mut self, exe: &str, result: Option<bool>) -> (r: OpenStep)
        requires
            old(self)@.wf(),
            result is Some ==> old(self)@.at < old(self)@.candidates.len(),
        ensures
            final(self)@.wf(),
            result == Some(true) ==> final(self)@ == old(self)@ && (r matches OpenStep::Opened(note)
                && opt_text(note) == old(self)@.note()),
            result != Some(true) ==> {
                &&& final(self)@ == if result is Some {
                    old(self)@.failed()
                } else {
                    old(self)@
                }
                &&& if final(self)@.at < final(self)@.candidates.len() {
                    r matches OpenStep::Spawn(args) && texts(args@) == final(self)@.attempt(exe@)
                } else {
                    r is Failed
                }
            },
    {
        assert(self@.candidates.len() == self.candidates@.len());
        let end: usize = self.candidates.len();
        if let Some(ok) = result {
            let c = &self.candidates[self.at];
            assert(self@.candidates[self.at as int] == c@);
            if ok {
                let note = match &self.refused {
                    Some(failed) => Some(
                        "$TERMINAL (".to_owned().concat(failed.as_str()).concat(
                            ") failed; opened ",
                        ).concat(c.program.as_str()).concat(" instead"),
                    ),
                    None => None,
                };
                return OpenStep::Opened(note);
            }
            let sized = first_size_of(c);
            assert(texts(sized@).len() == sized@.len());
            if !self.retry && sized.len() > 0 {
                self.retry = true;
            } else {
                if c.explicit {
                    self.refused = Some(c.program.clone());
                }
                self.at = self.at + 1;
                self.retry = false;
            }
        }
        assert(self@.candidates.len() == self.candidates@.len());
        if self.at >= self.candidates.len() {
            return OpenStep::Failed;
        }
        let c = &self.candidates[self.at];
        assert(self@.candidates[self.at as int] == c@);
        if self.retry {
            let none: Vec<String> = Vec::new();
            assert(texts(none@) == Seq::<Seq<char>>::empty());
            OpenStep::Spawn(argv(c, exe, none.as_slice()))
        } else {
            let sized = first_size_of(c);
            OpenStep::Spawn(argv(c, exe, sized.as_slice()))
        }
    }
}

/// No command is ever tried twice over: a retry differs from what failed before it, and after it
/// the search moves on.
pub proof fn a_retry_is_another_command(o: OpeningView, exe: Seq<char>)
    requires
        o.at < o.candidates.len(),
        !o.retry,
    ensures
        o.failed().at == o.at ==> o.failed().attempt(exe).len() < o.attempt(exe).len(),
        o.failed().at == o.at || o.failed().at == o.at + 1,
        o.failed().failed().at > o.at,
{
}

/// A terminal the user asked for by name is not passed over in silence.
pub proof fn a_refused_choice_is_named(o: OpeningView)
    requires
        o.at + 1 < o.candidates.len(),
        o.candidates[o.at as int].explicit,
        o.failed().at == o.at + 1,
    ensures
        o.failed().note() is Some,
{
}

/// Whatever the size arguments are, the last word of a command line is the program to run, and the
/// first is the terminal.
pub proof fn the_command_comes_last(c: CandidateView, exe: Seq<char>, size: Seq<Seq<char>>)
    ensures
        command_line(c, exe, size).last() == exe,
        command_line(c, exe, size)[0] == c.program,
{
}

/// What the user asked for by name, where it names a program at all, is tried first.
pub proof fn a_named_terminal_comes_first(
    e: SurroundingsView,
    files: FilesView,
    target: Option<Seq<char>>,
)
    requires
        e.terminal is Some,
        named_terminal(e.terminal->0) is Some,
    ensures
        deduplicated(ranking(e, files, target)).len() > 0,
        Some(deduplicated(ranking(e, files, target))[0]) == named_terminal(e.terminal->0),
{
    let v = ranking(e, files, target);
    assert(v[0] == named_terminal(e.terminal->0)->0);
    lemma_first_stays(v);
}

proof fn lemma_first_stays(v: Seq<CandidateView>)
    requires
        v.len() > 0,
    ensures
        deduplicated(v).len() > 0,
        deduplicated(v)[0] == v[0],
    decreases v.len(),
{
    if v.len() == 1 {
        assert(v.drop_last() == Seq::<CandidateView>::empty());
        assert(deduplicated(v.drop_last()) == Seq::<CandidateView>::empty());
    } else {
        lemma_first_stays(v.drop_last());
    }
}

/// How a search for a terminal ends, where `lasts` says of each candidate, by its place, whether a
/// window stays open when it is tried with its size arguments (`false`) or once more without
/// them (`true`): with the state in which a window opened, or with none.
pub open spec fn opening_end(
    o: OpeningView,
    lasts: spec_fn(int, bool) -> bool,
) -> Option<OpeningView>
    decreases
            o.candidates.len() - o.at,
            if o.retry {
                0int
            } else {
                1int
            },
{
    if o.at >= o.candidates.len() {
        None
    } else if lasts(o.at as int, o.retry) {
        Some(o)
    } else {
        opening_end(o.failed(), lasts)
    }
}

/// Whether a candidate opens a window that stays, at the first try or at the second, where there is
/// a second.
pub open spec fn candidate_lasts(
    candidates: Seq<CandidateView>,
    lasts: spec_fn(int, bool) -> bool,
    i: int,
) -> bool {
    lasts(i, false) || (first_size(candidates[i]).len() > 0 && lasts(i, true))
}

/// The candidate the user asked for that failed last before `at`.
spec fn refused_before(candidates: Seq<CandidateView>, at: int) -> Option<Seq<char>>
    decreases at,
{
    if at <= 0 {
        None
    } else if candidates[at - 1].explicit {
        Some(candidates[at - 1].program)
    } else {
        refused_before(candidates, at - 1)
    }
}

proof fn lemma_refused_before(candidates: Seq<CandidateView>, at: int)
    requires
        0 <= at <= candidates.len(),
    ensures
        refused_before(candidates, at) is Some <==> exists|j: int|
            0 <= j < at && (#[trigger] candidates[j]).explicit,
    decreases at,
{
    if at > 0 {
        lemma_refused_before(candidates, at - 1);
        if candidates[at - 1].explicit {
            assert(candidates[at - 1].explicit);
        }
    }
}

proof fn lemma_opening_end(o: OpeningView, lasts: spec_fn(int, bool) -> bool)
    requires
        o.wf(),
        o.refused == refused_before(o.candidates, o.at as int),
        forall|j: int| 0 <= j < o.at ==> !#[trigger] candidate_lasts(o.candidates, lasts, j),
        o.retry ==> o.at < o.candidates.len() && first_size(o.candidates[o.at as int]).len() > 0
            && !lasts(o.at as int, false),
    ensures
        match opening_end(o, lasts) {
            None => forall|j: int|
                0 <= j < o.candidates.len() ==> !#[trigger] candidate_lasts(
                    o.candidates,
                    lasts,
                    j,
                ),
            Some(end) => {
                &&& end.candidates == o.candidates
                &&& end.at < o.candidates.len()
                &&& lasts(end.at as int, end.retry)
                &&& candidate_lasts(o.candidates, lasts, end.at as int)
                &&& forall|j: int|
                    0 <= j < end.at ==> !#[trigger] candidate_lasts(o.candidates, lasts, j)
                &&& end.refused == refused_before(o.candidates, end.at as int)
            },
        },
    decreases
            o.candidates.len() - o.at,
            if o.retry {
                0int
            } else {
                1int
            },
{
    if o.at < o.candidates.len() && !lasts(o.at as int, o.retry) {
        let next = o.failed();
        if next.at == o.at + 1 {
            assert(!candidate_lasts(o.candidates, lasts, o.at as int));
        }
        lemma_opening_end(next, lasts);
    }
}

/// Opening a terminal fails exactly when no candidate lasts. Otherwise it is the first that lasts
/// that opens, and the user is told of it exactly when one asked for by name failed before it.
pub proof fn the_first_that_lasts_is_opened(
    candidates: Seq<CandidateView>,
    lasts: spec_fn(int, bool) -> bool,
)
    ensures
        ({
            let begun = OpeningView { candidates, at: 0, retry: false, refused: None };
            match opening_end(begun, lasts) {
                None => forall|j: int|
                    0 <= j < candidates.len() ==> !#[trigger] candidate_lasts(
                        candidates,
                        lasts,
                        j,
                    ),
                Some(end) => {
                    &&& end.candidates == candidates
                    &&& end.at < candidates.len()
                    &&& lasts(end.at as int, end.retry)
                    &&& candidate_lasts(candidates, lasts, end.at as int)
                    &&& forall|j: int|
                        0 <= j < end.at ==> !#[trigger] candidate_lasts(candidates, lasts, j)
                    &&& end.note() is Some <==> exists|j: int|
                        0 <= j < end.at && (#[trigger] candidates[j]).explicit
                },
            }
        }),
{
    let begun = OpeningView { candidates, at: 0, retry: false, refused: None };
    lemma_opening_end(begun, lasts);
    if let Some(end) = opening_end(begun, lasts) {
        lemma_refused_before(candidates, end.at as int);
    }
}

} // verus!
