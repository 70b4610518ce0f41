//! The systemd user units: what they say, what can be read back out of them, and who owns the
//! port they are meant to own.

use crate::adb::{parse_ss_pid, ss_pid, MdnsSupport, DEFAULT_PORT};
use crate::num::{
    decimal, decimal_of, lemma_decimal_digits, lemma_port_round_trip, parse_port, parse_word,
    port_number, word_number,
};
use crate::path::{
    join as join_path, joined, lemma_parent_prefix, names, parent, parent_of, path_has_name,
};
use crate::text::{
    any_in, chars_of, chomp, find_map, has_any, has_prefix, is_space, is_text, join, join_strings,
    last_index, lemma_find, lemma_find_is, lemma_find_map, lemma_first_word, lemma_last_index,
    lemma_lines_of_text, lemma_no_match, lemma_scan, lemma_trim_same, lines, lines_of, matches_at,
    opt_text, rsplit_at, scan, scan_for, slices, split_at_text, split_once, starts_with, str_eq,
    string_of, strip_prefix, text_of_lines, texts, trim, trim_end, trimmed, without_prefix, words,
    words_of, write_lines, Class,
};
use vstd::prelude::*;
use vstd::slice::slice_subrange;

verus! {

pub const UNIT_NAME: &'static str = "wadb.service";

pub const CONNECT_UNIT_NAME: &'static str = "wadb-connect.service";

/// `RestartSteps` and `RestartMaxDelaySec` need systemd 254. A lower version gets a plain fixed
/// interval instead of a refusal: a coarser backoff is a far better outcome than no supervision
/// at all.
pub const BACKOFF_MIN_SYSTEMD: u32 = 254;

/// The second word, up to the first `.`, `-` or `~`, as a number.
pub open spec fn systemd_number(text: Seq<char>) -> Option<nat> {
    let w = words(text);
    if w.len() > 1 {
        word_number(w[1].take(scan(w[1], 0, Class::AnyOf('.', '-', '~'))))
    } else {
        None
    }
}

pub fn parse_systemd_version(text: &str) -> (r: Option<u32>)
    ensures
        match r {
            Some(v) => systemd_number(text@) == Some(v as nat),
            None => systemd_number(text@) is None,
        },
{
    let s = chars_of(text);
    let w = words_of(s.as_slice());
    assert(slices(w@).len() == w@.len());
    if w.len() < 2 {
        return None;
    }
    assert(w@[1]@ == words(text@)[1]);
    let n: usize = scan_for(w[1], 0, Class::AnyOf('.', '-', '~'));
    let head = slice_subrange(w[1], 0, n);
    assert(head@ == w@[1]@.take(n as int));
    parse_word(head)
}

// ---------------------------------------------------------------------------
// Quoting
// ---------------------------------------------------------------------------

/// Every double quote with a backslash before it and, where asked, every backslash too.
pub open spec fn escaped(s: Seq<char>, backslashes: bool) -> Seq<char>
    decreases s.len(),
{
    if s.len() == 0 {
        seq![]
    } else {
        let c = s.last();
        let init = escaped(s.drop_last(), backslashes);
        if c == '"' || (backslashes && c == '\\') {
            init.push('\\').push(c)
        } else {
            init.push(c)
        }
    }
}

fn escape(s: &[char], backslashes: bool) -> (r: String)
    ensures
        r@ == escaped(s@, backslashes),
{
    let mut r: Vec<char> = Vec::new();
    let mut i: usize = 0;
    while i < s.len()
        invariant
            i <= s.len(),
            r@ == escaped(s@.take(i as int), backslashes),
        decreases s.len() - i,
    {
        assert(s@.take(i + 1).drop_last() == s@.take(i as int));
        let c: char = s[i];
        if c == '"' || (backslashes && c == '\\') {
            r.push('\\');
        }
        r.push(c);
        i += 1;
    }
    assert(s@.take(i as int) == s@);
    string_of(r.as_slice())
}

/// Whether a directive's value has to stand in quotes.
pub open spec fn value_needs_quotes(s: Seq<char>) -> bool {
    any_in(s, Class::Space) || any_in(s, Class::Is('"')) || any_in(s, Class::Is('\\'))
}

/// Whether a path has to stand in quotes on a command line. systemd also treats quotes,
/// backslashes and specifiers specially.
pub open spec fn exec_needs_quotes(s: Seq<char>) -> bool {
    value_needs_quotes(s) || any_in(s, Class::AnyOf('\'', '$', '%'))
}

pub open spec fn quoted_value(s: Seq<char>) -> Seq<char> {
    if value_needs_quotes(s) {
        "\""@ + escaped(s, true) + "\""@
    } else {
        s
    }
}

pub open spec fn quoted_exec(s: Seq<char>) -> Seq<char> {
    if exec_needs_quotes(s) {
        "\""@ + escaped(s, false) + "\""@
    } else {
        s
    }
}

fn needs_quotes(s: &[char]) -> (r: bool)
    ensures
        r == value_needs_quotes(s@),
{
    has_any(s, Class::Space) || has_any(s, Class::Is('"')) || has_any(s, Class::Is('\\'))
}

/// Quote a systemd directive *value* (not a command line) when it needs it.
pub fn quote_value(path: &str) -> (r: String)
    ensures
        r@ == quoted_value(path@),
{
    let s = chars_of(path);
    if needs_quotes(s.as_slice()) {
        "\"".to_owned().concat(escape(s.as_slice(), true).as_str()).concat("\"")
    } else {
        path.to_owned()
    }
}

/// systemd command lines are not shell: quote only when the path needs it, and never with
/// `systemd-escape`, which is for unit *names*.
pub fn quote_exec(path: &str) -> (r: String)
    ensures
        r@ == quoted_exec(path@),
{
    let s = chars_of(path);
    if needs_quotes(s.as_slice()) || has_any(s.as_slice(), Class::AnyOf('\'', '$', '%')) {
        "\"".to_owned().concat(escape(s.as_slice(), false).as_str()).concat("\"")
    } else {
        path.to_owned()
    }
}

proof fn lemma_escaped_apart(a: Seq<char>, b: Seq<char>, backslashes: bool)
    requires
        escaped(a, backslashes) == escaped(b, backslashes),
    ensures
        a == b,
    decreases a.len() + b.len(),
{
    let e = escaped(a, backslashes);
    if a.len() > 0 && b.len() > 0 {
        assert(e.last() == a.last() && e.last() == b.last());
        let ea = escaped(a.drop_last(), backslashes);
        let eb = escaped(b.drop_last(), backslashes);
        assert(ea.len() == eb.len());
        assert(ea == e.take(ea.len() as int));
        assert(eb == e.take(eb.len() as int));
        lemma_escaped_apart(a.drop_last(), b.drop_last(), backslashes);
        assert(a.drop_last().push(a.last()) == a);
        assert(b.drop_last().push(b.last()) == b);
    } else {
        assert(a.len() == 0 <==> e.len() == 0);
        assert(b.len() == 0 <==> escaped(b, backslashes).len() == 0);
        assert(a == b);
    }
}

/// Quoting loses nothing: what was quoted can be told from how it came out, both as a value and on
/// a command line.
pub proof fn quoting_loses_nothing(a: Seq<char>, b: Seq<char>)
    ensures
        quoted_value(a) == quoted_value(b) ==> a == b,
        quoted_exec(a) == quoted_exec(b) ==> a == b,
{
    reveal_strlit("\"");
    lemma_quoted_apart(a, b, true, value_needs_quotes(a), value_needs_quotes(b));
    lemma_quoted_apart(a, b, false, exec_needs_quotes(a), exec_needs_quotes(b));
}

/// A text in quotes, where it is put in quotes.
spec fn in_quotes(s: Seq<char>, backslashes: bool, quoted: bool) -> Seq<char> {
    if quoted {
        "\""@ + escaped(s, backslashes) + "\""@
    } else {
        s
    }
}

proof fn lemma_quoted_apart(a: Seq<char>, b: Seq<char>, backslashes: bool, qa: bool, qb: bool)
    requires
        value_needs_quotes(a) ==> qa,
        value_needs_quotes(b) ==> qb,
    ensures
        in_quotes(a, backslashes, qa) == in_quotes(b, backslashes, qb) ==> a == b,
{
    reveal_strlit("\"");
    let u = in_quotes(a, backslashes, qa);
    let v = in_quotes(b, backslashes, qb);
    if u == v {
        if qa && qb {
            let ea = escaped(a, backslashes);
            let eb = escaped(b, backslashes);
            assert(u.len() == ea.len() + 2 && v.len() == eb.len() + 2);
            assert(ea == u.subrange(1, u.len() - 1));
            assert(eb == v.subrange(1, v.len() - 1));
            lemma_escaped_apart(a, b, backslashes);
        } else if qa {
            assert(v == b && b[0] == u[0] && u[0] == '"');
            assert(Class::Is('"').has(b[0]));
        } else if qb {
            assert(u == a && a[0] == v[0] && v[0] == '"');
            assert(Class::Is('"').has(a[0]));
        }
    }
}

// ---------------------------------------------------------------------------
// The units
// ---------------------------------------------------------------------------

pub struct UnitSpec {
    pub adb: String,
    pub port: u16,
    pub systemd: Option<u32>,
}

/// The directory a binary stands in.
pub open spec fn directory(p: Seq<char>) -> Seq<char> {
    match parent(p) {
        Some(d) => d,
        None => "/"@,
    }
}

fn directory_of(p: &str) -> (r: String)
    ensures
        r@ == directory(p@),
{
    match parent_of(p) {
        Some(d) => d,
        None => "/".to_owned(),
    }
}

/// A port other than the default has to be requested, without a hostname: adb aborts on one.
pub open spec fn listen_option(port: u16) -> Seq<char> {
    if port == DEFAULT_PORT {
        ""@
    } else {
        " -L tcp:"@ + decimal(port as nat)
    }
}

/// The line that runs the server.
pub open spec fn exec_start(adb: Seq<char>, port: u16) -> Seq<char> {
    "ExecStart="@ + quoted_exec(adb) + listen_option(port) + " nodaemon server"@
}

/// Older systemd would fail to load a unit outright on unknown keys.
pub open spec fn backoff_lines(systemd: Option<u32>) -> Seq<Seq<char>> {
    if systemd matches Some(v) && v >= BACKOFF_MIN_SYSTEMD {
        seq!["RestartSec=1s"@, "RestartSteps=5"@, "RestartMaxDelaySec=30s"@]
    } else {
        seq!["RestartSec=5s"@]
    }
}

pub open spec fn unit_head(adb: Seq<char>) -> Seq<Seq<char>> {
    seq![
        "[Unit]"@,
        "Description=Keep the ADB server running for wireless debugging (wadb)"@,
        "Documentation=https://github.com/hamen/wadb"@,
        "# Never latch into `failed`: giving up permanently would end supervision silently,"@,
        "# which is the exact state this unit exists to prevent."@,
        "StartLimitIntervalSec=0"@,
        "# The adb binary can live on a separate mount that is not ready when a lingering"@,
        "# user manager starts."@,
        "RequiresMountsFor="@ + quoted_value(directory(adb)),
        ""@,
        "[Service]"@,
        "Type=simple"@,
    ]
}

pub open spec fn unit_tail() -> Seq<Seq<char>> {
    seq![
        "# adb abort()s when its listen socket is taken, so every lost restart race would"@,
        "# otherwise write a core dump."@,
        "LimitCORE=0"@,
        ""@,
        "[Install]"@,
        "WantedBy=default.target"@,
    ]
}

/// The lines of the unit that supervises the server.
pub open spec fn unit_lines(adb: Seq<char>, port: u16, systemd: Option<u32>) -> Seq<Seq<char>> {
    unit_head(adb) + seq![exec_start(adb, port), "Restart=always"@] + backoff_lines(systemd)
        + unit_tail()
}

pub fn render_unit(spec: &UnitSpec) -> (r: String)
    ensures
        r@ == text_of_lines(unit_lines(spec.adb@, spec.port, spec.systemd)),
{
    let exec = quote_exec(spec.adb.as_str());
    let listen = if spec.port == DEFAULT_PORT {
        "".to_owned()
    } else {
        " -L tcp:".to_owned().concat(decimal_of(spec.port as u64).as_str())
    };
    let mount_dir = quote_value(directory_of(spec.adb.as_str()).as_str());
    let mut v: Vec<String> = vec![
        "[Unit]".to_owned(),
        "Description=Keep the ADB server running for wireless debugging (wadb)".to_owned(),
        "Documentation=https://github.com/hamen/wadb".to_owned(),
        "# Never latch into `failed`: giving up permanently would end supervision silently,".to_owned(),
        "# which is the exact state this unit exists to prevent.".to_owned(),
        "StartLimitIntervalSec=0".to_owned(),
        "# The adb binary can live on a separate mount that is not ready when a lingering".to_owned(),
        "# user manager starts.".to_owned(),
        "RequiresMountsFor=".to_owned().concat(mount_dir.as_str()),
        "".to_owned(),
        "[Service]".to_owned(),
        "Type=simple".to_owned(),
    ];
    assert(texts(v@) == unit_head(spec.adb@));
    let start = "ExecStart=".to_owned().concat(exec.as_str()).concat(listen.as_str()).concat(
        " nodaemon server",
    );
    let ghost before = v@;
    let mut more: Vec<String> = vec![start, "Restart=always".to_owned()];
    let ghost added = more@;
    v.append(&mut more);
    proof {
        assert(v@ == before + added);
        assert(texts(v@) == texts(before) + texts(added));
        assert(texts(added) == seq![exec_start(spec.adb@, spec.port), "Restart=always"@]);
    }
    let full = match spec.systemd {
        Some(n) => n >= BACKOFF_MIN_SYSTEMD,
        None => false,
    };
    let mut backoff: Vec<String> = if full {
        vec![
            "RestartSec=1s".to_owned(),
            "RestartSteps=5".to_owned(),
            "RestartMaxDelaySec=30s".to_owned(),
        ]
    } else {
        vec!["RestartSec=5s".to_owned()]
    };
    let ghost before = v@;
    let ghost added = backoff@;
    assert(texts(added) == backoff_lines(spec.systemd));
    v.append(&mut backoff);
    proof {
        assert(v@ == before + added);
        assert(texts(v@) == texts(before) + texts(added));
    }
    let mut tail: Vec<String> = vec![
        "# adb abort()s when its listen socket is taken, so every lost restart race would".to_owned(),
        "# otherwise write a core dump.".to_owned(),
        "LimitCORE=0".to_owned(),
        "".to_owned(),
        "[Install]".to_owned(),
        "WantedBy=default.target".to_owned(),
    ];
    let ghost before = v@;
    let ghost added = tail@;
    assert(texts(added) == unit_tail());
    v.append(&mut tail);
    proof {
        assert(v@ == before + added);
        assert(texts(v@) == texts(before) + texts(added));
    }
    write_lines(v.as_slice())
}

/// The lines of the watcher's unit.
///
/// It is deliberately not bound to the server's unit: `adb kill-server` restarts that unit, and a
/// bound one is stopped on a restart without being started again, which would kill the watcher at
/// precisely the moment its whole job begins.
pub open spec fn connect_unit_lines(wadb: Seq<char>, port: u16) -> Seq<Seq<char>> {
    seq![
        "[Unit]"@,
        "Description=Reconnect wireless ADB devices that adb's own mDNS cannot find (wadb)"@,
        "Documentation=https://github.com/hamen/wadb"@,
        "Wants=wadb.service"@,
        "After=wadb.service"@,
        "StartLimitIntervalSec=0"@,
        "RequiresMountsFor="@ + quoted_value(directory(wadb)),
        ""@,
        "[Service]"@,
        "Type=simple"@,
        "# The watcher reaches the server over its smart socket and never runs adb, so only the port"@,
        "# matters here. ExecStart is absolute: a --user unit inherits no PATH that would find it."@,
        "Environment=ANDROID_ADB_SERVER_PORT="@ + decimal(port as nat),
        "ExecStart="@ + quoted_exec(wadb) + " daemon"@,
        "Restart=always"@,
        "RestartSec=5s"@,
        ""@,
        "[Install]"@,
        "WantedBy=default.target"@,
    ]
}

pub fn render_connect_unit(wadb: &str, port: u16) -> (r: String)
    ensures
        r@ == text_of_lines(connect_unit_lines(wadb@, port)),
{
    let exec = quote_exec(wadb);
    let mount_dir = quote_value(directory_of(wadb).as_str());
    let v: Vec<String> = vec![
        "[Unit]".to_owned(),
        "Description=Reconnect wireless ADB devices that adb's own mDNS cannot find (wadb)".to_owned(),
        "Documentation=https://github.com/hamen/wadb".to_owned(),
        "Wants=wadb.service".to_owned(),
        "After=wadb.service".to_owned(),
        "StartLimitIntervalSec=0".to_owned(),
        "RequiresMountsFor=".to_owned().concat(mount_dir.as_str()),
        "".to_owned(),
        "[Service]".to_owned(),
        "Type=simple".to_owned(),
        "# The watcher reaches the server over its smart socket and never runs adb, so only the port".to_owned(),
        "# matters here. ExecStart is absolute: a --user unit inherits no PATH that would find it.".to_owned(),
        "Environment=ANDROID_ADB_SERVER_PORT=".to_owned().concat(decimal_of(port as u64).as_str()),
        "ExecStart=".to_owned().concat(exec.as_str()).concat(" daemon"),
        "Restart=always".to_owned(),
        "RestartSec=5s".to_owned(),
        "".to_owned(),
        "[Install]".to_owned(),
        "WantedBy=default.target".to_owned(),
    ];
    assert(texts(v@) == connect_unit_lines(wadb@, port));
    write_lines(v.as_slice())
}

// ---------------------------------------------------------------------------
// Reading a unit
// ---------------------------------------------------------------------------

/// The line of a unit that runs its program.
pub open spec fn exec_line(unit: Seq<char>) -> Option<Seq<char>> {
    find_map(
        lines(unit),
        |l: Seq<char>|
            if starts_with(l, "ExecStart="@) {
                Some(l)
            } else {
                None
            },
    )
}

fn exec_line_of<'a>(unit: &'a [char]) -> (r: Option<&'a [char]>)
    ensures
        match r {
            Some(l) => exec_line(unit@) == Some(l@) && starts_with(l@, "ExecStart="@),
            None => exec_line(unit@) is None,
        },
{
    let ls = lines_of(unit);
    let ghost all = lines(unit@);
    let ghost f = |l: Seq<char>|
        if starts_with(l, "ExecStart="@) {
            Some(l)
        } else {
            None
        };
    let mut i: usize = 0;
    while i < ls.len()
        invariant
            i <= ls.len(),
            slices(ls@) == all,
            all == lines(unit@),
            f == (|l: Seq<char>|
                if starts_with(l, "ExecStart="@) {
                    Some(l)
                } else {
                    None
                }),
            forall|j: int| 0 <= j < i ==> f(#[trigger] all[j]) is None,
        decreases ls.len() - i,
    {
        assert(ls@[i as int]@ == all[i as int]);
        if has_prefix(ls[i], "ExecStart=") {
            proof {
                assert(f(all[i as int]) == Some(all[i as int]));
                lemma_find_map(all, f, i as int);
            }
            return Some(ls[i]);
        }
        i += 1;
    }
    proof {
        lemma_find_map(all, f, i as int);
    }
    None
}

/// The first double quote from `i` on that no backslash precedes, or the length.
pub open spec fn closing_quote(s: Seq<char>, i: int) -> int
    decreases s.len() - i,
{
    if i < 0 || i >= s.len() {
        s.len() as int
    } else if s[i] == '"' && (i == 0 || s[i - 1] != '\\') {
        i
    } else {
        closing_quote(s, i + 1)
    }
}

/// Where a path ends that began with a quote: at the first quote that is not escaped. A path may
/// itself end in a backslash, so where every quote looks escaped the last one is the end.
pub open spec fn quoted_end(inner: Seq<char>) -> int {
    let n = closing_quote(inner, 0);
    let last = last_index(inner, '"');
    if n < inner.len() {
        n
    } else if last >= 0 {
        last
    } else {
        inner.len() as int
    }
}

/// Every escaped double quote without its backslash.
pub open spec fn unescaped(s: Seq<char>) -> Seq<char>
    decreases s.len(),
{
    if s.len() == 0 {
        seq![]
    } else if s.len() > 1 && s.last() == '"' && s[s.len() - 2] == '\\' {
        unescaped(s.take(s.len() - 2)).push('"')
    } else {
        unescaped(s.drop_last()).push(s.last())
    }
}

fn closing_quote_of(s: &[char]) -> (r: usize)
    ensures
        r == closing_quote(s@, 0),
        r <= s@.len(),
{
    let mut i: usize = 0;
    while i < s.len()
        invariant
            i <= s.len(),
            closing_quote(s@, 0) == closing_quote(s@, i as int),
        decreases s.len() - i,
    {
        if s[i] == '"' && (i == 0 || s[i - 1] != '\\') {
            return i;
        }
        i += 1;
    }
    i
}

fn quoted_end_of(inner: &[char]) -> (r: usize)
    ensures
        r == quoted_end(inner@),
        r <= inner@.len(),
{
    let n: usize = closing_quote_of(inner);
    if n < inner.len() {
        return n;
    }
    proof {
        lemma_last_index(inner@, '"');
    }
    match rsplit_at(inner, '"') {
        Some((before, _)) => before.len(),
        None => inner.len(),
    }
}

fn unescape(s: &[char]) -> (r: String)
    ensures
        r@ == unescaped(s@),
{
    let end: usize = s.len();
    let mut r: Vec<char> = Vec::new();
    let mut i: usize = 0;
    while i < end
        invariant
            i <= end == s@.len(),
            r@ == unescaped(s@.take(i as int)),
            0 < i < end && s@[i as int] == '"' ==> s@[i - 1] != '\\',
        decreases end - i,
    {
        if s[i] == '\\' && end - i > 1 && s[i + 1] == '"' {
            assert(s@.take(i + 2).take(i as int) == s@.take(i as int));
            r.push('"');
            i += 2;
        } else {
            assert(s@.take(i + 1).drop_last() == s@.take(i as int));
            r.push(s[i]);
            i += 1;
        }
    }
    assert(s@.take(i as int) == s@);
    string_of(r.as_slice())
}

/// The program a command line runs: what stands in quotes at its start, or else its first word.
pub open spec fn program_of(rest: Seq<char>) -> Option<Seq<char>> {
    if rest.len() > 0 && rest[0] == '"' {
        let inner = rest.skip(1);
        Some(unescaped(inner.take(quoted_end(inner))))
    } else {
        let w = words(rest);
        if w.len() > 0 {
            Some(w[0])
        } else {
            None
        }
    }
}

/// The adb binary a unit runs.
pub open spec fn unit_adb(unit: Seq<char>) -> Option<Seq<char>> {
    match exec_line(unit) {
        Some(l) => match strip_prefix(l, "ExecStart="@) {
            Some(rest) => program_of(trim(rest)),
            None => None,
        },
        None => None,
    }
}

/// The adb binary baked into the installed unit. `status` must re-validate *that* binary, not
/// whatever the resolver would pick today. With no unit installed there is none.
pub fn installed_adb(unit: Option<&str>) -> (r: Option<String>)
    ensures
        match unit {
            Some(text) => opt_text(r) == unit_adb(text@),
            None => r is None,
        },
{
    let s = match unit {
        Some(text) => chars_of(text),
        None => return None,
    };
    let line = match exec_line_of(s.as_slice()) {
        Some(l) => l,
        None => return None,
    };
    let rest = match without_prefix(line, "ExecStart=") {
        Some(rest) => trimmed(rest),
        None => return None,
    };
    if rest.len() > 0 && rest[0] == '"' {
        let inner = slice_subrange(rest, 1, rest.len());
        assert(inner@ == rest@.skip(1));
        let n: usize = quoted_end_of(inner);
        let path = slice_subrange(inner, 0, n);
        assert(path@ == inner@.take(n as int));
        Some(unescape(path))
    } else {
        let w = words_of(rest);
        assert(slices(w@).len() == w@.len());
        if w.len() > 0 {
            assert(w@[0]@ == words(rest@)[0]);
            Some(string_of(w[0]))
        } else {
            None
        }
    }
}

/// The port a command line asks for: the word after `-L tcp:`, or the default without one.
pub open spec fn requested_port(exec: Seq<char>) -> Option<nat> {
    match split_once(exec, "-L tcp:"@) {
        Some((_, rest)) => {
            let piece = match split_once(rest, "-L tcp:"@) {
                Some((p, _)) => p,
                None => rest,
            };
            if words(piece).len() > 0 {
                port_number(words(piece)[0])
            } else {
                None
            }
        },
        None => Some(DEFAULT_PORT as nat),
    }
}

/// What a request for a port is looked for in: what follows a program that stands in quotes, since
/// the path is no request, and otherwise the whole line.
pub open spec fn arguments_of(line: Seq<char>) -> Seq<char> {
    match strip_prefix(line, "ExecStart="@) {
        Some(rest) => {
            let t = trim(rest);
            let inner = t.skip(1);
            if t.len() > 0 && t[0] == '"' && quoted_end(inner) < inner.len() {
                inner.skip(quoted_end(inner) + 1)
            } else {
                line
            }
        },
        None => line,
    }
}

fn arguments<'a>(line: &'a [char]) -> (r: &'a [char])
    ensures
        r@ == arguments_of(line@),
{
    match without_prefix(line, "ExecStart=") {
        Some(rest) => {
            let t = trimmed(rest);
            if t.len() > 0 && t[0] == '"' {
                let inner = slice_subrange(t, 1, t.len());
                assert(inner@ == t@.skip(1));
                let n: usize = quoted_end_of(inner);
                if n < inner.len() {
                    let args = slice_subrange(inner, n + 1, inner.len());
                    assert(args@ == inner@.skip(n + 1));
                    return args;
                }
            }
            line
        },
        None => line,
    }
}

/// The port a unit's server listens on.
pub open spec fn unit_port(unit: Seq<char>) -> Option<nat> {
    match exec_line(unit) {
        Some(l) => requested_port(arguments_of(l)),
        None => None,
    }
}

/// The port the installed unit actually listens on, so that nothing inspects the default port
/// while the unit is elsewhere. With no unit installed there is none.
pub fn installed_port(unit: Option<&str>) -> (r: Option<u16>)
    ensures
        match r {
            Some(p) => unit is Some && unit_port(unit->0@) == Some(p as nat),
            None => unit is None || unit_port(unit->0@) is None,
        },
{
    let s = match unit {
        Some(text) => chars_of(text),
        None => return None,
    };
    let line = match exec_line_of(s.as_slice()) {
        Some(l) => l,
        None => return None,
    };
    match split_at_text(arguments(line), "-L tcp:") {
        Some((_, rest)) => {
            let piece = match split_at_text(rest, "-L tcp:") {
                Some((p, _)) => p,
                None => rest,
            };
            let w = words_of(piece);
            assert(slices(w@).len() == w@.len());
            if w.len() > 0 {
                assert(w@[0]@ == words(piece@)[0]);
                parse_port(w[0])
            } else {
                None
            }
        },
        None => Some(DEFAULT_PORT),
    }
}

// ---------------------------------------------------------------------------
// A unit reads back as it was written
// ---------------------------------------------------------------------------

spec fn clean_from(s: Seq<char>, i: int) -> bool
    decreases s.len() - i,
{
    0 <= i < s.len() ==> s[i] != '\n' && clean_from(s, i + 1)
}

/// No character of the text ends a line.
spec fn clean(s: Seq<char>) -> bool {
    !any_in(s, Class::Is('\n'))
}

proof fn lemma_clean(s: Seq<char>, i: int)
    requires
        0 <= i <= s.len(),
        clean_from(s, i),
    ensures
        forall|j: int| i <= j < s.len() ==> #[trigger] s[j] != '\n',
        i == 0 ==> clean(s),
    decreases s.len() - i,
{
    if i < s.len() {
        lemma_clean(s, i + 1);
    }
}

proof fn lemma_clean_concat(a: Seq<char>, b: Seq<char>)
    requires
        clean(a),
        clean(b),
    ensures
        clean(a + b),
{
    let s = a + b;
    if !clean(s) {
        let i = choose|i: int| 0 <= i < s.len() && Class::Is('\n').has(#[trigger] s[i]);
        if i < a.len() {
            assert(Class::Is('\n').has(a[i]));
        } else {
            assert(Class::Is('\n').has(b[i - a.len()]));
        }
    }
}

proof fn lemma_clean_escaped(s: Seq<char>, backslashes: bool)
    requires
        clean(s),
    ensures
        clean(escaped(s, backslashes)),
    decreases s.len(),
{
    if s.len() > 0 {
        let init = s.drop_last();
        assert(Class::Is('\n').has('\n'));
        if !clean(init) {
            let i = choose|i: int| 0 <= i < init.len() && Class::Is('\n').has(#[trigger] init[i]);
            assert(Class::Is('\n').has(s[i]));
        }
        lemma_clean_escaped(init, backslashes);
        let e = escaped(init, backslashes);
        let c = s.last();
        assert(c != '\n') by {
            if c == '\n' {
                assert(Class::Is('\n').has(s[s.len() - 1]));
            }
        }
        assert(clean(seq![c]));
        assert(clean(seq!['\\', c]));
        lemma_clean_concat(e, seq![c]);
        lemma_clean_concat(e, seq!['\\', c]);
        assert(e.push(c) == e + seq![c]);
        assert(e.push('\\').push(c) == e + seq!['\\', c]);
    }
}

proof fn lemma_clean_quoted(s: Seq<char>)
    requires
        clean(s),
    ensures
        clean(quoted_value(s)),
        clean(quoted_exec(s)),
{
    reveal_strlit("\"");
    lemma_clean_escaped(s, true);
    lemma_clean_escaped(s, false);
    assert(clean("\""@));
    lemma_clean_concat("\""@, escaped(s, true));
    lemma_clean_concat("\""@ + escaped(s, true), "\""@);
    lemma_clean_concat("\""@, escaped(s, false));
    lemma_clean_concat("\""@ + escaped(s, false), "\""@);
}

proof fn lemma_clean_directory(p: Seq<char>)
    requires
        clean(p),
    ensures
        clean(directory(p)),
{
    lemma_parent_prefix(p);
    reveal_strlit("/");
    match parent(p) {
        Some(d) => {
            let n = choose|n: int| 0 <= n <= p.len() && d == #[trigger] p.take(n);
            if !clean(d) {
                let i = choose|i: int| 0 <= i < d.len() && Class::Is('\n').has(#[trigger] d[i]);
                assert(Class::Is('\n').has(p[i]));
            }
        },
        None => {},
    }
}

proof fn lemma_clean_number(n: nat)
    ensures
        clean(decimal(n)),
{
    lemma_decimal_digits(n);
}

spec fn all_clean(v: Seq<Seq<char>>) -> bool {
    forall|i: int| 0 <= i < v.len() ==> clean(#[trigger] v[i])
}

/// No line before the one that runs the program could be mistaken for it.
proof fn lemma_unit_head(adb: Seq<char>)
    requires
        clean(adb),
    ensures
        all_clean(unit_head(adb)),
        forall|i: int|
            0 <= i < unit_head(adb).len() ==> (#[trigger] unit_head(adb)[i]).len() == 0
                || unit_head(adb)[i][0] != 'E',
        unit_head(adb).len() == 12,
{
    reveal_with_fuel(clean_from, 90);
    reveal_strlit("[Unit]");
    lemma_clean("[Unit]"@, 0);
    reveal_strlit("Description=Keep the ADB server running for wireless debugging (wadb)");
    lemma_clean("Description=Keep the ADB server running for wireless debugging (wadb)"@, 0);
    reveal_strlit("Documentation=https://github.com/hamen/wadb");
    lemma_clean("Documentation=https://github.com/hamen/wadb"@, 0);
    reveal_strlit(
        "# Never latch into `failed`: giving up permanently would end supervision silently,",
    );
    lemma_clean(
        "# Never latch into `failed`: giving up permanently would end supervision silently,"@,
        0,
    );
    reveal_strlit("# which is the exact state this unit exists to prevent.");
    lemma_clean("# which is the exact state this unit exists to prevent."@, 0);
    reveal_strlit("StartLimitIntervalSec=0");
    lemma_clean("StartLimitIntervalSec=0"@, 0);
    reveal_strlit(
        "# The adb binary can live on a separate mount that is not ready when a lingering",
    );
    lemma_clean(
        "# The adb binary can live on a separate mount that is not ready when a lingering"@,
        0,
    );
    reveal_strlit("# user manager starts.");
    lemma_clean("# user manager starts."@, 0);
    reveal_strlit("RequiresMountsFor=");
    lemma_clean("RequiresMountsFor="@, 0);
    lemma_clean_directory(adb);
    lemma_clean_quoted(directory(adb));
    lemma_clean_concat("RequiresMountsFor="@, quoted_value(directory(adb)));
    reveal_strlit("");
    lemma_clean(""@, 0);
    reveal_strlit("[Service]");
    lemma_clean("[Service]"@, 0);
    reveal_strlit("Type=simple");
    lemma_clean("Type=simple"@, 0);
}

proof fn lemma_exec_start(adb: Seq<char>, port: u16)
    requires
        clean(adb),
    ensures
        clean(exec_start(adb, port)),
        starts_with(exec_start(adb, port), "ExecStart="@),
        chomp(exec_start(adb, port)) == exec_start(adb, port),
{
    reveal_with_fuel(clean_from, 20);
    reveal_strlit("ExecStart=");
    lemma_clean("ExecStart="@, 0);
    reveal_strlit("");
    reveal_strlit(" -L tcp:");
    lemma_clean(" -L tcp:"@, 0);
    reveal_strlit(" nodaemon server");
    lemma_clean(" nodaemon server"@, 0);
    lemma_clean_quoted(adb);
    lemma_clean_number(port as nat);
    lemma_clean_concat(" -L tcp:"@, decimal(port as nat));
    lemma_clean_concat("ExecStart="@, quoted_exec(adb));
    lemma_clean_concat("ExecStart="@ + quoted_exec(adb), listen_option(port));
    lemma_clean_concat(
        "ExecStart="@ + quoted_exec(adb) + listen_option(port),
        " nodaemon server"@,
    );
    let s = exec_start(adb, port);
    assert(s.subrange(0, "ExecStart="@.len() as int) == "ExecStart="@);
    assert(s.last() == " nodaemon server"@.last());
}

proof fn lemma_unit_rest(systemd: Option<u32>)
    ensures
        all_clean(backoff_lines(systemd)),
        all_clean(unit_tail()),
        clean("Restart=always"@),
{
    reveal_with_fuel(clean_from, 90);
    reveal_strlit("Restart=always");
    lemma_clean("Restart=always"@, 0);
    reveal_strlit("RestartSec=1s");
    lemma_clean("RestartSec=1s"@, 0);
    reveal_strlit("RestartSteps=5");
    lemma_clean("RestartSteps=5"@, 0);
    reveal_strlit("RestartMaxDelaySec=30s");
    lemma_clean("RestartMaxDelaySec=30s"@, 0);
    reveal_strlit("RestartSec=5s");
    lemma_clean("RestartSec=5s"@, 0);
    reveal_strlit(
        "# adb abort()s when its listen socket is taken, so every lost restart race would",
    );
    lemma_clean(
        "# adb abort()s when its listen socket is taken, so every lost restart race would"@,
        0,
    );
    reveal_strlit("# otherwise write a core dump.");
    lemma_clean("# otherwise write a core dump."@, 0);
    reveal_strlit("LimitCORE=0");
    lemma_clean("LimitCORE=0"@, 0);
    reveal_strlit("");
    lemma_clean(""@, 0);
    reveal_strlit("[Install]");
    lemma_clean("[Install]"@, 0);
    reveal_strlit("WantedBy=default.target");
    lemma_clean("WantedBy=default.target"@, 0);
}

/// The line that runs the server is found again in a unit that was rendered.
proof fn lemma_exec_line(adb: Seq<char>, port: u16, systemd: Option<u32>)
    requires
        clean(adb),
    ensures
        exec_line(text_of_lines(unit_lines(adb, port, systemd))) == Some(exec_start(adb, port)),
{
    let v = unit_lines(adb, port, systemd);
    let head = unit_head(adb);
    let start = exec_start(adb, port);
    lemma_unit_head(adb);
    lemma_exec_start(adb, port);
    lemma_unit_rest(systemd);
    let middle = seq![start, "Restart=always"@];
    assert forall|i: int| 0 <= i < v.len() implies clean(#[trigger] v[i]) by {
        if i < 12 {
            assert(v[i] == head[i]);
        } else if i < 14 {
            assert(v[i] == middle[i - 12]);
        } else if i < 14 + backoff_lines(systemd).len() {
            assert(v[i] == backoff_lines(systemd)[i - 14]);
        } else {
            assert(v[i] == unit_tail()[i - 14 - backoff_lines(systemd).len()]);
        }
    }
    lemma_lines_of_text(v);
    let all = lines(text_of_lines(v));
    let f = |l: Seq<char>|
        if starts_with(l, "ExecStart="@) {
            Some(l)
        } else {
            None
        };
    assert(all[12] == start);
    assert forall|j: int| 0 <= j < 12 implies f(#[trigger] all[j]) is None by {
        reveal_strlit("ExecStart=");
        assert(all[j] == chomp(head[j]));
        let l = all[j];
        if starts_with(l, "ExecStart="@) {
            assert(l.subrange(0, "ExecStart="@.len() as int)[0] == l[0]);
            assert(l[0] == head[j][0]);
        }
    }
    assert(f(all[12]) == Some(start));
    lemma_find_map(all, f, 12);
}

spec fn lacks_from(s: Seq<char>, c: char, i: int) -> bool
    decreases s.len() - i,
{
    0 <= i < s.len() ==> s[i] != c && lacks_from(s, c, i + 1)
}

proof fn lemma_lacks(s: Seq<char>, c: char, i: int)
    requires
        0 <= i <= s.len(),
        lacks_from(s, c, i),
    ensures
        forall|j: int| i <= j < s.len() ==> #[trigger] s[j] != c,
    decreases s.len() - i,
{
    if i < s.len() {
        lemma_lacks(s, c, i + 1);
    }
}

/// Escaping is undone by taking the backslashes off again, and puts one before every quote.
proof fn lemma_escaped(s: Seq<char>)
    ensures
        unescaped(escaped(s, false)) == s,
        s.len() > 0 ==> escaped(s, false).len() > 0 && escaped(s, false).last() == s.last(),
        s.len() == 0 ==> escaped(s, false).len() == 0,
        forall|i: int|
            0 <= i < escaped(s, false).len() && #[trigger] escaped(s, false)[i] == '"' ==> i > 0
                && escaped(s, false)[i - 1] == '\\',
    decreases s.len(),
{
    if s.len() > 0 {
        let init = s.drop_last();
        let c = s.last();
        let ei = escaped(init, false);
        let e = escaped(s, false);
        lemma_escaped(init);
        assert(init.push(c) == s);
        if c == '"' {
            assert(e == ei.push('\\').push('"'));
            assert(e.take(e.len() - 2) == ei);
        } else {
            assert(e == ei.push(c));
            assert(e.drop_last() == ei);
        }
        assert forall|i: int| 0 <= i < e.len() && #[trigger] e[i] == '"' implies i > 0 && e[i - 1]
            == '\\' by {
            if i < ei.len() {
                assert(ei[i] == e[i]);
                assert(ei[i - 1] == e[i - 1]);
            }
        }
    }
}

/// The first unescaped quote is where the properties of one hold.
proof fn lemma_closing_is(s: Seq<char>, i: int, n: int)
    requires
        0 <= i <= n <= s.len(),
        forall|j: int|
            i <= j < n ==> !(#[trigger] s[j] == '"' && (j == 0 || s[j - 1] != '\\')),
        n < s.len() ==> s[n] == '"' && (n == 0 || s[n - 1] != '\\'),
    ensures
        closing_quote(s, i) == n,
    decreases n - i,
{
    if i < n {
        lemma_closing_is(s, i + 1, n);
    }
}

/// A path in quotes ends where it was closed, whatever it holds, as long as no quote follows.
proof fn lemma_quoted_end(p: Seq<char>, after: Seq<char>)
    requires
        p.len() > 0,
        forall|j: int| 0 <= j < after.len() ==> #[trigger] after[j] != '"',
    ensures
        quoted_end(escaped(p, false) + "\""@ + after) == escaped(p, false).len(),
{
    reveal_strlit("\"");
    lemma_escaped(p);
    let e = escaped(p, false);
    let inner = e + "\""@ + after;
    let n = e.len() as int;
    assert(inner[n] == '"');
    assert(inner[n - 1] == e[n - 1]);
    assert forall|j: int| 0 <= j < n implies !(#[trigger] inner[j] == '"' && (j == 0 || inner[j - 1]
        != '\\')) by {
        assert(inner[j] == e[j]);
        if j > 0 {
            assert(inner[j - 1] == e[j - 1]);
        }
    }
    assert forall|j: int| n < j < inner.len() implies #[trigger] inner[j] != '"' by {
        assert(inner[j] == after[j - n - 1]);
    }
    if e.last() != '\\' {
        lemma_closing_is(inner, 0, n);
    } else {
        lemma_closing_is(inner, 0, inner.len() as int);
        lemma_last_index(inner, '"');
    }
}

/// What follows the program in a rendered line.
spec fn exec_tail(port: u16) -> Seq<char> {
    listen_option(port) + " nodaemon server"@
}

proof fn lemma_exec_tail(adb: Seq<char>, port: u16)
    ensures
        exec_start(adb, port) == "ExecStart="@ + quoted_exec(adb) + exec_tail(port),
        exec_start(adb, port).skip("ExecStart="@.len() as int) == quoted_exec(adb) + exec_tail(
            port,
        ),
        exec_tail(port).len() > 1,
        exec_tail(port)[0] == ' ',
        exec_tail(port).last() == 'r',
        forall|j: int| 0 <= j < exec_tail(port).len() ==> #[trigger] exec_tail(port)[j] != '"',
{
    let end = " nodaemon server"@;
    let listen = listen_option(port);
    let tail = exec_tail(port);
    reveal_strlit(" nodaemon server");
    reveal_strlit(" -L tcp:");
    reveal_strlit("");
    reveal_with_fuel(lacks_from, 20);
    lemma_lacks(end, '"', 0);
    lemma_lacks(" -L tcp:"@, '"', 0);
    lemma_decimal_digits(port as nat);
    assert(exec_start(adb, port) == "ExecStart="@ + quoted_exec(adb) + tail);
    assert(exec_start(adb, port).skip("ExecStart="@.len() as int) == quoted_exec(adb) + tail);
    assert forall|j: int| 0 <= j < tail.len() implies #[trigger] tail[j] != '"' by {
        if j < listen.len() {
            assert(tail[j] == listen[j]);
        } else {
            assert(tail[j] == end[j - listen.len()]);
        }
    }
}

/// The binary read back out of a rendered unit is the binary it was rendered for, whether or not
/// its path had to be quoted. Only a path that breaks the line cannot be carried, and an empty one
/// names nothing.
pub proof fn a_unit_names_its_adb(adb: Seq<char>, port: u16, systemd: Option<u32>)
    requires
        adb.len() > 0,
        !any_in(adb, Class::Is('\n')),
    ensures
        unit_adb(text_of_lines(unit_lines(adb, port, systemd))) == Some(adb),
{
    lemma_exec_line(adb, port, systemd);
    lemma_exec_start(adb, port);
    lemma_exec_tail(adb, port);
    reveal_strlit("\"");
    let q = quoted_exec(adb);
    let tail = exec_tail(port);
    let rest = q + tail;
    assert(rest.last() == 'r');
    assert(rest[0] == q[0]);
    if exec_needs_quotes(adb) {
        let e = escaped(adb, false);
        lemma_trim_same(rest);
        let inner = rest.skip(1);
        assert(inner == e + "\""@ + tail);
        lemma_quoted_end(adb, tail);
        lemma_escaped(adb);
        assert(inner.take(e.len() as int) == e);
    } else {
        assert(!Class::Space.has(adb[0]));
        assert(!Class::Is('"').has(adb[0]));
        lemma_trim_same(rest);
        lemma_first_word(adb, tail);
    }
}

/// The port that the rendered arguments ask for is found in them, wherever they begin, as long as
/// nothing before them looks like a request.
proof fn lemma_requested_port(pre: Seq<char>, port: u16)
    requires
        forall|j: int|
            0 <= j <= pre.len() ==> !#[trigger] matches_at(
                pre + exec_tail(port),
                "-L tcp:"@,
                j,
            ),
    ensures
        requested_port(pre + exec_tail(port)) == Some(port as nat),
{
    let s = pre + exec_tail(port);
    let t = "-L tcp:"@;
    let end = " nodaemon server"@;
    let k = pre.len() as int;
    reveal_strlit("-L tcp:");
    reveal_strlit(" -L tcp:");
    reveal_strlit(" nodaemon server");
    reveal_strlit("");
    reveal_with_fuel(lacks_from, 20);
    lemma_lacks(end, '-', 0);
    if port == DEFAULT_PORT {
        assert forall|j: int| k < j < s.len() implies s[j] != t[0] by {
            assert(s[j] == end[j - k]);
        }
        lemma_no_match(s, t, k + 1, s.len() as int);
        lemma_find(s, t, 0);
        assert(split_once(s, t) is None);
    } else {
        let d = decimal(port as nat);
        let n = k + 1;
        assert(s.subrange(n, n + 7) == t);
        lemma_find_is(s, t, 0, n);
        let rest = s.skip(n + 7);
        assert(rest == d + end);
        lemma_decimal_digits(port as nat);
        lemma_port_round_trip(port);
        assert forall|j: int| 0 <= j < rest.len() implies rest[j] != t[0] by {
            if j < d.len() {
                assert(rest[j] == d[j]);
            } else {
                assert(rest[j] == end[j - d.len()]);
            }
        }
        lemma_no_match(rest, t, 0, rest.len() as int);
        lemma_find(rest, t, 0);
        assert(split_once(rest, t) is None);
        lemma_first_word(d, end);
    }
}

/// The port read back out of a rendered unit is the port it was rendered for, whatever the path
/// holds short of a line break.
pub proof fn a_unit_names_its_port(adb: Seq<char>, port: u16, systemd: Option<u32>)
    requires
        !any_in(adb, Class::Is('\n')),
    ensures
        unit_port(text_of_lines(unit_lines(adb, port, systemd))) == Some(port as nat),
{
    lemma_exec_line(adb, port, systemd);
    lemma_exec_start(adb, port);
    lemma_exec_tail(adb, port);
    let s = exec_start(adb, port);
    let t = "-L tcp:"@;
    let key = "ExecStart="@;
    let q = quoted_exec(adb);
    let tail = exec_tail(port);
    let rest = q + tail;
    reveal_strlit("-L tcp:");
    reveal_strlit(" -L tcp:");
    reveal_strlit("ExecStart=");
    reveal_strlit(" nodaemon server");
    reveal_strlit("\"");
    reveal_strlit("");
    assert(rest.last() == 'r');
    if exec_needs_quotes(adb) {
        let e = escaped(adb, false);
        assert(adb.len() > 0);
        assert(rest[0] == '"');
        lemma_trim_same(rest);
        let inner = rest.skip(1);
        assert(inner == e + "\""@ + tail);
        lemma_quoted_end(adb, tail);
        assert(inner.skip(e.len() as int + 1) == tail);
        let none = Seq::<char>::empty();
        assert(none + tail == tail);
        assert forall|j: int| 0 <= j <= 0 implies !#[trigger] matches_at(none + tail, t, j) by {
            if matches_at(tail, t, 0) {
                assert(tail.subrange(0, 7)[0] == tail[0]);
            }
        }
        lemma_requested_port(none, port);
    } else {
        let pre = key + q;
        let k = pre.len() as int;
        assert(s == pre + tail);
        reveal_with_fuel(lacks_from, 20);
        lemma_lacks(key, '-', 0);
        assert(s[k] == ' ');
        assert(s[k + 1] == if port == DEFAULT_PORT { 'n' } else { '-' });
        assert forall|j: int| 0 <= j <= k implies !#[trigger] matches_at(pre + tail, t, j) by {
            if matches_at(s, t, j) {
                let w = s.subrange(j, j + 7);
                assert(w[0] == s[j]);
                assert(w[2] == s[j + 2]);
                assert(w[3] == s[j + 3]);
                if j < 10 && j < k {
                    assert(s[j] == key[j]);
                } else if j + 2 < k {
                    assert(s[j + 2] == adb[j + 2 - 10]);
                    assert(Class::Space.has(adb[j + 2 - 10]));
                } else if j < k {
                    let m = k - j;
                    assert(w[m] == s[k]);
                    assert(m == 2);
                    assert(w[3] == s[k + 1]);
                }
            }
        }
        if adb.len() > 0 {
            assert(!Class::Space.has(adb[0]));
            assert(!Class::Is('"').has(adb[0]));
            lemma_trim_same(rest);
            assert(rest[0] == adb[0]);
        } else {
            lemma_trim_brings_no_quote(rest);
        }
        assert(arguments_of(s) == s);
        lemma_requested_port(pre, port);
    }
}

/// Trimming brings no quote to the front of a text that holds none.
proof fn lemma_trim_brings_no_quote(rest: Seq<char>)
    requires
        forall|j: int| 0 <= j < rest.len() ==> #[trigger] rest[j] != '"',
    ensures
        trim(rest).len() > 0 ==> trim(rest)[0] != '"',
{
    let a = scan(rest, 0, Class::NotSpace);
    lemma_scan(rest, 0, Class::NotSpace);
    let t = rest.skip(a);
    lemma_trim_end_prefix(t);
    if trim(rest).len() > 0 {
        assert(trim(rest)[0] == t[0]);
        assert(t[0] == rest[a]);
    }
}

proof fn lemma_trim_end_prefix(s: Seq<char>)
    ensures
        trim_end(s).len() <= s.len(),
        trim_end(s) == s.take(trim_end(s).len() as int),
    decreases s.len(),
{
    if s.len() > 0 && is_space(s.last()) {
        lemma_trim_end_prefix(s.drop_last());
        assert(s.drop_last().take(trim_end(s).len() as int) == s.take(trim_end(s).len() as int));
    } else {
        assert(s.take(s.len() as int) == s);
    }
}

// ---------------------------------------------------------------------------
// Where the units live
// ---------------------------------------------------------------------------

/// The directory of user units, from the variables that may move it.
pub open spec fn user_units(config_home: Option<Seq<char>>, home: Option<Seq<char>>) -> Seq<char> {
    join_path(
        match config_home {
            Some(c) => c,
            None => join_path(
                match home {
                    Some(h) => h,
                    None => ""@,
                },
                ".config"@,
            ),
        },
        "systemd/user"@,
    )
}

pub open spec fn opt_str(s: Option<&str>) -> Option<Seq<char>> {
    match s {
        Some(s) => Some(s@),
        None => None,
    }
}

fn unit_dir(config_home: Option<&str>, home: Option<&str>) -> (r: String)
    ensures
        r@ == user_units(opt_str(config_home), opt_str(home)),
{
    let base = match config_home {
        Some(c) => c.to_owned(),
        None => {
            let h = match home {
                Some(h) => h,
                None => "",
            };
            joined(h, ".config")
        },
    };
    joined(base.as_str(), "systemd/user")
}

/// Where the server's unit is written.
pub fn unit_path(config_home: Option<&str>, home: Option<&str>) -> (r: String)
    ensures
        r@ == join_path(user_units(opt_str(config_home), opt_str(home)), "wadb.service"@),
{
    joined(unit_dir(config_home, home).as_str(), "wadb.service")
}

/// Where the watcher's unit is written.
pub fn connect_unit_path(config_home: Option<&str>, home: Option<&str>) -> (r: String)
    ensures
        r@ == join_path(user_units(opt_str(config_home), opt_str(home)), "wadb-connect.service"@),
{
    joined(unit_dir(config_home, home).as_str(), "wadb-connect.service")
}

/// The port the environment asks for.
pub open spec fn port_asked_for(value: Option<Seq<char>>) -> nat {
    match value {
        Some(p) => match port_number(p) {
            Some(n) => n,
            None => DEFAULT_PORT as nat,
        },
        None => DEFAULT_PORT as nat,
    }
}

pub fn port_from_env(value: Option<&str>) -> (r: u16)
    ensures
        r == port_asked_for(opt_str(value)),
{
    match value {
        Some(p) => {
            let s = chars_of(p);
            match parse_port(s.as_slice()) {
                Some(n) => n,
                None => DEFAULT_PORT,
            }
        },
        None => DEFAULT_PORT,
    }
}

/// The port to talk to: the installed unit's, or else what the environment asks for.
pub fn port(unit: Option<&str>, value: Option<&str>) -> (r: u16)
    ensures
        r == (if unit is Some && unit_port(unit->0@) is Some {
            unit_port(unit->0@)->0
        } else {
            port_asked_for(opt_str(value))
        }),
{
    match installed_port(unit) {
        Some(p) => p,
        None => port_from_env(value),
    }
}

// ---------------------------------------------------------------------------
// What systemctl says
// ---------------------------------------------------------------------------

/// What is said of a systemctl call that failed. Its exit status is never ignored: `install` must
/// not report success after `enable --now` failed.
pub fn systemctl_failure(args: &[String], stderr: &str) -> (r: String)
    ensures
        r@ == "systemctl --user "@ + join(texts(args@), " "@) + " failed: "@ + trim(stderr@),
{
    let e = chars_of(stderr);
    "systemctl --user ".to_owned().concat(join_strings(args, " ").as_str()).concat(
        " failed: ",
    ).concat(string_of(trimmed(e.as_slice())).as_str())
}

/// Whether the trimmed output is this word.
fn says(out: &str, word: &str) -> (r: bool)
    ensures
        r == (trim(out@) == word@),
{
    let s = chars_of(out);
    is_text(trimmed(s.as_slice()), word)
}

/// What `is-active` prints for a unit. A non-zero exit here means "inactive", not "failed".
pub fn is_active(out: &str) -> (r: bool)
    ensures
        r == (trim(out@) == "active"@),
{
    says(out, "active")
}

pub fn connect_unit_active(out: &str) -> (r: bool)
    ensures
        r == (trim(out@) == "active"@),
{
    says(out, "active")
}

/// What loginctl prints of lingering.
pub fn lingering(out: &str) -> (r: bool)
    ensures
        r == (trim(out@) == "yes"@),
{
    says(out, "yes")
}

/// The main process a unit reports; zero stands for none.
pub open spec fn reported_main_pid(out: Seq<char>) -> Option<nat> {
    match word_number(trim(out)) {
        Some(n) => if n == 0 {
            None
        } else {
            Some(n)
        },
        None => None,
    }
}

pub fn main_pid(out: &str) -> (r: Option<u32>)
    ensures
        match r {
            Some(p) => reported_main_pid(out@) == Some(p as nat),
            None => reported_main_pid(out@) is None,
        },
{
    let s = chars_of(out);
    match parse_word(trimmed(s.as_slice())) {
        Some(n) => {
            if n == 0 {
                None
            } else {
                Some(n)
            }
        },
        None => None,
    }
}

/// The process actually holding the listening socket, from what `ss` prints. "The unit is active"
/// and "the unit owns the port" are different statements.
pub fn listener_pid(ss: &str) -> (r: Option<u32>)
    ensures
        match r {
            Some(p) => ss_pid(ss@) == Some(p as nat),
            None => ss_pid(ss@) is None,
        },
{
    parse_ss_pid(ss)
}

// ---------------------------------------------------------------------------
// Installing
// ---------------------------------------------------------------------------

/// A list of command lines as text.
pub open spec fn commands(v: Seq<Vec<String>>) -> Seq<Seq<Seq<char>>> {
    v.map_values(|c: Vec<String>| texts(c@))
}

/// The systemctl calls of an install. A unit that is already running with an older command line
/// is not restarted by `enable --now`, so a changed unit needs an explicit restart.
pub open spec fn install_commands(server_changed: bool, watcher_changed: bool) -> Seq<
    Seq<Seq<char>>,
> {
    seq![
        seq!["daemon-reload"@],
        seq!["enable"@, "--now"@, "wadb.service"@],
        seq!["enable"@, "--now"@, "wadb-connect.service"@],
    ] + (if server_changed {
        seq![seq!["restart"@, "wadb.service"@]]
    } else {
        seq![]
    }) + (if watcher_changed {
        seq![seq!["restart"@, "wadb-connect.service"@]]
    } else {
        seq![]
    })
}

/// The systemctl calls an install performs, as data.
pub fn install_steps(server_changed: bool, watcher_changed: bool) -> (r: Vec<Vec<String>>)
    ensures
        commands(r@) == install_commands(server_changed, watcher_changed),
{
    let reload = vec!["daemon-reload".to_owned()];
    let server = vec!["enable".to_owned(), "--now".to_owned(), "wadb.service".to_owned()];
    let watcher = vec!["enable".to_owned(), "--now".to_owned(), "wadb-connect.service".to_owned()];
    assert(texts(reload@) == seq!["daemon-reload"@]);
    assert(texts(server@) == seq!["enable"@, "--now"@, "wadb.service"@]);
    assert(texts(watcher@) == seq!["enable"@, "--now"@, "wadb-connect.service"@]);
    let mut steps: Vec<Vec<String>> = vec![reload, server, watcher];
    let ghost first: Seq<Seq<Seq<char>>> = seq![
        seq!["daemon-reload"@],
        seq!["enable"@, "--now"@, "wadb.service"@],
        seq!["enable"@, "--now"@, "wadb-connect.service"@],
    ];
    assert(commands(steps@) == first);
    if server_changed {
        let step = restart();
        let ghost done = commands(steps@);
        steps.push(step);
        assert(commands(steps@) == done + seq![texts(step@)]);
    }
    if watcher_changed {
        let step = vec!["restart".to_owned(), "wadb-connect.service".to_owned()];
        assert(texts(step@) == seq!["restart"@, "wadb-connect.service"@]);
        let ghost done = commands(steps@);
        steps.push(step);
        assert(commands(steps@) == done + seq![texts(step@)]);
    }
    assert(commands(steps@) == install_commands(server_changed, watcher_changed));
    steps
}

/// Whatever has changed: systemd is reloaded before anything else, both units are enabled, and
/// exactly the units that changed are restarted, after that.
pub proof fn an_install_restarts_what_changed(server_changed: bool, watcher_changed: bool)
    ensures
        ({
            let v = install_commands(server_changed, watcher_changed);
            &&& v[0] == seq!["daemon-reload"@]
            &&& v[1] == seq!["enable"@, "--now"@, "wadb.service"@]
            &&& v[2] == seq!["enable"@, "--now"@, "wadb-connect.service"@]
            &&& v.contains(seq!["restart"@, "wadb.service"@]) <==> server_changed
            &&& v.contains(seq!["restart"@, "wadb-connect.service"@]) <==> watcher_changed
            &&& forall|i: int| 0 <= i < v.len() && (#[trigger] v[i])[0] == "restart"@ ==> i >= 3
        }),
{
    reveal_strlit("restart");
    reveal_strlit("enable");
    reveal_strlit("daemon-reload");
    reveal_strlit("wadb.service");
    reveal_strlit("wadb-connect.service");
    let v = install_commands(server_changed, watcher_changed);
    let a = seq!["restart"@, "wadb.service"@];
    let b = seq!["restart"@, "wadb-connect.service"@];
    assert(a[1].len() != b[1].len());
    assert(v[0].len() == 1 && v[1].len() == 3 && v[2].len() == 3);
    assert(v[0][0].len() != "restart"@.len() && v[1][0].len() != "restart"@.len());
    if server_changed {
        assert(v[3] == a);
    }
    if watcher_changed {
        assert(v[v.len() - 1] == b);
    }
    assert(v.len() == 3 + (if server_changed { 1int } else { 0int }) + (if watcher_changed {
        1int
    } else {
        0int
    }));
}

/// The systemctl call that starts the server's unit.
pub fn start() -> (r: Vec<String>)
    ensures
        texts(r@) == seq!["start"@, "wadb.service"@],
{
    vec!["start".to_owned(), "wadb.service".to_owned()]
}

/// The systemctl call that restarts the server's unit.
pub fn restart() -> (r: Vec<String>)
    ensures
        texts(r@) == seq!["restart"@, "wadb.service"@],
{
    vec!["restart".to_owned(), "wadb.service".to_owned()]
}

/// The port whose server holds the mDNS socket: the installed unit's where something listens
/// there, or else the one to install on. What a unit file claims is not what is running.
pub fn holding_port(installed: Option<u16>, installed_is_up: bool, target: u16) -> (r: u16)
    ensures
        r == (match installed {
            Some(p) => if installed_is_up {
                p
            } else {
                target
            },
            None => target,
        }),
{
    match installed {
        Some(p) => {
            if installed_is_up {
                p
            } else {
                target
            }
        },
        None => target,
    }
}

/// What is said of a binary that cannot reconnect devices.
pub open spec fn no_backend_text(adb: Seq<char>, version: Option<Seq<char>>) -> Seq<char> {
    adb + " (version "@ + (match version {
        Some(v) => v,
        None => "unknown"@,
    })
        + ") has no mDNS backend, so adb cannot reconnect paired devices on its own.\nInstall Android SDK Platform-Tools and re-run, or set $ADB to a build that has it.\nCheck it yourself with: ADB_SERVER_SOCKET=tcp:127.0.0.1:<scratch port> "@
        + adb + " mdns check"@
}

pub fn no_backend(adb: &str, version: Option<&str>) -> (r: String)
    ensures
        r@ == no_backend_text(adb@, opt_str(version)),
{
    let v = match version {
        Some(v) => v,
        None => "unknown",
    };
    adb.to_owned().concat(" (version ").concat(v).concat(
        ") has no mDNS backend, so adb cannot reconnect paired devices on its own.\nInstall Android SDK Platform-Tools and re-run, or set $ADB to a build that has it.\nCheck it yourself with: ADB_SERVER_SOCKET=tcp:127.0.0.1:<scratch port> ",
    ).concat(adb).concat(" mdns check")
}

/// What is said when the watcher would run out of a build directory: a unit pinned there dies the
/// next time the directory is cleaned.
pub open spec fn build_warning(wadb: Seq<char>) -> Option<Seq<char>> {
    if names(wadb).contains("target"@) {
        Some(
            "warning: installing from a build directory ("@ + wadb
                + ").\n`cargo clean` would leave the watcher unit crash-looping. Prefer `cargo install --path .`"@,
        )
    } else {
        None
    }
}

pub struct InstallReport {
    pub adb: String,
    pub mdns: String,
    pub port: u16,
    pub changed: bool,
    pub lingering: bool,
    pub backoff_full: bool,
}

/// Everything an install is about to do.
pub struct InstallPlan {
    /// The mDNS backend the binary was found to have.
    pub mdns: String,
    /// What the server's unit has to say, and whether it says something else now.
    pub unit: String,
    pub changed: bool,
    /// The same of the watcher's unit.
    pub connect_unit: String,
    pub connect_changed: bool,
    pub warning: Option<String>,
    /// The systemctl calls, in order.
    pub steps: Vec<Vec<String>>,
    /// Whether the unit backs off in steps.
    pub backoff_full: bool,
}

/// Plan an install, or say why there is none: no binary was found, it could not be asked about
/// mDNS, or it has no backend. Only a binary that can reconnect devices is trusted with the unit,
/// and without a plan no unit file is written and no systemctl call is made.
pub fn install(
    spec: &Result<UnitSpec, String>,
    support: &Result<MdnsSupport, String>,
    version: Option<&str>,
    wadb: &str,
    unit_now: Option<&str>,
    connect_unit_now: Option<&str>,
) -> (r: Result<InstallPlan, String>)
    ensures
        match (spec, support) {
            (Err(e), _) => r matches Err(why) && why@ == e@,
            (Ok(_), Err(e)) => r matches Err(why) && why@ == e@,
            (Ok(s), Ok(MdnsSupport::Absent)) => r matches Err(why) && why@ == no_backend_text(
                s.adb@,
                opt_str(version),
            ),
            (Ok(s), Ok(MdnsSupport::Present(backend))) => {
                &&& r matches Ok(p)
                &&& p.mdns@ == backend@
                &&& p.unit@ == text_of_lines(unit_lines(s.adb@, s.port, s.systemd))
                &&& p.changed == (opt_str(unit_now) != Some(p.unit@))
                &&& p.connect_unit@ == text_of_lines(connect_unit_lines(wadb@, s.port))
                &&& p.connect_changed == (opt_str(connect_unit_now) != Some(p.connect_unit@))
                &&& opt_text(p.warning) == build_warning(wadb@)
                &&& commands(p.steps@) == install_commands(p.changed, p.connect_changed)
                &&& p.backoff_full == (s.systemd matches Some(v) && v >= BACKOFF_MIN_SYSTEMD)
            },
        },
{
    let spec = match spec {
        Ok(s) => s,
        Err(e) => return Err(e.as_str().to_owned()),
    };
    let mdns = match support {
        Ok(MdnsSupport::Present(backend)) => backend.as_str().to_owned(),
        Ok(MdnsSupport::Absent) => return Err(no_backend(spec.adb.as_str(), version)),
        Err(e) => return Err(e.as_str().to_owned()),
    };
    let unit = render_unit(spec);
    let changed = match unit_now {
        Some(now) => !str_eq(now, unit.as_str()),
        None => true,
    };
    let connect_unit = render_connect_unit(wadb, spec.port);
    let connect_changed = match connect_unit_now {
        Some(now) => !str_eq(now, connect_unit.as_str()),
        None => true,
    };
    let warning = if path_has_name(wadb, "target") {
        Some(
            "warning: installing from a build directory (".to_owned().concat(wadb).concat(
                ").\n`cargo clean` would leave the watcher unit crash-looping. Prefer `cargo install --path .`",
            ),
        )
    } else {
        None
    };
    let backoff_full = match spec.systemd {
        Some(v) => v >= BACKOFF_MIN_SYSTEMD,
        None => false,
    };
    let steps = install_steps(changed, connect_changed);
    Ok(
        InstallPlan {
            mdns,
            unit,
            changed,
            connect_unit,
            connect_changed,
            warning,
            steps,
            backoff_full,
        },
    )
}

// ---------------------------------------------------------------------------
// Uninstalling
// ---------------------------------------------------------------------------

/// One action in an uninstall. Modelled as data because the *order* is what matters here.
#[derive(Debug, PartialEq, Eq)]
pub enum UninstallStep {
    /// Stop and disable a unit.
    Disable(&'static str),
    /// Delete a unit file.
    Remove(&'static str),
    /// Reload systemd. Must come *after* the files are gone, or systemd keeps the definitions of
    /// files that no longer exist.
    Reload,
}

pub enum UninstallView {
    Disable(Seq<char>),
    Remove(Seq<char>),
    Reload,
}

impl View for UninstallStep {
    type V = UninstallView;

    open spec fn view(&self) -> UninstallView {
        match self {
            UninstallStep::Disable(unit) => UninstallView::Disable(unit@),
            UninstallStep::Remove(unit) => UninstallView::Remove(unit@),
            UninstallStep::Reload => UninstallView::Reload,
        }
    }
}

pub open spec fn uninstall_views(v: Seq<UninstallStep>) -> Seq<UninstallView> {
    v.map_values(|s: UninstallStep| s@)
}

/// One step, where it is called for.
pub open spec fn step_if(called_for: bool, step: UninstallView) -> Seq<UninstallView> {
    if called_for {
        seq![step]
    } else {
        seq![]
    }
}

/// The uninstall sequence. The watcher stops first: the other order leaves it reconnecting
/// devices to a server that is about to go away.
pub open spec fn uninstall_sequence(watcher: bool, server: bool) -> Seq<UninstallView> {
    step_if(watcher, UninstallView::Disable("wadb-connect.service"@)) + step_if(
        server,
        UninstallView::Disable("wadb.service"@),
    ) + step_if(watcher, UninstallView::Remove("wadb-connect.service"@)) + step_if(
        server,
        UninstallView::Remove("wadb.service"@),
    ) + seq![UninstallView::Reload]
}

fn push_if(steps: &mut Vec<UninstallStep>, called_for: bool, step: UninstallStep)
    ensures
        uninstall_views(final(steps)@) == uninstall_views(old(steps)@) + step_if(called_for, step@),
{
    let ghost before = uninstall_views(steps@);
    if called_for {
        steps.push(step);
        assert(uninstall_views(steps@) == before + seq![step@]);
    } else {
        assert(before == before + Seq::<UninstallView>::empty());
    }
}

pub fn uninstall_steps(watcher_installed: bool, server_installed: bool) -> (r: Vec<UninstallStep>)
    ensures
        uninstall_views(r@) == uninstall_sequence(watcher_installed, server_installed),
{
    let mut steps: Vec<UninstallStep> = Vec::new();
    assert(uninstall_views(steps@) == Seq::<UninstallView>::empty());
    push_if(&mut steps, watcher_installed, UninstallStep::Disable(CONNECT_UNIT_NAME));
    push_if(&mut steps, server_installed, UninstallStep::Disable(UNIT_NAME));
    push_if(&mut steps, watcher_installed, UninstallStep::Remove(CONNECT_UNIT_NAME));
    push_if(&mut steps, server_installed, UninstallStep::Remove(UNIT_NAME));
    push_if(&mut steps, true, UninstallStep::Reload);
    assert(uninstall_views(steps@) == uninstall_sequence(watcher_installed, server_installed));
    steps
}

/// How one step of an uninstall is carried out.
#[derive(Debug, PartialEq, Eq)]
pub enum UninstallAction {
    /// Call systemctl.
    Systemctl(Vec<String>),
    /// Delete the watcher's unit file, if it is there.
    RemoveWatcher,
    /// Delete the server's unit file, if it is there.
    RemoveServer,
}

/// An action that carries out a step.
pub open spec fn carries_out(action: UninstallAction, step: UninstallView) -> bool {
    match step {
        UninstallView::Disable(unit) => action matches UninstallAction::Systemctl(args) && texts(
            args@,
        ) == seq!["disable"@, "--now"@, unit],
        UninstallView::Remove(unit) => if unit == "wadb-connect.service"@ {
            action is RemoveWatcher
        } else {
            action is RemoveServer
        },
        UninstallView::Reload => action matches UninstallAction::Systemctl(args) && texts(args@)
            == seq!["daemon-reload"@],
    }
}

/// What a step amounts to.
pub fn uninstall(step: &UninstallStep) -> (r: UninstallAction)
    ensures
        carries_out(r, step@),
{
    match step {
        UninstallStep::Disable(unit) => {
            let args = vec!["disable".to_owned(), "--now".to_owned(), (*unit).to_owned()];
            assert(texts(args@) == seq!["disable"@, "--now"@, unit@]);
            UninstallAction::Systemctl(args)
        },
        UninstallStep::Remove(unit) => {
            if str_eq(unit, "wadb-connect.service") {
                UninstallAction::RemoveWatcher
            } else {
                UninstallAction::RemoveServer
            }
        },
        UninstallStep::Reload => {
            let args = vec!["daemon-reload".to_owned()];
            assert(texts(args@) == seq!["daemon-reload"@]);
            UninstallAction::Systemctl(args)
        },
    }
}

/// An uninstall under way: its steps, and how many of them have been handed out.
pub struct Uninstall {
    steps: Vec<UninstallStep>,
    next: usize,
}

pub struct UninstallState {
    pub steps: Seq<UninstallView>,
    pub next: nat,
}

impl View for Uninstall {
    type V = UninstallState;

    closed spec fn view(&self) -> UninstallState {
        UninstallState { steps: uninstall_views(self.steps@), next: self.next as nat }
    }
}

/// What to do next in an uninstall.
pub enum UninstallNext {
    /// Carry this out, and hand its result to the rest of the uninstall.
    Do(UninstallAction, Uninstall),
    /// A step failed. Nothing more is done.
    Abort { context: Option<String>, why: String },
    Done,
}

pub enum UninstallTurn {
    Do(UninstallView, UninstallState),
    /// Whether it was a unit that could not be stopped.
    Abort(bool),
    Done,
}

/// The turn an uninstall takes once the step before it went well or not. A disable that fails
/// aborts the whole uninstall: deleting a unit file after it would leave the server running with
/// nothing left to manage it.
pub open spec fn uninstall_turn(s: UninstallState, went_well: bool) -> UninstallTurn {
    if !went_well {
        UninstallTurn::Abort(0 < s.next <= s.steps.len() && s.steps[s.next - 1] is Disable)
    } else if s.next < s.steps.len() {
        UninstallTurn::Do(
            s.steps[s.next as int],
            UninstallState { steps: s.steps, next: s.next + 1 },
        )
    } else {
        UninstallTurn::Done
    }
}

impl Uninstall {
    pub fn begin(watcher_installed: bool, server_installed: bool) -> (r: Uninstall)
        ensures
            r@.steps == uninstall_sequence(watcher_installed, server_installed),
            r@.next == 0,
    {
        Uninstall { steps: uninstall_steps(watcher_installed, server_installed), next: 0 }
    }

    /// Go on, given how the action that was handed out last went. Before the first one there is
    /// nothing that could have failed.
    pub fn go_on(self, last: Result<(), String>) -> (r: UninstallNext)
        ensures
            match uninstall_turn(self@, last is Ok) {
                UninstallTurn::Do(step, rest) => r matches UninstallNext::Do(action, u)
                    && carries_out(action, step) && u@ == rest,
                UninstallTurn::Abort(stopping) => r matches UninstallNext::Abort { context, why }
                    && why@ == last->Err_0@ && opt_text(context) == (if stopping {
                    Some("could not stop the units; the adb server may still be running"@)
                } else {
                    None
                }),
                UninstallTurn::Done => r is Done,
            },
    {
        let n: usize = self.next;
        match last {
            Err(why) => {
                let stopping = 0 < n && n <= self.steps.len() && matches!(
                    self.steps[n - 1],
                    UninstallStep::Disable(_)
                );
                let context = if stopping {
                    Some(
                        "could not stop the units; the adb server may still be running".to_owned(),
                    )
                } else {
                    None
                };
                UninstallNext::Abort { context, why }
            },
            Ok(()) => {
                if n < self.steps.len() {
                    let action = uninstall(&self.steps[n]);
                    UninstallNext::Do(action, Uninstall { steps: self.steps, next: n + 1 })
                } else {
                    UninstallNext::Done
                }
            },
        }
    }
}

/// The steps that an uninstall carries out from a state on, where `ok` says of each step, by its
/// place, whether it goes well.
pub open spec fn uninstall_run(
    s: UninstallState,
    went_well: bool,
    ok: spec_fn(int) -> bool,
) -> Seq<UninstallView>
    decreases s.steps.len() - s.next,
{
    match uninstall_turn(s, went_well) {
        UninstallTurn::Do(step, rest) => seq![step] + uninstall_run(rest, ok(s.next as int), ok),
        _ => seq![],
    }
}

proof fn lemma_uninstall_run(s: UninstallState, ok: spec_fn(int) -> bool, k: int)
    requires
        s.next <= k < s.steps.len(),
        forall|i: int| s.next <= i < k ==> #[trigger] ok(i),
        !ok(k) || k == s.steps.len() - 1,
    ensures
        uninstall_run(s, true, ok) == s.steps.subrange(s.next as int, k + 1),
    decreases s.steps.len() - s.next,
{
    let rest = UninstallState { steps: s.steps, next: s.next + 1 };
    assert(uninstall_turn(s, true) == UninstallTurn::Do(s.steps[s.next as int], rest));
    let after = uninstall_run(rest, ok(s.next as int), ok);
    assert(uninstall_run(s, true, ok) == seq![s.steps[s.next as int]] + after);
    if s.next < k {
        lemma_uninstall_run(rest, ok, k);
    } else {
        assert(after == Seq::<UninstallView>::empty());
    }
    assert(uninstall_run(s, true, ok) == s.steps.subrange(s.next as int, k + 1));
}

/// An uninstall ends with the first step that fails, so a unit that could not be stopped keeps its
/// file, and so does every other. One in which nothing fails carries out every step.
pub proof fn a_failed_uninstall_stops(
    watcher: bool,
    server: bool,
    ok: spec_fn(int) -> bool,
    k: int,
)
    requires
        0 <= k < uninstall_sequence(watcher, server).len(),
        forall|i: int| 0 <= i < k ==> #[trigger] ok(i),
        !ok(k) || k == uninstall_sequence(watcher, server).len() - 1,
    ensures
        ({
            let v = uninstall_sequence(watcher, server);
            let run = uninstall_run(UninstallState { steps: v, next: 0 }, true, ok);
            &&& run == v.take(k + 1)
            &&& v[k] is Disable ==> forall|i: int|
                0 <= i < run.len() ==> !(#[trigger] run[i] is Remove)
        }),
{
    let v = uninstall_sequence(watcher, server);
    let s = UninstallState { steps: v, next: 0 };
    lemma_uninstall_run(s, ok, k);
    an_uninstall_is_in_order(watcher, server);
    let run = uninstall_run(s, true, ok);
    assert(run == v.take(k + 1));
    if v[k] is Disable {
        assert forall|i: int| 0 <= i < run.len() implies !(#[trigger] run[i] is Remove) by {
            assert(run[i] == v[i]);
        }
    }
}

/// Whatever is installed: no file is deleted before everything is stopped, systemd is reloaded
/// exactly once and last, and the watcher stops before the server.
pub proof fn an_uninstall_is_in_order(watcher: bool, server: bool)
    ensures
        ({
            let v = uninstall_sequence(watcher, server);
            &&& v.last() is Reload
            &&& forall|i: int| 0 <= i < v.len() - 1 ==> !(#[trigger] v[i] is Reload)
            &&& forall|i: int, j: int|
                0 <= i < v.len() && 0 <= j < v.len() && #[trigger] v[i] is Disable
                    && #[trigger] v[j] is Remove ==> i < j
            &&& forall|i: int, j: int|
                0 <= i < v.len() && 0 <= j < v.len() && #[trigger] v[i]
                    == UninstallView::Disable("wadb-connect.service"@) && #[trigger] v[j]
                    == UninstallView::Disable("wadb.service"@) ==> i < j
            &&& v.contains(UninstallView::Disable("wadb-connect.service"@)) <==> watcher
            &&& v.contains(UninstallView::Disable("wadb.service"@)) <==> server
        }),
{
    reveal_strlit("wadb-connect.service");
    reveal_strlit("wadb.service");
    let a = "wadb-connect.service"@;
    let b = "wadb.service"@;
    assert(a.len() != b.len());
    let v = uninstall_sequence(watcher, server);
    if watcher {
        assert(v[0] == UninstallView::Disable(a));
    }
    if server {
        assert(v[if watcher { 1int } else { 0int }] == UninstallView::Disable(b));
    }
    if watcher && server {
        assert(v == seq![
            UninstallView::Disable(a),
            UninstallView::Disable(b),
            UninstallView::Remove(a),
            UninstallView::Remove(b),
            UninstallView::Reload,
        ]);
    } else if watcher {
        assert(v == seq![
            UninstallView::Disable(a),
            UninstallView::Remove(a),
            UninstallView::Reload,
        ]);
    } else if server {
        assert(v == seq![
            UninstallView::Disable(b),
            UninstallView::Remove(b),
            UninstallView::Reload,
        ]);
    } else {
        assert(v == seq![UninstallView::Reload]);
    }
}

// ---------------------------------------------------------------------------
// Who owns the port
// ---------------------------------------------------------------------------

/// Who holds the port.
#[derive(Debug, Clone, Copy, PartialEq, Eq, Structural)]
pub enum PortOwner {
    /// The listening socket belongs to our unit's main process.
    Ours(u32),
    /// Somebody else's adb server is listening.
    Foreign,
    /// Something is listening but the owner cannot be read, e.g. another user's socket.
    HeldUnknown,
    Nobody,
}

/// Ownership from the listening process and the unit's main process. "The unit is active" is not
/// the same statement as "the unit owns the port", and an owner that cannot be read is never ours.
pub open spec fn owner(up: bool, listener: Option<u32>, main: Option<u32>) -> PortOwner {
    if !up {
        PortOwner::Nobody
    } else {
        match (listener, main) {
            (Some(l), Some(m)) => if l == m {
                PortOwner::Ours(l)
            } else {
                PortOwner::Foreign
            },
            (Some(_), None) => PortOwner::Foreign,
            (None, _) => PortOwner::HeldUnknown,
        }
    }
}

pub fn classify_owner(up: bool, listener: Option<u32>, main: Option<u32>) -> (r: PortOwner)
    ensures
        r == owner(up, listener, main),
{
    if !up {
        return PortOwner::Nobody;
    }
    match (listener, main) {
        (Some(l), Some(m)) => {
            if l == m {
                PortOwner::Ours(l)
            } else {
                PortOwner::Foreign
            }
        },
        (Some(_), None) => PortOwner::Foreign,
        (None, _) => PortOwner::HeldUnknown,
    }
}

/// A number that fits a process id, or none.
pub open spec fn as_pid(n: Option<nat>) -> Option<u32> {
    match n {
        Some(n) => Some(n as u32),
        None => None,
    }
}

/// Who owns the port, from what `ss` and systemctl print. A unit that is not active owns nothing.
pub fn port_owner(up: bool, ss: &str, main: &str, active: &str) -> (r: PortOwner)
    ensures
        r == owner(
            up,
            as_pid(ss_pid(ss@)),
            if trim(active@) == "active"@ {
                as_pid(reported_main_pid(main@))
            } else {
                None
            },
        ),
{
    let listening = listener_pid(ss);
    let pid = main_pid(main);
    if is_active(active) {
        classify_owner(up, listening, pid)
    } else {
        classify_owner(up, listening, None)
    }
}

/// Whether polling for the port can stop: the unit has it, or the time is up. Startup is not
/// instantaneous, and "`enable --now` returned 0" is not the same statement as "the unit has the
/// port".
pub fn wait_for_ownership(owner: PortOwner, now: u64, deadline: u64) -> (r: bool)
    ensures
        r == (owner is Ours || now > deadline),
{
    matches!(owner, PortOwner::Ours(_)) || now > deadline
}

/// A port is ours only while the process that listens on it is the unit's own.
pub proof fn ours_means_the_units_own_process(
    up: bool,
    listener: Option<u32>,
    main: Option<u32>,
    pid: u32,
)
    ensures
        owner(up, listener, main) == PortOwner::Ours(pid) <==> up && listener == Some(pid) && main
            == Some(pid),
        listener is None ==> !(owner(up, listener, main) is Ours),
        owner(up, listener, main) is Nobody <==> !up,
{
}

} // verus!
