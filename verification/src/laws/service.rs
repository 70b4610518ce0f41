//! What the units say, what is read back out of them, and what an install and an uninstall do.

use crate::adb::MdnsSupport;
use crate::laws::num::a_written_number_is_read_back;
use crate::laws::text::{
    a_split_is_at_the_first, blank, is_core, is_word, lemma_word_first, trimming_takes_off_the_ends,
    words_are_what_white_space_parts,
};
use crate::num::{decimal, lemma_decimal_digits, port_number};
use crate::path::{join as join_path, names};
use crate::service::{
    a_unit_names_its_adb, a_unit_names_its_port, classify_owner, commands, connect_unit_active,
    connect_unit_lines, connect_unit_path, escaped, exec_needs_quotes, holding_port, install,
    install_steps, installed_adb, installed_port, is_active, lingering, main_pid, no_backend,
    parse_systemd_version, port, port_from_env, port_owner, quote_exec, quote_value,
    quoting_loses_nothing, render_connect_unit, render_unit, restart, start, systemctl_failure,
    systemd_number, uninstall_sequence, unit_head, unit_lines, unit_path, unit_tail,
    value_needs_quotes, wait_for_ownership, InstallPlan, PortOwner, Uninstall, UninstallAction,
    UninstallNext, UninstallView, UnitSpec,
};
use crate::text::{
    any_in, ends_with, is_space, join, lemma_find_map, lemma_scan_is, lines, opt_text, starts_with,
    text_of_lines, texts, trim, words, Class,
};
use vstd::prelude::*;

verus! {

// ---------------------------------------------------------------------------
// What the units say
// ---------------------------------------------------------------------------

/// What is read back out of a unit is what it was rendered for: the binary and the port, whatever
/// the path holds short of a line break.
pub proof fn a_unit_is_read_back(
    spec: &UnitSpec,
    unit: String,
    text: &str,
    adb: Option<String>,
    port: Option<u16>,
)
    requires
        spec.adb@.len() > 0,
        !spec.adb@.contains('\n'),
        call_ensures(render_unit, (spec,), unit),
        text@ == unit@,
        call_ensures(installed_adb, (Some(text),), adb),
        call_ensures(installed_port, (Some(text),), port),
    ensures
        opt_text(adb) == Some(spec.adb@),
        port == Some(spec.port),
{
    if any_in(spec.adb@, Class::Is('\n')) {
        let i = choose|i: int|
            0 <= i < spec.adb@.len() && Class::Is('\n').has(#[trigger] spec.adb@[i]);
        assert(spec.adb@.contains('\n'));
    }
    a_unit_names_its_adb(spec.adb@, spec.port, spec.systemd);
    a_unit_names_its_port(spec.adb@, spec.port, spec.systemd);
}

/// Without a unit there is nothing to read, and neither is there in one that runs nothing.
pub proof fn no_unit_names_nothing(
    text: &str,
    a: Option<String>,
    p: Option<u16>,
    b: Option<String>,
    q: Option<u16>,
)
    requires
        call_ensures(installed_adb, (None::<&str>,), a),
        call_ensures(installed_port, (None::<&str>,), p),
        forall|i: int| 0 <= i < lines(text@).len() ==> !starts_with(#[trigger] lines(text@)[i], "ExecStart="@),
        call_ensures(installed_adb, (Some(text),), b),
        call_ensures(installed_port, (Some(text),), q),
    ensures
        a is None && p is None && b is None && q is None,
{
    let f = |l: Seq<char>|
        if starts_with(l, "ExecStart="@) {
            Some(l)
        } else {
            None
        };
    lemma_find_map(lines(text@), f, lines(text@).len() as int);
}

/// The server's unit, line by line, in its three sections. It is restarted always and never given
/// up; it runs the binary itself, in the foreground, on the port that was asked for; and where
/// systemd knows how, it backs off in steps.
pub proof fn what_the_servers_unit_says(
    spec: &UnitSpec,
    unit: String,
    adb: &str,
    quoted: String,
) -> (v: Seq<Seq<char>>)
    requires
        adb@ == spec.adb@,
        call_ensures(render_unit, (spec,), unit),
        call_ensures(quote_exec, (adb,), quoted),
    ensures
        unit@ == text_of_lines(v),
        ({
            let stepped = spec.systemd is Some && spec.systemd->0 >= 254;
            let n: int = if stepped { 17 } else { 15 };
            &&& v.len() == n + 6
            &&& v[0] == "[Unit]"@
            &&& v[5] == "StartLimitIntervalSec=0"@
            &&& starts_with(v[8], "RequiresMountsFor="@)
            &&& v[10] == "[Service]"@
            &&& v[11] == "Type=simple"@
            &&& v[12] == "ExecStart="@ + quoted@ + (if spec.port == 5037 {
                Seq::<char>::empty()
            } else {
                " -L tcp:"@ + decimal(spec.port as nat)
            }) + " nodaemon server"@
            &&& v[13] == "Restart=always"@
            &&& stepped ==> v[14] == "RestartSec=1s"@ && v[15] == "RestartSteps=5"@ && v[16]
                == "RestartMaxDelaySec=30s"@
            &&& !stepped ==> v[14] == "RestartSec=5s"@
            &&& v[n + 2] == "LimitCORE=0"@
            &&& v[n + 4] == "[Install]"@
            &&& v[n + 5] == "WantedBy=default.target"@
        }),
{
    let v = unit_lines(spec.adb@, spec.port, spec.systemd);
    let stepped = spec.systemd is Some && spec.systemd->0 >= 254;
    let n: int = if stepped { 17 } else { 15 };
    reveal_strlit("");
    assert(""@ == Seq::<char>::empty());
    let head = unit_head(spec.adb@);
    assert(head.len() == 12);
    assert(v[8] == head[8]);
    let p = "RequiresMountsFor="@;
    assert(v[8].subrange(0, p.len() as int) == p);
    let tail = unit_tail();
    assert(v[n + 2] == tail[2]);
    assert(v[n + 4] == tail[4]);
    assert(v[n + 5] == tail[5]);
    v
}

/// The watcher's unit follows the server's: it wants it, starts after it, and watches the same
/// port. It runs this program as the watcher, and is restarted always.
pub proof fn what_the_watchers_unit_says(
    wadb: &str,
    port: u16,
    unit: String,
    quoted: String,
) -> (v: Seq<Seq<char>>)
    requires
        call_ensures(render_connect_unit, (wadb, port), unit),
        call_ensures(quote_exec, (wadb,), quoted),
    ensures
        unit@ == text_of_lines(v),
        v.len() == 19,
        v[0] == "[Unit]"@,
        v[3] == "Wants=wadb.service"@,
        v[4] == "After=wadb.service"@,
        v[5] == "StartLimitIntervalSec=0"@,
        v[8] == "[Service]"@,
        v[9] == "Type=simple"@,
        v[12] == "Environment=ANDROID_ADB_SERVER_PORT="@ + decimal(port as nat),
        v[13] == "ExecStart="@ + quoted@ + " daemon"@,
        v[14] == "Restart=always"@,
        v[15] == "RestartSec=5s"@,
        v[17] == "[Install]"@,
        v[18] == "WantedBy=default.target"@,
{
    connect_unit_lines(wadb@, port)
}

/// Whether a value has to stand in quotes: there is white space in it, a quote or a backslash.
pub open spec fn troublesome(s: Seq<char>) -> bool {
    exists|i: int| 0 <= i < s.len() && (is_space(#[trigger] s[i]) || s[i] == '"' || s[i] == '\\')
}

/// Whether a path on a command line has to: there is any of those in it, or something that systemd
/// would expand.
pub open spec fn troublesome_to_run(s: Seq<char>) -> bool {
    troublesome(s) || exists|i: int|
        0 <= i < s.len() && (#[trigger] s[i] == '\'' || s[i] == '$' || s[i] == '%')
}

proof fn lemma_troublesome(s: Seq<char>)
    ensures
        troublesome(s) <==> value_needs_quotes(s),
        troublesome_to_run(s) <==> exec_needs_quotes(s),
{
    if troublesome(s) {
        let i = choose|i: int|
            0 <= i < s.len() && (is_space(#[trigger] s[i]) || s[i] == '"' || s[i] == '\\');
        assert(Class::Space.has(s[i]) || Class::Is('"').has(s[i]) || Class::Is('\\').has(s[i]));
    }
    if value_needs_quotes(s) {
        if any_in(s, Class::Space) {
            let i = choose|i: int| 0 <= i < s.len() && Class::Space.has(#[trigger] s[i]);
            assert(is_space(s[i]));
        } else if any_in(s, Class::Is('"')) {
            let i = choose|i: int| 0 <= i < s.len() && Class::Is('"').has(#[trigger] s[i]);
            assert(s[i] == '"');
        } else {
            let i = choose|i: int| 0 <= i < s.len() && Class::Is('\\').has(#[trigger] s[i]);
            assert(s[i] == '\\');
        }
    }
    if exists|i: int| 0 <= i < s.len() && (#[trigger] s[i] == '\'' || s[i] == '$' || s[i] == '%') {
        let i = choose|i: int|
            0 <= i < s.len() && (#[trigger] s[i] == '\'' || s[i] == '$' || s[i] == '%');
        assert(Class::AnyOf('\'', '$', '%').has(s[i]));
    }
    if any_in(s, Class::AnyOf('\'', '$', '%')) {
        let i = choose|i: int|
            0 <= i < s.len() && Class::AnyOf('\'', '$', '%').has(#[trigger] s[i]);
        assert(s[i] == '\'' || s[i] == '$' || s[i] == '%');
    }
}

/// How many characters of a text are escaped.
pub open spec fn escapes(s: Seq<char>, backslashes: bool) -> nat
    decreases s.len(),
{
    if s.len() == 0 {
        0
    } else {
        escapes(s.drop_last(), backslashes) + if s.last() == '"' || (backslashes && s.last() == '\\') {
            1nat
        } else {
            0nat
        }
    }
}

proof fn lemma_escapes(s: Seq<char>, backslashes: bool)
    ensures
        escaped(s, backslashes).len() == s.len() + escapes(s, backslashes),
    decreases s.len(),
{
    if s.len() > 0 {
        lemma_escapes(s.drop_last(), backslashes);
    }
}

/// A value that is harmless is written as it is, and any other in quotes, with a backslash more for
/// each quote and, in a value, each backslash. What differs is never written alike.
pub proof fn only_what_needs_quotes_is_quoted(
    s: &str,
    t: &str,
    value: String,
    exec: String,
    other_value: String,
    other_exec: String,
)
    requires
        call_ensures(quote_value, (s,), value),
        call_ensures(quote_exec, (s,), exec),
        call_ensures(quote_value, (t,), other_value),
        call_ensures(quote_exec, (t,), other_exec),
    ensures
        !troublesome(s@) ==> value@ == s@,
        troublesome(s@) ==> value@[0] == '"' && value@.last() == '"' && value@.len() == s@.len() + 2
            + escapes(s@, true),
        !troublesome_to_run(s@) ==> exec@ == s@,
        troublesome_to_run(s@) ==> exec@[0] == '"' && exec@.last() == '"' && exec@.len() == s@.len()
            + 2 + escapes(s@, false),
        value@ == other_value@ ==> s@ == t@,
        exec@ == other_exec@ ==> s@ == t@,
{
    reveal_strlit("\"");
    lemma_troublesome(s@);
    lemma_escapes(s@, true);
    lemma_escapes(s@, false);
    quoting_loses_nothing(s@, t@);
}

// ---------------------------------------------------------------------------
// Where things are, and what systemd says
// ---------------------------------------------------------------------------

/// Both units live in one directory, under the configuration of the user.
pub proof fn both_units_live_together(
    config: Option<&str>,
    home: Option<&str>,
    unit: String,
    watcher: String,
)
    requires
        call_ensures(unit_path, (config, home), unit),
        call_ensures(connect_unit_path, (config, home), watcher),
    ensures
        ({
            let base = match config {
                Some(c) => c@,
                None => join_path(
                    match home {
                        Some(h) => h@,
                        None => Seq::<char>::empty(),
                    },
                    ".config"@,
                ),
            };
            let dir = join_path(base, "systemd/user"@);
            &&& unit@ == join_path(dir, "wadb.service"@)
            &&& watcher@ == join_path(dir, "wadb-connect.service"@)
        }),
{
    reveal_strlit("");
    assert(""@ == Seq::<char>::empty());
}

/// The port is the one the installed unit listens on, whatever the environment says; without such a
/// unit it is what the environment asks for, and failing that, 5037.
pub proof fn the_units_port_comes_first(
    unit: Option<&str>,
    value: Option<&str>,
    n: u16,
    read: Option<u16>,
    env: u16,
    r: u16,
)
    requires
        call_ensures(installed_port, (unit,), read),
        call_ensures(port_from_env, (value,), env),
        call_ensures(port, (unit, value), r),
    ensures
        read matches Some(p) ==> r == p,
        read is None ==> r == env,
        value is None ==> env == 5037,
        value matches Some(v) ==> v@ == decimal(n as nat) ==> env == n,
        value matches Some(v) ==> port_number(v@) is None ==> env == 5037,
{
    a_written_number_is_read_back(n as nat, decimal(n as nat), 0);
}

proof fn lemma_second_word(name: Seq<char>, w: Seq<char>, rest: Seq<char>)
    requires
        is_word(name),
        is_word(w),
        rest.len() > 0 ==> is_space(rest[0]),
    ensures
        words(name + seq![' '] + (w + rest)).len() > 1,
        words(name + seq![' '] + (w + rest))[1] == w,
{
    let gap = seq![' '];
    let tail = w + rest;
    assert(crate::laws::text::blank(gap));
    words_are_what_white_space_parts(name, gap, tail);
    lemma_word_first(w, rest);
    let all = words(name + gap + tail);
    assert(all == seq![name] + words(tail));
    assert(words(tail)[0] == w);
    assert(all[1] == words(tail)[0]);
}

/// The version of systemd is the number at the head of its second word.
pub proof fn the_version_of_systemd(
    name: Seq<char>,
    version: u32,
    stop: Seq<char>,
    rest: Seq<char>,
    text: &str,
    r: Option<u32>,
)
    requires
        is_word(name),
        stop.len() > 0 ==> is_word(stop) && (stop[0] == '.' || stop[0] == '-' || stop[0] == '~'),
        rest.len() > 0 ==> is_space(rest[0]),
        text@ == name + seq![' '] + (decimal(version as nat) + stop + rest),
        call_ensures(parse_systemd_version, (text,), r),
    ensures
        r == Some(version),
{
    let d = decimal(version as nat);
    lemma_decimal_digits(version as nat);
    a_written_number_is_read_back(version as nat, d, 0);
    let w = d + stop;
    assert forall|i: int| 0 <= i < w.len() implies !is_space(#[trigger] w[i]) by {
        if i < d.len() {
            assert(w[i] == d[i]);
        } else {
            assert(w[i] == stop[i - d.len()]);
        }
    }
    assert(is_word(w));
    lemma_second_word(name, w, rest);
    let n = d.len() as int;
    assert forall|j: int| 0 <= j < n implies !Class::AnyOf('.', '-', '~').has(#[trigger] w[j]) by {
        assert(w[j] == d[j]);
    }
    if stop.len() > 0 {
        assert(w[n] == stop[0]);
    }
    lemma_scan_is(w, 0, Class::AnyOf('.', '-', '~'), n);
    assert(w.take(n) == d);
    assert(systemd_number(text@) == Some(version as nat));
}

/// What systemctl and loginctl print is taken at its word, without the white space around it.
pub proof fn a_word_is_taken_as_it_is(
    a: Seq<char>,
    word: Seq<char>,
    b: Seq<char>,
    out: &str,
    active: bool,
    watcher: bool,
    lingers: bool,
)
    requires
        blank(a),
        blank(b),
        is_core(word),
        out@ == a + word + b,
        call_ensures(is_active, (out,), active),
        call_ensures(connect_unit_active, (out,), watcher),
        call_ensures(lingering, (out,), lingers),
    ensures
        active <==> word == "active"@,
        watcher <==> word == "active"@,
        lingers <==> word == "yes"@,
{
    trimming_takes_off_the_ends(a, word, b);
}

/// The main process is the number that is printed, and there is none where it is zero.
pub proof fn a_main_process_is_read_back(
    a: Seq<char>,
    pid: u32,
    b: Seq<char>,
    out: &str,
    r: Option<u32>,
)
    requires
        blank(a),
        blank(b),
        out@ == a + decimal(pid as nat) + b,
        call_ensures(main_pid, (out,), r),
    ensures
        pid == 0 ==> r is None,
        pid != 0 ==> r == Some(pid),
{
    let d = decimal(pid as nat);
    lemma_decimal_digits(pid as nat);
    assert(is_core(d));
    trimming_takes_off_the_ends(a, d, b);
    a_written_number_is_read_back(pid as nat, d, 0);
}

// ---------------------------------------------------------------------------
// Installing
// ---------------------------------------------------------------------------

/// The systemctl calls of an install, in order: systemd reads the units, both are enabled and
/// started, and those that changed, and only those, are restarted.
pub proof fn what_an_install_calls(server: bool, watcher: bool, r: Vec<Vec<String>>)
    requires
        call_ensures(install_steps, (server, watcher), r),
    ensures
        ({
            let n: int = if server { 4 } else { 3 };
            &&& r@.len() == n + if watcher {
                1int
            } else {
                0int
            }
            &&& texts(r@[0]@) == seq!["daemon-reload"@]
            &&& texts(r@[1]@) == seq!["enable"@, "--now"@, "wadb.service"@]
            &&& texts(r@[2]@) == seq!["enable"@, "--now"@, "wadb-connect.service"@]
            &&& server ==> texts(r@[3]@) == seq!["restart"@, "wadb.service"@]
            &&& watcher ==> texts(r@[n]@) == seq!["restart"@, "wadb-connect.service"@]
        }),
{
    let n: int = if server { 4 } else { 3 };
    assert(commands(r@).len() == r@.len());
    assert(commands(r@)[0] == texts(r@[0]@));
    assert(commands(r@)[1] == texts(r@[1]@));
    assert(commands(r@)[2] == texts(r@[2]@));
    if server {
        assert(commands(r@)[3] == texts(r@[3]@));
    }
    if watcher {
        assert(commands(r@)[n] == texts(r@[n]@));
    }
}

/// An install is refused where there is no adb, where it could not be asked about mDNS, and where
/// it has no backend, each for its own reason. Otherwise both units are written as they are
/// rendered, what already says the same counts as unchanged, and the calls are those for what
/// changed.
pub proof fn only_a_binary_with_a_backend_is_installed(
    spec: &Result<UnitSpec, String>,
    support: &Result<MdnsSupport, String>,
    version: Option<&str>,
    wadb: &str,
    unit_now: Option<&str>,
    connect_now: Option<&str>,
    r: Result<InstallPlan, String>,
    unit: String,
    watcher: String,
    steps: Vec<Vec<String>>,
    adb: &str,
    refusal: String,
)
    requires
        call_ensures(install, (spec, support, version, wadb, unit_now, connect_now), r),
        spec matches Ok(s) ==> {
            &&& call_ensures(render_unit, (s,), unit)
            &&& call_ensures(render_connect_unit, (wadb, s.port), watcher)
            &&& adb@ == s.adb@
            &&& call_ensures(no_backend, (adb, version), refusal)
        },
        r matches Ok(p) ==> call_ensures(install_steps, (p.changed, p.connect_changed), steps),
    ensures
        r is Ok <==> spec is Ok && (support matches Ok(m) && m is Present),
        spec matches Err(e) ==> (r matches Err(why) && why@ == e@),
        spec is Ok && support is Err ==> (r matches Err(why) && why@ == support->Err_0@),
        spec is Ok && (support matches Ok(m) && m is Absent) ==> (r matches Err(why) && why@
            == refusal@),
        r matches Ok(p) ==> {
            &&& p.unit@ == unit@
            &&& p.connect_unit@ == watcher@
            &&& p.changed <==> !(unit_now is Some && unit_now->0@ == unit@)
            &&& p.connect_changed <==> !(connect_now is Some && connect_now->0@ == watcher@)
            &&& commands(p.steps@) == commands(steps@)
            &&& p.backoff_full <==> spec->Ok_0.systemd is Some && spec->Ok_0.systemd->0 >= 254
            &&& p.warning is Some <==> names(wadb@).contains("target"@)
            &&& support matches Ok(MdnsSupport::Present(backend)) && p.mdns@ == backend@
        },
{
}

/// What is said of a binary without a backend names it and its version.
pub proof fn a_refusal_names_the_binary(adb: &str, version: Option<&str>, r: String)
    requires
        call_ensures(no_backend, (adb, version), r),
    ensures
        starts_with(
            r@,
            adb@ + " (version "@ + (match version {
                Some(v) => v@,
                None => "unknown"@,
            }) + ") has no mDNS backend"@,
        ),
        ends_with(r@, adb@ + " mdns check"@),
{
    reveal_strlit(") has no mDNS backend");
    reveal_strlit(
        ") has no mDNS backend, so adb cannot reconnect paired devices on its own.\nInstall Android SDK Platform-Tools and re-run, or set $ADB to a build that has it.\nCheck it yourself with: ADB_SERVER_SOCKET=tcp:127.0.0.1:<scratch port> ",
    );
    let v = match version {
        Some(v) => v@,
        None => "unknown"@,
    };
    let head = adb@ + " (version "@ + v + ") has no mDNS backend"@;
    let tail = adb@ + " mdns check"@;
    assert(r@.subrange(0, head.len() as int) =~= head);
    let n = r@.len() - tail.len();
    assert(r@.subrange(n, n + tail.len()) =~= tail);
}

/// The port whose server is asked: the installed unit's where something listens there, and
/// otherwise the one to install on.
pub proof fn which_server_is_asked(installed: Option<u16>, up: bool, target: u16, r: u16)
    requires
        call_ensures(holding_port, (installed, up, target), r),
    ensures
        installed is Some && up ==> r == installed->0,
        installed is None || !up ==> r == target,
{
}

// ---------------------------------------------------------------------------
// Uninstalling
// ---------------------------------------------------------------------------

/// An uninstall begins with stopping the watcher, or the server where there is no watcher, or with
/// reading the units again where there is neither.
pub proof fn what_an_uninstall_begins_with(
    watcher: bool,
    server: bool,
    u: Uninstall,
    r: UninstallNext,
)
    requires
        call_ensures(Uninstall::begin, (watcher, server), u),
        call_ensures(Uninstall::go_on, (u, Ok(())), r),
    ensures
        r matches UninstallNext::Do(UninstallAction::Systemctl(args), rest) && texts(args@) == (
        if watcher {
            seq!["disable"@, "--now"@, "wadb-connect.service"@]
        } else if server {
            seq!["disable"@, "--now"@, "wadb.service"@]
        } else {
            seq!["daemon-reload"@]
        }),
{
    let v = uninstall_sequence(watcher, server);
    if watcher {
        assert(v[0] == UninstallView::Disable("wadb-connect.service"@));
    } else if server {
        assert(v[0] == UninstallView::Disable("wadb.service"@));
    } else {
        assert(v[0] == UninstallView::Reload);
    }
}

/// With both units installed, an uninstall in which all goes well stops the watcher, then the
/// server, then deletes the one file and the other, and then has systemd read the units again. Then
/// it is over.
pub proof fn the_whole_uninstall(
    u0: Uninstall,
    r0: UninstallNext,
    r1: UninstallNext,
    r2: UninstallNext,
    r3: UninstallNext,
    r4: UninstallNext,
    r5: UninstallNext,
)
    requires
        call_ensures(Uninstall::begin, (true, true), u0),
        call_ensures(Uninstall::go_on, (u0, Ok(())), r0),
        r0 matches UninstallNext::Do(_, u) && call_ensures(Uninstall::go_on, (u, Ok(())), r1),
        r1 matches UninstallNext::Do(_, u) && call_ensures(Uninstall::go_on, (u, Ok(())), r2),
        r2 matches UninstallNext::Do(_, u) && call_ensures(Uninstall::go_on, (u, Ok(())), r3),
        r3 matches UninstallNext::Do(_, u) && call_ensures(Uninstall::go_on, (u, Ok(())), r4),
        r4 matches UninstallNext::Do(_, u) && call_ensures(Uninstall::go_on, (u, Ok(())), r5),
    ensures
        r0 matches UninstallNext::Do(UninstallAction::Systemctl(args), _) && texts(args@) == seq![
            "disable"@,
            "--now"@,
            "wadb-connect.service"@,
        ],
        r1 matches UninstallNext::Do(UninstallAction::Systemctl(args), _) && texts(args@) == seq![
            "disable"@,
            "--now"@,
            "wadb.service"@,
        ],
        r2 matches UninstallNext::Do(UninstallAction::RemoveWatcher, _),
        r3 matches UninstallNext::Do(UninstallAction::RemoveServer, _),
        r4 matches UninstallNext::Do(UninstallAction::Systemctl(args), _) && texts(args@) == seq![
            "daemon-reload"@,
        ],
        r5 is Done,
{
    let v = uninstall_sequence(true, true);
    reveal_strlit("wadb-connect.service");
    reveal_strlit("wadb.service");
    assert("wadb-connect.service"@.len() != "wadb.service"@.len());
    assert(v == seq![
        UninstallView::Disable("wadb-connect.service"@),
        UninstallView::Disable("wadb.service"@),
        UninstallView::Remove("wadb-connect.service"@),
        UninstallView::Remove("wadb.service"@),
        UninstallView::Reload,
    ]);
}

/// With one unit installed it is the same for that one alone.
pub proof fn an_uninstall_of_one(
    watcher: bool,
    u0: Uninstall,
    r0: UninstallNext,
    r1: UninstallNext,
    r2: UninstallNext,
    r3: UninstallNext,
)
    requires
        call_ensures(Uninstall::begin, (watcher, !watcher), u0),
        call_ensures(Uninstall::go_on, (u0, Ok(())), r0),
        r0 matches UninstallNext::Do(_, u) && call_ensures(Uninstall::go_on, (u, Ok(())), r1),
        r1 matches UninstallNext::Do(_, u) && call_ensures(Uninstall::go_on, (u, Ok(())), r2),
        r2 matches UninstallNext::Do(_, u) && call_ensures(Uninstall::go_on, (u, Ok(())), r3),
    ensures
        r0 matches UninstallNext::Do(UninstallAction::Systemctl(args), _) && texts(args@) == seq![
            "disable"@,
            "--now"@,
            if watcher {
                "wadb-connect.service"@
            } else {
                "wadb.service"@
            },
        ],
        watcher ==> r1 matches UninstallNext::Do(UninstallAction::RemoveWatcher, _),
        !watcher ==> r1 matches UninstallNext::Do(UninstallAction::RemoveServer, _),
        r2 matches UninstallNext::Do(UninstallAction::Systemctl(args), _) && texts(args@) == seq![
            "daemon-reload"@,
        ],
        r3 is Done,
{
    let v = uninstall_sequence(watcher, !watcher);
    reveal_strlit("wadb-connect.service");
    reveal_strlit("wadb.service");
    assert("wadb-connect.service"@.len() != "wadb.service"@.len());
    if watcher {
        assert(v == seq![
            UninstallView::Disable("wadb-connect.service"@),
            UninstallView::Remove("wadb-connect.service"@),
            UninstallView::Reload,
        ]);
    } else {
        assert(v == seq![
            UninstallView::Disable("wadb.service"@),
            UninstallView::Remove("wadb.service"@),
            UninstallView::Reload,
        ]);
    }
}

/// Whatever failed, nothing more is done, and the reason is passed on. Where it was a unit that
/// could not be stopped, that is said.
pub proof fn a_failure_ends_an_uninstall(
    u: Uninstall,
    last: Result<(), String>,
    action: UninstallAction,
    rest: Uninstall,
    why: String,
    r: UninstallNext,
)
    requires
        call_ensures(Uninstall::go_on, (u, last), UninstallNext::Do(action, rest)),
        call_ensures(Uninstall::go_on, (rest, Err(why)), r),
    ensures
        last is Ok,
        r matches UninstallNext::Abort { context, why: said } && said@ == why@ && (context is Some
            <==> (action matches UninstallAction::Systemctl(args) && texts(args@)[0] == "disable"@)),
{
    reveal_strlit("disable");
    reveal_strlit("daemon-reload");
    assert("disable"@.len() != "daemon-reload"@.len());
}

// ---------------------------------------------------------------------------
// Who owns the port
// ---------------------------------------------------------------------------

/// The port is the unit's own only where the process that listens is the unit's main process, and
/// the unit is active. Where nothing answers it is nobody's, and where the listener cannot be read
/// it is not claimed.
pub proof fn whose_port_it_is(
    up: bool,
    ss: &str,
    main: &str,
    active: &str,
    listener: Option<u32>,
    pid: Option<u32>,
    runs: bool,
    r: PortOwner,
)
    requires
        call_ensures(crate::adb::parse_ss_pid, (ss,), listener),
        call_ensures(main_pid, (main,), pid),
        call_ensures(is_active, (active,), runs),
        call_ensures(port_owner, (up, ss, main, active), r),
    ensures
        r is Nobody <==> !up,
        r is HeldUnknown <==> up && listener is None,
        r is Ours <==> up && listener is Some && runs && pid == listener,
        r matches PortOwner::Ours(p) ==> listener == Some(p),
        r is Foreign <==> up && listener is Some && !(runs && pid == listener),
{
}

/// The same, of the processes themselves.
pub proof fn whose_process_it_is(
    up: bool,
    listener: Option<u32>,
    main: Option<u32>,
    r: PortOwner,
)
    requires
        call_ensures(classify_owner, (up, listener, main), r),
    ensures
        r is Nobody <==> !up,
        r is HeldUnknown <==> up && listener is None,
        r is Ours <==> up && listener is Some && main == listener,
        r matches PortOwner::Ours(p) ==> listener == Some(p),
        r is Foreign <==> up && listener is Some && main != listener,
{
}

/// Polling stops where the unit has the port, and where the time is up.
pub proof fn when_polling_stops(owner: PortOwner, now: u64, deadline: u64, r: bool)
    requires
        call_ensures(wait_for_ownership, (owner, now, deadline), r),
    ensures
        owner is Ours ==> r,
        now > deadline ==> r,
        !(owner is Ours) && now <= deadline ==> !r,
{
}

/// Starting and restarting are said of the server's unit.
pub proof fn what_is_started(s: Vec<String>, r: Vec<String>)
    requires
        call_ensures(start, (), s),
        call_ensures(restart, (), r),
    ensures
        texts(s@).len() == 2 && texts(s@)[0] == "start"@ && texts(s@)[1] == "wadb.service"@,
        texts(r@).len() == 2 && texts(r@)[0] == "restart"@ && texts(r@)[1] == "wadb.service"@,
{
}

/// The unit waits for the directory that its binary is in.
pub proof fn a_unit_waits_for_its_mount(
    dir: Seq<char>,
    name: Seq<char>,
    spec: &UnitSpec,
    unit: String,
    d: &str,
    quoted: String,
) -> (v: Seq<Seq<char>>)
    requires
        crate::laws::net::plain_name(name),
        name != seq!['.', '.'],
        crate::laws::net::ends_in_a_name(dir),
        spec.adb@ == dir.push('/') + name,
        d@ == dir,
        call_ensures(render_unit, (spec,), unit),
        call_ensures(quote_value, (d,), quoted),
    ensures
        unit@ == text_of_lines(v),
        v.len() > 8,
        v[8] == "RequiresMountsFor="@ + quoted@,
{
    crate::laws::net::lemma_parent(dir, name);
    let v = unit_lines(spec.adb@, spec.port, spec.systemd);
    assert(v[8] == unit_head(spec.adb@)[8]);
    v
}

/// The line that a unit runs is the first that begins with `ExecStart=`.
pub open spec fn runs_line(unit: Seq<char>, line: Seq<char>, i: int) -> bool {
    &&& 0 <= i < lines(unit).len()
    &&& lines(unit)[i] == "ExecStart="@ + line
    &&& forall|j: int| 0 <= j < i ==> !starts_with(#[trigger] lines(unit)[j], "ExecStart="@)
}

proof fn lemma_runs_line(unit: Seq<char>, line: Seq<char>, i: int)
    requires
        runs_line(unit, line, i),
    ensures
        crate::service::exec_line(unit) == Some("ExecStart="@ + line),
{
    let f = |l: Seq<char>|
        if starts_with(l, "ExecStart="@) {
            Some(l)
        } else {
            None
        };
    crate::laws::text::prefixes_and_suffixes("ExecStart="@, line);
    lemma_find_map(lines(unit), f, i);
}

proof fn lemma_plain_command(program: Seq<char>, args: Seq<char>)
    requires
        is_word(program),
        program[0] != '"',
        args.len() > 0,
        !is_space(args.last()),
    ensures
        ({
            let line = program.push(' ') + args;
            &&& trim(line) == line
            &&& line[0] == program[0]
            &&& words(line).len() > 0
            &&& words(line)[0] == program
        }),
{
    let line = program.push(' ') + args;
    assert(line[0] == program[0]);
    assert(line.last() == args.last());
    crate::text::lemma_trim_same(line);
    words_are_what_white_space_parts(program, seq![' '], args);
    assert(program + seq![' '] + args =~= line);
    assert(words(line) =~= seq![program] + words(args));
}

/// Out of any unit, also one that somebody wrote by hand, the binary is the first word of the
/// command.
pub proof fn the_binary_of_any_unit(
    unit: &str,
    i: int,
    program: Seq<char>,
    args: Seq<char>,
    adb: Option<String>,
)
    requires
        is_word(program),
        program[0] != '"',
        args.len() > 0,
        !is_space(args.last()),
        runs_line(unit@, program.push(' ') + args, i),
        call_ensures(installed_adb, (Some(unit),), adb),
    ensures
        opt_text(adb) == Some(program),
{
    let line = program.push(' ') + args;
    lemma_runs_line(unit@, line, i);
    crate::laws::text::prefixes_and_suffixes("ExecStart="@, line);
    lemma_plain_command(program, args);
}

proof fn lemma_plain_arguments(program: Seq<char>, args: Seq<char>)
    requires
        is_word(program),
        program[0] != '"',
        args.len() > 0,
        !is_space(args.last()),
    ensures
        ({
            let whole = "ExecStart="@ + (program.push(' ') + args);
            crate::service::arguments_of(whole) == whole
        }),
{
    crate::laws::text::prefixes_and_suffixes("ExecStart="@, program.push(' ') + args);
    lemma_plain_command(program, args);
}

/// The port of any unit is 5037 where none is asked for.
pub proof fn the_usual_port_of_any_unit(
    unit: &str,
    i: int,
    program: Seq<char>,
    args: Seq<char>,
    port: Option<u16>,
)
    requires
        is_word(program),
        program[0] != '"',
        args.len() > 0,
        !is_space(args.last()),
        runs_line(unit@, program.push(' ') + args, i),
        !crate::text::contains("ExecStart="@ + (program.push(' ') + args), "-L tcp:"@),
        call_ensures(installed_port, (Some(unit),), port),
    ensures
        port == Some(5037u16),
{
    let line = program.push(' ') + args;
    let whole = "ExecStart="@ + line;
    lemma_runs_line(unit@, line, i);
    lemma_plain_arguments(program, args);
    crate::laws::text::no_split_without_an_occurrence(whole, "-L tcp:"@);
}

/// The port of any unit is the number behind the first `-L tcp:`.
pub proof fn the_port_of_any_unit(
    unit: &str,
    i: int,
    program: Seq<char>,
    args: Seq<char>,
    before: Seq<char>,
    n: u16,
    after: Seq<char>,
    port: Option<u16>,
)
    requires
        is_word(program),
        program[0] != '"',
        args.len() > 0,
        !is_space(args.last()),
        runs_line(unit@, program.push(' ') + args, i),
        "ExecStart="@ + (program.push(' ') + args) == before + "-L tcp:"@ + (decimal(n as nat)
            + after),
        forall|j: int|
            0 <= j < before.len() ==> !#[trigger] crate::text::matches_at(
                before + "-L tcp:"@ + (decimal(n as nat) + after),
                "-L tcp:"@,
                j,
            ),
        !crate::text::contains(decimal(n as nat) + after, "-L tcp:"@),
        after.len() == 0 || is_space(after[0]),
        call_ensures(installed_port, (Some(unit),), port),
    ensures
        port == Some(n),
{
    let line = program.push(' ') + args;
    let d = decimal(n as nat);
    let rest = d + after;
    lemma_runs_line(unit@, line, i);
    lemma_plain_arguments(program, args);
    a_split_is_at_the_first(before, "-L tcp:"@, rest);
    crate::laws::text::no_split_without_an_occurrence(rest, "-L tcp:"@);
    lemma_decimal_digits(n as nat);
    assert(is_word(d));
    lemma_word_first(d, after);
    assert(words(rest)[0] == d);
    a_written_number_is_read_back(n as nat, d, 0);
}

/// The steps of an uninstall, as they are listed.
pub proof fn what_the_steps_of_an_uninstall_are(
    watcher: bool,
    server: bool,
    r: Vec<crate::service::UninstallStep>,
)
    requires
        call_ensures(crate::service::uninstall_steps, (watcher, server), r),
    ensures
        ({
            let a: int = if watcher { 1 } else { 0 };
            let b: int = if server { 1 } else { 0 };
            &&& r@.len() == 2 * a + 2 * b + 1
            &&& watcher ==> r@[0]@ == UninstallView::Disable("wadb-connect.service"@) && r@[a
                + b]@ == UninstallView::Remove("wadb-connect.service"@)
            &&& server ==> r@[a]@ == UninstallView::Disable("wadb.service"@) && r@[2 * a + b]@
                == UninstallView::Remove("wadb.service"@)
            &&& r@[2 * a + 2 * b]@ == UninstallView::Reload
        }),
{
    let a: int = if watcher { 1 } else { 0 };
    let b: int = if server { 1 } else { 0 };
    let v = crate::service::uninstall_views(r@);
    assert(v.len() == r@.len());
    if watcher {
        assert(v[0] == r@[0]@);
        assert(v[a + b] == r@[a + b]@);
    }
    if server {
        assert(v[a] == r@[a]@);
        assert(v[2 * a + b] == r@[2 * a + b]@);
    }
    assert(v[2 * a + 2 * b] == r@[2 * a + 2 * b]@);
}

/// A systemctl call that failed is named, with what it said.
pub proof fn what_a_failed_call_says(args: &[String], stderr: &str, r: String)
    requires
        call_ensures(systemctl_failure, (args, stderr), r),
    ensures
        r@ == "systemctl --user "@ + join(texts(args@), " "@) + " failed: "@ + trim(stderr@),
{
}

/// The process that listens is the one that is printed.
pub proof fn which_process_listens(ss: &str, r: Option<u32>, s: Option<u32>)
    requires
        call_ensures(crate::service::listener_pid, (ss,), r),
        call_ensures(crate::adb::parse_ss_pid, (ss,), s),
    ensures
        r == s,
{
}

/// An install from a build directory is warned of, by name.
pub proof fn a_build_directory_is_warned_of(
    spec: &Result<UnitSpec, String>,
    support: &Result<MdnsSupport, String>,
    version: Option<&str>,
    wadb: &str,
    unit_now: Option<&str>,
    connect_now: Option<&str>,
    p: InstallPlan,
)
    requires
        call_ensures(install, (spec, support, version, wadb, unit_now, connect_now), Ok(p)),
    ensures
        p.warning is Some <==> names(wadb@).contains("target"@),
        p.warning matches Some(w) ==> starts_with(
            w@,
            "warning: installing from a build directory ("@ + wadb@ + ")"@,
        ),
{
    if let Some(w) = p.warning {
        reveal_strlit(")");
        reveal_strlit(
            ").\n`cargo clean` would leave the watcher unit crash-looping. Prefer `cargo install --path .`",
        );
        let head = "warning: installing from a build directory ("@ + wadb@ + ")"@;
        assert(w@.subrange(0, head.len() as int) =~= head);
    }
}

} // verus!
