//! What the commands print, and what they do next.

use crate::adb::{
    devices as device_views, text_pairs, Device, DeviceView, MdnsSupport, ProbeCommand,
};
use crate::daemon::Outcome;
use crate::discovery::{first_label, services, Found};
use crate::laws::lists::{is_pick, lemma_filter_picks};
use crate::laws::text::a_split_from_the_end;
use crate::net::{address_text, IpAddr};
use crate::num::decimal;
use crate::pairing::PairOutcome;
use crate::path::same_path;
use crate::report::{
    adb_for_commands, adb_part, browsed, browser_part, connect_once, device_line, host_of,
    install_end, install_lines, no_server, pair_end, pair_manually, pass_report, server_part,
    service_line, status, status_lines, takeover, takeover_end, takeover_needed, takeover_next,
    trim_brackets_end, trim_brackets_start, uninstall_lines, unit_part, visible_services, PairNext,
    ServerFacts, TakeoverNext, UnitAdb, UnitFacts,
};
use crate::service::{InstallReport, PortOwner};
use crate::text::{contains, join, lines, opt_text, starts_with, texts, trim};
use crate::ui::UnitState;
use vstd::prelude::*;

verus! {

// ---------------------------------------------------------------------------
// status
// ---------------------------------------------------------------------------

/// Whether a line is the one for a device: its serial, its state, and its model in brackets.
pub open spec fn tells_device(line: Seq<char>, d: Device) -> bool {
    line == "          "@ + d.serial@ + " "@ + d.state@ + " ["@ + (match d.model {
        Some(m) => m@,
        None => Seq::<char>::empty(),
    }) + "]"@
}

/// Whether a line is the one for a service: its name, its addresses and its port.
pub open spec fn tells_service(line: Seq<char>, f: Found) -> bool {
    line == "          "@ + first_label(f.fullname@) + " -> ["@ + join(
        f.addresses@.map_values(|x: IpAddr| address_text(x)),
        ", "@,
    ) + "]:"@ + decimal(f.port as nat)
}

/// Without a unit, a status is two lines, whatever is known beside it: what an install would use,
/// and nothing of anybody's server.
pub proof fn without_a_unit_nothing_else_is_told(
    resolved: &Result<String, String>,
    facts: Option<&UnitFacts>,
    v: Vec<String>,
)
    requires
        call_ensures(status_lines, (UnitState::NotInstalled, resolved, facts), v),
    ensures
        v@.len() == 2,
        v@[0]@ == "unit:     not installed - run `wadb install`"@,
        resolved matches Ok(p) ==> v@[1]@ == "adb:      "@ + p@ + " (would be used)"@,
        resolved matches Err(e) ==> v@[1]@ == "adb:      "@ + e@,
{
    assert(texts(v@).len() == v@.len());
    assert(texts(v@)[0] == v@[0]@);
    assert(texts(v@)[1] == v@[1]@);
}

/// With a unit, a status says of it whether it runs, whether the watcher does, on which port, and
/// whose server is there.
pub proof fn what_is_told_of_the_unit(
    unit: UnitState,
    resolved: &Result<String, String>,
    facts: &UnitFacts,
    v: Vec<String>,
)
    requires
        !(unit is NotInstalled),
        call_ensures(status_lines, (unit, resolved, Some(facts)), v),
    ensures
        v@.len() >= 6,
        unit is Active ==> v@[0]@ == "unit:     active"@,
        unit is Inactive ==> v@[0]@ == "unit:     installed but not active"@,
        facts.watcher ==> v@[1]@ == "watcher:  active"@,
        !facts.watcher ==> starts_with(v@[1]@, "watcher:  NOT running"@),
        v@[2]@ == "port:     "@ + decimal(facts.port as nat),
        facts.owner matches PortOwner::Ours(pid) ==> v@[3]@ == "server:   ours, pid "@ + decimal(
            pid as nat,
        ),
        facts.owner is Foreign ==> starts_with(v@[3]@, "server:   held by another adb server"@),
        facts.owner is HeldUnknown ==> v@[3]@ == "server:   port held, owner could not be read"@,
        facts.owner is Nobody ==> v@[3]@ == "server:   down"@,
{
    assert(texts(v@).len() == v@.len());
    assert(texts(v@)[0] == v@[0]@);
    assert(texts(v@)[1] == v@[1]@);
    assert(texts(v@)[2] == v@[2]@);
    assert(texts(v@)[3] == v@[3]@);
    reveal_strlit("watcher:  ");
    reveal_strlit("active");
    reveal_strlit("watcher:  active");
    reveal_strlit("NOT running - wireless devices will not come back on their own");
    reveal_strlit("watcher:  NOT running");
    assert("watcher:  "@ + "active"@ =~= "watcher:  active"@);
    let n = "watcher:  "@ + "NOT running - wireless devices will not come back on their own"@;
    let p = "watcher:  NOT running"@;
    assert(n.subrange(0, p.len() as int) =~= p);
    reveal_strlit("server:   held by another adb server");
    reveal_strlit("server:   held by another adb server - `wadb takeover` to hand the port over");
    let h = "server:   held by another adb server - `wadb takeover` to hand the port over"@;
    let q = "server:   held by another adb server"@;
    assert(h.subrange(0, q.len() as int) =~= q);
}

/// Where the lines on adb stand, and how many there are.
pub open spec fn adb_rows(adb: UnitAdb) -> int {
    if adb is Probed {
        2
    } else {
        1
    }
}

/// A status says which binary the unit runs, and whether it can find devices: what a probe says is
/// told as it is.
pub proof fn what_is_told_of_adb(
    unit: UnitState,
    resolved: &Result<String, String>,
    facts: &UnitFacts,
    v: Vec<String>,
)
    requires
        !(unit is NotInstalled),
        call_ensures(status_lines, (unit, resolved, Some(facts)), v),
    ensures
        v@.len() > 4 + adb_rows(facts.adb),
        facts.adb matches UnitAdb::Probed(path, support) ==> {
            &&& v@[4]@ == "adb:      "@ + path@
            &&& support matches Ok(MdnsSupport::Present(m)) ==> v@[5]@ == "mdns:     "@ + m@
            &&& support matches Ok(MdnsSupport::Absent) ==> starts_with(
                v@[5]@,
                "mdns:     MISSING"@,
            )
            &&& support matches Err(e) ==> v@[5]@ == "mdns:     could not probe ("@ + e@ + ")"@
        },
        facts.adb matches UnitAdb::Gone(path) ==> starts_with(
            v@[4]@,
            "adb:      "@ + path@ + " is gone"@,
        ),
        facts.adb is Unreadable ==> v@[4]@ == "adb:      could not read the unit's ExecStart"@,
{
    assert(texts(v@).len() == v@.len());
    assert(texts(v@)[4] == v@[4]@);
    assert(texts(v@)[4] == adb_part(facts.adb)[0]);
    if facts.adb is Probed {
        assert(texts(v@)[5] == v@[5]@);
        assert(texts(v@)[5] == adb_part(facts.adb)[1]);
    }
    reveal_strlit("mdns:     MISSING");
    reveal_strlit(
        "mdns:     MISSING - this adb cannot reconnect devices on its own; re-run `wadb install`",
    );
    let m =
        "mdns:     MISSING - this adb cannot reconnect devices on its own; re-run `wadb install`"@;
    let p = "mdns:     MISSING"@;
    assert(m.subrange(0, p.len() as int) =~= p);
    reveal_strlit(" is gone");
    reveal_strlit(" is gone - the unit will fail; re-run `wadb install`");
    if let UnitAdb::Gone(path) = facts.adb {
        let head = "adb:      "@ + path@ + " is gone"@;
        assert(v@[4]@.subrange(0, head.len() as int) =~= head);
    }
}

/// Of a server that is up, a status counts its devices and lists every wireless one, in order; of
/// one that is down it says nothing more. `at` is where that begins.
pub proof fn every_wireless_device_is_told(
    unit: UnitState,
    resolved: &Result<String, String>,
    facts: &UnitFacts,
    v: Vec<String>,
    s: ServerFacts,
    wireless: Seq<Device>,
)
    requires
        !(unit is NotInstalled),
        call_ensures(status_lines, (unit, resolved, Some(facts)), v),
        facts.server == Some(s),
        is_pick(
            s.devices@,
            |d: Device| d.transport is Tcp || d.transport is Mdns,
            wireless,
        ),
    ensures
        ({
            let a = 4 + adb_rows(facts.adb);
            let b: int = if s.version is Some { a + 1 } else { a };
            &&& s.version matches Some(t) ==> v@[a]@ == "protocol: "@ + t@
            &&& v@.len() > b + wireless.len()
            &&& v@[b]@ == "devices:  "@ + decimal(wireless.len()) + " wireless, "@ + decimal(
                s.devices@.len(),
            ) + " total"@
            &&& forall|i: int|
                0 <= i < wireless.len() ==> tells_device(
                    (#[trigger] v@[b + 1 + i])@,
                    wireless[i],
                )
            &&& s.services matches Some(t) ==> v@[b + 1 + wireless.len()]@ == "discovery: "@
                + decimal(visible_services(t@)) + " adb service(s) visible to adb's own mDNS"@
        }),
{
    let a = 4 + adb_rows(facts.adb);
    let b: int = if s.version is Some { a + 1 } else { a };
    let all = device_views(s.devices@);
    let keep = |d: DeviceView| d.transport.wireless();
    let kept = all.filter(keep);
    lemma_filter_picks(all, keep);
    lemma_views_picked(s.devices@, wireless);
    crate::laws::lists::a_pick_is_one_list(all, keep, kept, device_views(wireless));
    assert(kept.len() == wireless.len());
    let part = server_part(opt_text(s.version), all, opt_text(s.services));
    let up = unit_part(unit is Active, facts.watcher, facts.port, facts.owner) + adb_part(
        facts.adb,
    );
    assert(up.len() == a);
    let tail = browser_part(browsed(facts.seen));
    assert(texts(v@) == up + part + tail);
    assert(texts(v@).len() == v@.len());
    reveal_strlit("");
    assert(""@ == Seq::<char>::empty());
    let n = b - a;
    assert(part[n] == "devices:  "@ + decimal(kept.len()) + " wireless, "@ + decimal(all.len())
        + " total"@);
    assert(texts(v@)[b] == v@[b]@);
    assert(texts(v@)[b] == part[n]);
    if s.version is Some {
        assert(texts(v@)[a] == v@[a]@);
        assert(texts(v@)[a] == part[0]);
    }
    assert forall|i: int| 0 <= i < wireless.len() implies tells_device(
        (#[trigger] v@[b + 1 + i])@,
        wireless[i],
    ) by {
        assert(texts(v@)[b + 1 + i] == v@[b + 1 + i]@);
        assert(texts(v@)[b + 1 + i] == part[n + 1 + i]);
        assert(part[n + 1 + i] == device_line(kept[i]));
        assert(kept[i] == device_views(wireless)[i]);
        assert(device_views(wireless)[i] == wireless[i]@);
    }
    if s.services is Some {
        let m = b + 1 + wireless.len();
        assert(texts(v@)[m] == v@[m]@);
        assert(texts(v@)[m] == part[n + 1 + wireless.len()]);
    }
}

proof fn lemma_views_picked(all: Seq<Device>, out: Seq<Device>)
    requires
        is_pick(all, |d: Device| d.transport is Tcp || d.transport is Mdns, out),
    ensures
        is_pick(device_views(all), |d: DeviceView| d.transport.wireless(), device_views(out)),
{
    let k = |d: Device| d.transport is Tcp || d.transport is Mdns;
    let keep = |d: DeviceView| d.transport.wireless();
    let at = choose|at: Seq<int>| crate::laws::lists::picked_at(all, k, out, at);
    let va = device_views(all);
    let vo = device_views(out);
    assert forall|j: int| 0 <= j < at.len() implies 0 <= #[trigger] at[j] < va.len() && vo[j]
        == va[at[j]] by {
        assert(out[j] == all[at[j]]);
    }
    assert forall|i: int| 0 <= i < va.len() implies (keep(#[trigger] va[i]) <==> at.contains(i)) by {
        assert(k(all[i]) <==> at.contains(i));
    }
    assert(crate::laws::lists::picked_at(va, keep, vo, at));
}

/// At its end a status says what its own browser saw: how many services, and each of them in order;
/// or that it failed, and why.
pub proof fn every_service_that_was_seen_is_told(
    unit: UnitState,
    resolved: &Result<String, String>,
    facts: &UnitFacts,
    v: Vec<String>,
)
    requires
        !(unit is NotInstalled),
        call_ensures(status_lines, (unit, resolved, Some(facts)), v),
    ensures
        facts.seen matches Err(e) ==> v@.last()@ == "browser:  FAILED ("@ + e@
            + ") - QR pairing will not work"@,
        facts.seen matches Ok(found) ==> {
            let n = v@.len() - found@.len();
            &&& n > 0
            &&& v@[n - 1]@ == "browser:  "@ + decimal(found@.len())
                + " connect service(s) seen in 2s"@
            &&& forall|i: int|
                0 <= i < found@.len() ==> tells_service((#[trigger] v@[n + i])@, found@[i])
        },
{
    let all = texts(v@);
    let tail = browser_part(browsed(facts.seen));
    assert(all.len() == v@.len());
    let k = all.len() - tail.len();
    assert(all.skip(k) =~= tail);
    assert(tail.len() > 0);
    match facts.seen {
        Err(e) => {
            assert(all[all.len() - 1] == v@[v@.len() - 1]@);
            assert(all.skip(k)[0] == all[k]);
        },
        Ok(found) => {
            let n = v@.len() - found@.len();
            assert(services(found@).len() == found@.len());
            assert(all[n - 1] == v@[n - 1]@);
            assert(all.skip(k)[0] == all[n - 1]);
            reveal_strlit(" -> ");
            reveal_strlit("[");
            reveal_strlit(" -> [");
            reveal_strlit("]");
            reveal_strlit(":");
            reveal_strlit("]:");
            assert forall|i: int| 0 <= i < found@.len() implies tells_service(
                (#[trigger] v@[n + i])@,
                found@[i],
            ) by {
                assert(all[n + i] == v@[n + i]@);
                assert(all.skip(k)[1 + i] == all[n + i]);
                assert(tail[1 + i] == service_line(services(found@)[i]));
                let f = found@[i];
                assert(services(found@)[i] == f@);
                let list = join(f.addresses@.map_values(|x: IpAddr| address_text(x)), ", "@);
                assert(service_line(f@) =~= "          "@ + first_label(f.fullname@) + " -> ["@
                    + list + "]:"@ + decimal(f.port as nat));
            }
        },
    }
}

/// The services that adb sees are the lines that name one of its own.
pub proof fn a_visible_service_is_a_line(text: Seq<char>, named: Seq<Seq<char>>)
    requires
        is_pick(lines(text), |l: Seq<char>| contains(l, "_adb-tls"@), named),
    ensures
        visible_services(text) == named.len(),
{
    let keep = |l: Seq<char>| contains(l, "_adb-tls"@);
    lemma_filter_picks(lines(text), keep);
    crate::laws::lists::a_pick_is_one_list(lines(text), keep, named, lines(text).filter(keep));
}

/// A status on an installed unit is the same, however it is asked for.
pub proof fn a_status_is_a_status(
    unit: UnitState,
    resolved: &Result<String, String>,
    facts: &UnitFacts,
    v: Vec<String>,
    w: Vec<String>,
)
    requires
        !(unit is NotInstalled),
        call_ensures(status_lines, (unit, resolved, Some(facts)), v),
        call_ensures(
            status,
            (
                unit is Active,
                facts.watcher,
                facts.port,
                facts.owner,
                &facts.adb,
                &facts.server,
                &facts.seen,
            ),
            w,
        ),
    ensures
        texts(v@) == texts(w@),
{
}

// ---------------------------------------------------------------------------
// install
// ---------------------------------------------------------------------------

/// An install names what it installed. A different adb on the search path is pointed out, and so is
/// that the unit would stop at logout; nothing else is.
pub proof fn what_an_install_tells(
    r: &InstallReport,
    path_adb: Option<&str>,
    user: Option<&str>,
    v: Vec<String>,
)
    requires
        call_ensures(install_lines, (r, path_adb, user), v),
    ensures
        ({
            let other = path_adb is Some && !same_path(path_adb->0@, r.adb@);
            let n: int = if other { 5 } else { 4 };
            &&& v@.len() == if r.lingering {
                n
            } else {
                n + 1
            }
            &&& v@[0]@ == "adb:      "@ + r.adb@
            &&& v@[1]@ == "mdns:     "@ + r.mdns@
            &&& v@[2]@ == "port:     "@ + decimal(r.port as nat)
            &&& r.changed ==> starts_with(v@[3]@, "unit:     written ("@)
            &&& !r.changed ==> starts_with(v@[3]@, "unit:     unchanged ("@)
            &&& other ==> starts_with(
                v@[4]@,
                "\nnote: `adb` on your PATH is "@ + path_adb->0@ + ", not the binary"@,
            )
            &&& !r.lingering ==> crate::text::ends_with(
                v@[n]@,
                "loginctl enable-linger "@ + (match user {
                    Some(u) => u@,
                    None => "$USER"@,
                }),
            )
        }),
{
    let other = path_adb is Some && !same_path(path_adb->0@, r.adb@);
    let n: int = if other { 5 } else { 4 };
    assert(texts(v@).len() == v@.len());
    assert(texts(v@)[0] == v@[0]@);
    assert(texts(v@)[1] == v@[1]@);
    assert(texts(v@)[2] == v@[2]@);
    assert(texts(v@)[3] == v@[3]@);
    reveal_strlit("unit:     ");
    reveal_strlit("written");
    reveal_strlit("unchanged");
    reveal_strlit(" (");
    reveal_strlit("unit:     written (");
    reveal_strlit("unit:     unchanged (");
    let w = "unit:     written ("@;
    let u = "unit:     unchanged ("@;
    if r.changed {
        assert(v@[3]@.subrange(0, w.len() as int) =~= w);
    } else {
        assert(v@[3]@.subrange(0, u.len() as int) =~= u);
    }
    if other {
        assert(texts(v@)[4] == v@[4]@);
        reveal_strlit(", not the binary");
        reveal_strlit(
            ", not the binary this unit runs.\nIf that one starts a server first it may have no mDNS backend.",
        );
        let head = "\nnote: `adb` on your PATH is "@ + path_adb->0@ + ", not the binary"@;
        assert(v@[4]@.subrange(0, head.len() as int) =~= head);
    }
    if !r.lingering {
        assert(texts(v@)[n] == v@[n]@);
        reveal_strlit("loginctl enable-linger ");
        reveal_strlit(
            "\nlingering is off, so the unit stops at your last logout. Enable it with:\n  loginctl enable-linger ",
        );
        let name = match user {
            Some(u) => u@,
            None => "$USER"@,
        };
        let tail = "loginctl enable-linger "@ + name;
        let k = v@[n]@.len() - tail.len();
        assert(v@[n]@.subrange(k, k + tail.len()) =~= tail);
    }
}

/// An install has worked only where the unit has the port.
pub proof fn an_install_ends_with_the_port(owner: PortOwner, port: u16, r: Result<String, String>)
    requires
        call_ensures(install_end, (owner, port), r),
    ensures
        r is Ok <==> owner is Ours,
        owner matches PortOwner::Ours(pid) ==> (r matches Ok(line) && line@
            == "\nsupervising adb, pid "@ + decimal(pid as nat)),
        owner is Foreign || owner is HeldUnknown ==> (r matches Err(why) && starts_with(
            why@,
            "port "@ + decimal(port as nat) + " is held"@,
        )),
        owner is Nobody ==> (r matches Err(why) && starts_with(
            why@,
            "the unit is not listening yet"@,
        )),
{
    reveal_strlit(" is held");
    reveal_strlit(
        " is held by another adb server, so the unit is retrying.\nStop that server once with `wadb takeover`, or quit whatever started it.",
    );
    reveal_strlit("the unit is not listening yet");
    reveal_strlit("the unit is not listening yet; check `systemctl --user status wadb`");
    if let Err(why) = r {
        if owner is Nobody {
            let p = "the unit is not listening yet"@;
            assert(why@.subrange(0, p.len() as int) =~= p);
        } else {
            let p = "port "@ + decimal(port as nat) + " is held"@;
            assert(why@.subrange(0, p.len() as int) =~= p);
        }
    }
}

// ---------------------------------------------------------------------------
// pair, takeover and connect
// ---------------------------------------------------------------------------

/// Commands run the binary that the unit runs, where it is still there, and otherwise the one that
/// would be installed.
pub proof fn commands_run_the_units_binary(
    unit_adb: Option<String>,
    is_file: bool,
    resolved: Result<String, String>,
    r: Result<String, String>,
)
    requires
        call_ensures(adb_for_commands, (unit_adb, is_file, resolved), r),
    ensures
        unit_adb is Some && is_file ==> r == Ok::<String, String>(unit_adb->0),
        unit_adb is None || !is_file ==> r == resolved,
{
}

/// The host of an endpoint is what stands before its port, without the brackets of an IPv6 address.
pub proof fn a_host_is_an_endpoint_without_its_port(
    host: Seq<char>,
    port: Seq<char>,
    endpoint: &str,
    r: String,
)
    requires
        host.len() > 0,
        host[0] != '[' && host[0] != ']',
        host.last() != '[' && host.last() != ']',
        !port.contains(':'),
        endpoint@ == host.push(':') + port || endpoint@ == (seq!['['] + host).push(']').push(':')
            + port,
        call_ensures(host_of, (endpoint,), r),
    ensures
        r@ == host,
{
    let inner = (seq!['['] + host).push(']');
    a_split_from_the_end(host, ':', port);
    a_split_from_the_end(inner, ':', port);
    assert(trim_brackets_start(host) == host);
    assert(trim_brackets_end(host) == host);
    assert(inner.skip(1) =~= host.push(']'));
    assert(inner[0] == '[');
    let h = host.push(']');
    assert(h[0] == host[0]);
    assert(trim_brackets_start(h) == h);
    assert(trim_brackets_start(inner) == h);
    assert(h.drop_last() =~= host);
    assert(h.last() == ']');
    assert(trim_brackets_end(h) == host);
}

/// After a pairing by hand, the phone is connected to where it was paired, and where that is not
/// certain it is tried; everything else is a failure, with its reason.
pub proof fn what_follows_a_pairing(
    outcome: PairOutcome,
    endpoint: &str,
    success: bool,
    r: PairNext,
    host: String,
)
    requires
        call_ensures(pair_manually, (outcome, endpoint, success), r),
        call_ensures(host_of, (endpoint,), host),
    ensures
        r is Connect <==> outcome is Paired,
        r is TryConnect <==> outcome is Other && success,
        r matches PairNext::Connect { host: h, guid, say } ==> h@ == host@ && (
        outcome matches PairOutcome::Paired { guid: g } && guid == g && starts_with(
            say@,
            "paired"@,
        )),
        r matches PairNext::TryConnect { host: h, otherwise } ==> h@ == host@ && (
        outcome matches PairOutcome::Other(t) && otherwise == t),
        r matches PairNext::Fail(why) ==> {
            ||| outcome is WrongCode && why@ == "the phone rejected that code"@
            ||| outcome is Unreachable && starts_with(why@, "nothing answered at "@ + endpoint@)
            ||| outcome == PairOutcome::Other(why) && !success
        },
{
    if let PairNext::Connect { say, host: h, guid } = r {
        assert(say@.subrange(0, "paired"@.len() as int) =~= "paired"@);
    }
    if let PairNext::Fail(why) = r {
        if outcome is Unreachable {
            let p = "nothing answered at "@ + endpoint@;
            assert(why@.subrange(0, p.len() as int) =~= p);
        }
    }
}

/// A pairing ends well exactly where the connect did, with what that said. Where it did not, what
/// adb had said before comes first.
pub proof fn how_a_pairing_ends(
    otherwise: Option<String>,
    connected: Result<String, String>,
    r: Result<String, String>,
)
    requires
        call_ensures(pair_end, (otherwise, connected), r),
    ensures
        r is Ok <==> connected is Ok,
        connected matches Ok(line) ==> r->Ok_0@ == line@,
        connected matches Err(why) ==> r->Err_0@ == (match otherwise {
            Some(said) => said@,
            None => why@,
        }),
{
}

/// Only a server that is not ours is asked to stop, and it is asked, not killed: on its own port,
/// whatever the environment says.
pub proof fn only_a_foreign_server_is_asked(
    owner: PortOwner,
    adb: &str,
    port: u16,
    needed: Result<(), String>,
    command: ProbeCommand,
)
    requires
        call_ensures(takeover_needed, (owner, port), needed),
        call_ensures(takeover, (adb, port), command),
    ensures
        needed is Ok <==> owner is Foreign || owner is HeldUnknown,
        command.program@ == adb@,
        texts(command.args@).len() == 1 && texts(command.args@)[0] == "kill-server"@,
        text_pairs(command.env_set@).len() == 1,
        text_pairs(command.env_set@)[0] == (
            "ADB_SERVER_SOCKET"@,
            "tcp:127.0.0.1:"@ + decimal(port as nat),
        ),
        texts(command.env_clear@).contains("ANDROID_ADB_SERVER_PORT"@),
{
    assert(texts(command.env_clear@)[0] == "ANDROID_ADB_SERVER_PORT"@);
}

/// A unit is restarted only where the foreign server was asked with success and there is a unit,
/// and it has the port only where it owns it.
pub proof fn what_follows_a_takeover(
    ok: bool,
    stderr: &str,
    installed: bool,
    next: TakeoverNext,
    owner: PortOwner,
    port: u16,
    end: String,
)
    requires
        call_ensures(takeover_next, (ok, stderr, installed), next),
        call_ensures(takeover_end, (owner, port), end),
    ensures
        next is Fail <==> !ok,
        next is Restart <==> ok && installed,
        next is Done <==> ok && !installed,
        next matches TakeoverNext::Fail(why) ==> why@ == "adb kill-server failed: "@ + trim(
            stderr@,
        ),
        next matches TakeoverNext::Restart { args, .. } ==> texts(args@).len() == 2 && texts(
            args@,
        )[0] == "restart"@ && texts(args@)[1] == "wadb.service"@,
        owner matches PortOwner::Ours(pid) ==> end@ == "the unit now owns port "@ + decimal(
            port as nat,
        ) + ", pid "@ + decimal(pid as nat) + "."@,
        !(owner is Ours) ==> starts_with(end@, "restarted the unit, but"@),
{
    reveal_strlit("restarted the unit, but");
    reveal_strlit("restarted the unit, but it has not taken the port yet.");
    let p = "restarted the unit, but"@;
    let s = "restarted the unit, but it has not taken the port yet."@;
    assert(s.subrange(0, p.len() as int) =~= p);
}

/// A pass by hand tells of every service that it connected and of every one that failed. That there
/// was nothing to reconnect it says only where there was nothing.
pub proof fn a_pass_by_hand_tells_all(outcome: &Outcome, v: Vec<String>)
    requires
        call_ensures(connect_once, (outcome,), v),
    ensures
        ({
            let c = outcome.connected@.len() as int;
            let f = outcome.failed@.len() as int;
            &&& c + f == 0 ==> v@.len() == 1 && v@[0]@ == "nothing to reconnect."@
            &&& c + f > 0 ==> {
                &&& v@.len() == c + f
                &&& forall|i: int| 0 <= i < c ==> (#[trigger] v@[i])@ == outcome.connected@[i]@
                &&& forall|i: int|
                    c <= i < c + f ==> (#[trigger] v@[i])@ == "connect failed: "@
                        + outcome.failed@[i - c]@
            }
        }),
{
    let c = outcome.connected@.len() as int;
    let said = pass_report(texts(outcome.connected@), texts(outcome.failed@));
    assert(texts(v@).len() == v@.len());
    assert(texts(outcome.connected@).len() == c);
    assert(texts(outcome.failed@).len() == outcome.failed@.len());
    assert forall|i: int| 0 <= i < v@.len() implies (#[trigger] v@[i])@ == said[i] by {
        assert(texts(v@)[i] == v@[i]@);
    }
}

/// An uninstall says that the unit is gone, and what that means for other sessions.
pub proof fn what_an_uninstall_tells(v: Vec<String>)
    requires
        call_ensures(uninstall_lines, (), v),
    ensures
        v@.len() == 2,
        v@[0]@ == "unit removed."@,
        starts_with(v@[1]@, "Stopping it also stopped the adb server it owned"@),
{
    assert(texts(v@).len() == v@.len());
    assert(texts(v@)[0] == v@[0]@);
    assert(texts(v@)[1] == v@[1]@);
    reveal_strlit("Stopping it also stopped the adb server it owned");
    reveal_strlit(
        "Stopping it also stopped the adb server it owned, so USB and emulator sessions on\nthat server are gone. The next adb command from any tool will start a fresh server -\npossibly a build with no mDNS backend, which will not reconnect wireless devices.",
    );
    let p = "Stopping it also stopped the adb server it owned"@;
    assert(v@[1]@.subrange(0, p.len() as int) =~= p);
}

/// Without a server there is nothing to talk to, and the port is named.
pub proof fn what_is_said_without_a_server(port: u16, r: String)
    requires
        call_ensures(no_server, (port,), r),
    ensures
        r@ == "no adb server on port "@ + decimal(port as nat) + ". Run `wadb install` first."@,
{
}

/// Where there is nothing to take over, that is said, and why.
pub proof fn why_there_is_nothing_to_take_over(owner: PortOwner, port: u16, r: Result<(), String>)
    requires
        call_ensures(takeover_needed, (owner, port), r),
    ensures
        owner matches PortOwner::Ours(pid) ==> (r matches Err(line) && line@ == "port "@ + decimal(
            port as nat,
        ) + " is already ours (pid "@ + decimal(pid as nat) + "); nothing to do."@),
        owner is Nobody ==> (r matches Err(line) && line@ == "nothing is holding port "@ + decimal(
            port as nat,
        ) + "."@),
{
}

/// An install says whether the unit was written, and how it backs off.
pub proof fn what_an_install_tells_of_the_unit(
    r: &InstallReport,
    path_adb: Option<&str>,
    user: Option<&str>,
    v: Vec<String>,
)
    requires
        call_ensures(install_lines, (r, path_adb, user), v),
    ensures
        v@.len() > 3,
        v@[3]@ == "unit:     "@ + (if r.changed {
            "written"@
        } else {
            "unchanged"@
        }) + " ("@ + (if r.backoff_full {
            "stepped"@
        } else {
            "fixed interval, systemd < 254"@
        }) + " backoff)"@,
{
    assert(texts(v@).len() == v@.len());
    assert(texts(v@)[3] == v@[3]@);
}

} // verus!
