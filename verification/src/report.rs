//! What the commands print, and what they decide on the way.

use crate::adb::{
    devices as device_views, text_pairs, wireless_devices, Device, DeviceView, MdnsSupport,
    ProbeCommand,
};
use crate::daemon::Outcome;
use crate::discovery::{first_label, services, Found, FoundView};
use crate::net::{address_text, address_text_of, IpAddr};
use crate::num::{decimal, decimal_of};
use crate::pairing::PairOutcome;
use crate::path::{paths_agree, same_path};
use crate::service::{restart, InstallReport, PortOwner};
use crate::text::{
    chars_of, clone_strings, contains, contains_text, join, join_strings, lemma_filter_step, lines,
    lines_of, opt_text, rsplit_at, rsplit_once, slices, string_of, texts, trim, trimmed,
};
use crate::ui::UnitState;
use vstd::prelude::*;
use vstd::slice::slice_subrange;

verus! {

fn put(v: &mut Vec<String>, s: String)
    ensures
        texts(final(v)@) == texts(old(v)@).push(s@),
{
    let ghost before = texts(v@);
    v.push(s);
    assert(texts(v@) == before.push(s@));
}

// ---------------------------------------------------------------------------
// install
// ---------------------------------------------------------------------------

/// What an install prints before it knows whether the unit took the port. A different adb first on
/// `PATH` can win a restart race and start a server with no mDNS backend, so it is pointed out.
pub open spec fn install_report(
    r: InstallReport,
    path_adb: Option<Seq<char>>,
    user: Option<Seq<char>>,
) -> Seq<Seq<char>> {
    let head = seq![
        "adb:      "@ + r.adb@,
        "mdns:     "@ + r.mdns@,
        "port:     "@ + decimal(r.port as nat),
        "unit:     "@ + (if r.changed {
            "written"@
        } else {
            "unchanged"@
        }) + " ("@ + (if r.backoff_full {
            "stepped"@
        } else {
            "fixed interval, systemd < 254"@
        }) + " backoff)"@,
    ];
    let noted = if path_adb is Some && !same_path(path_adb->0, r.adb@) {
        head.push(
            "\nnote: `adb` on your PATH is "@ + path_adb->0
                + ", not the binary this unit runs.\nIf that one starts a server first it may have no mDNS backend."@,
        )
    } else {
        head
    };
    if r.lingering {
        noted
    } else {
        noted.push(
            "\nlingering is off, so the unit stops at your last logout. Enable it with:\n  loginctl enable-linger "@
                + (match user {
                Some(u) => u,
                None => "$USER"@,
            }),
        )
    }
}

pub fn install_lines(r: &InstallReport, path_adb: Option<&str>, user: Option<&str>) -> (v: Vec<
    String,
>)
    ensures
        texts(v@) == install_report(
            *r,
            match path_adb {
                Some(p) => Some(p@),
                None => None,
            },
            match user {
                Some(u) => Some(u@),
                None => None,
            },
        ),
{
    let mut v: Vec<String> = Vec::new();
    assert(texts(v@) == Seq::<Seq<char>>::empty());
    put(&mut v, "adb:      ".to_owned().concat(r.adb.as_str()));
    put(&mut v, "mdns:     ".to_owned().concat(r.mdns.as_str()));
    put(&mut v, "port:     ".to_owned().concat(decimal_of(r.port as u64).as_str()));
    let state = if r.changed {
        "written"
    } else {
        "unchanged"
    };
    let backoff = if r.backoff_full {
        "stepped"
    } else {
        "fixed interval, systemd < 254"
    };
    put(
        &mut v,
        "unit:     ".to_owned().concat(state).concat(" (").concat(backoff).concat(" backoff)"),
    );
    let ghost head = texts(v@);
    assert(head == seq![
        "adb:      "@ + r.adb@,
        "mdns:     "@ + r.mdns@,
        "port:     "@ + decimal(r.port as nat),
        "unit:     "@ + state@ + " ("@ + backoff@ + " backoff)"@,
    ]);
    if let Some(p) = path_adb {
        if !paths_agree(p, r.adb.as_str()) {
            put(
                &mut v,
                "\nnote: `adb` on your PATH is ".to_owned().concat(p).concat(
                    ", not the binary this unit runs.\nIf that one starts a server first it may have no mDNS backend.",
                ),
            );
        }
    }
    if !r.lingering {
        let who = match user {
            Some(u) => u,
            None => "$USER",
        };
        put(
            &mut v,
            "\nlingering is off, so the unit stops at your last logout. Enable it with:\n  loginctl enable-linger ".to_owned().concat(
                who,
            ),
        );
    }
    v
}

/// How an install ends. It fails when the unit did not get the port: a script that reads only the
/// status code must not be told that a foreign server is our supervision.
pub fn install_end(owner: PortOwner, port: u16) -> (r: Result<String, String>)
    ensures
        match owner {
            PortOwner::Ours(pid) => r matches Ok(line) && line@ == "\nsupervising adb, pid "@
                + decimal(pid as nat),
            PortOwner::Foreign | PortOwner::HeldUnknown => r matches Err(why) && why@ == "port "@
                + decimal(port as nat)
                + " is held by another adb server, so the unit is retrying.\nStop that server once with `wadb takeover`, or quit whatever started it."@,
            PortOwner::Nobody => r matches Err(why) && why@
                == "the unit is not listening yet; check `systemctl --user status wadb`"@,
        },
{
    match owner {
        PortOwner::Ours(pid) => Ok(
            "\nsupervising adb, pid ".to_owned().concat(decimal_of(pid as u64).as_str()),
        ),
        PortOwner::Foreign | PortOwner::HeldUnknown => Err(
            "port ".to_owned().concat(decimal_of(port as u64).as_str()).concat(
                " is held by another adb server, so the unit is retrying.\nStop that server once with `wadb takeover`, or quit whatever started it.",
            ),
        ),
        PortOwner::Nobody => Err(
            "the unit is not listening yet; check `systemctl --user status wadb`".to_owned(),
        ),
    }
}

/// What an uninstall says: what it stopped, and what may come instead.
pub fn uninstall_lines() -> (v: Vec<String>)
    ensures
        texts(v@) == seq![
            "unit removed."@,
            "Stopping it also stopped the adb server it owned, so USB and emulator sessions on\nthat server are gone. The next adb command from any tool will start a fresh server -\npossibly a build with no mDNS backend, which will not reconnect wireless devices."@,
        ],
{
    vec![
        "unit removed.".to_owned(),
        "Stopping it also stopped the adb server it owned, so USB and emulator sessions on\nthat server are gone. The next adb command from any tool will start a fresh server -\npossibly a build with no mDNS backend, which will not reconnect wireless devices.".to_owned(),
    ]
}

// ---------------------------------------------------------------------------
// status
// ---------------------------------------------------------------------------

/// The adb a unit runs, as far as it could be looked at.
#[derive(Debug, PartialEq, Eq)]
pub enum UnitAdb {
    /// The unit's command line could not be read.
    Unreadable,
    /// The binary is gone.
    Gone(String),
    /// The binary, and what a probe of it said.
    Probed(String, Result<MdnsSupport, String>),
}

/// What a running server said.
#[derive(Debug, PartialEq, Eq)]
pub struct ServerFacts {
    pub version: Option<String>,
    pub devices: Vec<Device>,
    /// What its own mDNS backend can see.
    pub services: Option<String>,
}

/// The first line: the unit.
pub open spec fn unit_line(unit: UnitState) -> Seq<char> {
    match unit {
        UnitState::NotInstalled => "unit:     not installed - run `wadb install`"@,
        UnitState::Active => "unit:     active"@,
        UnitState::Inactive => "unit:     installed but not active"@,
    }
}

/// With no unit there is nothing of ours on any port, and describing whatever else is listening
/// would attribute a stranger's server to this tool. Only what an install would use is named.
pub open spec fn not_installed_part(resolved: Result<String, String>) -> Seq<Seq<char>> {
    seq![
        unit_line(UnitState::NotInstalled),
        match resolved {
            Ok(path) => "adb:      "@ + path@ + " (would be used)"@,
            Err(e) => "adb:      "@ + e@,
        },
    ]
}

pub fn status_not_installed(resolved: &Result<String, String>) -> (v: Vec<String>)
    ensures
        texts(v@) == not_installed_part(*resolved),
{
    let second = match resolved {
        Ok(path) => "adb:      ".to_owned().concat(path.as_str()).concat(" (would be used)"),
        Err(e) => "adb:      ".to_owned().concat(e.as_str()),
    };
    vec!["unit:     not installed - run `wadb install`".to_owned(), second]
}

pub open spec fn owner_line(owner: PortOwner) -> Seq<char> {
    match owner {
        PortOwner::Ours(pid) => "server:   ours, pid "@ + decimal(pid as nat),
        PortOwner::Foreign =>
            "server:   held by another adb server - `wadb takeover` to hand the port over"@,
        PortOwner::HeldUnknown => "server:   port held, owner could not be read"@,
        PortOwner::Nobody => "server:   down"@,
    }
}

/// The unit, the watcher, the port and its owner.
pub open spec fn unit_part(
    active: bool,
    watcher: bool,
    port: u16,
    owner: PortOwner,
) -> Seq<Seq<char>> {
    seq![
        unit_line(
            if active {
                UnitState::Active
            } else {
                UnitState::Inactive
            },
        ),
        "watcher:  "@ + (if watcher {
            "active"@
        } else {
            "NOT running - wireless devices will not come back on their own"@
        }),
        "port:     "@ + decimal(port as nat),
        owner_line(owner),
    ]
}

/// The binary the unit runs, re-validated as an install would.
pub open spec fn adb_part(adb: UnitAdb) -> Seq<Seq<char>> {
    match adb {
        UnitAdb::Unreadable => seq!["adb:      could not read the unit's ExecStart"@],
        UnitAdb::Gone(path) => seq![
            "adb:      "@ + path@ + " is gone - the unit will fail; re-run `wadb install`"@,
        ],
        UnitAdb::Probed(path, support) => seq![
            "adb:      "@ + path@,
            match support {
                Ok(MdnsSupport::Present(v)) => "mdns:     "@ + v@,
                Ok(MdnsSupport::Absent) =>
                    "mdns:     MISSING - this adb cannot reconnect devices on its own; re-run `wadb install`"@,
                Err(e) => "mdns:     could not probe ("@ + e@ + ")"@,
            },
        ],
    }
}

/// One wireless device.
pub open spec fn device_line(d: DeviceView) -> Seq<char> {
    "          "@ + d.serial + " "@ + d.state + " ["@ + (match d.model {
        Some(m) => m,
        None => ""@,
    }) + "]"@
}

/// How many of the lines name a service of adb.
pub open spec fn visible_services(text: Seq<char>) -> nat {
    lines(text).filter(|l: Seq<char>| contains(l, "_adb-tls"@)).len()
}

/// What a running server said: its protocol, its devices, and what its own discovery sees.
pub open spec fn server_part(
    version: Option<Seq<char>>,
    devices: Seq<DeviceView>,
    seen: Option<Seq<char>>,
) -> Seq<Seq<char>> {
    let wireless = devices.filter(|d: DeviceView| d.transport.wireless());
    (match version {
        Some(v) => seq!["protocol: "@ + v],
        None => seq![],
    }) + seq![
        "devices:  "@ + decimal(wireless.len()) + " wireless, "@ + decimal(devices.len())
            + " total"@,
    ] + wireless.map_values(|d: DeviceView| device_line(d)) + (match seen {
        Some(text) => seq![
            "discovery: "@ + decimal(visible_services(text))
                + " adb service(s) visible to adb's own mDNS"@,
        ],
        None => seq![],
    })
}

/// The addresses of a service, as a list.
pub open spec fn address_list(a: Seq<IpAddr>) -> Seq<char> {
    "["@ + join(a.map_values(|x: IpAddr| address_text(x)), ", "@) + "]"@
}

/// One service our own browser saw.
pub open spec fn service_line(f: FoundView) -> Seq<char> {
    "          "@ + first_label(f.fullname) + " -> "@ + address_list(f.addresses) + ":"@ + decimal(
        f.port as nat,
    )
}

/// Whether our own browser works, which is what pairing by code depends on.
pub open spec fn browser_part(seen: Result<Seq<FoundView>, Seq<char>>) -> Seq<Seq<char>> {
    match seen {
        Ok(found) => seq![
            "browser:  "@ + decimal(found.len()) + " connect service(s) seen in 2s"@,
        ] + found.map_values(|f: FoundView| service_line(f)),
        Err(e) => seq!["browser:  FAILED ("@ + e + ") - QR pairing will not work"@],
    }
}

fn put_all(v: &mut Vec<String>, more: Vec<String>)
    ensures
        texts(final(v)@) == texts(old(v)@) + texts(more@),
{
    let mut more = more;
    let ghost a = v@;
    let ghost b = more@;
    v.append(&mut more);
    assert(v@ == a + b);
    assert(texts(v@) == texts(a) + texts(b));
}

fn unit_lines(active: bool, watcher: bool, port: u16, owner: PortOwner) -> (v: Vec<String>)
    ensures
        texts(v@) == unit_part(active, watcher, port, owner),
{
    let first = if active {
        "unit:     active"
    } else {
        "unit:     installed but not active"
    };
    let second = if watcher {
        "active"
    } else {
        "NOT running - wireless devices will not come back on their own"
    };
    let last = match owner {
        PortOwner::Ours(pid) => "server:   ours, pid ".to_owned().concat(
            decimal_of(pid as u64).as_str(),
        ),
        PortOwner::Foreign =>
            "server:   held by another adb server - `wadb takeover` to hand the port over".to_owned(),
        PortOwner::HeldUnknown => "server:   port held, owner could not be read".to_owned(),
        PortOwner::Nobody => "server:   down".to_owned(),
    };
    vec![
        first.to_owned(),
        "watcher:  ".to_owned().concat(second),
        "port:     ".to_owned().concat(decimal_of(port as u64).as_str()),
        last,
    ]
}

fn adb_lines(adb: &UnitAdb) -> (v: Vec<String>)
    ensures
        texts(v@) == adb_part(*adb),
{
    match adb {
        UnitAdb::Unreadable => vec!["adb:      could not read the unit's ExecStart".to_owned()],
        UnitAdb::Gone(path) => vec![
            "adb:      ".to_owned().concat(path.as_str()).concat(
                " is gone - the unit will fail; re-run `wadb install`",
            ),
        ],
        UnitAdb::Probed(path, support) => {
            let second = match support {
                Ok(MdnsSupport::Present(v)) => "mdns:     ".to_owned().concat(v.as_str()),
                Ok(MdnsSupport::Absent) =>
                    "mdns:     MISSING - this adb cannot reconnect devices on its own; re-run `wadb install`".to_owned(),
                Err(e) => "mdns:     could not probe (".to_owned().concat(e.as_str()).concat(")"),
            };
            vec!["adb:      ".to_owned().concat(path.as_str()), second]
        },
    }
}

fn count_services(text: &str) -> (r: usize)
    ensures
        r == visible_services(text@),
{
    let s = chars_of(text);
    let ls = lines_of(s.as_slice());
    let ghost all = lines(text@);
    let ghost keep = |l: Seq<char>| contains(l, "_adb-tls"@);
    let mut n: usize = 0;
    let mut i: usize = 0;
    proof {
        reveal(Seq::filter);
        assert(all.take(0).filter(keep) == Seq::<Seq<char>>::empty());
        assert(slices(ls@).len() == ls@.len());
    }
    while i < ls.len()
        invariant
            i <= ls.len(),
            n <= i,
            slices(ls@) == all,
            keep == (|l: Seq<char>| contains(l, "_adb-tls"@)),
            n == all.take(i as int).filter(keep).len(),
        decreases ls.len() - i,
    {
        proof {
            lemma_filter_step(all, keep, i as int);
            assert(ls@[i as int]@ == all[i as int]);
        }
        if contains_text(ls[i], "_adb-tls") {
            n += 1;
        }
        i += 1;
    }
    assert(all.take(i as int) == all);
    n
}

fn server_lines(s: &ServerFacts) -> (v: Vec<String>)
    ensures
        texts(v@) == server_part(
            opt_text(s.version),
            device_views(s.devices@),
            opt_text(s.services),
        ),
{
    let wireless = wireless_devices(s.devices.as_slice());
    let ghost all = device_views(s.devices@).filter(|d: DeviceView| d.transport.wireless());
    assert(device_views(wireless@).len() == wireless@.len());
    assert(device_views(s.devices@).len() == s.devices@.len());
    let mut v: Vec<String> = Vec::new();
    assert(texts(v@) == Seq::<Seq<char>>::empty());
    if let Some(version) = &s.version {
        put(&mut v, "protocol: ".to_owned().concat(version.as_str()));
    }
    let ghost first: Seq<Seq<char>> = match opt_text(s.version) {
        Some(v) => seq!["protocol: "@ + v],
        None => seq![],
    };
    assert(texts(v@) == first);
    put(
        &mut v,
        "devices:  ".to_owned().concat(decimal_of(wireless.len() as u64).as_str()).concat(
            " wireless, ",
        ).concat(decimal_of(s.devices.len() as u64).as_str()).concat(" total"),
    );
    let ghost top = texts(v@);
    let ghost rows = all.map_values(|d: DeviceView| device_line(d));
    let mut i: usize = 0;
    assert(texts(v@) == top + rows.take(0));
    while i < wireless.len()
        invariant
            i <= wireless.len(),
            device_views(wireless@) == all,
            rows == all.map_values(|d: DeviceView| device_line(d)),
            texts(v@) == top + rows.take(i as int),
        decreases wireless.len() - i,
    {
        let d = &wireless[i];
        assert(all[i as int] == d@);
        let model = match &d.model {
            Some(m) => m.as_str(),
            None => "",
        };
        put(
            &mut v,
            "          ".to_owned().concat(d.serial.as_str()).concat(" ").concat(
                d.state.as_str(),
            ).concat(" [").concat(model).concat("]"),
        );
        assert(top + rows.take(i + 1) == (top + rows.take(i as int)).push(rows[i as int]));
        i += 1;
    }
    assert(rows.take(i as int) == rows);
    if let Some(text) = &s.services {
        put(
            &mut v,
            "discovery: ".to_owned().concat(
                decimal_of(count_services(text.as_str()) as u64).as_str(),
            ).concat(" adb service(s) visible to adb's own mDNS"),
        );
    }
    assert(texts(v@) == server_part(
        opt_text(s.version),
        device_views(s.devices@),
        opt_text(s.services),
    ));
    v
}

fn address_list_of(a: &Vec<IpAddr>) -> (r: String)
    ensures
        r@ == address_list(a@),
{
    let ghost all = a@.map_values(|x: IpAddr| address_text(x));
    let mut v: Vec<String> = Vec::new();
    let mut i: usize = 0;
    assert(texts(v@) == all.take(0));
    while i < a.len()
        invariant
            i <= a.len(),
            all == a@.map_values(|x: IpAddr| address_text(x)),
            texts(v@) == all.take(i as int),
        decreases a.len() - i,
    {
        put(&mut v, address_text_of(&a[i]));
        assert(all.take(i + 1) == all.take(i as int).push(all[i as int]));
        i += 1;
    }
    assert(all.take(i as int) == all);
    "[".to_owned().concat(join_strings(v.as_slice(), ", ").as_str()).concat("]")
}

/// The services heard, or why none could be.
pub open spec fn browsed(r: Result<Vec<Found>, String>) -> Result<Seq<FoundView>, Seq<char>> {
    match r {
        Ok(v) => Ok(services(v@)),
        Err(e) => Err(e@),
    }
}

fn browser_lines(seen: &Result<Vec<Found>, String>) -> (v: Vec<String>)
    ensures
        texts(v@) == browser_part(browsed(*seen)),
{
    let mut v: Vec<String> = Vec::new();
    assert(texts(v@) == Seq::<Seq<char>>::empty());
    match seen {
        Ok(found) => {
            assert(services(found@).len() == found@.len());
            put(
                &mut v,
                "browser:  ".to_owned().concat(decimal_of(found.len() as u64).as_str()).concat(
                    " connect service(s) seen in 2s",
                ),
            );
            let ghost top = texts(v@);
            let ghost rows = services(found@).map_values(|f: FoundView| service_line(f));
            let mut i: usize = 0;
            assert(texts(v@) == top + rows.take(0));
            while i < found.len()
                invariant
                    i <= found.len(),
                    rows == services(found@).map_values(|f: FoundView| service_line(f)),
                    texts(v@) == top + rows.take(i as int),
                decreases found.len() - i,
            {
                let f = &found[i];
                assert(services(found@)[i as int] == f@);
                put(
                    &mut v,
                    "          ".to_owned().concat(f.instance()).concat(" -> ").concat(
                        address_list_of(&f.addresses).as_str(),
                    ).concat(":").concat(decimal_of(f.port as u64).as_str()),
                );
                assert(top + rows.take(i + 1) == (top + rows.take(i as int)).push(rows[i as int]));
                i += 1;
            }
            assert(rows.take(i as int) == rows);
            assert(texts(v@) == browser_part(browsed(*seen)));
        },
        Err(e) => {
            put(
                &mut v,
                "browser:  FAILED (".to_owned().concat(e.as_str()).concat(
                    ") - QR pairing will not work",
                ),
            );
            assert(texts(v@) == browser_part(browsed(*seen)));
        },
    }
    v
}

/// What there is to say of an installed unit.
#[derive(Debug, PartialEq, Eq)]
pub struct UnitFacts {
    pub watcher: bool,
    pub port: u16,
    pub owner: PortOwner,
    pub adb: UnitAdb,
    /// What the server said, where one is up.
    pub server: Option<ServerFacts>,
    /// What our own browser saw.
    pub seen: Result<Vec<Found>, String>,
}

/// The report on an installed unit, from top to bottom. Of a server that is down nothing is said
/// beyond its owner.
pub open spec fn installed_part(active: bool, f: UnitFacts) -> Seq<Seq<char>> {
    unit_part(active, f.watcher, f.port, f.owner) + adb_part(f.adb) + (match f.server {
        Some(s) => server_part(
            opt_text(s.version),
            device_views(s.devices@),
            opt_text(s.services),
        ),
        None => Seq::<Seq<char>>::empty(),
    }) + browser_part(browsed(f.seen))
}

/// The whole report. Without a unit, what else there is to find out is not spoken of.
pub fn status_lines(
    unit: UnitState,
    resolved: &Result<String, String>,
    facts: Option<&UnitFacts>,
) -> (v: Vec<String>)
    requires
        unit is NotInstalled || facts is Some,
    ensures
        texts(v@) == (match unit {
            UnitState::NotInstalled => not_installed_part(*resolved),
            UnitState::Active => installed_part(true, *facts->0),
            UnitState::Inactive => installed_part(false, *facts->0),
        }),
{
    match (unit, facts) {
        (UnitState::NotInstalled, _) | (_, None) => status_not_installed(resolved),
        (_, Some(f)) => status(
            matches!(unit, UnitState::Active),
            f.watcher,
            f.port,
            f.owner,
            &f.adb,
            &f.server,
            &f.seen,
        ),
    }
}

pub fn status(
    active: bool,
    watcher: bool,
    port: u16,
    owner: PortOwner,
    adb: &UnitAdb,
    server: &Option<ServerFacts>,
    seen: &Result<Vec<Found>, String>,
) -> (v: Vec<String>)
    ensures
        texts(v@) == unit_part(active, watcher, port, owner) + adb_part(*adb) + (match server {
            Some(s) => server_part(
                opt_text(s.version),
                device_views(s.devices@),
                opt_text(s.services),
            ),
            None => Seq::<Seq<char>>::empty(),
        }) + browser_part(browsed(*seen)),
{
    let mut v = unit_lines(active, watcher, port, owner);
    put_all(&mut v, adb_lines(adb));
    let ghost before = texts(v@);
    match server {
        Some(s) => {
            put_all(&mut v, server_lines(s));
        },
        None => {
            assert(before == before + Seq::<Seq<char>>::empty());
        },
    }
    put_all(&mut v, browser_lines(seen));
    v
}

/// The binary to run for commands that change something: the one the unit actually supervises, so
/// that a `$ADB` or PATH win cannot drive a different adb against our server. Without one that is
/// still there, whatever can be found.
pub fn adb_for_commands(
    unit_adb: Option<String>,
    is_file: bool,
    resolved: Result<String, String>,
) -> (r: Result<String, String>)
    ensures
        r == (if unit_adb is Some && is_file {
            Ok(unit_adb->0)
        } else {
            resolved
        }),
{
    match unit_adb {
        Some(adb) => {
            if is_file {
                Ok(adb)
            } else {
                resolved
            }
        },
        None => resolved,
    }
}

// ---------------------------------------------------------------------------
// pair
// ---------------------------------------------------------------------------

pub open spec fn trim_brackets_start(s: Seq<char>) -> Seq<char>
    decreases s.len(),
{
    if s.len() > 0 && (s[0] == '[' || s[0] == ']') {
        trim_brackets_start(s.skip(1))
    } else {
        s
    }
}

pub open spec fn trim_brackets_end(s: Seq<char>) -> Seq<char>
    decreases s.len(),
{
    if s.len() > 0 && (s.last() == '[' || s.last() == ']') {
        trim_brackets_end(s.drop_last())
    } else {
        s
    }
}

/// The host of an endpoint: what precedes the last colon, without brackets. The pairing port is
/// not the connect port, so the host is all that a later connect can use.
pub open spec fn endpoint_host(endpoint: Seq<char>) -> Seq<char> {
    match rsplit_once(endpoint, ':') {
        Some((host, _)) => trim_brackets_end(trim_brackets_start(host)),
        None => endpoint,
    }
}

pub fn host_of(endpoint: &str) -> (r: String)
    ensures
        r@ == endpoint_host(endpoint@),
{
    let s = chars_of(endpoint);
    let host = match rsplit_at(s.as_slice(), ':') {
        Some((host, _)) => host,
        None => return endpoint.to_owned(),
    };
    let end: usize = host.len();
    let mut a: usize = 0;
    assert(host@.skip(0) == host@);
    while a < end && (host[a] == '[' || host[a] == ']')
        invariant
            a <= end == host@.len(),
            trim_brackets_start(host@) == trim_brackets_start(host@.skip(a as int)),
        decreases end - a,
    {
        assert(host@.skip(a as int).skip(1) == host@.skip(a + 1));
        a += 1;
    }
    let ghost rest = host@.skip(a as int);
    assert(trim_brackets_start(host@) == rest);
    let mut b: usize = end;
    assert(rest == host@.subrange(a as int, b as int));
    while b > a && (host[b - 1] == '[' || host[b - 1] == ']')
        invariant
            a <= b <= end == host@.len(),
            trim_brackets_end(rest) == trim_brackets_end(host@.subrange(a as int, b as int)),
        decreases b,
    {
        assert(host@.subrange(a as int, b as int).drop_last() == host@.subrange(a as int, b - 1));
        b -= 1;
    }
    string_of(slice_subrange(host, a, b))
}

/// What follows a pairing by hand.
#[derive(Debug, PartialEq, Eq)]
pub enum PairNext {
    /// It worked: say so, and connect to the host, by the guid where there is one.
    Connect { say: String, host: String, guid: Option<String> },
    /// adb's wording is not known, but the run succeeded: a connect tells whether it worked, and
    /// this is said if it does not.
    TryConnect { host: String, otherwise: String },
    /// It failed.
    Fail(String),
}

/// Unknown wording after a successful run is not a failure, since adb's phrasing varies. Unknown
/// wording after a *failed* run is.
pub fn pair_manually(outcome: PairOutcome, endpoint: &str, success_exit: bool) -> (r: PairNext)
    ensures
        match outcome {
            PairOutcome::Paired { guid } => r matches PairNext::Connect { say, host, guid: g } && {
                &&& say@ == "paired"@ + (match guid {
                    Some(text) => " ("@ + text@ + ")"@,
                    None => ""@,
                })
                &&& host@ == endpoint_host(endpoint@)
                &&& g == guid
            },
            PairOutcome::WrongCode => r matches PairNext::Fail(why) && why@
                == "the phone rejected that code"@,
            PairOutcome::Unreachable => r matches PairNext::Fail(why) && why@
                == "nothing answered at "@ + endpoint@ + " - the pairing dialog may have closed"@,
            PairOutcome::Other(text) => if success_exit {
                r matches PairNext::TryConnect { host, otherwise } && host@ == endpoint_host(
                    endpoint@,
                ) && otherwise == text
            } else {
                r == PairNext::Fail(text)
            },
        },
{
    match outcome {
        PairOutcome::Paired { guid } => {
            let tail = match &guid {
                Some(text) => " (".to_owned().concat(text.as_str()).concat(")"),
                None => "".to_owned(),
            };
            PairNext::Connect {
                say: "paired".to_owned().concat(tail.as_str()),
                host: host_of(endpoint),
                guid,
            }
        },
        PairOutcome::WrongCode => PairNext::Fail("the phone rejected that code".to_owned()),
        PairOutcome::Unreachable => PairNext::Fail(
            "nothing answered at ".to_owned().concat(endpoint).concat(
                " - the pairing dialog may have closed",
            ),
        ),
        PairOutcome::Other(text) => {
            if success_exit {
                PairNext::TryConnect { host: host_of(endpoint), otherwise: text }
            } else {
                PairNext::Fail(text)
            }
        },
    }
}

/// How a pairing by hand ends, given how the connection went. Where adb did not say plainly that
/// the phone was paired, a connection that fails is reported with what adb said instead.
pub fn pair_end(otherwise: Option<String>, connected: Result<String, String>) -> (r: Result<
    String,
    String,
>)
    ensures
        match (connected, otherwise) {
            (Ok(line), _) => r matches Ok(l) && l@ == line@,
            (Err(_), Some(said)) => r matches Err(w) && w@ == said@,
            (Err(why), None) => r matches Err(w) && w@ == why@,
        },
{
    match connected {
        Ok(line) => Ok(line),
        Err(why) => match otherwise {
            Some(said) => Err(said),
            None => Err(why),
        },
    }
}

/// What is said when there is no server to talk to.
pub fn no_server(port: u16) -> (r: String)
    ensures
        r@ == "no adb server on port "@ + decimal(port as nat) + ". Run `wadb install` first."@,
{
    "no adb server on port ".to_owned().concat(decimal_of(port as u64).as_str()).concat(
        ". Run `wadb install` first.",
    )
}

// ---------------------------------------------------------------------------
// takeover and connect
// ---------------------------------------------------------------------------

/// Whether there is anything to take over. Where there is not, what is said instead.
pub fn takeover_needed(owner: PortOwner, port: u16) -> (r: Result<(), String>)
    ensures
        match owner {
            PortOwner::Ours(pid) => r matches Err(line) && line@ == "port "@ + decimal(port as nat)
                + " is already ours (pid "@ + decimal(pid as nat) + "); nothing to do."@,
            PortOwner::Nobody => r matches Err(line) && line@ == "nothing is holding port "@
                + decimal(port as nat) + "."@,
            PortOwner::Foreign | PortOwner::HeldUnknown => r is Ok,
        },
{
    match owner {
        PortOwner::Ours(pid) => Err(
            "port ".to_owned().concat(decimal_of(port as u64).as_str()).concat(
                " is already ours (pid ",
            ).concat(decimal_of(pid as u64).as_str()).concat("); nothing to do."),
        ),
        PortOwner::Nobody => Err(
            "nothing is holding port ".to_owned().concat(decimal_of(port as u64).as_str()).concat(
                ".",
            ),
        ),
        PortOwner::Foreign | PortOwner::HeldUnknown => Ok(()),
    }
}

/// A cooperative request, not a kill: no process is signalled that is not ours. The socket is
/// pinned, or an inherited one could send this to a different server than the one just looked at.
pub fn takeover(adb: &str, port: u16) -> (r: ProbeCommand)
    ensures
        r.program@ == adb@,
        texts(r.args@) == seq!["kill-server"@],
        text_pairs(r.env_set@) == seq![
            ("ADB_SERVER_SOCKET"@, "tcp:127.0.0.1:"@ + decimal(port as nat)),
        ],
        texts(r.env_clear@) == seq!["ANDROID_ADB_SERVER_PORT"@],
{
    let socket = "tcp:127.0.0.1:".to_owned().concat(decimal_of(port as u64).as_str());
    let env_set = vec![("ADB_SERVER_SOCKET".to_owned(), socket)];
    ProbeCommand {
        program: adb.to_owned(),
        args: vec!["kill-server".to_owned()],
        env_set,
        env_clear: vec!["ANDROID_ADB_SERVER_PORT".to_owned()],
    }
}

pub fn takeover_failed(stderr: &str) -> (r: String)
    ensures
        r@ == "adb kill-server failed: "@ + trim(stderr@),
{
    let s = chars_of(stderr);
    "adb kill-server failed: ".to_owned().concat(string_of(trimmed(s.as_slice())).as_str())
}

/// What a takeover does once the foreign server has been asked to stop.
#[derive(Debug, PartialEq, Eq)]
pub enum TakeoverNext {
    /// The request failed. Nothing more is done.
    Fail(String),
    /// Say this, call systemctl with these, and give the unit time to take the port.
    Restart { say: String, args: Vec<String> },
    /// Say this. There is no unit to hand the port to.
    Done { say: String },
}

/// A unit is restarted only once the request went through.
pub fn takeover_next(ok: bool, stderr: &str, installed: bool) -> (r: TakeoverNext)
    ensures
        if !ok {
            r matches TakeoverNext::Fail(why) && why@ == "adb kill-server failed: "@ + trim(stderr@)
        } else if installed {
            r matches TakeoverNext::Restart { say, args } && say@
                == "asked the foreign server to stop."@ && texts(args@) == seq![
                "restart"@,
                "wadb.service"@,
            ]
        } else {
            r matches TakeoverNext::Done { say } && say@ == "asked the foreign server to stop."@
        },
{
    let say = "asked the foreign server to stop.".to_owned();
    if !ok {
        TakeoverNext::Fail(takeover_failed(stderr))
    } else if installed {
        TakeoverNext::Restart { say, args: restart() }
    } else {
        TakeoverNext::Done { say }
    }
}

/// What is said once the unit has been restarted and given time to take the port.
pub fn takeover_end(owner: PortOwner, port: u16) -> (r: String)
    ensures
        r@ == (match owner {
            PortOwner::Ours(pid) => "the unit now owns port "@ + decimal(port as nat) + ", pid "@
                + decimal(pid as nat) + "."@,
            _ => "restarted the unit, but it has not taken the port yet."@,
        }),
{
    match owner {
        PortOwner::Ours(pid) => "the unit now owns port ".to_owned().concat(
            decimal_of(port as u64).as_str(),
        ).concat(", pid ").concat(decimal_of(pid as u64).as_str()).concat("."),
        _ => "restarted the unit, but it has not taken the port yet.".to_owned(),
    }
}

/// What one pass of the watcher prints when it is run by hand. Failures are reported: saying that
/// there was nothing to reconnect after every attempt failed would be a lie.
pub open spec fn pass_report(connected: Seq<Seq<char>>, failed: Seq<Seq<char>>) -> Seq<Seq<char>> {
    if connected.len() == 0 && failed.len() == 0 {
        seq!["nothing to reconnect."@]
    } else {
        connected + failed.map_values(|l: Seq<char>| "connect failed: "@ + l)
    }
}

pub fn connect_once(outcome: &Outcome) -> (v: Vec<String>)
    ensures
        texts(v@) == pass_report(texts(outcome.connected@), texts(outcome.failed@)),
{
    assert(texts(outcome.connected@).len() == outcome.connected@.len());
    assert(texts(outcome.failed@).len() == outcome.failed@.len());
    if outcome.connected.len() == 0 && outcome.failed.len() == 0 {
        return vec!["nothing to reconnect.".to_owned()];
    }
    let mut v = clone_strings(outcome.connected.as_slice());
    let ghost top = texts(v@);
    let ghost all = texts(outcome.failed@).map_values(|l: Seq<char>| "connect failed: "@ + l);
    let mut i: usize = 0;
    assert(texts(v@) == top + all.take(0));
    while i < outcome.failed.len()
        invariant
            i <= outcome.failed.len(),
            all == texts(outcome.failed@).map_values(|l: Seq<char>| "connect failed: "@ + l),
            texts(v@) == top + all.take(i as int),
        decreases outcome.failed.len() - i,
    {
        put(&mut v, "connect failed: ".to_owned().concat(outcome.failed[i].as_str()));
        assert(top + all.take(i + 1) == (top + all.take(i as int)).push(all[i as int]));
        i += 1;
    }
    assert(all.take(i as int) == all);
    v
}

} // verus!
