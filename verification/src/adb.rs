//! What adb prints and answers: device lists, the mDNS check, and the smart-socket protocol.

use crate::num::{decimal, decimal_of, parse_port, parse_word, port_number, word_number};
use crate::path::{join, joined, paths_agree, same_path};
use crate::text::{
    any_in, chars_of, clone_opt, contains, contains_text, ends_with, find_map, has_any, has_prefix,
    has_suffix, lemma_filter_step, lemma_find_map, lemma_lines_apart, lines, lines_of, opt_text,
    rsplit_at, rsplit_once, scan, scan_for, slices, split, split_at_text, split_on, split_once,
    starts_with, string_of, strip_prefix, strip_suffix, texts, trim, trim_end, trimmed,
    trimmed_end, without_prefix, without_suffix, words, words_of, Class,
};
use vstd::prelude::*;
use vstd::slice::slice_subrange;

verus! {

/// Default port the adb server listens on.
pub const DEFAULT_PORT: u16 = 5037;

/// How a device is attached. Wireless devices come in two serial shapes, and both must be
/// recognised: `ip:port` after an explicit connect, and
/// `adb-<id>-<suffix>._adb-tls-connect._tcp` when adb's own mDNS auto-connect attached it.
#[derive(Debug, Clone, Copy, PartialEq, Eq, Structural)]
pub enum Transport {
    Usb,
    Emulator,
    /// Connected over TCP with an explicit `host:port` serial.
    Tcp,
    /// Attached by adb's mDNS auto-connect, serial ends in `._adb-tls-connect._tcp`.
    Mdns,
}

impl Transport {
    pub open spec fn wireless(self) -> bool {
        self is Tcp || self is Mdns
    }

    pub fn is_wireless(self) -> (r: bool)
        ensures
            r == self.wireless(),
    {
        matches!(self, Transport::Tcp | Transport::Mdns)
    }
}

#[derive(Debug, Clone, PartialEq, Eq)]
pub struct Device {
    pub serial: String,
    /// `device`, `offline`, `unauthorized`, or anything else adb reports.
    pub state: String,
    pub model: Option<String>,
    pub product: Option<String>,
    pub device: Option<String>,
    pub transport: Transport,
}

/// A device as contracts see it.
pub struct DeviceView {
    pub serial: Seq<char>,
    pub state: Seq<char>,
    pub model: Option<Seq<char>>,
    pub product: Option<Seq<char>>,
    pub device: Option<Seq<char>>,
    pub transport: Transport,
}

impl View for Device {
    type V = DeviceView;

    open spec fn view(&self) -> DeviceView {
        DeviceView {
            serial: self.serial@,
            state: self.state@,
            model: opt_text(self.model),
            product: opt_text(self.product),
            device: opt_text(self.device),
            transport: self.transport,
        }
    }
}

pub open spec fn devices(v: Seq<Device>) -> Seq<DeviceView> {
    v.map_values(|d: Device| d@)
}

impl Device {
    /// The same device again.
    pub fn copy(&self) -> (r: Device)
        ensures
            r@ == self@,
    {
        Device {
            serial: self.serial.clone(),
            state: self.state.clone(),
            model: clone_opt(&self.model),
            product: clone_opt(&self.product),
            device: clone_opt(&self.device),
            transport: self.transport,
        }
    }
}

/// A `host:port` serial in two. IPv6 serials contain many colons, so the last colon divides,
/// and only the `[addr]:port` form may hold more than one.
pub open spec fn host_port(serial: Seq<char>) -> Option<(Seq<char>, nat)> {
    if serial.len() > 0 && serial[0] == '[' {
        let rest = serial.skip(1);
        let n = scan(rest, 0, Class::Is(']'));
        let tail = rest.skip(n + 1);
        if n < rest.len() && tail.len() > 0 && tail[0] == ':' {
            match port_number(tail.skip(1)) {
                Some(port) => Some((rest.take(n), port)),
                None => None,
            }
        } else {
            None
        }
    } else {
        match rsplit_once(serial, ':') {
            Some((host, port)) => if host.len() == 0 || any_in(host, Class::Is(':')) {
                None
            } else {
                match port_number(port) {
                    Some(port) => Some((host, port)),
                    None => None,
                }
            },
            None => None,
        }
    }
}

/// Split a `host:port` serial. A bare IPv6 address with no brackets is not a valid adb serial.
pub fn split_host_port(serial: &str) -> (r: Option<(&str, u16)>)
    ensures
        match r {
            Some((host, port)) => host_port(serial@) == Some((host@, port as nat)),
            None => host_port(serial@) is None,
        },
{
    let s = chars_of(serial);
    if s.len() > 0 && s[0] == '[' {
        let rest = slice_subrange(s.as_slice(), 1, s.len());
        assert(rest@ == s@.skip(1));
        let n: usize = scan_for(rest, 0, Class::Is(']'));
        if n + 1 >= rest.len() || rest[n + 1] != ':' {
            return None;
        }
        let tail = slice_subrange(rest, n + 2, rest.len());
        assert(tail@ == rest@.skip(n + 1).skip(1));
        return match parse_port(tail) {
            Some(port) => {
                let host = serial.substring_char(1, n + 1);
                assert(host@ == rest@.take(n as int));
                Some((host, port))
            },
            None => None,
        };
    }
    match rsplit_at(s.as_slice(), ':') {
        Some((host, port)) => {
            if host.len() == 0 || has_any(host, Class::Is(':')) {
                return None;
            }
            match parse_port(port) {
                Some(port) => {
                    proof {
                        crate::text::lemma_last_index(s@, ':');
                    }
                    let host_text = serial.substring_char(0, host.len());
                    assert(host_text@ == host@);
                    Some((host_text, port))
                },
                None => None,
            }
        },
        None => None,
    }
}

/// The transport a serial names.
pub open spec fn transport_of(serial: Seq<char>) -> Transport {
    if starts_with(serial, "emulator-"@) {
        Transport::Emulator
    } else if ends_with(serial, "._adb-tls-connect._tcp"@) {
        Transport::Mdns
    } else if host_port(serial) is Some {
        Transport::Tcp
    } else {
        Transport::Usb
    }
}

pub fn classify(serial: &str) -> (r: Transport)
    ensures
        r == transport_of(serial@),
{
    let s = chars_of(serial);
    if has_prefix(s.as_slice(), "emulator-") {
        Transport::Emulator
    } else if has_suffix(s.as_slice(), "._adb-tls-connect._tcp") {
        Transport::Mdns
    } else if split_host_port(serial).is_some() {
        Transport::Tcp
    } else {
        Transport::Usb
    }
}

/// The value of the last `key` field among the words.
pub open spec fn field(words: Seq<Seq<char>>, key: Seq<char>) -> Option<Seq<char>>
    decreases words.len(),
{
    if words.len() == 0 {
        None
    } else {
        match strip_prefix(words.last(), key) {
            Some(v) => Some(v),
            None => field(words.drop_last(), key),
        }
    }
}

/// The words after the serial and the state.
pub open spec fn fields_of(words: Seq<Seq<char>>) -> Seq<Seq<char>> {
    if words.len() > 2 {
        words.skip(2)
    } else {
        seq![]
    }
}

/// One line of a device list: serial, state, then `key:value` fields. The heading and blank
/// lines describe no device.
pub open spec fn device_row(line: Seq<char>) -> Option<DeviceView> {
    let l = trim_end(line);
    let w = words(l);
    if l.len() == 0 || starts_with(l, "List of devices"@) || w.len() == 0 {
        None
    } else {
        let fields = fields_of(w);
        Some(
            DeviceView {
                serial: w[0],
                state: if w.len() > 1 {
                    w[1]
                } else {
                    "unknown"@
                },
                model: field(fields, "model:"@),
                product: field(fields, "product:"@),
                device: field(fields, "device:"@),
                transport: transport_of(w[0]),
            },
        )
    }
}

/// The devices the lines describe, in order.
pub open spec fn device_rows(lines: Seq<Seq<char>>) -> Seq<DeviceView>
    decreases lines.len(),
{
    if lines.len() == 0 {
        seq![]
    } else {
        let init = device_rows(lines.drop_last());
        match device_row(lines.last()) {
            Some(d) => init.push(d),
            None => init,
        }
    }
}

fn parse_device(line: &[char]) -> (r: Option<Device>)
    ensures
        match r {
            Some(d) => device_row(line@) == Some(d@),
            None => device_row(line@) is None,
        },
{
    let l = trimmed_end(line);
    if l.len() == 0 || has_prefix(l, "List of devices") {
        return None;
    }
    let w = words_of(l);
    let ghost all = words(l@);
    assert(slices(w@) == all);
    if w.len() == 0 {
        return None;
    }
    let serial = string_of(w[0]);
    assert(serial@ == all[0]);
    let state = if w.len() > 1 {
        assert(w@[1]@ == all[1]);
        string_of(w[1])
    } else {
        "unknown".to_owned()
    };
    let ghost fields = fields_of(all);
    let mut model: Option<String> = None;
    let mut product: Option<String> = None;
    let mut device: Option<String> = None;
    let mut i: usize = 2;
    assert(fields.take(0) == Seq::<Seq<char>>::empty());
    proof {
        reveal_strlit("model:");
        reveal_strlit("product:");
        reveal_strlit("device:");
    }
    while i < w.len()
        invariant
            2 <= i,
            i <= w.len() || i == 2,
            slices(w@) == all,
            fields == fields_of(all),
            opt_text(model) == field(fields.take(i - 2), "model:"@),
            opt_text(product) == field(fields.take(i - 2), "product:"@),
            opt_text(device) == field(fields.take(i - 2), "device:"@),
            "model:"@.len() > 0 && "model:"@[0] == 'm',
            "product:"@.len() > 0 && "product:"@[0] == 'p',
            "device:"@.len() > 0 && "device:"@[0] == 'd',
        decreases w.len() - i,
    {
        let word = w[i];
        let ghost k = i - 2;
        assert(word@ == all[i as int]);
        assert(fields[k] == word@);
        assert(fields.take(k + 1).drop_last() == fields.take(k));
        assert(fields.take(k + 1).last() == word@);
        proof {
            lemma_first_char(word@, "model:"@);
            lemma_first_char(word@, "product:"@);
            lemma_first_char(word@, "device:"@);
        }
        if let Some(v) = without_prefix(word, "model:") {
            model = Some(string_of(v));
        } else if let Some(v) = without_prefix(word, "product:") {
            product = Some(string_of(v));
        } else if let Some(v) = without_prefix(word, "device:") {
            device = Some(string_of(v));
        }
        i += 1;
    }
    assert(fields.take(i - 2) == fields);
    let transport = classify(serial.as_str());
    Some(Device { serial, state, model, product, device, transport })
}

/// A text and its prefix begin with the same character.
proof fn lemma_first_char(s: Seq<char>, p: Seq<char>)
    requires
        p.len() > 0,
    ensures
        starts_with(s, p) ==> s.len() > 0 && s[0] == p[0],
{
    if starts_with(s, p) {
        assert(s.subrange(0, 0 + p.len() as int)[0] == s[0]);
    }
}

/// Parse the payload of `host:devices-l`.
pub fn parse_devices(text: &str) -> (r: Vec<Device>)
    ensures
        devices(r@) == device_rows(lines(text@)),
{
    let s = chars_of(text);
    let ls = lines_of(s.as_slice());
    let ghost all = lines(text@);
    let mut r: Vec<Device> = Vec::new();
    let mut i: usize = 0;
    while i < ls.len()
        invariant
            i <= ls.len(),
            slices(ls@) == all,
            devices(r@) == device_rows(all.take(i as int)),
        decreases ls.len() - i,
    {
        assert(all.take(i + 1).drop_last() == all.take(i as int));
        assert(ls@[i as int]@ == all[i as int]);
        let ghost done = devices(r@);
        if let Some(d) = parse_device(ls[i]) {
            r.push(d);
            assert(devices(r@) == done.push(d@));
        }
        i += 1;
    }
    assert(all.take(i as int) == all);
    r
}

/// Wireless devices only, in the order given.
///
/// These are deliberately **not** de-duplicated. One phone can appear twice, once as `ip:port`
/// and once under its mDNS serial. The two serials share nothing, and the fields they do share
/// identify a device *type*, not a phone, so merging on them would hide one of two identical
/// handsets.
pub fn wireless_devices(all: &[Device]) -> (r: Vec<Device>)
    ensures
        devices(r@) == devices(all@).filter(|d: DeviceView| d.transport.wireless()),
{
    let ghost list = devices(all@);
    let ghost keep = |d: DeviceView| d.transport.wireless();
    let mut r: Vec<Device> = Vec::new();
    let mut i: usize = 0;
    proof {
        reveal(Seq::filter);
        assert(list.take(0).filter(keep) == Seq::<DeviceView>::empty());
    }
    while i < all.len()
        invariant
            i <= all.len(),
            list == devices(all@),
            keep == (|d: DeviceView| d.transport.wireless()),
            devices(r@) == list.take(i as int).filter(keep),
        decreases all.len() - i,
    {
        let ghost done = devices(r@);
        proof {
            lemma_filter_step(list, keep, i as int);
        }
        if all[i].transport.is_wireless() {
            let d = all[i].copy();
            r.push(d);
            assert(devices(r@) == done.push(d@));
        }
        i += 1;
    }
    assert(list.take(i as int) == list);
    r
}

// ---------------------------------------------------------------------------
// Binary resolution
// ---------------------------------------------------------------------------

/// `platform-tools/adb` under an SDK root, where one is known.
pub open spec fn sdk_path(root: Option<Seq<char>>) -> Seq<Seq<char>> {
    match root {
        Some(root) => seq![join(join(root, "platform-tools"@), "adb"@)],
        None => seq![],
    }
}

/// An `adb` in every directory of a search path, empty entries left out.
pub open spec fn search_path(path: Option<Seq<char>>) -> Seq<Seq<char>> {
    match path {
        Some(path) => split(path, ':').filter(|d: Seq<char>| d.len() > 0).map_values(
            |d: Seq<char>| join(d, "adb"@),
        ),
        None => seq![],
    }
}

/// Where to look for adb, in order: an explicit choice, then an SDK, then the search path.
pub open spec fn candidates(
    adb: Option<Seq<char>>,
    sdk_root: Option<Seq<char>>,
    android_home: Option<Seq<char>>,
    home: Seq<char>,
    path: Option<Seq<char>>,
) -> Seq<Seq<char>> {
    (match adb {
        Some(p) => seq![p],
        None => seq![],
    }) + sdk_path(sdk_root) + sdk_path(android_home) + seq![
        join(home, "Android/Sdk/platform-tools/adb"@),
    ] + search_path(path)
}

fn push_sdk(out: &mut Vec<String>, root: &Option<String>)
    ensures
        texts(final(out)@) == texts(old(out)@) + sdk_path(opt_text(*root)),
{
    let ghost before = texts(out@);
    if let Some(root) = root {
        let p = joined(joined(root.as_str(), "platform-tools").as_str(), "adb");
        out.push(p);
        assert(texts(out@) == before + seq![p@]);
    } else {
        assert(before == before + Seq::<Seq<char>>::empty());
    }
}

/// The candidates for given values of the variables that name them.
pub fn candidates_in(
    adb: Option<String>,
    sdk_root: Option<String>,
    android_home: Option<String>,
    home: &str,
    path: Option<String>,
) -> (r: Vec<String>)
    ensures
        texts(r@) == candidates(
            opt_text(adb),
            opt_text(sdk_root),
            opt_text(android_home),
            home@,
            opt_text(path),
        ),
{
    let ghost first: Seq<Seq<char>> = match opt_text(adb) {
        Some(p) => seq![p],
        None => seq![],
    };
    let mut out: Vec<String> = Vec::new();
    if let Some(p) = adb {
        out.push(p);
    }
    assert(texts(out@) == first);
    push_sdk(&mut out, &sdk_root);
    push_sdk(&mut out, &android_home);
    let ghost before = texts(out@);
    let default = joined(home, "Android/Sdk/platform-tools/adb");
    out.push(default);
    assert(texts(out@) == before + seq![default@]);
    let ghost before = texts(out@);
    if let Some(path) = path {
        let s = chars_of(path.as_str());
        let dirs = split_on(s.as_slice(), ':');
        let ghost all = split(path@, ':');
        let ghost keep = |d: Seq<char>| d.len() > 0;
        let ghost under = |d: Seq<char>| join(d, "adb"@);
        let mut i: usize = 0;
        proof {
            reveal(Seq::filter);
            assert(all.take(0).filter(keep) == Seq::<Seq<char>>::empty());
            assert(texts(out@) == before + all.take(0).filter(keep).map_values(under));
        }
        while i < dirs.len()
            invariant
                i <= dirs.len(),
                slices(dirs@) == all,
                keep == (|d: Seq<char>| d.len() > 0),
                under == (|d: Seq<char>| join(d, "adb"@)),
                texts(out@) == before + all.take(i as int).filter(keep).map_values(under),
            decreases dirs.len() - i,
        {
            let ghost done = texts(out@);
            proof {
                lemma_filter_step(all, keep, i as int);
                assert(dirs@[i as int]@ == all[i as int]);
            }
            if dirs[i].len() > 0 {
                let p = joined(string_of(dirs[i]).as_str(), "adb");
                out.push(p);
                assert(texts(out@) == done.push(p@));
                assert(all.take(i as int).filter(keep).push(all[i as int]).map_values(under)
                    == all.take(i as int).filter(keep).map_values(under).push(p@));
            }
            i += 1;
        }
        assert(all.take(i as int) == all);
    } else {
        assert(before == before + Seq::<Seq<char>>::empty());
    }
    out
}

/// Where to look for adb, in order. An SDK `platform-tools/adb` is preferred over a distro one,
/// because distro builds are frequently compiled without the mDNS backend. The default SDK
/// location comes without being named: the variables are often unset outside an interactive
/// shell.
pub fn candidate_paths<F: Fn(&str) -> Option<String>>(env: &F, home: &str) -> (r: Vec<String>)
    requires
        forall|k: &str| call_requires(env, (k,)),
    ensures
        exists|
            adb: Option<String>,
            sdk_root: Option<String>,
            android_home: Option<String>,
            path: Option<String>,
        |
            {
                &&& #[trigger] call_ensures(env, ("ADB",), adb)
                &&& #[trigger] call_ensures(env, ("ANDROID_SDK_ROOT",), sdk_root)
                &&& #[trigger] call_ensures(env, ("ANDROID_HOME",), android_home)
                &&& #[trigger] call_ensures(env, ("PATH",), path)
                &&& texts(r@) == candidates(
                    opt_text(adb),
                    opt_text(sdk_root),
                    opt_text(android_home),
                    home@,
                    opt_text(path),
                )
            },
{
    let adb = env("ADB");
    let sdk_root = env("ANDROID_SDK_ROOT");
    let android_home = env("ANDROID_HOME");
    let path = env("PATH");
    candidates_in(adb, sdk_root, android_home, home, path)
}

/// The first of the candidates at which there is a file.
pub open spec fn first_present(candidates: Seq<(Seq<char>, bool)>) -> Option<Seq<char>>
    decreases candidates.len(),
{
    if candidates.len() == 0 {
        None
    } else if candidates[0].1 {
        Some(candidates[0].0)
    } else {
        first_present(candidates.skip(1))
    }
}

pub open spec fn marked(v: Seq<(String, bool)>) -> Seq<(Seq<char>, bool)> {
    v.map_values(|c: (String, bool)| (c.0@, c.1))
}

/// The adb to use: the first candidate that is a file.
pub fn resolve_adb(candidates: &[(String, bool)]) -> (r: Result<String, String>)
    ensures
        match first_present(marked(candidates@)) {
            Some(path) => r matches Ok(p) && p@ == path,
            None => r matches Err(why) && why@
                == "no adb binary found. Install Android SDK Platform-Tools."@,
        },
{
    let ghost all = marked(candidates@);
    let mut i: usize = 0;
    assert(all.skip(0) == all);
    while i < candidates.len()
        invariant
            i <= candidates.len(),
            all == marked(candidates@),
            first_present(all) == first_present(all.skip(i as int)),
        decreases candidates.len() - i,
    {
        assert(all.skip(i as int)[0] == (candidates@[i as int].0@, candidates@[i as int].1));
        assert(all.skip(i as int).skip(1) == all.skip(i + 1));
        if candidates[i].1 {
            return Ok(candidates[i].0.clone());
        }
        i += 1;
    }
    Err("no adb binary found. Install Android SDK Platform-Tools.".to_owned())
}

/// The version in what `adb version` prints: the rest of the first line that begins `Version `.
pub open spec fn version_line(out: Seq<char>) -> Option<Seq<char>> {
    match find_map(lines(out), |l: Seq<char>| strip_prefix(l, "Version "@)) {
        Some(v) => Some(trim(v)),
        None => None,
    }
}

/// The version string adb reports, for messages that must name what was tested.
pub fn version_of(out: &str) -> (r: Option<String>)
    ensures
        opt_text(r) == version_line(out@),
{
    let s = chars_of(out);
    let ls = lines_of(s.as_slice());
    let ghost all = lines(out@);
    let ghost f = |l: Seq<char>| strip_prefix(l, "Version "@);
    let mut i: usize = 0;
    while i < ls.len()
        invariant
            i <= ls.len(),
            slices(ls@) == all,
            all == lines(out@),
            f == (|l: Seq<char>| strip_prefix(l, "Version "@)),
            forall|j: int| 0 <= j < i ==> f(#[trigger] all[j]) is None,
        decreases ls.len() - i,
    {
        assert(ls@[i as int]@ == all[i as int]);
        if let Some(v) = without_prefix(ls[i], "Version ") {
            proof {
                assert(f(all[i as int]) == Some(v@));
                lemma_find_map(all, f, i as int);
            }
            return Some(string_of(trimmed(v)));
        }
        i += 1;
    }
    proof {
        lemma_find_map(all, f, i as int);
    }
    None
}

// ---------------------------------------------------------------------------
// The isolated mDNS probe
// ---------------------------------------------------------------------------

/// The argv and environment of one probe step, kept as data: which port it aims at and which
/// variables are scrubbed can be seen without running adb.
#[derive(Debug, Clone, PartialEq, Eq)]
pub struct ProbeCommand {
    pub program: String,
    pub args: Vec<String>,
    /// Variables set for this child only.
    pub env_set: Vec<(String, String)>,
    /// Variables removed from the inherited environment.
    pub env_clear: Vec<String>,
}

/// The pairs as text.
pub open spec fn text_pairs(v: Seq<(String, String)>) -> Seq<(Seq<char>, Seq<char>)> {
    v.map_values(|p: (String, String)| (p.0@, p.1@))
}

/// The address a client is given for a server on `port`.
pub open spec fn probe_address(port: u16) -> Seq<char> {
    "tcp:127.0.0.1:"@ + decimal(port as nat)
}

fn probe_socket(port: u16) -> (r: String)
    ensures
        r@ == probe_address(port),
{
    "tcp:127.0.0.1:".to_owned().concat(decimal_of(port as u64).as_str())
}

/// The child that *is* the probe server.
///
/// The listen spec carries no hostname: with one adb aborts, and without one it binds 127.0.0.1
/// regardless. `ANDROID_ADB_SERVER_PORT` would leak into every grandchild, and
/// `ADB_SERVER_SOCKET` would silently redirect the server being pinned.
pub fn probe_server_command(adb: &str, port: u16) -> (r: ProbeCommand)
    ensures
        r.program@ == adb@,
        texts(r.args@) == seq!["-L"@, "tcp:"@ + decimal(port as nat), "nodaemon"@, "server"@],
        r.env_set@.len() == 0,
        texts(r.env_clear@) == seq!["ADB_SERVER_SOCKET"@, "ANDROID_ADB_SERVER_PORT"@],
{
    let listen = "tcp:".to_owned().concat(decimal_of(port as u64).as_str());
    let args = vec!["-L".to_owned(), listen, "nodaemon".to_owned(), "server".to_owned()];
    let env_clear = vec!["ADB_SERVER_SOCKET".to_owned(), "ANDROID_ADB_SERVER_PORT".to_owned()];
    ProbeCommand { program: adb.to_owned(), args, env_set: vec![], env_clear }
}

/// The client that asks *that* server whether it has an mDNS backend.
///
/// Aiming this at the probe port is the whole point: `mdns check` reports the state of the
/// server that answers, not of the binary invoked. The address is an explicit `127.0.0.1`, since
/// `localhost` can resolve to `::1` while the server binds IPv4 loopback only.
pub fn probe_check_command(adb: &str, port: u16) -> (r: ProbeCommand)
    ensures
        r.program@ == adb@,
        texts(r.args@) == seq!["mdns"@, "check"@],
        text_pairs(r.env_set@) == seq![("ADB_SERVER_SOCKET"@, probe_address(port))],
        texts(r.env_clear@) == seq!["ANDROID_ADB_SERVER_PORT"@],
{
    let args = vec!["mdns".to_owned(), "check".to_owned()];
    let env_set = vec![("ADB_SERVER_SOCKET".to_owned(), probe_socket(port))];
    let env_clear = vec!["ANDROID_ADB_SERVER_PORT".to_owned()];
    ProbeCommand { program: adb.to_owned(), args, env_set, env_clear }
}

#[derive(Debug, PartialEq, Eq)]
pub enum MdnsSupport {
    /// The binary reported a working mDNS daemon.
    Present(String),
    /// The binary answered, but without an mDNS daemon line.
    Absent,
}

impl View for MdnsSupport {
    type V = Option<Seq<char>>;

    /// The daemon line, where there is one.
    open spec fn view(&self) -> Option<Seq<char>> {
        match self {
            MdnsSupport::Present(line) => Some(line@),
            MdnsSupport::Absent => None,
        }
    }
}

/// The first line that names an mDNS daemon, without the blanks around it.
pub open spec fn mdns_line(out: Seq<char>) -> Option<Seq<char>> {
    find_map(
        lines(out),
        |l: Seq<char>|
            if contains(l, "mdns daemon version"@) {
                Some(trim(l))
            } else {
                None
            },
    )
}

pub fn parse_mdns_check(stdout: &str) -> (r: MdnsSupport)
    ensures
        r@ == mdns_line(stdout@),
{
    let s = chars_of(stdout);
    let ls = lines_of(s.as_slice());
    let ghost all = lines(stdout@);
    let ghost f = |l: Seq<char>|
        if contains(l, "mdns daemon version"@) {
            Some(trim(l))
        } else {
            None
        };
    let mut i: usize = 0;
    while i < ls.len()
        invariant
            i <= ls.len(),
            slices(ls@) == all,
            all == lines(stdout@),
            f == (|l: Seq<char>|
                if contains(l, "mdns daemon version"@) {
                    Some(trim(l))
                } else {
                    None
                }),
            forall|j: int| 0 <= j < i ==> f(#[trigger] all[j]) is None,
        decreases ls.len() - i,
    {
        assert(ls@[i as int]@ == all[i as int]);
        if contains_text(ls[i], "mdns daemon version") {
            let line = trimmed(ls[i]);
            proof {
                assert(f(all[i as int]) == Some(line@));
                lemma_find_map(all, f, i as int);
            }
            return MdnsSupport::Present(string_of(line));
        }
        i += 1;
    }
    proof {
        lemma_find_map(all, f, i as int);
    }
    MdnsSupport::Absent
}

/// Whether a child that has not been heard from yet has used up its time.
pub fn overrun(exited: bool, now: u64, deadline: u64) -> (r: bool)
    ensures
        r == (!exited && now > deadline),
{
    !exited && now > deadline
}

/// The first run of digits after `pid=`, as a process id.
pub open spec fn ss_pid(text: Seq<char>) -> Option<nat> {
    match split_once(text, "pid="@) {
        Some((_, rest)) => {
            let a = scan(rest, 0, Class::Digit);
            let b = scan(rest, a, Class::NotDigit);
            if a < rest.len() {
                word_number(rest.subrange(a, b))
            } else {
                None
            }
        },
        None => None,
    }
}

/// The process id in a line of `ss` output. `ss` without `-p`, or a socket owned by another
/// user, prints none.
pub fn parse_ss_pid(text: &str) -> (r: Option<u32>)
    ensures
        match r {
            Some(pid) => ss_pid(text@) == Some(pid as nat),
            None => ss_pid(text@) is None,
        },
{
    let s = chars_of(text);
    match split_at_text(s.as_slice(), "pid=") {
        Some((_, rest)) => {
            let a: usize = scan_for(rest, 0, Class::Digit);
            if a >= rest.len() {
                return None;
            }
            let b: usize = scan_for(rest, a, Class::NotDigit);
            parse_word(slice_subrange(rest, a, b))
        },
        None => None,
    }
}

/// What is behind a listening socket.
#[derive(Debug, Clone, PartialEq, Eq)]
pub struct Listener {
    pub pid: u32,
    pub exe: String,
    /// The running image no longer exists at that path: `/proc/<pid>/exe` read `… (deleted)`,
    /// which is what an SDK update does to a server nobody restarted.
    pub replaced: bool,
}

/// A process's executable as its `/proc/<pid>/exe` link gives it, and whether the file behind it
/// is gone.
///
/// The `(deleted)` case must not be smoothed over. Stripping the suffix and comparing paths makes
/// an *old* running image look identical to the *new* file now at that path.
pub fn exe_of(link: &str) -> (r: (String, bool))
    ensures
        r.1 == ends_with(link@, " (deleted)"@),
        r.0@ == (match strip_suffix(link@, " (deleted)"@) {
            Some(kept) => kept,
            None => link@,
        }),
{
    let s = chars_of(link);
    match without_suffix(s.as_slice(), " (deleted)") {
        Some(kept) => (string_of(kept), true),
        None => (link.to_owned(), false),
    }
}

/// What listens on a port, given what `ss` printed and the executable link of the process it
/// names.
pub fn listener(ss: &str, link: Option<&str>) -> (r: Option<Listener>)
    ensures
        match r {
            Some(l) => {
                &&& ss_pid(ss@) == Some(l.pid as nat)
                &&& link is Some
                &&& l.replaced == ends_with(link->0@, " (deleted)"@)
                &&& l.exe@ == (match strip_suffix(link->0@, " (deleted)"@) {
                    Some(kept) => kept,
                    None => link->0@,
                })
            },
            None => ss_pid(ss@) is None || link is None,
        },
{
    match (parse_ss_pid(ss), link) {
        (Some(pid), Some(link)) => {
            let (exe, replaced) = exe_of(link);
            Some(Listener { pid, exe, replaced })
        },
        _ => None,
    }
}

/// Are these the same executable? Both paths are resolved already: `/proc/<pid>/exe` always is,
/// and a candidate reached through a symlink would never match it as it stands.
pub fn same_binary(running: Option<&str>, candidate: &str) -> (r: bool)
    ensures
        r == (running matches Some(p) && same_path(p@, candidate@)),
{
    match running {
        Some(p) => paths_agree(p, candidate),
        None => false,
    }
}

/// What to do about the server currently on the port.
#[derive(Debug, Clone, Copy, PartialEq, Eq, Structural)]
pub enum GateStep {
    /// Take this server's answer for the candidate binary.
    Trust,
    /// Ask an isolated probe instead.
    Probe,
    /// Neither is trustworthy; tell the user to restart the server.
    Indeterminate,
}

impl Listener {
    /// Can this server's answer be attributed to the candidate binary?
    pub open spec fn is_attributable(self, adb: Seq<char>) -> bool {
        !self.replaced && same_path(self.exe@, adb)
    }
}

fn attributable(l: &Listener, adb: &str) -> (r: bool)
    ensures
        r == l.is_attributable(adb@),
{
    !l.replaced && same_binary(Some(l.exe.as_str()), adb)
}

/// The decision over two samples of the listener, before and after the question was asked.
pub open spec fn gate(
    before: Option<Listener>,
    after: Option<Listener>,
    adb: Seq<char>,
) -> GateStep {
    match (before, after) {
        (_, None) => GateStep::Probe,
        (Some(b), Some(a)) => if b.pid == a.pid && b.is_attributable(adb) && a.is_attributable(
            adb,
        ) {
            GateStep::Trust
        } else {
            GateStep::Indeterminate
        },
        (None, Some(_)) => GateStep::Indeterminate,
    }
}

/// A listener behind an optional reference.
pub open spec fn opt_listener(l: Option<&Listener>) -> Option<Listener> {
    match l {
        Some(l) => Some(*l),
        None => None,
    }
}

/// **A probe is only safe when nothing holds the mDNS socket.** A live server that cannot be
/// attributed to this binary makes the question unanswerable: the probe underneath it would
/// report `Absent` for a perfectly good adb.
///
/// Both samples are compared in full, not just by pid: an SDK update during the request keeps
/// the pid and only flips `replaced`.
pub fn gate_step(before: Option<&Listener>, after: Option<&Listener>, adb: &str) -> (r: GateStep)
    ensures
        r == gate(opt_listener(before), opt_listener(after), adb@),
{
    match after {
        None => GateStep::Probe,
        Some(after) => match before {
            Some(before) => {
                if before.pid == after.pid && attributable(before, adb) && attributable(
                    after,
                    adb,
                ) {
                    GateStep::Trust
                } else {
                    GateStep::Indeterminate
                }
            },
            None => GateStep::Indeterminate,
        },
    }
}

/// What is known of a binary's mDNS support before any probe has run.
#[derive(Debug, PartialEq, Eq)]
pub enum Verdict {
    /// The server on the port answered for this binary.
    Answer(MdnsSupport),
    /// An isolated probe has to be asked.
    Probe,
    /// Nothing true can be said; the text tells the user what to do.
    Unknown(String),
}

/// What is said when a server is this binary but does not answer.
pub open spec fn silent_server(port: u16) -> Seq<char> {
    "the adb server on port "@ + decimal(port as nat)
        + " did not answer an mDNS check, and a probe cannot take the socket while it is running.\nRestart it and re-run: systemctl --user restart wadb"@
}

/// What is said when a server cannot be attributed to the binary.
pub open spec fn foreign_server(
    port: u16,
    before: Option<Listener>,
    after: Option<Listener>,
    adb: Seq<char>,
) -> Seq<char> {
    let holder = if after is Some {
        after
    } else {
        before
    };
    "an adb server on port "@ + decimal(port as nat) + (match holder {
        Some(l) => " (pid "@ + decimal(l.pid as nat) + ")"@,
        None => ""@,
    }) + " holds the mDNS socket and cannot be attributed to "@ + adb
        + ", so its support cannot be established and a probe cannot take the socket from it.\nStop or restart that server and re-run: systemctl --user restart wadb"@
}

/// Does this binary have an mDNS backend, as far as the server on `port` can tell?
///
/// `answer` is what that server said, asked between the two samples of the listener; `resolved`
/// is `adb` with its symlinks followed. The order matters: only one adb server can hold the mDNS
/// socket at a time, so a probe started while a working server is up answers empty.
pub fn mdns_support(
    before: Option<&Listener>,
    answer: Option<MdnsSupport>,
    after: Option<&Listener>,
    adb: &str,
    resolved: &str,
    port: u16,
) -> (r: Verdict)
    ensures
        match gate(opt_listener(before), opt_listener(after), resolved@) {
            GateStep::Trust => match answer {
                Some(a) => r == Verdict::Answer(a),
                None => r matches Verdict::Unknown(why) && why@ == silent_server(port),
            },
            GateStep::Probe => r is Probe,
            GateStep::Indeterminate => r matches Verdict::Unknown(why) && why@ == foreign_server(
                port,
                opt_listener(before),
                opt_listener(after),
                adb@,
            ),
        },
{
    match gate_step(before, after, resolved) {
        GateStep::Trust => match answer {
            Some(a) => Verdict::Answer(a),
            None => Verdict::Unknown(
                "the adb server on port ".to_owned().concat(decimal_of(port as u64).as_str()).concat(
                    " did not answer an mDNS check, and a probe cannot take the socket while it is running.\nRestart it and re-run: systemctl --user restart wadb",
                ),
            ),
        },
        GateStep::Probe => Verdict::Probe,
        GateStep::Indeterminate => {
            let holder = match after {
                Some(l) => Some(l.pid),
                None => match before {
                    Some(l) => Some(l.pid),
                    None => None,
                },
            };
            let whose = match holder {
                Some(pid) => " (pid ".to_owned().concat(decimal_of(pid as u64).as_str()).concat(
                    ")",
                ),
                None => "".to_owned(),
            };
            Verdict::Unknown(
                "an adb server on port ".to_owned().concat(decimal_of(port as u64).as_str()).concat(
                    whose.as_str(),
                ).concat(" holds the mDNS socket and cannot be attributed to ").concat(adb).concat(
                    ", so its support cannot be established and a probe cannot take the socket from it.\nStop or restart that server and re-run: systemctl --user restart wadb",
                ),
            )
        },
    }
}

/// A server whose image was replaced on disk is never trusted, in either sample.
pub proof fn replaced_is_never_trusted(
    before: Option<Listener>,
    after: Option<Listener>,
    adb: Seq<char>,
)
    requires
        (before matches Some(l) && l.replaced) || (after matches Some(l) && l.replaced),
    ensures
        gate(before, after, adb) != GateStep::Trust,
{
}

/// A probe is asked exactly when nothing holds the socket after the question.
pub proof fn probes_only_an_empty_port(
    before: Option<Listener>,
    after: Option<Listener>,
    adb: Seq<char>,
)
    ensures
        gate(before, after, adb) == GateStep::Probe <==> after is None,
{
}

/// A trusted answer comes from one process, running the candidate binary throughout.
pub proof fn trust_names_one_process(
    before: Option<Listener>,
    after: Option<Listener>,
    adb: Seq<char>,
)
    ensures
        gate(before, after, adb) == GateStep::Trust <==> {
            &&& before is Some && after is Some
            &&& before->0.pid == after->0.pid
            &&& !before->0.replaced && !after->0.replaced
            &&& same_path(before->0.exe@, adb) && same_path(after->0.exe@, adb)
        },
{
}

// ---------------------------------------------------------------------------
// What holds of device lists
// ---------------------------------------------------------------------------

/// Only wireless devices are listed, and every wireless row is listed as often as adb reports it:
/// nothing is merged, whatever two rows have in common.
pub proof fn wireless_rows_are_never_merged(all: Seq<DeviceView>, d: DeviceView)
    ensures
        ({
            let kept = all.filter(|x: DeviceView| x.transport.wireless());
            kept.to_multiset().count(d) == if d.transport.wireless() {
                all.to_multiset().count(d)
            } else {
                0
            }
        }),
    decreases all.len(),
{
    broadcast use vstd::seq_lib::group_to_multiset_ensures;

    reveal(Seq::filter);
    let keep = |x: DeviceView| x.transport.wireless();
    if all.len() > 0 {
        let init = all.drop_last();
        let last = all.last();
        wireless_rows_are_never_merged(init, d);
        assert(all == init.push(last));
        assert(all.to_multiset() == init.to_multiset().insert(last));
        let kept = init.filter(keep);
        if keep(last) {
            assert(all.filter(keep) == kept.push(last));
            assert(kept.push(last).to_multiset() == kept.to_multiset().insert(last));
        }
    }
}

/// The heading and blank lines of a device list describe no device, and every other line describes
/// exactly one.
pub proof fn a_line_describes_at_most_one_device(lines: Seq<Seq<char>>)
    ensures
        device_rows(lines).len() <= lines.len(),
        (forall|i: int| 0 <= i < lines.len() ==> device_row(#[trigger] lines[i]) is Some)
            ==> device_rows(lines).len() == lines.len(),
    decreases lines.len(),
{
    if lines.len() > 0 {
        let init = lines.drop_last();
        a_line_describes_at_most_one_device(init);
        if forall|i: int| 0 <= i < lines.len() ==> device_row(#[trigger] lines[i]) is Some {
            assert forall|i: int| 0 <= i < init.len() implies device_row(#[trigger] init[i])
                is Some by {
                assert(init[i] == lines[i]);
            }
            assert(device_row(lines[lines.len() - 1]) is Some);
        }
    }
}

proof fn lemma_rows_apart(a: Seq<Seq<char>>, b: Seq<Seq<char>>)
    ensures
        device_rows(a + b) == device_rows(a) + device_rows(b),
    decreases b.len(),
{
    if b.len() == 0 {
        assert(a + b == a);
        assert(device_rows(a) + device_rows(b) == device_rows(a));
    } else {
        lemma_rows_apart(a, b.drop_last());
        assert((a + b).drop_last() == a + b.drop_last());
        assert((a + b).last() == b.last());
        assert(device_rows(a + b) == device_rows(a) + device_rows(b));
    }
}

/// A device list may be read in two parts, as long as it is parted at the end of a line.
pub proof fn a_list_may_be_read_in_parts(a: Seq<char>, b: Seq<char>)
    requires
        a.len() == 0 || a.last() == '\n',
    ensures
        device_rows(lines(a + b)) == device_rows(lines(a)) + device_rows(lines(b)),
{
    lemma_lines_apart(a, b);
    lemma_rows_apart(lines(a), lines(b));
}

} // verus!
