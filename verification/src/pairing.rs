//! Pairing: the payload a phone scans, the addresses to dial, and what `adb pair` answered.

use crate::adb::{host_port, text_pairs, transport_of, ProbeCommand, Transport};
use crate::daemon::{endpoints, endpoints_of};
use crate::discovery::{first_label, Found, FoundView};
use crate::net::{address_text, address_text_of, dotted, groups, longest_run, zero_run, IpAddr};
use crate::num::{
    decimal, decimal_of, hexadecimal, lemma_decimal_digits, lemma_hexadecimal_chars,
    lemma_port_round_trip,
};
use crate::text::{
    any_in, chars_of, contains, contains_text, ends_with, find_map, has_prefix, is_text, join,
    last_index, lemma_filter_step, lemma_find, lemma_find_is, lemma_find_map, lemma_last_index,
    lemma_no_match, lemma_scan_is, lower, lowercased, matches_at, opt_text, scan, scan_for, slices,
    split_at_text, split_once, starts_with, str_eq, string_of, strip_prefix, strip_suffix, texts,
    trim, trim_start, trimmed, trimmed_start, without_prefix, without_suffix, words, words_of,
    Class,
};
use vstd::prelude::*;
use vstd::slice::slice_subrange;
use vstd::utf8::{encode_utf8, is_ascii_chars_encode_utf8};

verus! {

/// The outside type of what goes wrong when the system has no random bytes to give.
#[verifier::external_type_specification]
#[verifier::external_body]
pub struct ExOsError(rand::rand_core::OsError);

pub const PAIRING_SERVICE: &'static str = "_adb-tls-pairing._tcp.local.";

pub const CONNECT_SERVICE: &'static str = "_adb-tls-connect._tcp.local.";

/// The convention for the instance name in a pairing code.
pub open spec fn prefix() -> Seq<char> {
    "studio-"@
}

/// The characters of instance names and passwords.
pub open spec fn alphabet() -> Seq<char> {
    "ABCDEFGHIJKLMNOPQRSTUVWXYZabcdefghijklmnopqrstuvwxyz0123456789-_"@
}

/// Every character is one of the alphabet.
pub open spec fn in_alphabet(s: Seq<char>) -> bool {
    forall|i: int| 0 <= i < s.len() ==> alphabet().contains(#[trigger] s[i])
}

/// One character for each byte.
pub open spec fn token(raw: Seq<u8>) -> Seq<char> {
    raw.map_values(|b: u8| alphabet()[b as int % 64])
}

proof fn lemma_alphabet()
    ensures
        alphabet().len() == 64,
        !alphabet().contains(';'),
        !alphabet().contains('.'),
        in_alphabet(prefix()),
        prefix().len() == 7,
{
    reveal_strlit("ABCDEFGHIJKLMNOPQRSTUVWXYZabcdefghijklmnopqrstuvwxyz0123456789-_");
    reveal_strlit("studio-");
    assert(alphabet()[44] == 's');
    assert(alphabet()[45] == 't');
    assert(alphabet()[46] == 'u');
    assert(alphabet()[29] == 'd');
    assert(alphabet()[34] == 'i');
    assert(alphabet()[40] == 'o');
    assert(alphabet()[62] == '-');
}

proof fn lemma_token(raw: Seq<u8>)
    ensures
        token(raw).len() == raw.len(),
        in_alphabet(token(raw)),
{
    lemma_alphabet();
}

/// The text that bytes stand for.
pub fn token_of(raw: &[u8]) -> (r: String)
    ensures
        r@ == token(raw@),
{
    let letters = chars_of("ABCDEFGHIJKLMNOPQRSTUVWXYZabcdefghijklmnopqrstuvwxyz0123456789-_");
    proof {
        lemma_alphabet();
    }
    let mut r: Vec<char> = Vec::new();
    let mut i: usize = 0;
    while i < raw.len()
        invariant
            i <= raw.len(),
            letters@ == alphabet(),
            letters@.len() == 64,
            r@ == token(raw@).take(i as int),
        decreases raw.len() - i,
    {
        let b: u8 = raw[i];
        r.push(letters[b as usize % 64]);
        assert(r@ == token(raw@).take(i + 1));
        i += 1;
    }
    assert(r@ == token(raw@));
    string_of(r.as_slice())
}

/// `rand::rngs::OsRng::try_fill_bytes` fills a buffer of the given length with bytes from the
/// operating system, or reports that it could not. An empty buffer is filled without asking the
/// system, so that never fails. Nothing is promised of the bytes themselves.
#[verifier::external_body]
fn random_bytes(len: usize) -> (r: Result<Vec<u8>, rand::rand_core::OsError>)
    ensures
        r matches Ok(raw) ==> raw@.len() == len,
        len == 0 ==> r is Ok,
{
    let mut raw = vec![0u8; len];
    rand::TryRngCore::try_fill_bytes(&mut rand::rngs::OsRng, &mut raw)?;
    Ok(raw)
}

/// `zeroize::Zeroize` for `Vec<u8>` overwrites the bytes and leaves the vector empty. That the
/// memory behind it is overwritten is beyond what a contract can say.
#[verifier::external_body]
fn wipe_bytes(raw: &mut Vec<u8>)
    ensures
        final(raw)@ == Seq::<u8>::empty(),
{
    zeroize::Zeroize::zeroize(raw)
}

/// `zeroize::Zeroize` for `String` overwrites the text and leaves the string empty. That the
/// memory behind it is overwritten is beyond what a contract can say.
#[verifier::external_body]
pub(crate) fn wipe_text(text: &mut String)
    ensures
        final(text)@ == Seq::<char>::empty(),
{
    zeroize::Zeroize::zeroize(text)
}

/// Why no payload could be made.
#[derive(Debug)]
pub enum PayloadError {
    /// The system had no random bytes to give.
    Random(rand::rand_core::OsError),
}

/// `Display` of `rand`'s `OsError`. What the system says of itself is not promised.
#[verifier::external_body]
fn os_error_text(e: &rand::rand_core::OsError) -> (r: String) {
    format!("{e}")
}

impl PayloadError {
    pub fn text(&self) -> (r: String)
        ensures
            starts_with(r@, "secure random generation failed: "@),
    {
        match self {
            PayloadError::Random(e) => {
                let why = os_error_text(e);
                let head = "secure random generation failed: ";
                proof {
                    assert((head@ + why@).subrange(0, head@.len() as int) == head@);
                }
                head.to_owned().concat(why.as_str())
            },
        }
    }
}

/// The text for what the system gave: that of the bytes, which are wiped, or why there are none.
pub fn token_from(drawn: Result<Vec<u8>, rand::rand_core::OsError>) -> (r: Result<
    String,
    PayloadError,
>)
    ensures
        match drawn {
            Ok(raw) => r matches Ok(t) && t@ == token(raw@),
            Err(e) => r == Err::<String, PayloadError>(PayloadError::Random(e)),
        },
{
    match drawn {
        Ok(raw) => {
            let mut raw = raw;
            let token = token_of(raw.as_slice());
            wipe_bytes(&mut raw);
            Ok(token)
        },
        Err(e) => Err(PayloadError::Random(e)),
    }
}

/// A token of the given length. Only the system can keep one from being made, and it has no say in
/// an empty one.
fn random_token(len: usize) -> (r: Result<String, PayloadError>)
    ensures
        r matches Ok(t) ==> t@.len() == len && in_alphabet(t@),
        len == 0 ==> r is Ok,
{
    let drawn = random_bytes(len);
    proof {
        if drawn is Ok {
            lemma_token(drawn->Ok_0@);
        }
    }
    token_from(drawn)
}

/// A pairing credential. The password is written to a child's stdin and never appears in argv,
/// which is world-readable through `/proc/<pid>/cmdline`.
pub struct Payload {
    instance: String,
    password: String,
}

pub struct PayloadView {
    pub instance: Seq<char>,
    pub password: Seq<char>,
}

impl View for Payload {
    type V = PayloadView;

    closed spec fn view(&self) -> PayloadView {
        PayloadView { instance: self.instance@, password: self.password@ }
    }
}

impl PayloadView {
    /// Both parts are made of the alphabet, the name carries the prefix, and there is a password.
    pub open spec fn wf(self) -> bool {
        &&& in_alphabet(self.instance)
        &&& starts_with(self.instance, prefix())
        &&& in_alphabet(self.password)
        &&& self.password.len() > 0
    }

    /// The string encoded into the code the phone scans.
    pub open spec fn qr_text(self) -> Seq<char> {
        "WIFI:T:ADB;S:"@ + self.instance + ";P:"@ + self.password + ";;"@
    }

    /// Whether a service is the one that scanned the code: by its instance, not its full name.
    pub open spec fn matches(self, service_name: Seq<char>) -> bool {
        (match split_once(service_name, "._adb-tls-pairing"@) {
            Some((i, _)) => i,
            None => service_name,
        }) == self.instance
    }
}

impl Payload {
    /// The payload for given random bytes.
    pub fn from_bytes(instance: &[u8], password: &[u8]) -> (r: Payload)
        ensures
            r@.instance == prefix() + token(instance@),
            r@.password == token(password@),
            password@.len() > 0 ==> r@.wf(),
    {
        proof {
            lemma_alphabet();
            lemma_token(instance@);
            lemma_token(password@);
            assert((prefix() + token(instance@)).subrange(0, prefix().len() as int) == prefix());
        }
        Payload {
            instance: "studio-".to_owned().concat(token_of(instance).as_str()),
            password: token_of(password),
        }
    }

    /// The payload for a name and what was drawn for its password.
    pub fn from_tokens(name: String, password: Result<String, PayloadError>) -> (r: Result<
        Payload,
        PayloadError,
    >)
        ensures
            match password {
                Ok(drawn) => r matches Ok(p) && {
                    &&& p@.instance == prefix() + name@
                    &&& p@.password == drawn@
                    &&& in_alphabet(name@) && in_alphabet(drawn@) && drawn@.len() > 0 ==> p@.wf()
                },
                Err(e) => r == Err::<Payload, PayloadError>(e),
            },
    {
        match password {
            Ok(password) => {
                proof {
                    lemma_alphabet();
                    assert((prefix() + name@).subrange(0, prefix().len() as int) == prefix());
                }
                Ok(Payload { instance: "studio-".to_owned().concat(name.as_str()), password })
            },
            Err(e) => Err(e),
        }
    }

    /// A payload of ten random characters each. What the system refuses is handed on; what it
    /// gives, `from_tokens` turns into the payload.
    pub fn random() -> (r: Result<Payload, PayloadError>)
        ensures
            r matches Ok(p) ==> {
                &&& p@.wf()
                &&& p@.instance.len() == prefix().len() + 10
                &&& p@.password.len() == 10
            },
    {
        match random_token(10) {
            Ok(name) => Payload::from_tokens(name, random_token(10)),
            Err(e) => Err(e),
        }
    }

    pub fn instance(&self) -> (r: &str)
        ensures
            r@ == self@.instance,
    {
        self.instance.as_str()
    }

    pub fn password(&self) -> (r: &str)
        ensures
            r@ == self@.password,
    {
        self.password.as_str()
    }

    /// The string encoded into the QR the phone scans.
    pub fn qr_text(&self) -> (r: String)
        ensures
            r@ == self@.qr_text(),
    {
        "WIFI:T:ADB;S:".to_owned().concat(self.instance.as_str()).concat(";P:").concat(
            self.password.as_str(),
        ).concat(";;")
    }

    /// Does a discovered mDNS service belong to the phone that scanned our code?
    ///
    /// Matched against the service's *instance* component, not the full DNS-SD name.
    pub fn matches_instance(&self, service_name: &str) -> (r: bool)
        ensures
            r == self@.matches(service_name@),
    {
        let s = chars_of(service_name);
        match split_at_text(s.as_slice(), "._adb-tls-pairing") {
            Some((i, _)) => is_text(i, self.instance.as_str()),
            None => str_eq(service_name, self.instance.as_str()),
        }
    }

    /// Leave nothing of the credential behind.
    pub fn wipe(&mut self)
        ensures
            final(self)@.password == Seq::<char>::empty(),
            final(self)@.instance == Seq::<char>::empty(),
    {
        wipe_text(&mut self.password);
        wipe_text(&mut self.instance);
    }
}

/// A payload as long as a random one takes 45 bytes in a code.
pub proof fn a_random_payload_is_short(p: PayloadView)
    requires
        p.wf(),
        p.instance.len() == prefix().len() + 10,
        p.password.len() == 10,
    ensures
        encode_utf8(p.qr_text()).len() == 45,
{
    let text = p.qr_text();
    let a = alphabet();
    reveal_strlit("ABCDEFGHIJKLMNOPQRSTUVWXYZabcdefghijklmnopqrstuvwxyz0123456789-_");
    reveal_strlit("WIFI:T:ADB;S:");
    reveal_strlit(";P:");
    reveal_strlit(";;");
    lemma_alphabet();
    assert forall|i: int| 0 <= i < text.len() implies '\0' <= #[trigger] text[i] <= '\u{7f}' by {
        if 13 <= i < 30 {
            assert(text[i] == p.instance[i - 13]);
            assert(a.contains(p.instance[i - 13]));
        } else if 33 <= i < 43 {
            assert(text[i] == p.password[i - 33]);
            assert(a.contains(p.password[i - 33]));
        }
    }
    is_ascii_chars_encode_utf8(text);
}

/// What a phone accepts as a pairing code.
pub open spec fn valid_qr_text(text: Seq<char>) -> bool {
    match strip_prefix(text, "WIFI:T:ADB;S:"@) {
        Some(b) => match strip_suffix(b, ";;"@) {
            Some(body) => match split_once(body, ";P:"@) {
                Some((name, password)) => {
                    &&& starts_with(name, prefix())
                    &&& password.len() > 0
                    &&& in_alphabet(name)
                    &&& in_alphabet(password)
                },
                None => false,
            },
            None => false,
        },
        None => false,
    }
}

fn all_in_alphabet(s: &[char]) -> (r: bool)
    ensures
        r == in_alphabet(s@),
{
    let letters = chars_of("ABCDEFGHIJKLMNOPQRSTUVWXYZabcdefghijklmnopqrstuvwxyz0123456789-_");
    let mut i: usize = 0;
    while i < s.len()
        invariant
            i <= s.len(),
            letters@ == alphabet(),
            forall|j: int| 0 <= j < i ==> alphabet().contains(#[trigger] s@[j]),
        decreases s.len() - i,
    {
        let mut k: usize = 0;
        while k < letters.len() && letters[k] != s[i]
            invariant
                k <= letters.len(),
                i < s.len(),
                forall|j: int| 0 <= j < k ==> letters@[j] != s@[i as int],
            decreases letters.len() - k,
        {
            k += 1;
        }
        if k == letters.len() {
            assert(!alphabet().contains(s@[i as int]));
            return false;
        }
        assert(alphabet()[k as int] == s@[i as int]);
        i += 1;
    }
    true
}

pub fn is_valid_qr_text(text: &str) -> (r: bool)
    ensures
        r == valid_qr_text(text@),
{
    let s = chars_of(text);
    let b = match without_prefix(s.as_slice(), "WIFI:T:ADB;S:") {
        Some(b) => b,
        None => return false,
    };
    let body = match without_suffix(b, ";;") {
        Some(body) => body,
        None => return false,
    };
    match split_at_text(body, ";P:") {
        Some((name, password)) => has_prefix(name, "studio-") && password.len() > 0
            && all_in_alphabet(name) && all_in_alphabet(password),
        None => false,
    }
}

/// Every payload that can be made is one a phone accepts.
pub proof fn a_payload_is_valid(p: PayloadView)
    requires
        p.wf(),
    ensures
        valid_qr_text(p.qr_text()),
{
    let head = "WIFI:T:ADB;S:"@;
    let sep = ";P:"@;
    let tail = ";;"@;
    let text = p.qr_text();
    reveal_strlit(";P:");
    lemma_alphabet();
    assert(text.subrange(0, head.len() as int) == head);
    let b = text.skip(head.len() as int);
    assert(b == p.instance + sep + p.password + tail);
    let n = b.len() - tail.len();
    assert(b.subrange(n, n + tail.len() as int) == tail);
    let body = b.take(n);
    assert(body == p.instance + sep + p.password);
    let k = p.instance.len() as int;
    assert(body.subrange(k, k + sep.len() as int) == sep);
    assert forall|j: int| 0 <= j < k implies body[j] != sep[0] by {
        assert(body[j] == p.instance[j]);
        assert(alphabet().contains(p.instance[j]));
    }
    lemma_no_match(body, sep, 0, k);
    lemma_find_is(body, sep, 0, k);
    assert(body.take(k) == p.instance);
    assert(body.skip(k + sep.len() as int) == p.password);
}

/// A payload matches its own name, bare and as the pairing service announces it; a payload of
/// another name does not.
pub proof fn a_payload_matches_its_own_service(p: PayloadView, other: PayloadView)
    requires
        p.wf(),
        other.wf(),
    ensures
        p.matches(p.instance),
        p.matches(p.instance + "."@ + "_adb-tls-pairing._tcp.local."@),
        p.instance != other.instance ==> !p.matches(other.instance) && !p.matches(
            other.instance + "."@ + "_adb-tls-pairing._tcp.local."@,
        ),
{
    lemma_own_name(p);
    lemma_own_name(other);
}

/// The name a service of this payload is matched by is the payload's own.
proof fn lemma_own_name(p: PayloadView)
    requires
        p.wf(),
    ensures
        split_once(p.instance, "._adb-tls-pairing"@) is None,
        split_once(p.instance + "."@ + "_adb-tls-pairing._tcp.local."@, "._adb-tls-pairing"@)
            matches Some((name, _)) && name == p.instance,
{
    reveal_strlit(".");
    reveal_strlit("_adb-tls-pairing._tcp.local.");
    reveal_strlit("._adb-tls-pairing");
    lemma_alphabet();
    let sep = "._adb-tls-pairing"@;
    let k = p.instance.len() as int;
    assert forall|j: int| 0 <= j < k implies p.instance[j] != sep[0] by {
        assert(alphabet().contains(p.instance[j]));
    }
    lemma_no_match(p.instance, sep, 0, k);
    assert(!matches_at(p.instance, sep, k));
    lemma_find(p.instance, sep, 0);
    let full = p.instance + "."@ + "_adb-tls-pairing._tcp.local."@;
    assert forall|j: int| 0 <= j < k implies full[j] != sep[0] by {
        assert(full[j] == p.instance[j]);
    }
    lemma_no_match(full, sep, 0, k);
    assert(full.subrange(k, k + sep.len() as int) == sep);
    lemma_find_is(full, sep, 0, k);
    assert(full.take(k) == p.instance);
}

// ---------------------------------------------------------------------------
// Addresses
// ---------------------------------------------------------------------------

/// Addresses to try, in order: IPv4 first, then the IPv6 addresses adb can dial.
pub open spec fn usable(addrs: Seq<IpAddr>) -> Seq<IpAddr> {
    addrs.filter(|a: IpAddr| a is V4) + addrs.filter(|a: IpAddr| a.is_dialable_v6())
}

/// Addresses to try, in order. Link-local IPv6 is dropped outright: adb cannot use a scope id.
/// IPv4 is preferred, but a global IPv6 is a usable fallback rather than a dead end.
pub fn usable_addresses(addrs: &[IpAddr]) -> (r: Vec<IpAddr>)
    ensures
        r@ == usable(addrs@),
{
    let ghost all = addrs@;
    let ghost four = |a: IpAddr| a is V4;
    let ghost six = |a: IpAddr| a.is_dialable_v6();
    let mut r: Vec<IpAddr> = Vec::new();
    let mut i: usize = 0;
    proof {
        reveal(Seq::filter);
        assert(all.take(0).filter(four) == Seq::<IpAddr>::empty());
        assert(all.take(0).filter(six) == Seq::<IpAddr>::empty());
    }
    while i < addrs.len()
        invariant
            i <= addrs.len(),
            all == addrs@,
            four == (|a: IpAddr| a is V4),
            r@ == all.take(i as int).filter(four),
        decreases addrs.len() - i,
    {
        proof {
            lemma_filter_step(all, four, i as int);
        }
        if addrs[i].is_ipv4() {
            r.push(addrs[i]);
        }
        i += 1;
    }
    assert(all.take(i as int) == all);
    let ghost first = r@;
    i = 0;
    assert(r@ == first + all.take(0).filter(six));
    while i < addrs.len()
        invariant
            i <= addrs.len(),
            all == addrs@,
            six == (|a: IpAddr| a.is_dialable_v6()),
            r@ == first + all.take(i as int).filter(six),
        decreases addrs.len() - i,
    {
        proof {
            lemma_filter_step(all, six, i as int);
        }
        if addrs[i].dialable_v6() {
            r.push(addrs[i]);
            assert(r@ == first + all.take(i as int).filter(six).push(all[i as int]));
        }
        i += 1;
    }
    assert(all.take(i as int) == all);
    r
}

/// `host:port` for adb, with brackets round an IPv6 address.
pub open spec fn endpoint_text(addr: IpAddr, port: u16) -> Seq<char> {
    match addr {
        IpAddr::V4(_) => address_text(addr) + ":"@ + decimal(port as nat),
        IpAddr::V6(_) => "["@ + address_text(addr) + "]:"@ + decimal(port as nat),
    }
}

/// `host:port` for adb, bracketing IPv6 literals.
pub fn endpoint(addr: IpAddr, port: u16) -> (r: String)
    ensures
        r@ == endpoint_text(addr, port),
{
    let host = address_text_of(&addr);
    let number = decimal_of(port as u64);
    if addr.is_ipv4() {
        host.concat(":").concat(number.as_str())
    } else {
        "[".to_owned().concat(host.as_str()).concat("]:").concat(number.as_str())
    }
}

// ---------------------------------------------------------------------------
// Running adb pair and adb connect
// ---------------------------------------------------------------------------

#[derive(Debug, PartialEq, Eq)]
pub enum PairOutcome {
    /// Paired. Carries the guid adb reports, when it reports one.
    Paired { guid: Option<String> },
    WrongCode,
    /// The phone's pairing window closed, or nothing was listening.
    Unreachable,
    Other(String),
}

pub enum PairView {
    Paired(Option<Seq<char>>),
    WrongCode,
    Unreachable,
    Other(Seq<char>),
}

impl View for PairOutcome {
    type V = PairView;

    open spec fn view(&self) -> PairView {
        match self {
            PairOutcome::Paired { guid } => PairView::Paired(opt_text(*guid)),
            PairOutcome::WrongCode => PairView::WrongCode,
            PairOutcome::Unreachable => PairView::Unreachable,
            PairOutcome::Other(text) => PairView::Other(text@),
        }
    }
}

/// The marks that may stand round a guid.
pub open spec fn is_mark(c: char) -> bool {
    c == '[' || c == ']' || c == '.' || c == ','
}

pub open spec fn trim_marks_start(s: Seq<char>) -> Seq<char>
    decreases s.len(),
{
    if s.len() > 0 && is_mark(s[0]) {
        trim_marks_start(s.skip(1))
    } else {
        s
    }
}

pub open spec fn trim_marks_end(s: Seq<char>) -> Seq<char>
    decreases s.len(),
{
    if s.len() > 0 && is_mark(s.last()) {
        trim_marks_end(s.drop_last())
    } else {
        s
    }
}

fn mark(c: char) -> (r: bool)
    ensures
        r == is_mark(c),
{
    c == '[' || c == ']' || c == '.' || c == ','
}

fn without_marks(s: &[char]) -> (r: String)
    ensures
        r@ == trim_marks_end(trim_marks_start(s@)),
{
    let end: usize = s.len();
    let mut a: usize = 0;
    assert(s@.skip(0) == s@);
    while a < end && mark(s[a])
        invariant
            a <= end == s@.len(),
            trim_marks_start(s@) == trim_marks_start(s@.skip(a as int)),
        decreases end - a,
    {
        assert(s@.skip(a as int).skip(1) == s@.skip(a + 1));
        a += 1;
    }
    let ghost rest = s@.skip(a as int);
    assert(trim_marks_start(s@) == rest);
    let mut b: usize = end;
    assert(rest == s@.subrange(a as int, b as int));
    while b > a && mark(s[b - 1])
        invariant
            a <= b <= end == s@.len(),
            trim_marks_end(rest) == trim_marks_end(s@.subrange(a as int, b as int)),
        decreases b,
    {
        assert(s@.subrange(a as int, b as int).drop_last() == s@.subrange(a as int, b - 1));
        b -= 1;
    }
    string_of(slice_subrange(s, a, b))
}

/// The guid in what adb printed: what follows `guid=`, or else the first word that looks like
/// one.
pub open spec fn reported_guid(text: Seq<char>) -> Option<Seq<char>> {
    let found = match split_once(text, "guid="@) {
        Some((_, rest)) => {
            let r = trim_start(rest);
            Some(r.take(scan(r, 0, Class::SpaceOr(']'))))
        },
        None => find_map(words(text), |w: Seq<char>| bare_guid(w)),
    };
    match found {
        Some(g) => if g.len() > 0 {
            Some(g)
        } else {
            None
        },
        None => None,
    }
}

/// A word that older builds print as the guid.
pub open spec fn bare_guid(word: Seq<char>) -> Option<Seq<char>> {
    if starts_with(word, "adb-"@) {
        Some(trim_marks_end(trim_marks_start(word)))
    } else {
        None
    }
}

fn first_bare_guid(text: &[char]) -> (r: Option<String>)
    ensures
        opt_text(r) == find_map(words(text@), |w: Seq<char>| bare_guid(w)),
{
    let w = words_of(text);
    let ghost all = words(text@);
    let ghost f = |w: Seq<char>| bare_guid(w);
    let mut i: usize = 0;
    while i < w.len()
        invariant
            i <= w.len(),
            slices(w@) == all,
            all == words(text@),
            f == (|w: Seq<char>| bare_guid(w)),
            forall|j: int| 0 <= j < i ==> f(#[trigger] all[j]) is None,
        decreases w.len() - i,
    {
        assert(w@[i as int]@ == all[i as int]);
        if has_prefix(w[i], "adb-") {
            let g = without_marks(w[i]);
            proof {
                assert(f(all[i as int]) == Some(g@));
                lemma_find_map(all, f, i as int);
            }
            return Some(g);
        }
        i += 1;
    }
    proof {
        lemma_find_map(all, f, i as int);
    }
    None
}

fn guid_of(text: &[char]) -> (r: Option<String>)
    ensures
        opt_text(r) == reported_guid(text@),
{
    let found = match split_at_text(text, "guid=") {
        Some((_, rest)) => {
            let t = trimmed_start(rest);
            let n: usize = scan_for(t, 0, Class::SpaceOr(']'));
            let g = slice_subrange(t, 0, n);
            assert(g@ == t@.take(n as int));
            Some(string_of(g))
        },
        None => first_bare_guid(text),
    };
    match found {
        Some(g) => {
            if chars_of(g.as_str()).len() > 0 {
                Some(g)
            } else {
                None
            }
        },
        None => None,
    }
}

/// What adb said, given its text as it stands and in lower case.
pub open spec fn pair_result(text: Seq<char>, low: Seq<char>, success_exit: bool) -> PairView {
    if contains(low, "successfully paired"@) {
        PairView::Paired(reported_guid(text))
    } else if contains(low, "wrong"@) || contains(low, "incorrect"@) || contains(
        low,
        "failed to authenticate"@,
    ) {
        PairView::WrongCode
    } else if contains(low, "connection refused"@) || contains(low, "protocol fault"@) || contains(
        low,
        "cannot connect"@,
    ) || contains(low, "no pairing code"@) {
        PairView::Unreachable
    } else if success_exit && trim(low).len() == 0 {
        PairView::Other("adb pair said nothing"@)
    } else {
        PairView::Other(trim(text))
    }
}

/// Read what adb said from its text and that text in lower case.
pub fn read_pair_text(text: &str, low: &str, success_exit: bool) -> (r: PairOutcome)
    ensures
        r@ == pair_result(text@, low@, success_exit),
{
    let t = chars_of(text);
    let l = chars_of(low);
    let lower = l.as_slice();
    if contains_text(lower, "successfully paired") {
        return PairOutcome::Paired { guid: guid_of(t.as_slice()) };
    }
    if contains_text(lower, "wrong") || contains_text(lower, "incorrect") || contains_text(
        lower,
        "failed to authenticate",
    ) {
        return PairOutcome::WrongCode;
    }
    if contains_text(lower, "connection refused") || contains_text(lower, "protocol fault")
        || contains_text(lower, "cannot connect") || contains_text(lower, "no pairing code") {
        return PairOutcome::Unreachable;
    }
    if success_exit && trimmed(lower).len() == 0 {
        // Silence with a zero exit is not success.
        return PairOutcome::Other("adb pair said nothing".to_owned());
    }
    PairOutcome::Other(string_of(trimmed(t.as_slice())))
}

/// Read `adb pair`'s result. A zero exit alone is not proof, since some builds exit zero on a
/// refused code, and some failures exit non-zero with terse output, so both are read.
pub fn parse_pair_output(stdout: &str, stderr: &str, success_exit: bool) -> (r: PairOutcome)
    ensures
        r@ == pair_result(
            stdout@ + "\n"@ + stderr@,
            lower(stdout@ + "\n"@ + stderr@),
            success_exit,
        ),
{
    let text = stdout.to_owned().concat("\n").concat(stderr);
    let low = lowercased(text.as_str());
    read_pair_text(text.as_str(), low.as_str(), success_exit)
}

/// A child to run: its command, what goes to its stdin, and how many seconds it may take.
#[derive(Debug, PartialEq, Eq)]
pub struct Run {
    pub command: ProbeCommand,
    pub stdin: Option<String>,
    pub seconds: u64,
}

/// The command that runs adb against the server on `port`.
///
/// A socket is never inherited that would silently redirect it to another server, and
/// auto-connect is explicit rather than left to the user manager's environment.
fn adb_command(adb: &str, port: u16, args: Vec<String>) -> (r: ProbeCommand)
    ensures
        r.program@ == adb@,
        r.args == args,
        text_pairs(r.env_set@) == seq![
            ("ANDROID_ADB_SERVER_PORT"@, decimal(port as nat)),
            ("ADB_MDNS_AUTO_CONNECT"@, "adb-tls-connect"@),
        ],
        texts(r.env_clear@) == seq!["ADB_SERVER_SOCKET"@],
{
    let env_set = vec![
        ("ANDROID_ADB_SERVER_PORT".to_owned(), decimal_of(port as u64)),
        ("ADB_MDNS_AUTO_CONNECT".to_owned(), "adb-tls-connect".to_owned()),
    ];
    assert(text_pairs(env_set@) == seq![
        ("ANDROID_ADB_SERVER_PORT"@, decimal(port as nat)),
        ("ADB_MDNS_AUTO_CONNECT"@, "adb-tls-connect"@),
    ]);
    let env_clear = vec!["ADB_SERVER_SOCKET".to_owned()];
    ProbeCommand { program: adb.to_owned(), args, env_set, env_clear }
}

/// Pair with a phone. The code goes in on stdin only: nothing of it is in the command.
pub fn pair(adb: &str, port: u16, endpoint: &str, code: &str) -> (r: Run)
    ensures
        r.command.program@ == adb@,
        texts(r.command.args@) == seq!["pair"@, endpoint@],
        text_pairs(r.command.env_set@) == seq![
            ("ANDROID_ADB_SERVER_PORT"@, decimal(port as nat)),
            ("ADB_MDNS_AUTO_CONNECT"@, "adb-tls-connect"@),
        ],
        texts(r.command.env_clear@) == seq!["ADB_SERVER_SOCKET"@],
        opt_text(r.stdin) == Some(code@ + "\n"@),
        r.seconds == 20,
{
    let args = vec!["pair".to_owned(), endpoint.to_owned()];
    Run {
        command: adb_command(adb, port, args),
        stdin: Some(code.to_owned().concat("\n")),
        seconds: 20,
    }
}

impl Run {
    /// Leave nothing of the code behind once it has been written.
    pub fn wipe(&mut self)
        ensures
            final(self).command == old(self).command,
            final(self).seconds == old(self).seconds,
            final(self).stdin is None,
    {
        if let Some(line) = &mut self.stdin {
            wipe_text(line);
        }
        self.stdin = None;
    }
}

/// Attach a device. A bad address blocks the worker just as effectively as a bad code.
pub fn connect(adb: &str, port: u16, endpoint: &str) -> (r: Run)
    ensures
        r.command.program@ == adb@,
        texts(r.command.args@) == seq!["connect"@, endpoint@],
        text_pairs(r.command.env_set@) == seq![
            ("ANDROID_ADB_SERVER_PORT"@, decimal(port as nat)),
            ("ADB_MDNS_AUTO_CONNECT"@, "adb-tls-connect"@),
        ],
        texts(r.command.env_clear@) == seq!["ADB_SERVER_SOCKET"@],
        r.stdin is None,
        r.seconds == 10,
{
    let args = vec!["connect".to_owned(), endpoint.to_owned()];
    Run { command: adb_command(adb, port, args), stdin: None, seconds: 10 }
}

/// What a connect said, on either stream.
pub fn connect_text(stdout: &str, stderr: &str) -> (r: String)
    ensures
        r@ == trim(stdout@) + trim(stderr@),
{
    let o = chars_of(stdout);
    let e = chars_of(stderr);
    string_of(trimmed(o.as_slice())).concat(string_of(trimmed(e.as_slice())).as_str())
}

/// What a connect was answered. adb reports a failure in words, so the words decide.
pub fn parse_connect_output(text: &str, success: bool) -> (r: Result<String, String>)
    ensures
        match r {
            Ok(line) => success && contains(text@, "connected to"@) && line@ == trim(text@),
            Err(why) => !(success && contains(text@, "connected to"@)) && why@ == trim(text@),
        },
{
    let t = chars_of(text);
    let line = string_of(trimmed(t.as_slice()));
    if success && contains_text(t.as_slice(), "connected to") {
        Ok(line)
    } else {
        Err(line)
    }
}

/// Whether a service that can be connected to is the phone that was just paired: by its guid where
/// adb reported one, and by its address otherwise.
pub open spec fn is_paired_phone(
    f: FoundView,
    guid: Option<Seq<char>>,
    host: Seq<char>,
) -> bool {
    match guid {
        Some(g) => first_label(f.fullname) == g,
        None => exists|i: int|
            0 <= i < f.addresses.len() && address_text(#[trigger] f.addresses[i]) == host,
    }
}

pub fn paired_phone(found: &Found, guid: Option<&str>, host: &str) -> (r: bool)
    ensures
        r == is_paired_phone(
            found@,
            match guid {
                Some(g) => Some(g@),
                None => None,
            },
            host@,
        ),
{
    match guid {
        Some(g) => str_eq(found.instance(), g),
        None => {
            let mut i: usize = 0;
            while i < found.addresses.len()
                invariant
                    i <= found.addresses.len(),
                    guid is None,
                    forall|j: int|
                        0 <= j < i ==> address_text(#[trigger] found.addresses@[j]) != host@,
                decreases found.addresses.len() - i,
            {
                if str_eq(address_text_of(&found.addresses[i]).as_str(), host) {
                    assert(address_text(found@.addresses[i as int]) == host@);
                    return true;
                }
                i += 1;
            }
            false
        },
    }
}

/// The endpoints of a service, tried one after another until one of them works.
pub struct Attempts {
    endpoints: Vec<String>,
    next: usize,
    why: String,
}

/// The endpoints that are left, and what is said if none of them works.
pub struct AttemptsView {
    pub left: Seq<Seq<char>>,
    pub why: Seq<char>,
}

impl View for Attempts {
    type V = AttemptsView;

    closed spec fn view(&self) -> AttemptsView {
        AttemptsView {
            left: if self.next <= self.endpoints@.len() {
                texts(self.endpoints@).skip(self.next as int)
            } else {
                seq![]
            },
            why: self.why@,
        }
    }
}

impl Attempts {
    /// With nothing to dial, `none` is the reason.
    pub fn over(found: &Found, none: &str) -> (r: Attempts)
        ensures
            r@.left == endpoints(found@),
            r@.why == none@,
    {
        let eps = endpoints_of(found);
        assert(texts(eps@).skip(0) == texts(eps@));
        Attempts { endpoints: eps, next: 0, why: none.to_owned() }
    }

    /// The endpoint to try next, given why the one before it failed. Once there is none left, the
    /// last failure is the answer.
    pub fn attempt(&mut self, failed: Option<String>) -> (r: Result<String, String>)
        ensures
            ({
                let why = match failed {
                    Some(w) => w@,
                    None => old(self)@.why,
                };
                &&& final(self)@.why == why
                &&& if old(self)@.left.len() > 0 {
                    &&& r matches Ok(ep)
                    &&& ep@ == old(self)@.left[0]
                    &&& final(self)@.left == old(self)@.left.skip(1)
                } else {
                    &&& r matches Err(e)
                    &&& e@ == why
                    &&& final(self)@.left == old(self)@.left
                }
            }),
    {
        if let Some(w) = failed {
            self.why = w;
        }
        if self.next < self.endpoints.len() {
            let n: usize = self.next;
            let ep = self.endpoints[n].as_str().to_owned();
            self.next = n + 1;
            assert(texts(self.endpoints@).skip(n as int).skip(1) == texts(self.endpoints@).skip(
                n + 1,
            ));
            Ok(ep)
        } else {
            Err(self.why.as_str().to_owned())
        }
    }
}

/// The argv `adb pair` is invoked with. The password has no way into it.
pub fn pair_argv(adb: &str, endpoint: &str) -> (r: Vec<String>)
    ensures
        texts(r@) == seq![adb@, "pair"@, endpoint@],
{
    vec![adb.to_owned(), "pair".to_owned(), endpoint.to_owned()]
}

/// A character of a written address.
spec fn is_address_char(c: char) -> bool {
    ('0' <= c <= '9') || ('a' <= c <= 'f') || c == ':' || c == '.'
}

spec fn all_address_chars(s: Seq<char>) -> bool {
    forall|i: int| 0 <= i < s.len() ==> is_address_char(#[trigger] s[i])
}

proof fn lemma_joined_address(v: Seq<Seq<char>>, sep: Seq<char>)
    requires
        all_address_chars(sep),
        forall|i: int| 0 <= i < v.len() ==> all_address_chars(#[trigger] v[i]),
    ensures
        all_address_chars(join(v, sep)),
    decreases v.len(),
{
    if v.len() > 0 {
        lemma_joined_address(v.drop_last(), sep);
        assert(all_address_chars(v.last()));
        assert(all_address_chars(join(v.drop_last(), sep)));
    }
}

proof fn lemma_groups(s: Seq<u16>)
    ensures
        all_address_chars(groups(s)),
{
    reveal_strlit(":");
    let v = s.map_values(|x: u16| hexadecimal(x as nat));
    assert forall|i: int| 0 <= i < v.len() implies all_address_chars(#[trigger] v[i]) by {
        lemma_hexadecimal_chars(s[i] as nat);
    }
    lemma_joined_address(v, ":"@);
}

proof fn lemma_dotted(a: nat, b: nat, c: nat, d: nat)
    ensures
        dotted(a, b, c, d).len() > 0,
        '0' <= dotted(a, b, c, d)[0] <= '9',
        all_address_chars(dotted(a, b, c, d)),
        forall|i: int|
            0 <= i < dotted(a, b, c, d).len() ==> #[trigger] dotted(a, b, c, d)[i] != ':',
{
    reveal_strlit(".");
    lemma_decimal_digits(a);
    lemma_decimal_digits(b);
    lemma_decimal_digits(c);
    lemma_decimal_digits(d);
}

proof fn lemma_address_chars(a: IpAddr)
    ensures
        all_address_chars(address_text(a)),
{
    match a {
        IpAddr::V4(b) => {
            lemma_dotted(b@[0] as nat, b@[1] as nat, b@[2] as nat, b@[3] as nat);
        },
        IpAddr::V6(s) => {
            let s = s@;
            let start = longest_run(s, 8);
            let n = zero_run(s, start);
            reveal_strlit("::ffff:");
            reveal_strlit("::");
            lemma_dotted(
                s[6] as nat / 256,
                s[6] as nat % 256,
                s[7] as nat / 256,
                s[7] as nat % 256,
            );
            lemma_groups(s);
            lemma_groups(s.take(start));
            lemma_groups(s.skip(start + n));
        },
    }
}

/// What adb is given to dial is a serial of its own kind: it splits into the address and the
/// port it was made of, so a device attached under it is one connected over TCP.
pub proof fn an_endpoint_splits(addr: IpAddr, port: u16)
    ensures
        host_port(endpoint_text(addr, port)) == Some((address_text(addr), port as nat)),
        transport_of(endpoint_text(addr, port)) == Transport::Tcp,
{
    let host = address_text(addr);
    let number = decimal(port as nat);
    let text = endpoint_text(addr, port);
    reveal_strlit(":");
    reveal_strlit("[");
    reveal_strlit("]:");
    lemma_decimal_digits(port as nat);
    lemma_port_round_trip(port);
    lemma_address_chars(addr);
    match addr {
        IpAddr::V4(b) => {
            lemma_dotted(b@[0] as nat, b@[1] as nat, b@[2] as nat, b@[3] as nat);
            let k = host.len() as int;
            lemma_last_index(text, ':');
            assert(text[k] == ':');
            assert forall|j: int| k < j < text.len() implies text[j] != ':' by {
                assert(text[j] == number[j - k - 1]);
            }
            assert(last_index(text, ':') == k);
            assert(text.take(k) == host);
            assert(text.skip(k + 1) == number);
            assert(!any_in(host, Class::Is(':')));
            assert(text[0] == host[0]);
        },
        IpAddr::V6(_) => {
            let rest = text.skip(1);
            let k = host.len() as int;
            assert(rest == host + "]:"@ + number);
            assert forall|j: int| 0 <= j < k implies !Class::Is(']').has(#[trigger] rest[j]) by {
                assert(rest[j] == host[j]);
                assert(is_address_char(host[j]));
            }
            assert(rest[k] == ']');
            lemma_scan_is(rest, 0, Class::Is(']'), k);
            assert(rest.take(k) == host);
            assert(rest.skip(k + 1).skip(1) == number);
        },
    }
    reveal_strlit("emulator-");
    reveal_strlit("._adb-tls-connect._tcp");
    if starts_with(text, "emulator-"@) {
        assert(text.subrange(0, "emulator-"@.len() as int)[0] == text[0]);
        assert(text[0] == 'e');
    }
    if ends_with(text, "._adb-tls-connect._tcp"@) {
        let tail = "._adb-tls-connect._tcp"@;
        let n = text.len() - tail.len();
        assert(text.subrange(n, n + tail.len() as int).last() == text.last());
        assert(text.last() == 'p');
        assert(text.last() == number.last());
    }
}

/// An exit status is no proof of anything: it changes neither whether a pairing counts as done nor
/// what went wrong with it, only what is said of silence.
pub proof fn an_exit_status_is_no_proof(text: Seq<char>, low: Seq<char>)
    ensures
        pair_result(text, low, true) is Paired <==> pair_result(text, low, false) is Paired,
        pair_result(text, low, true) is WrongCode <==> pair_result(text, low, false) is WrongCode,
        pair_result(text, low, true) is Unreachable <==> pair_result(text, low, false)
            is Unreachable,
        trim(low).len() > 0 ==> pair_result(text, low, true) == pair_result(text, low, false),
{
}

} // verus!
