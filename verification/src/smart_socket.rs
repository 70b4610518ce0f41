//! The smart-socket protocol of a running adb server: how a request is framed and a reply read.
//!
//! Running `adb devices` would *start* a server when none is listening. A request on a socket
//! cannot: if the server is gone, the request simply fails.

use crate::num::{
    decimal, decimal_of, hexadecimal, hexadecimal_of, lemma_length_round_trip, number, pad_zeros,
    parse_number, zero_padded,
};
use crate::text::{chars_of, string_of, trim, trimmed};
use vstd::prelude::*;
use vstd::slice::slice_subrange;
use vstd::utf8::{decode_utf8, encode_utf8, valid_utf8};

verus! {

/// Bytes as text, with what is not UTF-8 replaced.
pub uninterp spec fn lossy_text(bytes: Seq<u8>) -> Seq<char>;

/// `String::from_utf8_lossy`: the text depends on the bytes alone, and bytes that are valid UTF-8
/// are the encoding of the text. What takes the place of invalid bytes is not spelled out.
#[verifier::external_body]
pub(crate) fn text_of_bytes(bytes: &[u8]) -> (r: String)
    ensures
        r@ == lossy_text(bytes@),
        valid_utf8(bytes@) ==> r@ == decode_utf8(bytes@),
{
    String::from_utf8_lossy(bytes).into_owned()
}

/// What a program printed, as text.
pub fn output_text(bytes: &[u8]) -> (r: String)
    ensures
        r@ == lossy_text(bytes@),
        valid_utf8(bytes@) ==> r@ == decode_utf8(bytes@),
{
    text_of_bytes(bytes)
}

/// A request: the length of the service's name in bytes, as four hexadecimal digits, then the
/// name.
pub open spec fn request_frame(service: Seq<char>) -> Seq<char> {
    zero_padded(hexadecimal(encode_utf8(service).len()), 4) + service
}

pub fn frame_request(service: &str) -> (r: String)
    ensures
        r@ == request_frame(service@),
{
    let n: usize = service.as_bytes().len();
    pad_zeros(hexadecimal_of(n as u64), 4).concat(service)
}

/// A request as it goes over the wire, and how many seconds its answer may take.
#[derive(Debug, PartialEq, Eq)]
pub struct Request {
    pub service: String,
    pub frame: String,
    pub seconds: u64,
}

impl Request {
    /// Whether this is the request for a service, with so much time for its answer.
    pub open spec fn asks(self, service: Seq<char>, seconds: u64) -> bool {
        self.service@ == service && self.frame@ == request_frame(service) && self.seconds == seconds
    }
}

fn request_with_timeout(service: String, seconds: u64) -> (r: Request)
    ensures
        r.asks(service@, seconds),
{
    let frame = frame_request(service.as_str());
    Request { service, frame, seconds }
}

/// An adb server that is already running, on the loopback address.
#[derive(Debug, Clone, Copy, PartialEq, Eq, Structural)]
pub struct SmartSocket {
    pub port: u16,
}

impl SmartSocket {
    pub fn new(port: u16) -> (r: SmartSocket)
        ensures
            r.port == port,
    {
        SmartSocket { port }
    }

    /// Where to reach it. The address is an explicit `127.0.0.1`: `localhost` can resolve to `::1`
    /// while the server binds IPv4 loopback only.
    pub fn address(&self) -> (r: String)
        ensures
            r@ == "127.0.0.1:"@ + decimal(self.port as nat),
    {
        "127.0.0.1:".to_owned().concat(decimal_of(self.port as u64).as_str())
    }

    /// What is said when nothing listens there.
    pub fn unreachable(&self) -> (r: String)
        ensures
            r@ == "no adb server on 127.0.0.1:"@ + decimal(self.port as nat),
    {
        "no adb server on 127.0.0.1:".to_owned().concat(decimal_of(self.port as u64).as_str())
    }

    pub fn version(&self) -> (r: Request)
        ensures
            r.asks("host:version"@, 3),
    {
        request_with_timeout("host:version".to_owned(), 3)
    }

    pub fn devices(&self) -> (r: Request)
        ensures
            r.asks("host:devices-l"@, 3),
    {
        request_with_timeout("host:devices-l".to_owned(), 3)
    }

    /// Attach a device, over the smart socket rather than by running `adb connect`, which starts a
    /// server when none is listening. adb blocks while it dials the phone, so this needs longer
    /// than a status query.
    pub fn connect_device(&self, endpoint: &str) -> (r: Request)
        ensures
            r.asks("host:connect:"@ + endpoint@, 12),
    {
        request_with_timeout("host:connect:".to_owned().concat(endpoint), 12)
    }

    /// Ask whether the server has an mDNS backend: the question `adb mdns check` asks, without a
    /// child process.
    pub fn mdns_check(&self) -> (r: Request)
        ensures
            r.asks("host:mdns:check"@, 3),
    {
        request_with_timeout("host:mdns:check".to_owned(), 3)
    }

    /// What adb's own mDNS backend can currently see. A compiled-in backend is not proof that
    /// discovery is working right now.
    pub fn mdns_services(&self) -> (r: Request)
        ensures
            r.asks("host:mdns:services"@, 3),
    {
        request_with_timeout("host:mdns:services".to_owned(), 3)
    }
}

/// How a reply begins that grants the request.
pub open spec fn okay() -> Seq<u8> {
    seq![79u8, 75u8, 65u8, 89u8]
}

/// The length that four bytes of a reply hold.
pub open spec fn length_field(bytes: Seq<u8>) -> Option<nat> {
    number(bytes.map_values(|b: u8| b as char), 16, 0xffff)
}

fn parse_length(bytes: &[u8]) -> (r: Option<u64>)
    ensures
        match r {
            Some(n) => length_field(bytes@) == Some(n as nat) && n <= 0xffff,
            None => length_field(bytes@) is None,
        },
{
    let mut s: Vec<char> = Vec::new();
    let ghost all = bytes@.map_values(|b: u8| b as char);
    let mut i: usize = 0;
    while i < bytes.len()
        invariant
            i <= bytes.len(),
            all == bytes@.map_values(|b: u8| b as char),
            s@ == all.take(i as int),
        decreases bytes.len() - i,
    {
        s.push(bytes[i] as char);
        assert(s@ == all.take(i + 1));
        i += 1;
    }
    assert(s@ == all);
    parse_number(s.as_slice(), 16, 0xffff)
}

/// What to do with a reply of which some bytes have come.
#[derive(Debug, PartialEq, Eq)]
pub enum ReplyStep {
    /// Read this many bytes more.
    Read(usize),
    /// The server refused; what follows says why.
    Refused,
    /// The whole reply.
    Body(String),
    /// The length is not a number.
    Malformed,
}

pub enum ReplyView {
    Read(int),
    Refused,
    Body(Seq<char>),
    Malformed,
}

impl View for ReplyStep {
    type V = ReplyView;

    open spec fn view(&self) -> ReplyView {
        match self {
            ReplyStep::Read(n) => ReplyView::Read(*n as int),
            ReplyStep::Refused => ReplyView::Refused,
            ReplyStep::Body(text) => ReplyView::Body(text@),
            ReplyStep::Malformed => ReplyView::Malformed,
        }
    }
}

/// A reply is `OKAY`, a length in four hexadecimal digits, and that many bytes of text.
pub open spec fn reply(received: Seq<u8>) -> ReplyView {
    if received.len() < 4 {
        ReplyView::Read(4 - received.len())
    } else if received.take(4) != okay() {
        ReplyView::Refused
    } else if received.len() < 8 {
        ReplyView::Read(8 - received.len())
    } else {
        match length_field(received.subrange(4, 8)) {
            None => ReplyView::Malformed,
            Some(n) => if received.len() < 8 + n {
                ReplyView::Read(8 + n - received.len())
            } else {
                ReplyView::Body(lossy_text(received.subrange(8, 8 + n as int)))
            },
        }
    }
}

fn is_okay(received: &[u8]) -> (r: bool)
    requires
        received@.len() >= 4,
    ensures
        r == (received@.take(4) == okay()),
{
    if received[0] == 79 && received[1] == 75 && received[2] == 65 && received[3] == 89 {
        assert(received@.take(4) == okay());
        true
    } else {
        assert(received@.take(4)[0] == received@[0]);
        assert(received@.take(4)[1] == received@[1]);
        assert(received@.take(4)[2] == received@[2]);
        assert(received@.take(4)[3] == received@[3]);
        false
    }
}

pub fn reply_step(received: &[u8]) -> (r: ReplyStep)
    ensures
        r@ == reply(received@),
{
    let have: usize = received.len();
    if have < 4 {
        return ReplyStep::Read(4 - have);
    }
    if !is_okay(received) {
        return ReplyStep::Refused;
    }
    if have < 8 {
        return ReplyStep::Read(8 - have);
    }
    match parse_length(slice_subrange(received, 4, 8)) {
        None => ReplyStep::Malformed,
        Some(n) => {
            let whole: usize = n as usize + 8;
            if have < whole {
                ReplyStep::Read(whole - have)
            } else {
                ReplyStep::Body(text_of_bytes(slice_subrange(received, 8, whole)))
            }
        },
    }
}

/// What a reply amounts to when no more bytes come: a granted request without a length has an
/// empty answer, and anything else is cut short.
pub fn reply_at_end(received: &[u8]) -> (r: Option<String>)
    ensures
        r matches Some(text) ==> text@ == Seq::<char>::empty(),
        r is Some <==> 4 <= received@.len() < 8 && received@.take(4) == okay(),
{
    if received.len() >= 4 && received.len() < 8 && is_okay(received) {
        Some(String::new())
    } else {
        None
    }
}

/// What is said of a refused request.
pub fn refusal(service: &str, msg: &str) -> (r: String)
    ensures
        r@ == "adb refused "@ + service@ + ": "@ + trim(msg@),
{
    let m = chars_of(msg);
    "adb refused ".to_owned().concat(service).concat(": ").concat(
        string_of(trimmed(m.as_slice())).as_str(),
    )
}

/// A request of up to 65535 bytes carries its own length, in the form a reply's length is read.
pub proof fn a_frame_holds_its_length(service: Seq<char>)
    requires
        encode_utf8(service).len() <= 0xffff,
    ensures
        request_frame(service).skip(4) == service,
        number(request_frame(service).take(4), 16, 0xffff) == Some(encode_utf8(service).len()),
{
    let n = encode_utf8(service).len();
    lemma_length_round_trip(n);
    assert(request_frame(service).take(4) == zero_padded(hexadecimal(n), 4));
}

/// A granted reply that states its length is read in full, whatever follows it, and reading never
/// asks for more than it holds.
pub proof fn a_whole_reply_is_read(length: Seq<u8>, body: Seq<u8>, rest: Seq<u8>)
    requires
        length.len() == 4,
        length_field(length) == Some(body.len()),
    ensures
        reply(okay() + length + body + rest) == ReplyView::Body(lossy_text(body)),
        forall|k: int| #![trigger (okay() + length + body).take(k)]
            0 <= k < 8 + body.len() ==> {
                &&& reply((okay() + length + body).take(k)) matches ReplyView::Read(n)
                &&& 0 < n <= 8 + body.len() - k
            },
{
    let whole = okay() + length + body + rest;
    assert(whole.take(4) == okay());
    assert(whole.subrange(4, 8) == length);
    assert(whole.subrange(8, 8 + body.len() as int) == body);
    let reply_bytes = okay() + length + body;
    assert forall|k: int| 0 <= k < 8 + body.len() implies {
        &&& reply(#[trigger] reply_bytes.take(k)) matches ReplyView::Read(n)
        &&& 0 < n <= 8 + body.len() - k
    } by {
        let part = reply_bytes.take(k);
        if k >= 4 {
            assert(part.take(4) == okay());
        }
        if k >= 8 {
            assert(part.subrange(4, 8) == length);
        }
    }
}

} // verus!
