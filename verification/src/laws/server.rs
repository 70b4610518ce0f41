//! What a server is asked, what its replies mean, and how a binary is probed.

use crate::adb::{overrun, parse_mdns_check, MdnsSupport};
use crate::num::{decimal, hexadecimal, number, zero_padded};
use crate::probe::{checked, look, probe_mdns_support, Probe, ProbeAction, ProbeEvent};
use crate::smart_socket::{
    a_frame_holds_its_length, frame_request, okay, output_text, refusal, reply_at_end, reply_step,
    ReplyStep, Request, SmartSocket,
};
use crate::text::trim;
use vstd::prelude::*;
use vstd::utf8::encode_utf8;

verus! {

// ---------------------------------------------------------------------------
// The smart socket
// ---------------------------------------------------------------------------

/// A request is the length of the service's name in bytes, in four hexadecimal digits, and the
/// name.
pub proof fn a_request_is_a_length_and_a_name(service: &str, r: String)
    requires
        encode_utf8(service@).len() <= 0xffff,
        call_ensures(frame_request, (service,), r),
    ensures
        r@.len() == 4 + service@.len(),
        r@.skip(4) == service@,
        number(r@.take(4), 16, 0xffff) == Some(encode_utf8(service@).len()),
        r@.take(4) == zero_padded(hexadecimal(encode_utf8(service@).len()), 4),
{
    a_frame_holds_its_length(service@);
    crate::num::lemma_length_round_trip(encode_utf8(service@).len());
    let z = zero_padded(hexadecimal(encode_utf8(service@).len()), 4);
    assert((z + service@).take(4) == z);
}

/// Whether a request asks for a service, and for how long it may take.
pub open spec fn requests(r: Request, service: Seq<char>, seconds: int) -> bool {
    &&& r.service@ == service
    &&& r.frame@ == zero_padded(hexadecimal(encode_utf8(service).len()), 4) + service
    &&& r.seconds == seconds
}

/// Each request names its own service, and none of them can start a server.
pub proof fn every_request_names_its_service(
    s: &SmartSocket,
    endpoint: &str,
    version: Request,
    devices: Request,
    connect: Request,
    check: Request,
    services: Request,
)
    requires
        call_ensures(SmartSocket::version, (s,), version),
        call_ensures(SmartSocket::devices, (s,), devices),
        call_ensures(SmartSocket::connect_device, (s, endpoint), connect),
        call_ensures(SmartSocket::mdns_check, (s,), check),
        call_ensures(SmartSocket::mdns_services, (s,), services),
    ensures
        requests(version, "host:version"@, 3),
        requests(devices, "host:devices-l"@, 3),
        requests(connect, "host:connect:"@ + endpoint@, 12),
        requests(check, "host:mdns:check"@, 3),
        requests(services, "host:mdns:services"@, 3),
{
}

/// A socket is the one on its own port of this machine.
pub proof fn a_socket_is_on_its_own_port(port: u16, s: SmartSocket, address: String, why: String)
    requires
        call_ensures(SmartSocket::new, (port,), s),
        call_ensures(SmartSocket::address, (&s,), address),
        call_ensures(SmartSocket::unreachable, (&s,), why),
    ensures
        address@ == "127.0.0.1:"@ + decimal(port as nat),
        why@ == "no adb server on "@ + address@,
{
    reveal_strlit("127.0.0.1:");
    reveal_strlit("no adb server on ");
    reveal_strlit("no adb server on 127.0.0.1:");
    assert("no adb server on 127.0.0.1:"@ == "no adb server on "@ + "127.0.0.1:"@);
    assert("no adb server on "@ + "127.0.0.1:"@ + decimal(port as nat) == "no adb server on "@ + (
    "127.0.0.1:"@ + decimal(port as nat)));
}

/// The four letters of a reply that is granted.
pub open spec fn granted(received: Seq<u8>) -> bool {
    received.len() >= 4 && received[0] == 'O' as u8 && received[1] == 'K' as u8 && received[2]
        == 'A' as u8 && received[3] == 'Y' as u8
}

/// A reply that is not granted is a refusal, and only that is. One that is granted holds its length
/// in four hexadecimal digits and then that many bytes, all of which are its body, whatever
/// follows. Until they are there, more is read, and never more than is still to come.
pub proof fn a_reply_is_its_letters_its_length_and_its_body(
    received: &[u8],
    r: ReplyStep,
    length: Seq<u8>,
    body: Seq<u8>,
    rest: Seq<u8>,
    n: nat,
    body_bytes: &[u8],
    text: String,
)
    requires
        call_ensures(reply_step, (received,), r),
        body_bytes@ == body,
        call_ensures(output_text, (body_bytes,), text),
    ensures
        r is Refused <==> received@.len() >= 4 && !granted(received@),
        received@.len() < 4 ==> (r matches ReplyStep::Read(n) && n == 4 - received@.len()),
        granted(received@) && received@.len() < 8 ==> (r matches ReplyStep::Read(n) && n == 8
            - received@.len()),
        granted(received@) && length.len() == 4 && received@ == received@.take(4) + length + body
            + rest && number(length.map_values(|b: u8| b as char), 16, 0xffff) == Some(body.len())
            ==> (r matches ReplyStep::Body(t) && t@ == text@),
        granted(received@) && length.len() == 4 && received@ == received@.take(4) + length + rest
            && number(length.map_values(|b: u8| b as char), 16, 0xffff) is None ==> r is Malformed,
        granted(received@) && length.len() == 4 && received@ == received@.take(4) + length + rest
            && number(length.map_values(|b: u8| b as char), 16, 0xffff) == Some(n) && n > rest.len()
            ==> (r matches ReplyStep::Read(more) && more == n - rest.len()),
{
    let s = received@;
    if s.len() >= 4 {
        let four = s.take(4);
        assert(granted(s) <==> four == okay()) by {
            assert(four[0] == s[0] && four[1] == s[1] && four[2] == s[2] && four[3] == s[3]);
            if granted(s) {
                assert(four =~= okay());
            }
            if four == okay() {
                assert(okay()[0] == 79 && okay()[1] == 75 && okay()[2] == 65 && okay()[3] == 89);
            }
        }
    }
    if granted(s) && length.len() == 4 && s == s.take(4) + length + body + rest {
        assert(s.subrange(4, 8) == length);
        assert(s.subrange(8, 8 + body.len() as int) == body);
    }
    if granted(s) && length.len() == 4 && s == s.take(4) + length + rest {
        assert(s.subrange(4, 8) == length);
    }
}

/// A granted reply without a body is an empty one; anything else that is cut short is none.
pub proof fn a_reply_may_end_after_its_letters(received: &[u8], r: Option<String>)
    requires
        call_ensures(reply_at_end, (received,), r),
    ensures
        r is Some <==> granted(received@) && received@.len() < 8,
        r matches Some(t) ==> t@.len() == 0,
{
    let s = received@;
    if s.len() >= 4 {
        let four = s.take(4);
        assert(four[0] == s[0] && four[1] == s[1] && four[2] == s[2] && four[3] == s[3]);
        if granted(s) {
            assert(four =~= okay());
        }
        if four == okay() {
            assert(okay()[0] == 79 && okay()[1] == 75 && okay()[2] == 65 && okay()[3] == 89);
        }
    }
}

// ---------------------------------------------------------------------------
// The probe
// ---------------------------------------------------------------------------

/// A check that names a backend is reported at once, with what it names. One that does not is asked
/// again, and counts as an answer only once the server has had time. A check that failed says
/// nothing.
pub proof fn what_a_check_says(
    p: Probe,
    adb: &str,
    out: Option<String>,
    settled: bool,
    r: (Probe, ProbeAction),
    said: &str,
    support: MdnsSupport,
)
    requires
        p.wf(),
        call_ensures(
            probe_mdns_support,
            (p, adb, ProbeEvent::Checked { out, settled }),
            r,
        ),
        out matches Some(o) ==> said@ == o@,
        call_ensures(parse_mdns_check, (said,), support),
    ensures
        r.0.attempts == p.attempts,
        out is None ==> r.1 is Check && r.0@.answered == p@.answered,
        out is Some && support is Present ==> (r.1 matches ProbeAction::Report(m) && m@ == support@),
        out is Some && support is Absent ==> r.1 is Check,
        out is Some && support is Absent && settled ==> r.0@.answered == Some(
            None::<Seq<char>>,
        ),
        out is Some && support is Absent && !settled ==> r.0@.answered == p@.answered,
        r.0@.last_err == p@.last_err,
{
}

/// Three servers are asked at most. One that cannot be started, or that exits early, makes way for
/// another; after the third, the reason is passed on.
pub proof fn three_servers_are_asked_at_most(
    p: Probe,
    adb: &str,
    why: String,
    early: bool,
    r: (Probe, ProbeAction),
)
    requires
        p.wf(),
        call_ensures(
            probe_mdns_support,
            (
                p,
                adb,
                if early {
                    ProbeEvent::Exited(why)
                } else {
                    ProbeEvent::SpawnFailed(why)
                },
            ),
            r,
        ),
    ensures
        r.1 is Start <==> p.attempts < 3,
        r.1 is Start ==> r.0.attempts == p.attempts + 1 && r.0@.answered is None,
        p.attempts >= 3 ==> (r.1 matches ProbeAction::Fail(text) && text@ == if early {
            "probe server for "@ + adb@ + " exited early ("@ + why@ + "); the port may be taken"@
        } else {
            "could not start "@ + adb@ + ": "@ + why@
        }),
{
}

/// When the time is up, what was answered counts. A server that has run all the while without an
/// answer has no backend; one that is gone says nothing, and another is asked.
pub proof fn what_the_deadline_says(p: Probe, adb: &str, running: bool, r: (Probe, ProbeAction))
    requires
        p.wf(),
        call_ensures(probe_mdns_support, (p, adb, ProbeEvent::Deadline { running }), r),
    ensures
        p.answered matches Some(a) ==> (r.1 matches ProbeAction::Report(m) && m@ == a@),
        p.answered is None && running ==> (r.1 matches ProbeAction::Report(m) && m is Absent),
        p.answered is None && !running && p.attempts < 3 ==> r.1 is Start && r.0.attempts
            == p.attempts + 1,
        p.answered is None && !running && p.attempts >= 3 ==> r.1 is Fail,
{
}

/// A probe begins with its first server and without an answer; a server that runs is checked, and
/// whatever was answered before it is forgotten.
pub proof fn what_a_probe_begins_with(p: Probe, adb: &str, q: Probe, r: (Probe, ProbeAction))
    requires
        call_ensures(Probe::begin, (), q),
        p.wf(),
        call_ensures(probe_mdns_support, (p, adb, ProbeEvent::Spawned), r),
    ensures
        q.attempts == 1 && q@.answered is None && q@.last_err is None,
        r.1 is Check,
        r.0@.answered is None,
        r.0.attempts == p.attempts,
{
}

/// A probe's server has six seconds, and is taken at its word after two.
pub proof fn how_long_a_server_has(
    started: u64,
    now: u64,
    exited: Option<String>,
    out: Option<String>,
    seen: Option<ProbeEvent>,
    check: ProbeEvent,
)
    requires
        call_ensures(look, (started, now, exited), seen),
        call_ensures(checked, (started, now, out), check),
    ensures
        now >= started + 6_000_000_000 ==> seen == Some(
            ProbeEvent::Deadline { running: exited is None },
        ),
        now < started + 6_000_000_000 && exited is Some ==> seen == Some(
            ProbeEvent::Exited(exited->0),
        ),
        now < started + 6_000_000_000 && exited is None ==> seen is None,
        check == (ProbeEvent::Checked { out, settled: now > started + 2_000_000_000 }),
{
}

/// A child overruns only where it is still running past its deadline.
pub proof fn what_an_overrun_is(exited: bool, now: u64, deadline: u64, r: bool)
    requires
        call_ensures(overrun, (exited, now, deadline), r),
    ensures
        r <==> !exited && now > deadline,
{
}

/// Bytes that are text are read as that text.
pub proof fn text_is_read_as_it_is(bytes: &[u8], r: String)
    requires
        vstd::utf8::valid_utf8(bytes@),
        call_ensures(output_text, (bytes,), r),
    ensures
        encode_utf8(r@) == bytes@,
{
    vstd::utf8::decode_utf8_encode_utf8(bytes@);
}

/// A refusal is passed on with the name of what was refused.
pub proof fn what_a_refusal_says(service: &str, msg: &str, r: String)
    requires
        call_ensures(refusal, (service, msg), r),
    ensures
        r@ == "adb refused "@ + service@ + ": "@ + trim(msg@),
{
}

/// The times of a probe fit together: a check that begins when a server is taken at its word ends
/// before the server's time is up.
pub proof fn the_times_of_a_probe_fit_together()
    ensures
        crate::probe::SETTLING + crate::probe::CHECK_TIME < crate::probe::LIFETIME,
        0 < crate::probe::PAUSE < crate::probe::CHECK_TIME,
        crate::probe::LIFETIME == 6_000_000_000,
        crate::probe::SETTLING == 2_000_000_000,
        crate::probe::CHECK_TIME == 2_500_000_000,
        crate::probe::PAUSE == 150_000_000,
        crate::probe::ATTEMPTS == 3,
{
}

} // verus!
