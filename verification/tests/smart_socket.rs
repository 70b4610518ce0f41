use wadb::smart_socket::{
    frame_request, output_text, refusal, reply_at_end, reply_step, ReplyStep, Request, SmartSocket,
};

#[test]
fn a_request_carries_its_length_in_bytes() {
    assert_eq!(frame_request("host:version"), "000chost:version");
    assert_eq!(frame_request(""), "0000");
    assert_eq!(frame_request("é"), "0002é");
    let long = "x".repeat(0x1234);
    assert!(frame_request(&long).starts_with("1234x"));
}

#[test]
fn a_reply_is_read_piece_by_piece() {
    assert_eq!(reply_step(b""), ReplyStep::Read(4));
    assert_eq!(reply_step(b"OKA"), ReplyStep::Read(1));
    assert_eq!(reply_step(b"OKAY"), ReplyStep::Read(4));
    assert_eq!(reply_step(b"OKAY00"), ReplyStep::Read(2));
    assert_eq!(reply_step(b"OKAY0005"), ReplyStep::Read(5));
    assert_eq!(reply_step(b"OKAY0005he"), ReplyStep::Read(3));
    assert_eq!(
        reply_step(b"OKAY0005hello"),
        ReplyStep::Body("hello".into())
    );
    assert_eq!(
        reply_step(b"OKAY0005hello and more"),
        ReplyStep::Body("hello".into())
    );
    assert_eq!(reply_step(b"OKAY0000"), ReplyStep::Body(String::new()));
    assert_eq!(reply_step(b"OKAY00zz"), ReplyStep::Malformed);
    assert_eq!(reply_step(b"FAIL"), ReplyStep::Refused);
}

#[test]
fn a_granted_request_without_a_length_has_an_empty_answer() {
    assert_eq!(reply_at_end(b"OKAY"), Some(String::new()));
    assert_eq!(reply_at_end(b"OKAY00"), Some(String::new()));
    assert_eq!(reply_at_end(b"OKA"), None);
    assert_eq!(reply_at_end(b"FAIL"), None);
    assert_eq!(reply_at_end(b"OKAY0005he"), None);
}

#[test]
fn a_refusal_names_the_service_and_the_reason() {
    assert_eq!(
        refusal("host:connect:x", "000fno such device \n"),
        "adb refused host:connect:x: 000fno such device"
    );
}

#[test]
fn bytes_that_are_not_text_are_replaced() {
    assert_eq!(output_text("Pixel é".as_bytes()), "Pixel é");
    assert_eq!(output_text(b"a\xffb"), "a\u{fffd}b");
    assert_eq!(
        reply_step(b"OKAY0003a\xffb"),
        ReplyStep::Body("a\u{fffd}b".into())
    );
}

#[test]
fn every_query_has_its_service_and_its_time() {
    let sock = SmartSocket::new(5137);
    assert_eq!(sock.address(), "127.0.0.1:5137");
    assert_eq!(sock.unreachable(), "no adb server on 127.0.0.1:5137");
    assert_eq!(
        sock.version(),
        Request {
            service: "host:version".into(),
            frame: "000chost:version".into(),
            seconds: 3
        }
    );
    assert_eq!(sock.devices().frame, "000ehost:devices-l");
    assert_eq!(sock.mdns_check().frame, "000fhost:mdns:check");
    assert_eq!(sock.mdns_services().frame, "0012host:mdns:services");
    let connect = sock.connect_device("10.0.0.1:5");
    assert_eq!(connect.service, "host:connect:10.0.0.1:5");
    assert_eq!(connect.seconds, 12, "adb blocks while it dials the phone");
}
