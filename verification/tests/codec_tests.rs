use bytes::{Bytes, BytesMut};

use nats_codec::codec::{cl1, Codec};
use nats_codec::message::connect::Payload as ConnectRecord;
use nats_codec::message::error::Payload as ErrorPayload;
use nats_codec::message::info::Payload as InfoRecord;
use nats_codec::message::message::Payload as DeliverPayload;
use nats_codec::message::publish::Payload as PublishPayload;
use nats_codec::message::subscribe::Payload as SubscribePayload;
use nats_codec::message::unsubscribe::Payload as UnsubscribePayload;
use nats_codec::message::Message;

#[test]
fn it_works() {
    let mut input = BytesMut::from(
        "MSG FRONT.DOOR 666 BACK.DOOR 11\r\n12345678901\r\nMSG FRONT.DOOR 666 11\r\n12345678901\r\n"
            .as_bytes(),
    );

    let mut codec = Codec::new();

    let first = codec.decode(&mut input).expect("ok").expect("one message");
    let second = codec.decode(&mut input).expect("ok").expect("two messages");

    assert_eq!(
        Message::Message(DeliverPayload {
            subject: Bytes::from("FRONT.DOOR"),
            sid: 666,
            reply_to: Some(Bytes::from("BACK.DOOR")),
            payload_size: 11,
            payload: Some(Bytes::from("12345678901")),
        }),
        first
    );
    assert_eq!(
        Message::Message(DeliverPayload {
            subject: Bytes::from("FRONT.DOOR"),
            sid: 666,
            reply_to: None,
            payload_size: 11,
            payload: Some(Bytes::from("12345678901")),
        }),
        second
    );
    assert_eq!(0, input.len());
}

#[test]
fn test_cl1() {
    let mut input = BytesMut::from("-ERR 'Maximum Connections Exceeded'\r\n");

    let result = cl1(&mut input);

    assert!(result.is_some());
    assert_eq!(
        Bytes::from("-ERR 'Maximum Connections Exceeded'"),
        result.unwrap()
    );
    assert_eq!(0, input.len());
}

#[test]
fn cl1_without_crlf_leaves_buffer_untouched() {
    let mut input = BytesMut::from("PING\rPONG\n half a line");

    assert!(cl1(&mut input).is_none());
    assert_eq!(b"PING\rPONG\n half a line", &input[..]);
}

#[test]
fn simple_publish() {
    let mut input = BytesMut::from("PUB FRONT.DOOR BACK.DOOR 11\r\n12345678901\r\n".as_bytes());
    let mut codec = Codec::new();

    let message = codec.decode(&mut input).expect("ok").expect("a message");

    assert_eq!(
        Message::Publish(PublishPayload {
            subject: Bytes::from("FRONT.DOOR"),
            reply_to: Some(Bytes::from("BACK.DOOR")),
            payload_size: 11,
            payload: Some(Bytes::from("12345678901")),
        }),
        message
    );
    assert_eq!(0, input.len());
}

#[test]
fn publish_without_reply() {
    let mut input = BytesMut::from("PUB FRONT.DOOR 11\r\n12345678901\r\n".as_bytes());
    let mut codec = Codec::new();

    let message = codec.decode(&mut input).expect("ok").expect("a message");

    assert_eq!(
        Message::Publish(PublishPayload {
            subject: Bytes::from("FRONT.DOOR"),
            reply_to: None,
            payload_size: 11,
            payload: Some(Bytes::from("12345678901")),
        }),
        message
    );
}

#[test]
fn unsubscribe_with_and_without_limit() {
    let mut codec = Codec::new();

    let mut input = BytesMut::from("UNSUB 1 5\r\n".as_bytes());
    assert_eq!(
        Message::Unsubscribe(UnsubscribePayload {
            sid: 1,
            max_messages: Some(5),
        }),
        codec.decode(&mut input).expect("ok").expect("a message")
    );

    let mut input = BytesMut::from("UNSUB 1\r\n".as_bytes());
    assert_eq!(
        Message::Unsubscribe(UnsubscribePayload {
            sid: 1,
            max_messages: None,
        }),
        codec.decode(&mut input).expect("ok").expect("a message")
    );
}

#[test]
fn body_needs_declared_size_plus_crlf() {
    // control line declaring 11 body bytes, then only 12 of the needed 13
    let mut input = BytesMut::from("PUB FOO 11\r\n123456789012".as_bytes());
    let mut codec = Codec::new();

    // one byte short: incomplete, not a truncated body
    assert_eq!(Ok(None), codec.decode(&mut input));
    assert_eq!(12, input.len());

    bytes::BufMut::put_slice(&mut input, b"\n");
    let message = codec.decode(&mut input).expect("ok").expect("a message");
    assert_eq!(
        Message::Publish(PublishPayload {
            subject: Bytes::from("FOO"),
            reply_to: None,
            payload_size: 11,
            payload: Some(Bytes::from("12345678901")),
        }),
        message
    );
    assert_eq!(0, input.len());
}

#[test]
fn incomplete_control_line_waits_for_more() {
    let mut input = BytesMut::from("PUB FOO 11".as_bytes());
    let mut codec = Codec::new();

    assert_eq!(Ok(None), codec.decode(&mut input));
    assert_eq!(10, input.len());
}

#[test]
fn chunked_feed_equals_whole_feed() {
    let stream =
        "PING\r\nMSG A 7 5\r\nhello\r\n+OK\r\nUNSUB 7\r\nPUB B.C 0\r\n\r\nPONG\r\n".as_bytes();

    let mut whole = Vec::new();
    {
        let mut codec = Codec::new();
        let mut input = BytesMut::from(stream);
        while let Ok(Some(m)) = codec.decode(&mut input) {
            whole.push(m);
        }
        assert_eq!(0, input.len());
    }

    for cut in 0..stream.len() {
        let mut chunked = Vec::new();
        let mut codec = Codec::new();
        let mut input = BytesMut::new();
        bytes::BufMut::put_slice(&mut input, &stream[..cut]);
        while let Ok(Some(m)) = codec.decode(&mut input) {
            chunked.push(m);
        }
        bytes::BufMut::put_slice(&mut input, &stream[cut..]);
        while let Ok(Some(m)) = codec.decode(&mut input) {
            chunked.push(m);
        }
        assert_eq!(whole, chunked);
        assert_eq!(0, input.len());
    }
    assert_eq!(6, whole.len());
}

#[test]
fn round_trip_all_variants() {
    let messages = vec![
        Message::Okay,
        Message::Ping,
        Message::Pong,
        Message::Error(ErrorPayload::StaleConnection),
        Message::Error(ErrorPayload::PermissionsViolationForSubscription(
            b"a.b".to_vec(),
        )),
        Message::Error(ErrorPayload::Unknown(b"boom".to_vec())),
        Message::Info(Bytes::from("{\"port\":4222}")),
        Message::Connect(Bytes::from("{\"verbose\":false}")),
        Message::Publish(PublishPayload {
            subject: Bytes::from("FRONT.DOOR"),
            reply_to: Some(Bytes::from("BACK.DOOR")),
            payload_size: 3,
            payload: Some(Bytes::from(&b"\r\n\x00"[..])),
        }),
        Message::Message(DeliverPayload {
            subject: Bytes::from("FOO.BAR"),
            sid: 9,
            reply_to: None,
            payload_size: 0,
            payload: Some(Bytes::new()),
        }),
        Message::Subscribe(SubscribePayload {
            subject: Bytes::from("BAR"),
            sid: 44,
            queue_group: Some(Bytes::from("G1")),
        }),
        Message::Unsubscribe(UnsubscribePayload {
            sid: 1,
            max_messages: Some(5),
        }),
    ];

    for message in messages {
        let mut wire = BytesMut::new();
        message.encode(&mut wire);
        let mut codec = Codec::new();
        let decoded = codec
            .decode(&mut wire)
            .expect("ok")
            .expect("round trip yields the message");
        assert_eq!(message, decoded);
        assert_eq!(0, wire.len());
    }
}

#[test]
fn encode_exact_wire_bytes() {
    let cases: &[(Message, &[u8])] = &[
        (Message::Okay, b"+OK\r\n"),
        (Message::Ping, b"PING\r\n"),
        (Message::Pong, b"PONG\r\n"),
        (
            Message::Publish(PublishPayload {
                subject: Bytes::from("FRONT.DOOR"),
                reply_to: Some(Bytes::from("BACK.DOOR")),
                payload_size: 11,
                payload: Some(Bytes::from("12345678901")),
            }),
            b"PUB FRONT.DOOR BACK.DOOR 11\r\n12345678901\r\n",
        ),
        (
            Message::Message(DeliverPayload {
                subject: Bytes::from("FOO.BAR"),
                sid: 9,
                reply_to: None,
                payload_size: 11,
                payload: Some(Bytes::from("12345678901")),
            }),
            b"MSG FOO.BAR 9 11\r\n12345678901\r\n",
        ),
        (
            Message::Subscribe(SubscribePayload {
                subject: Bytes::from("BAR"),
                sid: 44,
                queue_group: Some(Bytes::from("G1")),
            }),
            b"SUB BAR G1 44\r\n",
        ),
        (
            Message::Unsubscribe(UnsubscribePayload {
                sid: 107,
                max_messages: None,
            }),
            b"UNSUB 107\r\n",
        ),
        (
            Message::Info(Bytes::from("{\"port\":4222}")),
            b"INFO {\"port\":4222}\r\n",
        ),
        (
            Message::Connect(Bytes::from("{\"verbose\":false}")),
            b"CONNECT {\"verbose\":false}\r\n",
        ),
    ];

    for (message, wire) in cases {
        let mut dst = BytesMut::new();
        message.encode(&mut dst);
        assert_eq!(*wire, &dst[..]);
    }
}

#[test]
fn with_body_and_body_size() {
    let publish = Message::Publish(PublishPayload {
        subject: Bytes::from("X"),
        reply_to: None,
        payload_size: 7,
        payload: None,
    });
    assert!(publish.with_body());
    assert_eq!(Some(7), publish.body_size());

    assert!(!Message::Ping.with_body());
    assert_eq!(None, Message::Ping.body_size());
}

#[test]
fn info_test_payload() {
    let payload = InfoRecord::default();

    assert_eq!(1024, payload.max_payload);
    assert_eq!("", payload.server_id);
    assert_eq!(0, payload.port);
    assert!(!payload.auth_required);
    assert!(!payload.tls_required);
    assert_eq!(None, payload.proto);
    assert_eq!(None, payload.client_id);
    assert_eq!(None, payload.connect_urls);
    assert_eq!(None, payload.nonce);
}

#[test]
fn connect_test_payload() {
    let payload = ConnectRecord::default();

    assert!(!payload.verbose);
    assert!(!payload.pedantic);
    assert!(!payload.tls_required);
    assert_eq!(None, payload.auth_token);
    assert_eq!(None, payload.user);
    assert_eq!(None, payload.pass);
    assert_eq!("", payload.lang);
    assert_eq!(None, payload.protocol);
    assert_eq!(None, payload.sig);
    assert_eq!(None, payload.jwt);
}
