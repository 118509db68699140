use bytes::Bytes;

use nats_codec::message::error::Payload as ErrorPayload;
use nats_codec::message::message::Payload as DeliverPayload;
use nats_codec::message::op::{InvalidOp, Op};
use nats_codec::message::publish::Payload as PublishPayload;
use nats_codec::message::subscribe::Payload as SubscribePayload;
use nats_codec::message::unsubscribe::Payload as UnsubscribePayload;
use nats_codec::message::Message;
use nats_codec::parser::{parse, ParseError};
use nats_codec::scan::{ident1, space1};

#[test]
fn test_op_try_from() {
    assert_eq!(Ok(Op::Okay), Op::try_from(&b"+ok"[..]));
    assert_eq!(Ok(Op::Okay), Op::try_from(&b"+OK"[..]));

    assert_eq!(Ok(Op::Error), Op::try_from(&b"-err"[..]));
    assert_eq!(Ok(Op::Error), Op::try_from(&b"-ERR"[..]));

    assert_eq!(Ok(Op::Info), Op::try_from(&b"info"[..]));
    assert_eq!(Ok(Op::Info), Op::try_from(&b"INFO"[..]));

    assert_eq!(Ok(Op::Ping), Op::try_from(&b"ping"[..]));
    assert_eq!(Ok(Op::Ping), Op::try_from(&b"PING"[..]));

    assert_eq!(Ok(Op::Pong), Op::try_from(&b"pong"[..]));
    assert_eq!(Ok(Op::Pong), Op::try_from(&b"PONG"[..]));

    assert_eq!(Ok(Op::Publish), Op::try_from(&b"pub"[..]));
    assert_eq!(Ok(Op::Publish), Op::try_from(&b"PUB"[..]));

    assert_eq!(Ok(Op::Connect), Op::try_from(&b"connect"[..]));
    assert_eq!(Ok(Op::Connect), Op::try_from(&b"CONNECT"[..]));

    assert_eq!(Ok(Op::Subscribe), Op::try_from(&b"sub"[..]));
    assert_eq!(Ok(Op::Subscribe), Op::try_from(&b"SUB"[..]));

    assert_eq!(Ok(Op::Unsubscribe), Op::try_from(&b"unsub"[..]));
    assert_eq!(Ok(Op::Unsubscribe), Op::try_from(&b"UNSUB"[..]));

    assert_eq!(
        Err(InvalidOp(b"invalid".to_vec())),
        Op::try_from(&b"invalid"[..])
    );
}

#[test]
fn op_is_case_insensitive() {
    for tok in [&b"pub"[..], b"PUB", b"Pub", b"pUb"] {
        assert_eq!(Ok(Op::Publish), Op::try_from(tok));
    }
    for tok in [&b"msg"[..], b"MSG", b"Msg", b"mSg"] {
        assert_eq!(Ok(Op::Message), Op::try_from(tok));
    }
}

#[test]
fn test_skip_while1() {
    {
        let input = " \t\tFOO.BAR".as_bytes();

        assert_eq!(Some(3), space1(input, 0));
    }
    {
        let input = "FOO.BAR".as_bytes();

        assert_eq!(None, space1(input, 0));
    }
}

#[test]
fn test_take_while1() {
    {
        let input = " \t\tFOO.BAR".as_bytes();

        let end = space1(input, 0).expect("whitespace run");
        assert_eq!(b" \t\t", &input[..end]);
        assert_eq!(b"FOO.BAR", &input[end..]);
    }
    {
        let input = "FOO.BAR".as_bytes();

        let end = ident1(input, 0).expect("token run");
        assert_eq!(b"FOO.BAR", &input[..end]);
    }
}

#[test]
fn test_parse_error() {
    let cases: &[(Result<Message, ParseError>, &str)] = &[
        (
            Ok(Message::Error(ErrorPayload::UnknownProtocolOperation)),
            "-ERR 'Unknown Protocol Operation'",
        ),
        (
            Ok(Message::Error(ErrorPayload::AttemptedToConnectToRoutePort)),
            "-ERR 'Attempted To Connect To Route Port'",
        ),
        (
            Ok(Message::Error(ErrorPayload::AuthorizationViolation)),
            "-ERR 'Authorization Violation'",
        ),
        (
            Ok(Message::Error(ErrorPayload::AuthorizationTimeout)),
            "-ERR 'Authorization Timeout'",
        ),
        (
            Ok(Message::Error(ErrorPayload::InvalidClientProtocol)),
            "-ERR 'Invalid Client Protocol'",
        ),
        (
            Ok(Message::Error(ErrorPayload::MaximumControlLineExceeded)),
            "-ERR 'Maximum Control Line Exceeded'",
        ),
        (
            Ok(Message::Error(ErrorPayload::ParserError)),
            "-ERR 'Parser Error'",
        ),
        (
            Ok(Message::Error(ErrorPayload::SecureConnectionTLSRequired)),
            "-ERR 'Secure Connection - TLS Required'",
        ),
        (
            Ok(Message::Error(ErrorPayload::StaleConnection)),
            "-ERR 'Stale Connection'",
        ),
        (
            Ok(Message::Error(ErrorPayload::MaximumConnectionsExceeded)),
            "-ERR 'Maximum Connections Exceeded'",
        ),
        (
            Ok(Message::Error(ErrorPayload::SlowConsumer)),
            "-ERR 'Slow Consumer'",
        ),
        (
            Ok(Message::Error(ErrorPayload::MaximumPayloadViolation)),
            "-ERR 'Maximum Payload Violation'",
        ),
        (
            Ok(Message::Error(ErrorPayload::InvalidSubject)),
            "-ERR 'Invalid Subject'",
        ),
        (
            Ok(Message::Error(
                ErrorPayload::PermissionsViolationForSubscription(b"topic".to_vec()),
            )),
            "-ERR 'Permissions Violation for Subscription to topic'",
        ),
        (
            Ok(Message::Error(
                ErrorPayload::PermissionsViolationForPublishTo(b"topic".to_vec()),
            )),
            "-ERR 'Permissions Violation for Publish to topic'",
        ),
        (
            Ok(Message::Error(ErrorPayload::Unknown(
                b"unknown error".to_vec(),
            ))),
            "-ERR 'unknown error'",
        ),
    ];

    for (result, raw) in cases {
        assert_eq!(*result, parse(Bytes::from(*raw)));
    }
}

#[test]
fn error_catalog_encodes_back_to_wire() {
    let cases: &[(ErrorPayload, &str)] = &[
        (ErrorPayload::ParserError, "-ERR 'Parser Error'\r\n"),
        (
            ErrorPayload::PermissionsViolationForPublishTo(b"topic".to_vec()),
            "-ERR 'Permissions Violation for Publish to topic'\r\n",
        ),
        (
            ErrorPayload::Unknown(b"unknown error".to_vec()),
            "-ERR 'unknown error'\r\n",
        ),
    ];
    for (payload, wire) in cases {
        let mut dst = bytes::BytesMut::new();
        payload.encode(&mut dst);
        assert_eq!(wire.as_bytes(), &dst[..]);
    }
}

#[test]
fn parse_publish() {
    let cases: &[(Result<Message, ParseError>, &str)] = &[
        (
            Ok(Message::Publish(PublishPayload {
                payload: None,
                subject: Bytes::from("FRONT.DOOR"),
                reply_to: Some(Bytes::from("BACK.DOOR")),
                payload_size: 11,
            })),
            "PUB FRONT.DOOR BACK.DOOR 11",
        ),
        (
            Ok(Message::Publish(PublishPayload {
                payload: None,
                subject: Bytes::from("FRONT.DOOR"),
                reply_to: None,
                payload_size: 11,
            })),
            "PUB FRONT.DOOR 11",
        ),
    ];

    for (result, raw) in cases {
        assert_eq!(*result, parse(Bytes::from(*raw)));
    }
}

#[test]
fn parse_message() {
    let cases: &[(Result<Message, ParseError>, &str)] = &[
        (
            Ok(Message::Message(DeliverPayload {
                subject: Bytes::from("FOO.BAR"),
                sid: 9,
                reply_to: Some(Bytes::from("INBOX.34")),
                payload_size: 11,
                payload: None,
            })),
            "MSG FOO.BAR 9 INBOX.34 11",
        ),
        (
            Ok(Message::Message(DeliverPayload {
                subject: Bytes::from("FOO.BAR"),
                sid: 9,
                reply_to: None,
                payload_size: 11,
                payload: None,
            })),
            "MSG FOO.BAR 9 11",
        ),
    ];
    for (result, raw) in cases {
        assert_eq!(*result, parse(Bytes::from(*raw)));
    }
}

#[test]
fn parse_subscribe() {
    let cases: &[(Result<Message, ParseError>, &str)] = &[
        (
            Ok(Message::Subscribe(SubscribePayload {
                sid: 44,
                subject: Bytes::from("BAR"),
                queue_group: Some(Bytes::from("G1")),
            })),
            "SUB BAR G1 44",
        ),
        (
            Ok(Message::Subscribe(SubscribePayload {
                sid: 1,
                subject: Bytes::from("FOO"),
                queue_group: None,
            })),
            "SUB FOO 1",
        ),
    ];

    for (result, raw) in cases {
        assert_eq!(*result, parse(Bytes::from(*raw)));
    }
}

#[test]
fn parse_unsubscribe() {
    let cases: &[(Result<Message, ParseError>, &str)] = &[
        (
            Ok(Message::Unsubscribe(UnsubscribePayload {
                sid: 1,
                max_messages: None,
            })),
            "UNSUB 1",
        ),
        (
            Ok(Message::Unsubscribe(UnsubscribePayload {
                sid: 1,
                max_messages: Some(5),
            })),
            "UNSUB 1 5",
        ),
    ];
    for (result, raw) in cases {
        assert_eq!(*result, parse(Bytes::from(*raw)));
    }
}

#[test]
fn parse_info() {
    let input = Bytes::from("INFO {\"server_id\":\"Zk0GQ3JBSrg3oyxCRRlE09\",\"version\":\"1.2.0\",\"proto\":1,\"go\":\"go1.10.3\",\"host\":\"0.0.0.0\",\"port\":4222,\"max_payload\":1048576,\"client_id\":2392}");

    let result = parse(input);

    assert!(result.is_ok());
    match result.unwrap() {
        Message::Info(raw) => {
            assert_eq!(b'{', raw[0]);
            assert_eq!(b'}', raw[raw.len() - 1]);
        }
        other => panic!("expected an info message, got {:?}", other),
    }
}

#[test]
fn parse_rejects_unknown_operation() {
    assert_eq!(
        Err(ParseError::UnknownOp(InvalidOp(b"BOGUS".to_vec()))),
        parse(Bytes::from("BOGUS FOO 1"))
    );
}

#[test]
fn parse_rejects_missing_fields() {
    assert_eq!(Err(ParseError::Malformed), parse(Bytes::from("PUB ")));
    assert_eq!(Err(ParseError::Malformed), parse(Bytes::from("PUB FOO")));
    assert_eq!(
        Err(ParseError::Malformed),
        parse(Bytes::from("MSG FOO.BAR notanumber 11"))
    );
    assert_eq!(Err(ParseError::Malformed), parse(Bytes::from("INFO ")));
    assert_eq!(
        Err(ParseError::Malformed),
        parse(Bytes::from("-ERR missing quotes"))
    );
    assert_eq!(Err(ParseError::Malformed), parse(Bytes::from("-ERR ''")));
}

#[test]
fn parse_rejects_oversized_numbers() {
    assert_eq!(
        Err(ParseError::Malformed),
        parse(Bytes::from("UNSUB 99999999999999999999999999"))
    );
}
