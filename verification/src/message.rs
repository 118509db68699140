//! The protocol message model: a closed set of message variants, their
//! per-variant payload structures, the exact wire bytes each renders to,
//! and the body-handling operations the streaming decoder drives.
use vstd::prelude::*;

pub mod connect;
pub mod error;
pub mod info;
pub mod message;
pub mod op;
pub mod publish;
pub mod subscribe;
pub mod unsubscribe;

use crate::bufext::{buf_content, buf_put_slice, bytes_as_slice, bytes_content};
use crate::scan::{ascii_bytes, crlf_at, is_err_text, is_space, str_bytes, CR, HT, LF, SP};

verus! {

/// One protocol message. `Publish` and `Message` (a delivered message)
/// additionally carry a binary body, attached by the decoder only once the
/// declared number of body bytes has arrived.
#[derive(Debug, Clone, PartialEq)]
pub enum Message {
    Okay,
    Error(error::Payload),
    Ping,
    Pong,
    Info(bytes::Bytes),
    Connect(bytes::Bytes),
    Message(message::Payload),
    Publish(publish::Payload),
    Subscribe(subscribe::Payload),
    Unsubscribe(unsubscribe::Payload),
}

/// Spec-level image of a message, all byte ranges as sequences.
pub enum MessageView {
    Okay,
    Error(error::ErrorView),
    Ping,
    Pong,
    Info(Seq<u8>),
    Connect(Seq<u8>),
    Message(message::DeliverView),
    Publish(publish::PublishView),
    Subscribe(subscribe::SubscribeView),
    Unsubscribe(unsubscribe::UnsubscribeView),
}

impl View for Message {
    type V = MessageView;

    open spec fn view(&self) -> MessageView {
        match self {
            Message::Okay => MessageView::Okay,
            Message::Error(e) => MessageView::Error(e@),
            Message::Ping => MessageView::Ping,
            Message::Pong => MessageView::Pong,
            Message::Info(j) => MessageView::Info(bytes_content(*j)),
            Message::Connect(j) => MessageView::Connect(bytes_content(*j)),
            Message::Message(p) => MessageView::Message(p@),
            Message::Publish(p) => MessageView::Publish(p@),
            Message::Subscribe(p) => MessageView::Subscribe(p@),
            Message::Unsubscribe(p) => MessageView::Unsubscribe(p@),
        }
    }
}

/// The exact wire bytes of a message, body included where one is attached.
pub open spec fn wire_of(m: MessageView) -> Seq<u8> {
    match m {
        MessageView::Okay => str_bytes("+OK") + seq![CR, LF],
        MessageView::Error(e) => error::err_wire(e),
        MessageView::Ping => str_bytes("PING") + seq![CR, LF],
        MessageView::Pong => str_bytes("PONG") + seq![CR, LF],
        MessageView::Info(j) => str_bytes("INFO ") + j + seq![CR, LF],
        MessageView::Connect(j) => str_bytes("CONNECT ") + j + seq![CR, LF],
        MessageView::Message(p) => message::wire_of(p),
        MessageView::Publish(p) => publish::wire_of(p),
        MessageView::Subscribe(p) => subscribe::wire_of(p),
        MessageView::Unsubscribe(p) => unsubscribe::wire_of(p),
    }
}

/// Whether the variant carries a trailing binary body.
pub open spec fn spec_with_body(m: MessageView) -> bool {
    m matches MessageView::Message(_) || m matches MessageView::Publish(_)
}

/// The declared body size of a body-bearing variant.
pub open spec fn spec_body_size(m: MessageView) -> Option<usize> {
    match m {
        MessageView::Message(p) => Some(p.payload_size),
        MessageView::Publish(p) => Some(p.payload_size),
        _ => None,
    }
}

/// The same message with the body `b` attached.
pub open spec fn spec_set_body(m: MessageView, b: Seq<u8>) -> MessageView {
    match m {
        MessageView::Message(p) => MessageView::Message(
            message::DeliverView { payload: Some(b), ..p },
        ),
        MessageView::Publish(p) => MessageView::Publish(
            publish::PublishView { payload: Some(b), ..p },
        ),
        _ => m,
    }
}

/// A token (subject, reply-to, queue group) that survives the trip over
/// the wire: non-empty, free of spaces, not starting with a tab (leading
/// whitespace would be eaten with the separator), and free of any CRLF
/// pair (which would end the control line early).
pub open spec fn wf_token(t: Seq<u8>) -> bool {
    t.len() > 0 && t[0] != HT && (forall|i: int| 0 <= i < t.len() ==> t[i] != SP) && no_crlf(t)
}

/// No CRLF pair anywhere inside the sequence.
pub open spec fn no_crlf(t: Seq<u8>) -> bool {
    forall|i: int| !crlf_at(t, i)
}

/// A JSON text that survives the trip: non-empty, not starting with
/// whitespace, and free of any CRLF pair.
pub open spec fn wf_json(j: Seq<u8>) -> bool {
    j.len() > 0 && !is_space(j[0]) && no_crlf(j)
}

/// An error payload whose wire text parses back to the same payload: the
/// free texts hold only bytes of the error-text alphabet, and an unknown
/// text is non-empty and starts with no catalog entry (one that did would
/// classify as that entry instead).
pub open spec fn wf_error(e: error::ErrorView) -> bool {
    match e {
        error::ErrorView::Unknown(t) => t.len() > 0 && (forall|i: int|
            0 <= i < t.len() ==> is_err_text(t[i])) && error::no_known_prefix(t),
        error::ErrorView::PermissionsViolationForSubscription(s) => forall|i: int|
            0 <= i < s.len() ==> is_err_text(s[i]),
        error::ErrorView::PermissionsViolationForPublishTo(s) => forall|i: int|
            0 <= i < s.len() ==> is_err_text(s[i]),
        _ => true,
    }
}

/// A message whose encoding decodes back to the same message: tokens and
/// texts are well-formed, and a body-bearing message carries a body whose
/// length equals the declared size.
pub open spec fn wf_wire(m: MessageView) -> bool {
    match m {
        MessageView::Okay => true,
        MessageView::Error(e) => wf_error(e),
        MessageView::Ping => true,
        MessageView::Pong => true,
        MessageView::Info(j) => wf_json(j),
        MessageView::Connect(j) => wf_json(j),
        MessageView::Message(p) => wf_token(p.subject) && (match p.reply_to {
            Some(r) => wf_token(r),
            None => true,
        }) && (p.payload matches Some(b) && b.len() == p.payload_size),
        MessageView::Publish(p) => wf_token(p.subject) && (match p.reply_to {
            Some(r) => wf_token(r),
            None => true,
        }) && (p.payload matches Some(b) && b.len() == p.payload_size),
        MessageView::Subscribe(p) => wf_token(p.subject) && (match p.queue_group {
            Some(q) => wf_token(q),
            None => true,
        }),
        MessageView::Unsubscribe(_) => true,
    }
}

impl Message {
    /// Whether this variant carries a trailing binary body.
    #[inline]
    pub fn with_body(&self) -> (r: bool)
        ensures
            r == spec_with_body(self@),
    {
        matches!(self, Message::Message(_) | Message::Publish(_))
    }

    /// The declared body size, for the two body-bearing variants.
    #[inline]
    pub fn body_size(&self) -> (r: Option<usize>)
        ensures
            r == spec_body_size(self@),
    {
        match self {
            Message::Message(m) => Some(m.payload_size),
            Message::Publish(m) => Some(m.payload_size),
            _ => None,
        }
    }

    /// Attaches the body to a body-bearing message.
    #[inline]
    pub fn set_body(&mut self, body: bytes::Bytes)
        requires
            spec_with_body(old(self)@),
        ensures
            final(self)@ == spec_set_body(old(self)@, bytes_content(body)),
    {
        match self {
            Message::Message(m) => m.payload = Some(body),
            Message::Publish(m) => m.payload = Some(body),
            _ => {},
        }
    }

    /// Renders the message into `dst`, after whatever `dst` already
    /// holds: the exact wire bytes, body included where one is attached.
    pub fn encode(&self, dst: &mut bytes::BytesMut)
        requires
            buf_content(*old(dst)).len() + wire_of(self@).len() <= usize::MAX,
        ensures
            buf_content(*final(dst)) == buf_content(*old(dst)) + wire_of(self@),
    {
        proof {
            reveal_strlit("+OK\r\n");
            reveal_strlit("PING\r\n");
            reveal_strlit("PONG\r\n");
            reveal_strlit("INFO ");
            reveal_strlit("CONNECT ");
            reveal_strlit("\r\n");
            reveal_strlit("+OK");
            reveal_strlit("PING");
            reveal_strlit("PONG");
            assert(str_bytes("\r\n") =~= seq![CR, LF]);
            assert(str_bytes("+OK\r\n") =~= str_bytes("+OK") + seq![CR, LF]);
            assert(str_bytes("PING\r\n") =~= str_bytes("PING") + seq![CR, LF]);
            assert(str_bytes("PONG\r\n") =~= str_bytes("PONG") + seq![CR, LF]);
        }
        let ghost start = buf_content(*dst);
        match self {
            Message::Okay => {
                buf_put_slice(dst, ascii_bytes("+OK\r\n"));
            },
            Message::Error(p) => {
                p.encode(dst);
            },
            Message::Ping => {
                buf_put_slice(dst, ascii_bytes("PING\r\n"));
            },
            Message::Pong => {
                buf_put_slice(dst, ascii_bytes("PONG\r\n"));
            },
            Message::Info(j) => {
                buf_put_slice(dst, ascii_bytes("INFO "));
                buf_put_slice(dst, bytes_as_slice(j));
                buf_put_slice(dst, ascii_bytes("\r\n"));
            },
            Message::Connect(j) => {
                buf_put_slice(dst, ascii_bytes("CONNECT "));
                buf_put_slice(dst, bytes_as_slice(j));
                buf_put_slice(dst, ascii_bytes("\r\n"));
            },
            Message::Message(p) => {
                p.encode(dst);
            },
            Message::Publish(p) => {
                p.encode(dst);
            },
            Message::Subscribe(p) => {
                p.encode(dst);
            },
            Message::Unsubscribe(p) => {
                p.encode(dst);
            },
        }
        proof {
            assert(buf_content(*dst) =~= start + wire_of(self@));
        }
    }
}

} // verus!
