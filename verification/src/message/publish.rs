//! The `PUB` payload: subject, optional reply-to, declared body size, and
//! the body once the decoder has attached it.
use vstd::prelude::*;

use crate::bufext::{buf_content, buf_put_slice, bytes_as_slice, bytes_content};
use crate::scan::{ascii_bytes, dec_digits, str_bytes, CR, LF, SP};

verus! {

// PUB <subject> [reply-to] <#bytes>\r\n[payload]\r\n
#[derive(Debug, Clone, PartialEq)]
pub struct Payload {
    pub subject: bytes::Bytes,
    pub reply_to: Option<bytes::Bytes>,
    pub payload_size: usize,
    pub payload: Option<bytes::Bytes>,
}

/// Spec-level image of a publish payload, fields as byte sequences.
pub struct PublishView {
    pub subject: Seq<u8>,
    pub reply_to: Option<Seq<u8>>,
    pub payload_size: usize,
    pub payload: Option<Seq<u8>>,
}

impl View for Payload {
    type V = PublishView;

    open spec fn view(&self) -> PublishView {
        PublishView {
            subject: bytes_content(self.subject),
            reply_to: match self.reply_to {
                Some(r) => Some(bytes_content(r)),
                None => None,
            },
            payload_size: self.payload_size,
            payload: match self.payload {
                Some(b) => Some(bytes_content(b)),
                None => None,
            },
        }
    }
}

/// The exact wire bytes of a publish frame: control line, CRLF, body (when
/// attached), CRLF.
pub open spec fn wire_of(p: PublishView) -> Seq<u8> {
    str_bytes("PUB ") + p.subject + (match p.reply_to {
        Some(r) => seq![SP] + r,
        None => Seq::<u8>::empty(),
    }) + seq![SP] + dec_digits(p.payload_size as nat) + seq![CR, LF] + (match p.payload {
        Some(b) => b,
        None => Seq::<u8>::empty(),
    }) + seq![CR, LF]
}

impl Payload {
    /// Renders the frame into `dst`, after whatever `dst` already holds.
    pub fn encode(&self, dst: &mut bytes::BytesMut)
        requires
            buf_content(*old(dst)).len() + wire_of(self@).len() <= usize::MAX,
        ensures
            buf_content(*final(dst)) == buf_content(*old(dst)) + wire_of(self@),
    {
        proof {
            reveal_strlit("PUB ");
            reveal_strlit(" ");
            reveal_strlit("\r\n");
            assert(str_bytes(" ") =~= seq![SP]);
            assert(str_bytes("\r\n") =~= seq![CR, LF]);
        }
        let ghost start = buf_content(*dst);
        buf_put_slice(dst, ascii_bytes("PUB "));
        buf_put_slice(dst, bytes_as_slice(&self.subject));
        match &self.reply_to {
            Some(reply_to) => {
                buf_put_slice(dst, ascii_bytes(" "));
                buf_put_slice(dst, bytes_as_slice(reply_to));
            },
            None => {},
        }
        buf_put_slice(dst, ascii_bytes(" "));
        let size = crate::scan::render_decimal(self.payload_size);
        buf_put_slice(dst, size.as_slice());
        buf_put_slice(dst, ascii_bytes("\r\n"));
        match &self.payload {
            Some(payload) => {
                buf_put_slice(dst, bytes_as_slice(payload));
            },
            None => {},
        }
        buf_put_slice(dst, ascii_bytes("\r\n"));
        proof {
            assert(buf_content(*dst) =~= start + wire_of(self@));
        }
    }
}

} // verus!
