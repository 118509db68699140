//! The `SUB` payload: subject, optional queue group, subscription id.
use vstd::prelude::*;

use crate::bufext::{buf_content, buf_put_slice, bytes_as_slice, bytes_content};
use crate::scan::{ascii_bytes, dec_digits, str_bytes, CR, LF, SP};

verus! {

// SUB <subject> [queue group] <sid>\r\n
#[derive(Debug, Clone, PartialEq)]
pub struct Payload {
    pub subject: bytes::Bytes,
    pub sid: usize,
    pub queue_group: Option<bytes::Bytes>,
}

/// Spec-level image of a subscribe payload.
pub struct SubscribeView {
    pub subject: Seq<u8>,
    pub sid: usize,
    pub queue_group: Option<Seq<u8>>,
}

impl View for Payload {
    type V = SubscribeView;

    open spec fn view(&self) -> SubscribeView {
        SubscribeView {
            subject: bytes_content(self.subject),
            sid: self.sid,
            queue_group: match self.queue_group {
                Some(q) => Some(bytes_content(q)),
                None => None,
            },
        }
    }
}

/// The exact wire bytes of a subscribe frame.
pub open spec fn wire_of(p: SubscribeView) -> Seq<u8> {
    str_bytes("SUB ") + p.subject + (match p.queue_group {
        Some(q) => seq![SP] + q,
        None => Seq::<u8>::empty(),
    }) + seq![SP] + dec_digits(p.sid as nat) + seq![CR, LF]
}

impl Payload {
    /// Renders the frame into `dst`, after whatever `dst` already holds.
    pub fn encode(&self, dst: &mut bytes::BytesMut)
        requires
            buf_content(*old(dst)).len() + wire_of(self@).len() <= usize::MAX,
        ensures
            buf_content(*final(dst)) == buf_content(*old(dst)) + wire_of(self@),
    {
        proof {
            reveal_strlit("SUB ");
            reveal_strlit(" ");
            reveal_strlit("\r\n");
            assert(str_bytes(" ") =~= seq![SP]);
            assert(str_bytes("\r\n") =~= seq![CR, LF]);
        }
        let ghost start = buf_content(*dst);
        buf_put_slice(dst, ascii_bytes("SUB "));
        buf_put_slice(dst, bytes_as_slice(&self.subject));
        match &self.queue_group {
            Some(queue_group) => {
                buf_put_slice(dst, ascii_bytes(" "));
                buf_put_slice(dst, bytes_as_slice(queue_group));
            },
            None => {},
        }
        buf_put_slice(dst, ascii_bytes(" "));
        let sid = crate::scan::render_decimal(self.sid);
        buf_put_slice(dst, sid.as_slice());
        buf_put_slice(dst, ascii_bytes("\r\n"));
        proof {
            assert(buf_content(*dst) =~= start + wire_of(self@));
        }
    }
}

} // verus!
