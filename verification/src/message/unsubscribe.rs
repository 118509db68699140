//! The `UNSUB` payload: subscription id and an optional message limit.
use vstd::prelude::*;

use crate::bufext::{buf_content, buf_put_slice};
use crate::scan::{ascii_bytes, dec_digits, str_bytes, CR, LF, SP};

verus! {

// UNSUB <sid> [max_msgs]\r\n
#[derive(Debug, Clone, PartialEq)]
pub struct Payload {
    pub sid: usize,
    pub max_messages: Option<usize>,
}

/// Spec-level image of an unsubscribe payload.
pub struct UnsubscribeView {
    pub sid: usize,
    pub max_messages: Option<usize>,
}

impl View for Payload {
    type V = UnsubscribeView;

    open spec fn view(&self) -> UnsubscribeView {
        UnsubscribeView { sid: self.sid, max_messages: self.max_messages }
    }
}

/// The exact wire bytes of an unsubscribe frame.
pub open spec fn wire_of(p: UnsubscribeView) -> Seq<u8> {
    str_bytes("UNSUB ") + dec_digits(p.sid as nat) + (match p.max_messages {
        Some(m) => seq![SP] + dec_digits(m as nat),
        None => Seq::<u8>::empty(),
    }) + seq![CR, LF]
}

impl Payload {
    /// Renders the frame into `dst`, after whatever `dst` already holds.
    pub fn encode(&self, dst: &mut bytes::BytesMut)
        requires
            buf_content(*old(dst)).len() + wire_of(self@).len() <= usize::MAX,
        ensures
            buf_content(*final(dst)) == buf_content(*old(dst)) + wire_of(self@),
    {
        proof {
            reveal_strlit("UNSUB ");
            reveal_strlit(" ");
            reveal_strlit("\r\n");
            assert(str_bytes(" ") =~= seq![SP]);
            assert(str_bytes("\r\n") =~= seq![CR, LF]);
        }
        let ghost start = buf_content(*dst);
        buf_put_slice(dst, ascii_bytes("UNSUB "));
        let sid = crate::scan::render_decimal(self.sid);
        buf_put_slice(dst, sid.as_slice());
        match &self.max_messages {
            Some(max_messages) => {
                buf_put_slice(dst, ascii_bytes(" "));
                let m = crate::scan::render_decimal(*max_messages);
                buf_put_slice(dst, m.as_slice());
            },
            None => {},
        }
        buf_put_slice(dst, ascii_bytes("\r\n"));
        proof {
            assert(buf_content(*dst) =~= start + wire_of(self@));
        }
    }
}

} // verus!
