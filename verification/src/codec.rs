//! The streaming decoder: a two-state machine (awaiting a control line /
//! awaiting a declared-length body) driven against a caller-owned buffer
//! that grows as the transport appends bytes and shrinks from the front as
//! frames are consumed. One decode call yields at most one message.
use vstd::prelude::*;

use crate::bufext::{buf_advance, buf_content, buf_freeze, buf_len, buf_split_to, bytes_content};
use crate::message::{spec_body_size, spec_set_body, spec_with_body, Message, MessageView};
use crate::parser::{self, spec_parse, ParseError, ParseErrorView};
use crate::scan::{crlf_at, CR, LF};

verus! {

/// The position of the first CRLF pair at or after `i`, if any.
pub open spec fn find_crlf_from(s: Seq<u8>, i: int) -> Option<int>
    decreases s.len() - i,
    when 0 <= i <= s.len()
{
    if i + 1 >= s.len() {
        None
    } else if crlf_at(s, i) {
        Some(i)
    } else {
        find_crlf_from(s, i + 1)
    }
}

/// The position of the first CRLF pair in the buffer, if any.
pub open spec fn find_crlf(s: Seq<u8>) -> Option<int> {
    find_crlf_from(s, 0)
}

/// What a found position means: a CRLF pair there and none earlier; and
/// `None` means no pair anywhere at or after `i`.
pub proof fn lemma_find_crlf_bounds(s: Seq<u8>, i: int)
    requires
        0 <= i <= s.len(),
    ensures
        match find_crlf_from(s, i) {
            Some(j) => i <= j && j + 1 < s.len() && crlf_at(s, j) && (forall|k: int|
                i <= k < j ==> !crlf_at(s, k)),
            None => forall|k: int| i <= k ==> !crlf_at(s, k),
        },
    decreases s.len() - i,
{
    if i + 1 >= s.len() {
    } else if crlf_at(s, i) {
    } else {
        lemma_find_crlf_bounds(s, i + 1);
    }
}

/// A first CRLF position is pinned down by its content.
pub proof fn lemma_find_crlf_exact(s: Seq<u8>, i: int, j: int)
    requires
        0 <= i <= j,
        j + 1 < s.len(),
        crlf_at(s, j),
        forall|k: int| i <= k < j ==> !crlf_at(s, k),
    ensures
        find_crlf_from(s, i) == Some(j),
    decreases j - i,
{
    if i < j {
        lemma_find_crlf_exact(s, i + 1, j);
    }
}

/// A CRLF pair found in a buffer is found at the same place after more
/// bytes are appended.
pub proof fn lemma_find_crlf_append(s: Seq<u8>, e: Seq<u8>)
    requires
        find_crlf(s) is Some,
    ensures
        find_crlf(s + e) == find_crlf(s),
{
    let j = find_crlf(s)->0;
    lemma_find_crlf_bounds(s, 0);
    assert(crlf_at(s + e, j));
    assert forall|k: int| 0 <= k < j implies !crlf_at(s + e, k) by {
        assert(!crlf_at(s, k));
    }
    lemma_find_crlf_exact(s + e, 0, j);
}

/// The position of the first CRLF pair in the slice, or `None` when the
/// slice holds none.
pub fn exec_find_crlf(s: &[u8]) -> (r: Option<usize>)
    ensures
        r is None ==> find_crlf(s@) is None,
        r matches Some(j) ==> find_crlf(s@) == Some(j as int),
{
    let n = s.len();
    let mut i: usize = 0;
    loop
        invariant
            n == s@.len(),
            0 <= i <= n,
            forall|k: int| 0 <= k < i ==> !crlf_at(s@, k),
        decreases s@.len() - i,
    {
        if n < 2 || i >= n - 1 {
            proof {
                lemma_find_crlf_bounds(s@, 0);
                match find_crlf(s@) {
                    Some(j) => {
                        assert(crlf_at(s@, j));
                    },
                    None => {},
                }
            }
            return None;
        }
        let sub = vstd::slice::slice_subrange(s, i, n);
        match crate::bufext::find_byte(sub, CR) {
            None => {
                proof {
                    lemma_find_crlf_bounds(s@, 0);
                    match find_crlf(s@) {
                        Some(j) => {
                            assert(crlf_at(s@, j));
                            if j >= i {
                                assert(sub@[j - i] == CR);
                            }
                        },
                        None => {},
                    }
                }
                return None;
            },
            Some(d) => {
                let j = i + d;
                if j + 1 < n && s[j + 1] == LF {
                    proof {
                        assert(crlf_at(s@, j as int));
                        assert forall|k: int| 0 <= k < j implies !crlf_at(s@, k) by {
                            if i <= k {
                                assert(sub@[k - i] != CR);
                            }
                        }
                        lemma_find_crlf_exact(s@, 0, j as int);
                    }
                    return Some(j);
                } else if j + 1 >= n {
                    proof {
                        lemma_find_crlf_bounds(s@, 0);
                        match find_crlf(s@) {
                            Some(f) => {
                                assert(crlf_at(s@, f));
                                if i <= f < j {
                                    assert(sub@[f - i] != CR);
                                }
                            },
                            None => {},
                        }
                    }
                    return None;
                } else {
                    proof {
                        assert forall|k: int| 0 <= k < j + 1 implies !crlf_at(s@, k) by {
                            if i <= k < j {
                                assert(sub@[k - i] != CR);
                            }
                            if k == j {
                                assert(s@[j + 1] != LF);
                            }
                        }
                    }
                    i = j + 1;
                }
            },
        }
    }
}

/// Takes the first control line off the buffer: everything before the
/// first CRLF, which is consumed along with the CRLF. When no CRLF has
/// arrived yet the buffer is left untouched and `None` says so.
pub fn cl1(input: &mut bytes::BytesMut) -> (r: Option<bytes::Bytes>)
    ensures
        find_crlf(buf_content(*old(input))) is None ==> r is None && buf_content(*final(input))
            == buf_content(*old(input)),
        find_crlf(buf_content(*old(input))) matches Some(i) ==> (r matches Some(line) && (
        bytes_content(line) == buf_content(*old(input)).subrange(0, i) && buf_content(
            *final(input),
        ) == buf_content(*old(input)).subrange(i + 2, buf_content(*old(input)).len() as int))),
{
    let ghost start = buf_content(*input);
    let found = exec_find_crlf(crate::bufext::buf_as_slice(input));
    match found {
        None => None,
        Some(idx) => {
            proof {
                lemma_find_crlf_bounds(start, 0);
            }
            let line = buf_split_to(input, idx);
            buf_advance(input, 2);
            proof {
                assert(buf_content(*input) =~= start.subrange(idx + 2, start.len() as int));
            }
            Some(buf_freeze(line))
        },
    }
}

enum State {
    Message,
    Payload(usize),
}

/// The streaming decoder for one connection: the current state of the
/// two-state machine plus the stashed header of a body-bearing message
/// whose body has not fully arrived yet.
pub struct Codec {
    state: State,
    message: Option<Message>,
}

/// Spec-level image of the decoder state.
pub enum CodecView {
    AwaitingControlLine,
    AwaitingBody(MessageView, usize),
}

/// The outcome of one decode call: a message was produced, more bytes are
/// needed, or the control line was malformed. Each carries the decoder
/// state and the buffer contents after the call.
pub enum StepView {
    Produced(CodecView, Seq<u8>, MessageView),
    Pending(CodecView, Seq<u8>),
    Failed(ParseErrorView, CodecView, Seq<u8>),
}

impl View for Codec {
    type V = CodecView;

    closed spec fn view(&self) -> CodecView {
        match self.state {
            State::Message => CodecView::AwaitingControlLine,
            State::Payload(size) => match self.message {
                Some(m) => CodecView::AwaitingBody(m@, size),
                None => CodecView::AwaitingControlLine,
            },
        }
    }
}

impl Codec {
    /// The decoder's internal invariant: a stashed header exists exactly
    /// while a body is awaited, it is body-bearing, and its declared size
    /// is the awaited size.
    pub closed spec fn inv(&self) -> bool {
        match self.state {
            State::Message => self.message is None,
            State::Payload(size) => self.message matches Some(m) && spec_with_body(m@)
                && spec_body_size(m@) == Some(size),
        }
    }
}

/// One step of the machine in the body-awaiting state: with `size + 2`
/// bytes buffered (body plus trailing CRLF) the body is attached and the
/// completed message produced; with fewer, nothing changes. The two bytes
/// after the body are skipped without checking that they are CRLF: the
/// declared size alone delimits the body, leniently, and a peer that put
/// anything else there is not caught here.
pub open spec fn body_step(head: MessageView, size: usize, buf: Seq<u8>) -> StepView {
    if buf.len() >= size + 2 {
        StepView::Produced(
            CodecView::AwaitingControlLine,
            buf.subrange(size + 2, buf.len() as int),
            spec_set_body(head, buf.subrange(0, size as int)),
        )
    } else {
        StepView::Pending(CodecView::AwaitingBody(head, size), buf)
    }
}

/// What one decode call does, as a function of decoder state and buffer
/// contents. Awaiting a control line: without a buffered CRLF nothing
/// changes; with one, the line is consumed and parsed — a malformed line
/// is a fatal error (the line stays consumed, the state does not change),
/// a bodyless message is produced at once, and a body-bearing one moves
/// the machine to the body state, which may already complete on the same
/// call if the body bytes are buffered.
pub open spec fn spec_decode(s: CodecView, buf: Seq<u8>) -> StepView {
    match s {
        CodecView::AwaitingControlLine => match find_crlf(buf) {
            None => StepView::Pending(CodecView::AwaitingControlLine, buf),
            Some(i) => {
                let line = buf.subrange(0, i);
                let rest = buf.subrange(i + 2, buf.len() as int);
                match spec_parse(line) {
                    Err(e) => StepView::Failed(e, CodecView::AwaitingControlLine, rest),
                    Ok(m) => if !spec_with_body(m) {
                        StepView::Produced(CodecView::AwaitingControlLine, rest, m)
                    } else {
                        let size = match spec_body_size(m) {
                            Some(sz) => sz,
                            None => 0,
                        };
                        body_step(m, size, rest)
                    },
                }
            },
        },
        CodecView::AwaitingBody(head, size) => body_step(head, size, buf),
    }
}

impl Default for Codec {
    /// A fresh decoder: awaiting a control line, nothing stashed.
    fn default() -> (r: Codec)
        ensures
            r.inv(),
            r@ == CodecView::AwaitingControlLine,
    {
        Codec { state: State::Message, message: None }
    }
}

impl Codec {
    /// A fresh decoder: awaiting a control line, nothing stashed.
    pub fn new() -> (r: Codec)
        ensures
            r.inv(),
            r@ == CodecView::AwaitingControlLine,
    {
        Codec { state: State::Message, message: None }
    }

    /// The body-awaiting arm: consumes body plus trailing CRLF once both
    /// are buffered, attaches the body and yields the completed message.
    fn take_body(&mut self, input: &mut bytes::BytesMut, size: usize) -> (r: Option<Message>)
        requires
            old(self).inv(),
            old(self)@ matches CodecView::AwaitingBody(h, sz) && sz == size,
        ensures
            final(self).inv(),
            ({
                let step = spec_decode(old(self)@, buf_content(*old(input)));
                let sf = final(self)@;
                let bf = buf_content(*final(input));
                match step {
                    StepView::Produced(s2, b2, mv) => (r matches Some(m) && m@ == mv) && sf == s2
                        && bf == b2,
                    StepView::Pending(s2, b2) => r is None && sf == s2 && bf == b2,
                    StepView::Failed(..) => false,
                }
            }),
    {
        let ghost start = buf_content(*input);
        let len = buf_len(input);
        if len >= 2 && len - 2 >= size {
            let body_mut = buf_split_to(input, size);
            buf_advance(input, 2);
            let body = buf_freeze(body_mut);
            let mut message = self.message.take().unwrap();
            message.set_body(body);
            self.state = State::Message;
            proof {
                assert(buf_content(*input) =~= start.subrange(size + 2, start.len() as int));
            }
            Some(message)
        } else {
            None
        }
    }

    /// One decode call against the accumulating buffer: yields at most one
    /// message, asks for more bytes, or reports a malformed control line;
    /// exactly as `spec_decode` states, for every state and buffer.
    pub fn decode(&mut self, input: &mut bytes::BytesMut) -> (r: Result<Option<Message>, ParseError>)
        requires
            old(self).inv(),
        ensures
            final(self).inv(),
            ({
                let step = spec_decode(old(self)@, buf_content(*old(input)));
                let sf = final(self)@;
                let bf = buf_content(*final(input));
                match step {
                    StepView::Produced(s2, b2, mv) => (r matches Ok(o) && o matches Some(m) && m@
                        == mv) && sf == s2 && bf == b2,
                    StepView::Pending(s2, b2) => (r matches Ok(o) && o is None) && sf == s2 && bf
                        == b2,
                    StepView::Failed(e, s2, b2) => (r matches Err(pe) && pe@ == e) && sf == s2
                        && bf == b2,
                }
            }),
    {
        let is_line_state = matches!(self.state, State::Message);
        if is_line_state {
            let line = match cl1(input) {
                Some(l) => l,
                None => {
                    return Ok(None);
                },
            };
            let message = match parser::parse(line) {
                Ok(m) => m,
                Err(e) => {
                    return Err(e);
                },
            };
            if !message.with_body() {
                Ok(Some(message))
            } else {
                let size = match message.body_size() {
                    Some(sz) => sz,
                    None => 0,
                };
                self.message = Some(message);
                self.state = State::Payload(size);
                Ok(self.take_body(input, size))
            }
        } else {
            let size = match self.state {
                State::Payload(sz) => sz,
                State::Message => 0,
            };
            Ok(self.take_body(input, size))
        }
    }
}

} // verus!
