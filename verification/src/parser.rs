//! The zero-copy control-line parser: classifies the leading operation
//! token and parses the remainder of the line under that operation's
//! grammar. Subjects, reply-to and queue-group fields come out as shared
//! views into the received buffer, never as copies.
//!
//! An incomplete line never reaches this parser — the decoder hands it a
//! complete control line — so every failure here is a malformed line.
use vstd::prelude::*;

use crate::bufext::{bytes_as_slice, bytes_content, bytes_slice_range};
use crate::message::op::{op_of_token, InvalidOp, Op};
use crate::message::{error, message, publish, subscribe, unsubscribe, Message, MessageView};
use crate::scan::{
    digit1, digits_val, err_text1, ident1, scan_digits, scan_err_text, scan_ident, scan_spaces,
    space1, QUOTE,
};

verus! {

/// Why a complete control line was rejected.
#[derive(Debug, Clone, PartialEq)]
pub enum ParseError {
    /// The leading token names no known operation.
    UnknownOp(InvalidOp),
    /// A required field is missing, misplaced, or not of its required
    /// shape (a size or sid that is not a fitting decimal number, an
    /// unquoted or empty error text, an empty handshake payload).
    Malformed,
}

/// Spec-level image of a parse failure.
pub enum ParseErrorView {
    UnknownOp(Seq<u8>),
    Malformed,
}

impl View for ParseError {
    type V = ParseErrorView;

    open spec fn view(&self) -> ParseErrorView {
        match self {
            ParseError::UnknownOp(t) => ParseErrorView::UnknownOp(t.0@),
            ParseError::Malformed => ParseErrorView::Malformed,
        }
    }
}

/// Grammar of a `PUB` line after the operation token:
/// `<subject> [reply-to] <#bytes>`.
pub open spec fn spec_parse_publish(line: Seq<u8>, from: int) -> Result<
    MessageView,
    ParseErrorView,
> {
    let s0 = scan_spaces(line, from);
    if s0 == from {
        Err(ParseErrorView::Malformed)
    } else {
        let subj_end = scan_ident(line, s0);
        if subj_end == s0 {
            Err(ParseErrorView::Malformed)
        } else {
            let s1 = scan_spaces(line, subj_end);
            if s1 == subj_end {
                Err(ParseErrorView::Malformed)
            } else {
                let r_end = scan_ident(line, s1);
                let has_reply = r_end > s1 && scan_spaces(line, r_end) > r_end;
                let p = if has_reply {
                    scan_spaces(line, r_end)
                } else {
                    s1
                };
                let d_end = scan_digits(line, p);
                let v = digits_val(line.subrange(p, d_end));
                if d_end == p || v > usize::MAX {
                    Err(ParseErrorView::Malformed)
                } else {
                    Ok(
                        MessageView::Publish(
                            publish::PublishView {
                                subject: line.subrange(s0, subj_end),
                                reply_to: if has_reply {
                                    Some(line.subrange(s1, r_end))
                                } else {
                                    None
                                },
                                payload_size: v as usize,
                                payload: None,
                            },
                        ),
                    )
                }
            }
        }
    }
}

/// Grammar of an `MSG` line after the operation token:
/// `<subject> <sid> [reply-to] <#bytes>`.
pub open spec fn spec_parse_deliver(line: Seq<u8>, from: int) -> Result<
    MessageView,
    ParseErrorView,
> {
    let s0 = scan_spaces(line, from);
    if s0 == from {
        Err(ParseErrorView::Malformed)
    } else {
        let subj_end = scan_ident(line, s0);
        if subj_end == s0 {
            Err(ParseErrorView::Malformed)
        } else {
            let s1 = scan_spaces(line, subj_end);
            if s1 == subj_end {
                Err(ParseErrorView::Malformed)
            } else {
                let sid_end = scan_digits(line, s1);
                let sid = digits_val(line.subrange(s1, sid_end));
                if sid_end == s1 || sid > usize::MAX {
                    Err(ParseErrorView::Malformed)
                } else {
                    let s2 = scan_spaces(line, sid_end);
                    if s2 == sid_end {
                        Err(ParseErrorView::Malformed)
                    } else {
                        let r_end = scan_ident(line, s2);
                        let has_reply = r_end > s2 && scan_spaces(line, r_end) > r_end;
                        let p = if has_reply {
                            scan_spaces(line, r_end)
                        } else {
                            s2
                        };
                        let d_end = scan_digits(line, p);
                        let v = digits_val(line.subrange(p, d_end));
                        if d_end == p || v > usize::MAX {
                            Err(ParseErrorView::Malformed)
                        } else {
                            Ok(
                                MessageView::Message(
                                    message::DeliverView {
                                        subject: line.subrange(s0, subj_end),
                                        sid: sid as usize,
                                        reply_to: if has_reply {
                                            Some(line.subrange(s2, r_end))
                                        } else {
                                            None
                                        },
                                        payload_size: v as usize,
                                        payload: None,
                                    },
                                ),
                            )
                        }
                    }
                }
            }
        }
    }
}

/// Grammar of a `SUB` line after the operation token:
/// `<subject> [queue-group] <sid>`.
pub open spec fn spec_parse_subscribe(line: Seq<u8>, from: int) -> Result<
    MessageView,
    ParseErrorView,
> {
    let s0 = scan_spaces(line, from);
    if s0 == from {
        Err(ParseErrorView::Malformed)
    } else {
        let subj_end = scan_ident(line, s0);
        if subj_end == s0 {
            Err(ParseErrorView::Malformed)
        } else {
            let s1 = scan_spaces(line, subj_end);
            if s1 == subj_end {
                Err(ParseErrorView::Malformed)
            } else {
                let q_end = scan_ident(line, s1);
                let has_queue = q_end > s1 && scan_spaces(line, q_end) > q_end;
                let p = if has_queue {
                    scan_spaces(line, q_end)
                } else {
                    s1
                };
                let d_end = scan_digits(line, p);
                let v = digits_val(line.subrange(p, d_end));
                if d_end == p || v > usize::MAX {
                    Err(ParseErrorView::Malformed)
                } else {
                    Ok(
                        MessageView::Subscribe(
                            subscribe::SubscribeView {
                                subject: line.subrange(s0, subj_end),
                                sid: v as usize,
                                queue_group: if has_queue {
                                    Some(line.subrange(s1, q_end))
                                } else {
                                    None
                                },
                            },
                        ),
                    )
                }
            }
        }
    }
}

/// Grammar of an `UNSUB` line after the operation token:
/// `<sid> [max-messages]`.
pub open spec fn spec_parse_unsubscribe(line: Seq<u8>, from: int) -> Result<
    MessageView,
    ParseErrorView,
> {
    let s0 = scan_spaces(line, from);
    if s0 == from {
        Err(ParseErrorView::Malformed)
    } else {
        let sid_end = scan_digits(line, s0);
        let sid = digits_val(line.subrange(s0, sid_end));
        if sid_end == s0 || sid > usize::MAX {
            Err(ParseErrorView::Malformed)
        } else {
            let s1 = scan_spaces(line, sid_end);
            let m_end = scan_digits(line, s1);
            if s1 > sid_end && m_end > s1 {
                let m = digits_val(line.subrange(s1, m_end));
                if m > usize::MAX {
                    Err(ParseErrorView::Malformed)
                } else {
                    Ok(
                        MessageView::Unsubscribe(
                            unsubscribe::UnsubscribeView {
                                sid: sid as usize,
                                max_messages: Some(m as usize),
                            },
                        ),
                    )
                }
            } else {
                Ok(
                    MessageView::Unsubscribe(
                        unsubscribe::UnsubscribeView { sid: sid as usize, max_messages: None },
                    ),
                )
            }
        }
    }
}

/// Grammar of an `-ERR` line after the operation token: the error text
/// between two single quotes, classified against the catalog.
pub open spec fn spec_parse_error(line: Seq<u8>, from: int) -> Result<
    MessageView,
    ParseErrorView,
> {
    let s0 = scan_spaces(line, from);
    if s0 == from || s0 == line.len() || line[s0] != QUOTE {
        Err(ParseErrorView::Malformed)
    } else {
        let t_end = scan_err_text(line, s0 + 1);
        if t_end == s0 + 1 || t_end == line.len() || line[t_end] != QUOTE {
            Err(ParseErrorView::Malformed)
        } else {
            Ok(MessageView::Error(error::classify(line.subrange(s0 + 1, t_end))))
        }
    }
}

/// Grammar of an `INFO` or `CONNECT` line after the operation token: the
/// rest of the line, past the separating whitespace, is the handshake
/// payload, taken as raw JSON text; an empty payload is malformed.
pub open spec fn spec_parse_json(line: Seq<u8>, from: int) -> Result<Seq<u8>, ParseErrorView> {
    let s0 = scan_spaces(line, from);
    if s0 == from || s0 == line.len() {
        Err(ParseErrorView::Malformed)
    } else {
        Ok(line.subrange(s0, line.len() as int))
    }
}

/// What one complete control line (CRLF already stripped) parses to: the
/// message it encodes, or exactly why it is malformed.
pub open spec fn spec_parse(line: Seq<u8>) -> Result<MessageView, ParseErrorView> {
    let tok_end = scan_ident(line, 0);
    if tok_end == 0 {
        Err(ParseErrorView::Malformed)
    } else {
        let tok = line.subrange(0, tok_end);
        match op_of_token(tok) {
            None => Err(ParseErrorView::UnknownOp(tok)),
            Some(op) => match op {
                Op::Publish => spec_parse_publish(line, tok_end),
                Op::Message => spec_parse_deliver(line, tok_end),
                Op::Okay => Ok(MessageView::Okay),
                Op::Error => spec_parse_error(line, tok_end),
                Op::Info => match spec_parse_json(line, tok_end) {
                    Ok(j) => Ok(MessageView::Info(j)),
                    Err(e) => Err(e),
                },
                Op::Ping => Ok(MessageView::Ping),
                Op::Pong => Ok(MessageView::Pong),
                Op::Connect => match spec_parse_json(line, tok_end) {
                    Ok(j) => Ok(MessageView::Connect(j)),
                    Err(e) => Err(e),
                },
                Op::Subscribe => spec_parse_subscribe(line, tok_end),
                Op::Unsubscribe => spec_parse_unsubscribe(line, tok_end),
            },
        }
    }
}

fn parse_publish(input: &bytes::Bytes, s: &[u8], from: usize) -> (r: Result<Message, ParseError>)
    requires
        s@ == bytes_content(*input),
        from <= s@.len(),
    ensures
        match spec_parse_publish(s@, from as int) {
            Ok(mv) => r matches Ok(m) && m@ == mv,
            Err(ev) => r matches Err(e) && e@ == ev,
        },
{
    let s0 = match space1(s, from) {
        Some(v) => v,
        None => {
            return Err(ParseError::Malformed);
        },
    };
    let subj_end = match ident1(s, s0) {
        Some(v) => v,
        None => {
            return Err(ParseError::Malformed);
        },
    };
    let s1 = match space1(s, subj_end) {
        Some(v) => v,
        None => {
            return Err(ParseError::Malformed);
        },
    };
    let (reply_to, p) = match ident1(s, s1) {
        Some(r_end) => match space1(s, r_end) {
            Some(p2) => (Some(bytes_slice_range(input, s1, r_end)), p2),
            None => (None, s1),
        },
        None => (None, s1),
    };
    let (_d_end, payload_size) = match digit1(s, p) {
        Some(v) => v,
        None => {
            return Err(ParseError::Malformed);
        },
    };
    Ok(
        Message::Publish(
            publish::Payload {
                subject: bytes_slice_range(input, s0, subj_end),
                reply_to,
                payload_size,
                payload: None,
            },
        ),
    )
}

fn parse_deliver(input: &bytes::Bytes, s: &[u8], from: usize) -> (r: Result<Message, ParseError>)
    requires
        s@ == bytes_content(*input),
        from <= s@.len(),
    ensures
        match spec_parse_deliver(s@, from as int) {
            Ok(mv) => r matches Ok(m) && m@ == mv,
            Err(ev) => r matches Err(e) && e@ == ev,
        },
{
    let s0 = match space1(s, from) {
        Some(v) => v,
        None => {
            return Err(ParseError::Malformed);
        },
    };
    let subj_end = match ident1(s, s0) {
        Some(v) => v,
        None => {
            return Err(ParseError::Malformed);
        },
    };
    let s1 = match space1(s, subj_end) {
        Some(v) => v,
        None => {
            return Err(ParseError::Malformed);
        },
    };
    let (_sid_end, sid) = match digit1(s, s1) {
        Some(v) => v,
        None => {
            return Err(ParseError::Malformed);
        },
    };
    let s2 = match space1(s, _sid_end) {
        Some(v) => v,
        None => {
            return Err(ParseError::Malformed);
        },
    };
    let (reply_to, p) = match ident1(s, s2) {
        Some(r_end) => match space1(s, r_end) {
            Some(p2) => (Some(bytes_slice_range(input, s2, r_end)), p2),
            None => (None, s2),
        },
        None => (None, s2),
    };
    let (_d_end, payload_size) = match digit1(s, p) {
        Some(v) => v,
        None => {
            return Err(ParseError::Malformed);
        },
    };
    Ok(
        Message::Message(
            message::Payload {
                subject: bytes_slice_range(input, s0, subj_end),
                sid,
                reply_to,
                payload_size,
                payload: None,
            },
        ),
    )
}

fn parse_subscribe(input: &bytes::Bytes, s: &[u8], from: usize) -> (r: Result<Message, ParseError>)
    requires
        s@ == bytes_content(*input),
        from <= s@.len(),
    ensures
        match spec_parse_subscribe(s@, from as int) {
            Ok(mv) => r matches Ok(m) && m@ == mv,
            Err(ev) => r matches Err(e) && e@ == ev,
        },
{
    let s0 = match space1(s, from) {
        Some(v) => v,
        None => {
            return Err(ParseError::Malformed);
        },
    };
    let subj_end = match ident1(s, s0) {
        Some(v) => v,
        None => {
            return Err(ParseError::Malformed);
        },
    };
    let s1 = match space1(s, subj_end) {
        Some(v) => v,
        None => {
            return Err(ParseError::Malformed);
        },
    };
    let (queue_group, p) = match ident1(s, s1) {
        Some(q_end) => match space1(s, q_end) {
            Some(p2) => (Some(bytes_slice_range(input, s1, q_end)), p2),
            None => (None, s1),
        },
        None => (None, s1),
    };
    let (_d_end, sid) = match digit1(s, p) {
        Some(v) => v,
        None => {
            return Err(ParseError::Malformed);
        },
    };
    Ok(
        Message::Subscribe(
            subscribe::Payload {
                subject: bytes_slice_range(input, s0, subj_end),
                sid,
                queue_group,
            },
        ),
    )
}

fn parse_unsubscribe(s: &[u8], from: usize) -> (r: Result<Message, ParseError>)
    requires
        from <= s@.len(),
    ensures
        match spec_parse_unsubscribe(s@, from as int) {
            Ok(mv) => r matches Ok(m) && m@ == mv,
            Err(ev) => r matches Err(e) && e@ == ev,
        },
{
    let s0 = match space1(s, from) {
        Some(v) => v,
        None => {
            return Err(ParseError::Malformed);
        },
    };
    let (sid_end, sid) = match digit1(s, s0) {
        Some(v) => v,
        None => {
            return Err(ParseError::Malformed);
        },
    };
    match space1(s, sid_end) {
        Some(s1) => match digit1(s, s1) {
            Some((_m_end, m)) => Ok(
                Message::Unsubscribe(unsubscribe::Payload { sid, max_messages: Some(m) }),
            ),
            None => {
                if s1 < s.len() && 48 <= s[s1] && s[s1] <= 57 {
                    // a digit run is there but its value does not fit
                    proof {
                        crate::scan::lemma_scan_while_bounds(
                            s@,
                            s1 as int,
                            crate::scan::digit_pred(),
                        );
                    }
                    Err(ParseError::Malformed)
                } else {
                    Ok(Message::Unsubscribe(unsubscribe::Payload { sid, max_messages: None }))
                }
            },
        },
        None => Ok(Message::Unsubscribe(unsubscribe::Payload { sid, max_messages: None })),
    }
}

fn parse_error_line(s: &[u8], from: usize) -> (r: Result<Message, ParseError>)
    requires
        from <= s@.len(),
    ensures
        match spec_parse_error(s@, from as int) {
            Ok(mv) => r matches Ok(m) && m@ == mv,
            Err(ev) => r matches Err(e) && e@ == ev,
        },
{
    let s0 = match space1(s, from) {
        Some(v) => v,
        None => {
            return Err(ParseError::Malformed);
        },
    };
    if s0 == s.len() {
        return Err(ParseError::Malformed);
    }
    if s[s0] != QUOTE {
        return Err(ParseError::Malformed);
    }
    let t_end = match err_text1(s, s0 + 1) {
        Some(v) => v,
        None => {
            return Err(ParseError::Malformed);
        },
    };
    if t_end == s.len() {
        return Err(ParseError::Malformed);
    }
    if s[t_end] != QUOTE {
        return Err(ParseError::Malformed);
    }
    let payload = error::Payload::from_raw(vstd::slice::slice_subrange(s, s0 + 1, t_end));
    Ok(Message::Error(payload))
}

fn parse_json(input: &bytes::Bytes, s: &[u8], from: usize) -> (r: Result<bytes::Bytes, ParseError>)
    requires
        s@ == bytes_content(*input),
        from <= s@.len(),
    ensures
        match spec_parse_json(s@, from as int) {
            Ok(j) => r matches Ok(b) && bytes_content(b) == j,
            Err(ev) => r matches Err(e) && e@ == ev,
        },
{
    let s0 = match space1(s, from) {
        Some(v) => v,
        None => {
            return Err(ParseError::Malformed);
        },
    };
    if s0 == s.len() {
        return Err(ParseError::Malformed);
    }
    Ok(bytes_slice_range(input, s0, s.len()))
}

/// Parses one complete control line (CRLF already stripped) into the
/// message it encodes, or reports exactly why it is malformed. Byte-range
/// fields of the result are zero-copy views into `input`.
pub fn parse(input: bytes::Bytes) -> (r: Result<Message, ParseError>)
    ensures
        match spec_parse(bytes_content(input)) {
            Ok(mv) => r matches Ok(m) && m@ == mv,
            Err(ev) => r matches Err(e) && e@ == ev,
        },
{
    let s = bytes_as_slice(&input);
    let tok_end = match ident1(s, 0) {
        Some(v) => v,
        None => {
            return Err(ParseError::Malformed);
        },
    };
    let op = match Op::try_from(vstd::slice::slice_subrange(s, 0, tok_end)) {
        Ok(op) => op,
        Err(e) => {
            return Err(ParseError::UnknownOp(e));
        },
    };
    match op {
        Op::Publish => parse_publish(&input, s, tok_end),
        Op::Message => parse_deliver(&input, s, tok_end),
        Op::Okay => Ok(Message::Okay),
        Op::Error => parse_error_line(s, tok_end),
        Op::Info => match parse_json(&input, s, tok_end) {
            Ok(j) => Ok(Message::Info(j)),
            Err(e) => Err(e),
        },
        Op::Ping => Ok(Message::Ping),
        Op::Pong => Ok(Message::Pong),
        Op::Connect => match parse_json(&input, s, tok_end) {
            Ok(j) => Ok(Message::Connect(j)),
            Err(e) => Err(e),
        },
        Op::Subscribe => parse_subscribe(&input, s, tok_end),
        Op::Unsubscribe => parse_unsubscribe(s, tok_end),
    }
}

} // verus!
