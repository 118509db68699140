//! The library's global laws: the encode/decode round trip and the
//! invariance of decoding under how the byte stream is chunked.
use vstd::prelude::*;

use crate::codec::{
    body_step, find_crlf, lemma_find_crlf_exact, spec_decode, CodecView, StepView,
};
use crate::message::op::{eq_ci, lower, op_of_token, Op};
use crate::message::{
    error, message, no_crlf, publish, spec_set_body, spec_with_body, subscribe, unsubscribe,
    wf_wire, wire_of, MessageView,
};
use crate::scan::{
    crlf_at, dec_digits, digits_val, is_digit, is_err_text, is_ident, is_space,
    lemma_dec_digits_are_digits, lemma_digits_val_of_dec, lemma_scan_while_exact, str_bytes, CR,
    HT, LF, QUOTE, SP,
};

verus! {

/// No carriage return anywhere in the sequence.
pub open spec fn no_cr(s: Seq<u8>) -> bool {
    forall|k: int| 0 <= k < s.len() ==> s[k] != CR
}

/// A sequence without CR holds no CRLF pair.
proof fn lemma_no_cr_no_crlf(s: Seq<u8>)
    requires
        no_cr(s),
    ensures
        no_crlf(s),
{
}

/// CRLF-pair freedom is preserved by concatenation when no CR ends the
/// left part while an LF starts the right.
proof fn lemma_no_crlf_concat(a: Seq<u8>, b: Seq<u8>)
    requires
        no_crlf(a),
        no_crlf(b),
        a.len() > 0 && b.len() > 0 ==> !(a.last() == CR && b[0] == LF),
    ensures
        no_crlf(a + b),
{
    assert forall|i: int| !crlf_at(a + b, i) by {
        if 0 <= i && i + 1 < (a + b).len() {
            if i + 1 < a.len() {
                assert(!crlf_at(a, i));
                assert((a + b)[i] == a[i] && (a + b)[i + 1] == a[i + 1]);
            } else if i < a.len() {
                assert((a + b)[i] == a[i] && (a + b)[i + 1] == b[0]);
            } else {
                assert(!crlf_at(b, i - a.len()));
                assert((a + b)[i] == b[i - a.len()] && (a + b)[i + 1] == b[i + 1 - a.len()]);
            }
        }
    }
}

proof fn lemma_op_tok_publish()
    ensures
        op_of_token(str_bytes("PUB")) == Some(Op::Publish),
{
    reveal_strlit("PUB");
    reveal_strlit("pub");
    assert forall|i: int| 0 <= i < 3 implies lower(str_bytes("PUB")[i]) == lower(
        str_bytes("pub")[i],
    ) by {
        if i == 0 {
            assert(lower(str_bytes("PUB")[0]) == lower(str_bytes("pub")[0]));
        }
        if i == 1 {
            assert(lower(str_bytes("PUB")[1]) == lower(str_bytes("pub")[1]));
        }
        if i == 2 {
            assert(lower(str_bytes("PUB")[2]) == lower(str_bytes("pub")[2]));
        }
    }
    assert(eq_ci(str_bytes("PUB"), str_bytes("pub")));
}

proof fn lemma_op_tok_message()
    ensures
        op_of_token(str_bytes("MSG")) == Some(Op::Message),
{
    reveal_strlit("MSG");
    reveal_strlit("msg");
    reveal_strlit("pub");
    assert(lower(str_bytes("MSG")[0]) != lower(str_bytes("pub")[0]));
    assert forall|i: int| 0 <= i < 3 implies lower(str_bytes("MSG")[i]) == lower(
        str_bytes("msg")[i],
    ) by {
        if i == 0 {
            assert(lower(str_bytes("MSG")[0]) == lower(str_bytes("msg")[0]));
        }
        if i == 1 {
            assert(lower(str_bytes("MSG")[1]) == lower(str_bytes("msg")[1]));
        }
        if i == 2 {
            assert(lower(str_bytes("MSG")[2]) == lower(str_bytes("msg")[2]));
        }
    }
    assert(eq_ci(str_bytes("MSG"), str_bytes("msg")));
}

proof fn lemma_op_tok_subscribe()
    ensures
        op_of_token(str_bytes("SUB")) == Some(Op::Subscribe),
{
    reveal_strlit("SUB");
    reveal_strlit("msg");
    reveal_strlit("pub");
    reveal_strlit("sub");
    assert(lower(str_bytes("SUB")[0]) != lower(str_bytes("pub")[0]));
    assert(lower(str_bytes("SUB")[0]) != lower(str_bytes("msg")[0]));
    assert forall|i: int| 0 <= i < 3 implies lower(str_bytes("SUB")[i]) == lower(
        str_bytes("sub")[i],
    ) by {
        if i == 0 {
            assert(lower(str_bytes("SUB")[0]) == lower(str_bytes("sub")[0]));
        }
        if i == 1 {
            assert(lower(str_bytes("SUB")[1]) == lower(str_bytes("sub")[1]));
        }
        if i == 2 {
            assert(lower(str_bytes("SUB")[2]) == lower(str_bytes("sub")[2]));
        }
    }
    assert(eq_ci(str_bytes("SUB"), str_bytes("sub")));
}

proof fn lemma_op_tok_info()
    ensures
        op_of_token(str_bytes("INFO")) == Some(Op::Info),
{
    reveal_strlit("INFO");
    reveal_strlit("info");
    reveal_strlit("msg");
    reveal_strlit("pub");
    reveal_strlit("sub");
    assert forall|i: int| 0 <= i < 4 implies lower(str_bytes("INFO")[i]) == lower(
        str_bytes("info")[i],
    ) by {
        if i == 0 {
            assert(lower(str_bytes("INFO")[0]) == lower(str_bytes("info")[0]));
        }
        if i == 1 {
            assert(lower(str_bytes("INFO")[1]) == lower(str_bytes("info")[1]));
        }
        if i == 2 {
            assert(lower(str_bytes("INFO")[2]) == lower(str_bytes("info")[2]));
        }
        if i == 3 {
            assert(lower(str_bytes("INFO")[3]) == lower(str_bytes("info")[3]));
        }
    }
    assert(eq_ci(str_bytes("INFO"), str_bytes("info")));
}

proof fn lemma_op_tok_ping()
    ensures
        op_of_token(str_bytes("PING")) == Some(Op::Ping),
{
    reveal_strlit("PING");
    reveal_strlit("info");
    reveal_strlit("msg");
    reveal_strlit("ping");
    reveal_strlit("pub");
    reveal_strlit("sub");
    assert(lower(str_bytes("PING")[0]) != lower(str_bytes("info")[0]));
    assert forall|i: int| 0 <= i < 4 implies lower(str_bytes("PING")[i]) == lower(
        str_bytes("ping")[i],
    ) by {
        if i == 0 {
            assert(lower(str_bytes("PING")[0]) == lower(str_bytes("ping")[0]));
        }
        if i == 1 {
            assert(lower(str_bytes("PING")[1]) == lower(str_bytes("ping")[1]));
        }
        if i == 2 {
            assert(lower(str_bytes("PING")[2]) == lower(str_bytes("ping")[2]));
        }
        if i == 3 {
            assert(lower(str_bytes("PING")[3]) == lower(str_bytes("ping")[3]));
        }
    }
    assert(eq_ci(str_bytes("PING"), str_bytes("ping")));
}

proof fn lemma_op_tok_pong()
    ensures
        op_of_token(str_bytes("PONG")) == Some(Op::Pong),
{
    reveal_strlit("PONG");
    reveal_strlit("info");
    reveal_strlit("msg");
    reveal_strlit("ping");
    reveal_strlit("pong");
    reveal_strlit("pub");
    reveal_strlit("sub");
    assert(lower(str_bytes("PONG")[0]) != lower(str_bytes("info")[0]));
    assert(lower(str_bytes("PONG")[1]) != lower(str_bytes("ping")[1]));
    assert forall|i: int| 0 <= i < 4 implies lower(str_bytes("PONG")[i]) == lower(
        str_bytes("pong")[i],
    ) by {
        if i == 0 {
            assert(lower(str_bytes("PONG")[0]) == lower(str_bytes("pong")[0]));
        }
        if i == 1 {
            assert(lower(str_bytes("PONG")[1]) == lower(str_bytes("pong")[1]));
        }
        if i == 2 {
            assert(lower(str_bytes("PONG")[2]) == lower(str_bytes("pong")[2]));
        }
        if i == 3 {
            assert(lower(str_bytes("PONG")[3]) == lower(str_bytes("pong")[3]));
        }
    }
    assert(eq_ci(str_bytes("PONG"), str_bytes("pong")));
}

proof fn lemma_op_tok_unsubscribe()
    ensures
        op_of_token(str_bytes("UNSUB")) == Some(Op::Unsubscribe),
{
    reveal_strlit("UNSUB");
    reveal_strlit("info");
    reveal_strlit("msg");
    reveal_strlit("ping");
    reveal_strlit("pong");
    reveal_strlit("pub");
    reveal_strlit("sub");
    reveal_strlit("unsub");
    assert forall|i: int| 0 <= i < 5 implies lower(str_bytes("UNSUB")[i]) == lower(
        str_bytes("unsub")[i],
    ) by {
        if i == 0 {
            assert(lower(str_bytes("UNSUB")[0]) == lower(str_bytes("unsub")[0]));
        }
        if i == 1 {
            assert(lower(str_bytes("UNSUB")[1]) == lower(str_bytes("unsub")[1]));
        }
        if i == 2 {
            assert(lower(str_bytes("UNSUB")[2]) == lower(str_bytes("unsub")[2]));
        }
        if i == 3 {
            assert(lower(str_bytes("UNSUB")[3]) == lower(str_bytes("unsub")[3]));
        }
        if i == 4 {
            assert(lower(str_bytes("UNSUB")[4]) == lower(str_bytes("unsub")[4]));
        }
    }
    assert(eq_ci(str_bytes("UNSUB"), str_bytes("unsub")));
}

proof fn lemma_op_tok_connect()
    ensures
        op_of_token(str_bytes("CONNECT")) == Some(Op::Connect),
{
    reveal_strlit("CONNECT");
    reveal_strlit("connect");
    reveal_strlit("info");
    reveal_strlit("msg");
    reveal_strlit("ping");
    reveal_strlit("pong");
    reveal_strlit("pub");
    reveal_strlit("sub");
    reveal_strlit("unsub");
    assert forall|i: int| 0 <= i < 7 implies lower(str_bytes("CONNECT")[i]) == lower(
        str_bytes("connect")[i],
    ) by {
        if i == 0 {
            assert(lower(str_bytes("CONNECT")[0]) == lower(str_bytes("connect")[0]));
        }
        if i == 1 {
            assert(lower(str_bytes("CONNECT")[1]) == lower(str_bytes("connect")[1]));
        }
        if i == 2 {
            assert(lower(str_bytes("CONNECT")[2]) == lower(str_bytes("connect")[2]));
        }
        if i == 3 {
            assert(lower(str_bytes("CONNECT")[3]) == lower(str_bytes("connect")[3]));
        }
        if i == 4 {
            assert(lower(str_bytes("CONNECT")[4]) == lower(str_bytes("connect")[4]));
        }
        if i == 5 {
            assert(lower(str_bytes("CONNECT")[5]) == lower(str_bytes("connect")[5]));
        }
        if i == 6 {
            assert(lower(str_bytes("CONNECT")[6]) == lower(str_bytes("connect")[6]));
        }
    }
    assert(eq_ci(str_bytes("CONNECT"), str_bytes("connect")));
}

proof fn lemma_op_tok_okay()
    ensures
        op_of_token(str_bytes("+OK")) == Some(Op::Okay),
{
    reveal_strlit("+OK");
    reveal_strlit("+ok");
    reveal_strlit("connect");
    reveal_strlit("info");
    reveal_strlit("msg");
    reveal_strlit("ping");
    reveal_strlit("pong");
    reveal_strlit("pub");
    reveal_strlit("sub");
    reveal_strlit("unsub");
    assert(lower(str_bytes("+OK")[0]) != lower(str_bytes("pub")[0]));
    assert(lower(str_bytes("+OK")[0]) != lower(str_bytes("msg")[0]));
    assert(lower(str_bytes("+OK")[0]) != lower(str_bytes("sub")[0]));
    assert forall|i: int| 0 <= i < 3 implies lower(str_bytes("+OK")[i]) == lower(
        str_bytes("+ok")[i],
    ) by {
        if i == 0 {
            assert(lower(str_bytes("+OK")[0]) == lower(str_bytes("+ok")[0]));
        }
        if i == 1 {
            assert(lower(str_bytes("+OK")[1]) == lower(str_bytes("+ok")[1]));
        }
        if i == 2 {
            assert(lower(str_bytes("+OK")[2]) == lower(str_bytes("+ok")[2]));
        }
    }
    assert(eq_ci(str_bytes("+OK"), str_bytes("+ok")));
}

proof fn lemma_op_tok_error()
    ensures
        op_of_token(str_bytes("-ERR")) == Some(Op::Error),
{
    reveal_strlit("+ok");
    reveal_strlit("-ERR");
    reveal_strlit("-err");
    reveal_strlit("connect");
    reveal_strlit("info");
    reveal_strlit("msg");
    reveal_strlit("ping");
    reveal_strlit("pong");
    reveal_strlit("pub");
    reveal_strlit("sub");
    reveal_strlit("unsub");
    assert(lower(str_bytes("-ERR")[0]) != lower(str_bytes("info")[0]));
    assert(lower(str_bytes("-ERR")[0]) != lower(str_bytes("ping")[0]));
    assert(lower(str_bytes("-ERR")[0]) != lower(str_bytes("pong")[0]));
    assert forall|i: int| 0 <= i < 4 implies lower(str_bytes("-ERR")[i]) == lower(
        str_bytes("-err")[i],
    ) by {
        if i == 0 {
            assert(lower(str_bytes("-ERR")[0]) == lower(str_bytes("-err")[0]));
        }
        if i == 1 {
            assert(lower(str_bytes("-ERR")[1]) == lower(str_bytes("-err")[1]));
        }
        if i == 2 {
            assert(lower(str_bytes("-ERR")[2]) == lower(str_bytes("-err")[2]));
        }
        if i == 3 {
            assert(lower(str_bytes("-ERR")[3]) == lower(str_bytes("-err")[3]));
        }
    }
    assert(eq_ci(str_bytes("-ERR"), str_bytes("-err")));
}


proof fn lemma_ident_run(s: Seq<u8>, i: int, j: int)
    requires
        0 <= i <= j <= s.len(),
        forall|k: int| i <= k < j ==> is_ident(s[k]),
        j < s.len() ==> !is_ident(s[j]),
    ensures
        crate::scan::scan_ident(s, i) == j,
{
    let p = crate::scan::ident_pred();
    assert forall|k: int| i <= k < j implies p(s[k]) by {
        assert(is_ident(s[k]));
    }
    lemma_scan_while_exact(s, i, j, p);
}

proof fn lemma_space_run(s: Seq<u8>, i: int, j: int)
    requires
        0 <= i <= j <= s.len(),
        forall|k: int| i <= k < j ==> is_space(s[k]),
        j < s.len() ==> !is_space(s[j]),
    ensures
        crate::scan::scan_spaces(s, i) == j,
{
    let p = crate::scan::space_pred();
    assert forall|k: int| i <= k < j implies p(s[k]) by {
        assert(is_space(s[k]));
    }
    lemma_scan_while_exact(s, i, j, p);
}

proof fn lemma_digit_run(s: Seq<u8>, i: int, j: int)
    requires
        0 <= i <= j <= s.len(),
        forall|k: int| i <= k < j ==> is_digit(s[k]),
        j < s.len() ==> !is_digit(s[j]),
    ensures
        crate::scan::scan_digits(s, i) == j,
{
    let p = crate::scan::digit_pred();
    assert forall|k: int| i <= k < j implies p(s[k]) by {
        assert(is_digit(s[k]));
    }
    lemma_scan_while_exact(s, i, j, p);
}

proof fn lemma_err_text_run(s: Seq<u8>, i: int, j: int)
    requires
        0 <= i <= j <= s.len(),
        forall|k: int| i <= k < j ==> is_err_text(s[k]),
        j < s.len() ==> !is_err_text(s[j]),
    ensures
        crate::scan::scan_err_text(s, i) == j,
{
    let p = crate::scan::err_text_pred();
    assert forall|k: int| i <= k < j implies p(s[k]) by {
        assert(is_err_text(s[k]));
    }
    lemma_scan_while_exact(s, i, j, p);
}

/// The message a parsed control line yields: the message itself, its body
/// (if any) still unattached.
pub open spec fn head_of(m: MessageView) -> MessageView {
    match m {
        MessageView::Publish(p) => MessageView::Publish(
            publish::PublishView { payload: None, ..p },
        ),
        MessageView::Message(p) => MessageView::Message(
            message::DeliverView { payload: None, ..p },
        ),
        _ => m,
    }
}

/// The control line of a message, CRLF not included.
pub open spec fn line_of(m: MessageView) -> Seq<u8> {
    match m {
        MessageView::Okay => str_bytes("+OK"),
        MessageView::Error(e) => str_bytes("-ERR '") + error::text_of(e) + seq![QUOTE],
        MessageView::Ping => str_bytes("PING"),
        MessageView::Pong => str_bytes("PONG"),
        MessageView::Info(j) => str_bytes("INFO ") + j,
        MessageView::Connect(j) => str_bytes("CONNECT ") + j,
        MessageView::Publish(p) => str_bytes("PUB ") + p.subject + (match p.reply_to {
            Some(r) => seq![SP] + r,
            None => Seq::<u8>::empty(),
        }) + seq![SP] + dec_digits(p.payload_size as nat),
        MessageView::Message(p) => str_bytes("MSG ") + p.subject + seq![SP] + dec_digits(
            p.sid as nat,
        ) + (match p.reply_to {
            Some(r) => seq![SP] + r,
            None => Seq::<u8>::empty(),
        }) + seq![SP] + dec_digits(p.payload_size as nat),
        MessageView::Subscribe(p) => str_bytes("SUB ") + p.subject + (match p.queue_group {
            Some(q) => seq![SP] + q,
            None => Seq::<u8>::empty(),
        }) + seq![SP] + dec_digits(p.sid as nat),
        MessageView::Unsubscribe(p) => str_bytes("UNSUB ") + dec_digits(p.sid as nat) + (match p
            .max_messages {
            Some(mm) => seq![SP] + dec_digits(mm as nat),
            None => Seq::<u8>::empty(),
        }),
    }
}

/// What follows the control line's CRLF on the wire: the body plus its
/// trailing CRLF for the body-bearing variants, nothing for the rest.
pub open spec fn tail_of(m: MessageView) -> Seq<u8> {
    match m {
        MessageView::Publish(p) => (match p.payload {
            Some(b) => b,
            None => Seq::<u8>::empty(),
        }) + seq![CR, LF],
        MessageView::Message(p) => (match p.payload {
            Some(b) => b,
            None => Seq::<u8>::empty(),
        }) + seq![CR, LF],
        _ => Seq::<u8>::empty(),
    }
}

/// The wire bytes of a message are its control line, a CRLF, and its tail.
proof fn lemma_wire_split(m: MessageView)
    ensures
        wire_of(m) == line_of(m) + seq![CR, LF] + tail_of(m),
{
    match m {
        MessageView::Okay => {
            assert(wire_of(m) =~= line_of(m) + seq![CR, LF] + tail_of(m));
        },
        MessageView::Error(e) => {
            assert(wire_of(m) =~= line_of(m) + seq![CR, LF] + tail_of(m));
        },
        MessageView::Ping => {
            assert(wire_of(m) =~= line_of(m) + seq![CR, LF] + tail_of(m));
        },
        MessageView::Pong => {
            assert(wire_of(m) =~= line_of(m) + seq![CR, LF] + tail_of(m));
        },
        MessageView::Info(j) => {
            assert(wire_of(m) =~= line_of(m) + seq![CR, LF] + tail_of(m));
        },
        MessageView::Connect(j) => {
            assert(wire_of(m) =~= line_of(m) + seq![CR, LF] + tail_of(m));
        },
        MessageView::Publish(p) => {
            assert(wire_of(m) =~= line_of(m) + seq![CR, LF] + tail_of(m));
        },
        MessageView::Message(p) => {
            assert(wire_of(m) =~= line_of(m) + seq![CR, LF] + tail_of(m));
        },
        MessageView::Subscribe(p) => {
            assert(wire_of(m) =~= line_of(m) + seq![CR, LF] + tail_of(m));
        },
        MessageView::Unsubscribe(p) => {
            assert(wire_of(m) =~= line_of(m) + seq![CR, LF] + tail_of(m));
        },
    }
}


proof fn lemma_parse_line_publish(p: publish::PublishView)
    requires
        wf_wire(MessageView::Publish(p)),
    ensures
        crate::parser::spec_parse(line_of(MessageView::Publish(p))) == Ok::<
            MessageView,
            crate::parser::ParseErrorView,
        >(head_of(MessageView::Publish(p))),
{
    reveal_strlit("PUB ");
    reveal_strlit("PUB");
    lemma_op_tok_publish();
    lemma_dec_digits_are_digits(p.payload_size as nat);
    lemma_digits_val_of_dec(p.payload_size as nat);
    let line = line_of(MessageView::Publish(p));
    let hdr = str_bytes("PUB ");
    let sub = p.subject;
    let n = sub.len() as int;
    let dec = dec_digits(p.payload_size as nat);
    let d = dec.len() as int;
    assert(hdr.len() == 4 && hdr[0] == 80 && hdr[1] == 85 && hdr[2] == 66 && hdr[3] == SP);
    match p.reply_to {
        Some(r) => {
            let m = r.len() as int;
            assert(line =~= hdr + sub + (seq![SP] + r) + seq![SP] + dec);
            assert(line.len() == 6 + n + m + d);
            assert forall|k: int| 0 <= k < line.len() implies line[k] == (if k < 4 {
                hdr[k]
            } else if k < 4 + n {
                sub[k - 4]
            } else if k == 4 + n {
                SP
            } else if k < 5 + n + m {
                r[k - 5 - n]
            } else if k == 5 + n + m {
                SP
            } else {
                dec[k - 6 - n - m]
            }) by {}
            lemma_ident_run(line, 0, 3);
            assert(line.subrange(0, 3) =~= str_bytes("PUB"));
            lemma_space_run(line, 3, 4);
            lemma_ident_run(line, 4, 4 + n);
            lemma_space_run(line, 4 + n, 5 + n);
            lemma_ident_run(line, 5 + n, 5 + n + m);
            lemma_space_run(line, 5 + n + m, 6 + n + m);
            lemma_digit_run(line, 6 + n + m, line.len() as int);
            assert(line.subrange(4, 4 + n) =~= sub);
            assert(line.subrange(5 + n, 5 + n + m) =~= r);
            assert(line.subrange(6 + n + m, line.len() as int) =~= dec);
        },
        None => {
            assert(line =~= hdr + sub + seq![SP] + dec);
            assert(line.len() == 5 + n + d);
            assert forall|k: int| 0 <= k < line.len() implies line[k] == (if k < 4 {
                hdr[k]
            } else if k < 4 + n {
                sub[k - 4]
            } else if k == 4 + n {
                SP
            } else {
                dec[k - 5 - n]
            }) by {}
            lemma_ident_run(line, 0, 3);
            assert(line.subrange(0, 3) =~= str_bytes("PUB"));
            lemma_space_run(line, 3, 4);
            lemma_ident_run(line, 4, 4 + n);
            lemma_space_run(line, 4 + n, 5 + n);
            lemma_ident_run(line, 5 + n, line.len() as int);
            lemma_space_run(line, line.len() as int, line.len() as int);
            lemma_digit_run(line, 5 + n, line.len() as int);
            assert(line.subrange(4, 4 + n) =~= sub);
            assert(line.subrange(5 + n, line.len() as int) =~= dec);
        },
    }
}


proof fn lemma_parse_line_okay()
    ensures
        crate::parser::spec_parse(line_of(MessageView::Okay)) == Ok::<
            MessageView,
            crate::parser::ParseErrorView,
        >(MessageView::Okay),
{
    reveal_strlit("+OK");
    lemma_op_tok_okay();
    let line = line_of(MessageView::Okay);
    assert(line.len() == 3);
    assert forall|k: int| 0 <= k < 3 implies is_ident(line[k]) by {}
    lemma_ident_run(line, 0, 3);
    assert(line.subrange(0, 3) =~= str_bytes("+OK"));
}

proof fn lemma_parse_line_ping()
    ensures
        crate::parser::spec_parse(line_of(MessageView::Ping)) == Ok::<
            MessageView,
            crate::parser::ParseErrorView,
        >(MessageView::Ping),
{
    reveal_strlit("PING");
    lemma_op_tok_ping();
    let line = line_of(MessageView::Ping);
    assert(line.len() == 4);
    assert forall|k: int| 0 <= k < 4 implies is_ident(line[k]) by {}
    lemma_ident_run(line, 0, 4);
    assert(line.subrange(0, 4) =~= str_bytes("PING"));
}

proof fn lemma_parse_line_pong()
    ensures
        crate::parser::spec_parse(line_of(MessageView::Pong)) == Ok::<
            MessageView,
            crate::parser::ParseErrorView,
        >(MessageView::Pong),
{
    reveal_strlit("PONG");
    lemma_op_tok_pong();
    let line = line_of(MessageView::Pong);
    assert(line.len() == 4);
    assert forall|k: int| 0 <= k < 4 implies is_ident(line[k]) by {}
    lemma_ident_run(line, 0, 4);
    assert(line.subrange(0, 4) =~= str_bytes("PONG"));
}

proof fn lemma_parse_line_info(j: Seq<u8>)
    requires
        wf_wire(MessageView::Info(j)),
    ensures
        crate::parser::spec_parse(line_of(MessageView::Info(j))) == Ok::<
            MessageView,
            crate::parser::ParseErrorView,
        >(MessageView::Info(j)),
{
    reveal_strlit("INFO ");
    reveal_strlit("INFO");
    lemma_op_tok_info();
    let line = line_of(MessageView::Info(j));
    let hdr = str_bytes("INFO ");
    assert(line =~= hdr + j);
    assert(line.len() == 5 + j.len());
    assert forall|k: int| 0 <= k < line.len() implies line[k] == (if k < 5 {
        hdr[k]
    } else {
        j[k - 5]
    }) by {}
    assert forall|k: int| 0 <= k < 4 implies is_ident(line[k]) by {}
    assert(line[4] == SP);
    lemma_ident_run(line, 0, 4);
    assert(line.subrange(0, 4) =~= str_bytes("INFO"));
    lemma_space_run(line, 4, 5);
    assert(line.subrange(5, line.len() as int) =~= j);
}

proof fn lemma_parse_line_connect(j: Seq<u8>)
    requires
        wf_wire(MessageView::Connect(j)),
    ensures
        crate::parser::spec_parse(line_of(MessageView::Connect(j))) == Ok::<
            MessageView,
            crate::parser::ParseErrorView,
        >(MessageView::Connect(j)),
{
    reveal_strlit("CONNECT ");
    reveal_strlit("CONNECT");
    lemma_op_tok_connect();
    let line = line_of(MessageView::Connect(j));
    let hdr = str_bytes("CONNECT ");
    assert(line =~= hdr + j);
    assert(line.len() == 8 + j.len());
    assert forall|k: int| 0 <= k < line.len() implies line[k] == (if k < 8 {
        hdr[k]
    } else {
        j[k - 8]
    }) by {}
    assert forall|k: int| 0 <= k < 7 implies is_ident(line[k]) by {}
    assert(line[7] == SP);
    lemma_ident_run(line, 0, 7);
    assert(line.subrange(0, 7) =~= str_bytes("CONNECT"));
    lemma_space_run(line, 7, 8);
    assert(line.subrange(8, line.len() as int) =~= j);
}


#[verifier::rlimit(60)]
proof fn lemma_parse_line_deliver(p: message::DeliverView)
    requires
        wf_wire(MessageView::Message(p)),
    ensures
        crate::parser::spec_parse(line_of(MessageView::Message(p))) == Ok::<
            MessageView,
            crate::parser::ParseErrorView,
        >(head_of(MessageView::Message(p))),
{
    reveal_strlit("MSG ");
    reveal_strlit("MSG");
    lemma_op_tok_message();
    lemma_dec_digits_are_digits(p.sid as nat);
    lemma_digits_val_of_dec(p.sid as nat);
    lemma_dec_digits_are_digits(p.payload_size as nat);
    lemma_digits_val_of_dec(p.payload_size as nat);
    let line = line_of(MessageView::Message(p));
    let hdr = str_bytes("MSG ");
    let sub = p.subject;
    let n = sub.len() as int;
    let ds = dec_digits(p.sid as nat);
    let sd = ds.len() as int;
    let dec = dec_digits(p.payload_size as nat);
    let d = dec.len() as int;
    assert(hdr.len() == 4 && hdr[0] == 77 && hdr[1] == 83 && hdr[2] == 71 && hdr[3] == SP);
    match p.reply_to {
        Some(r) => {
            let m = r.len() as int;
            assert(line =~= hdr + sub + seq![SP] + ds + (seq![SP] + r) + seq![SP] + dec);
            assert(line.len() == 7 + n + sd + m + d);
            assert forall|k: int| 0 <= k < line.len() implies line[k] == (if k < 4 {
                hdr[k]
            } else if k < 4 + n {
                sub[k - 4]
            } else if k == 4 + n {
                SP
            } else if k < 5 + n + sd {
                ds[k - 5 - n]
            } else if k == 5 + n + sd {
                SP
            } else if k < 6 + n + sd + m {
                r[k - 6 - n - sd]
            } else if k == 6 + n + sd + m {
                SP
            } else {
                dec[k - 7 - n - sd - m]
            }) by {}
            lemma_ident_run(line, 0, 3);
            assert(line.subrange(0, 3) =~= str_bytes("MSG"));
            lemma_space_run(line, 3, 4);
            lemma_ident_run(line, 4, 4 + n);
            lemma_space_run(line, 4 + n, 5 + n);
            lemma_digit_run(line, 5 + n, 5 + n + sd);
            lemma_space_run(line, 5 + n + sd, 6 + n + sd);
            lemma_ident_run(line, 6 + n + sd, 6 + n + sd + m);
            lemma_space_run(line, 6 + n + sd + m, 7 + n + sd + m);
            lemma_digit_run(line, 7 + n + sd + m, line.len() as int);
            assert(line.subrange(4, 4 + n) =~= sub);
            assert(line.subrange(5 + n, 5 + n + sd) =~= ds);
            assert(line.subrange(6 + n + sd, 6 + n + sd + m) =~= r);
            assert(line.subrange(7 + n + sd + m, line.len() as int) =~= dec);
        },
        None => {
            assert(line =~= hdr + sub + seq![SP] + ds + seq![SP] + dec);
            assert(line.len() == 6 + n + sd + d);
            assert forall|k: int| 0 <= k < line.len() implies line[k] == (if k < 4 {
                hdr[k]
            } else if k < 4 + n {
                sub[k - 4]
            } else if k == 4 + n {
                SP
            } else if k < 5 + n + sd {
                ds[k - 5 - n]
            } else if k == 5 + n + sd {
                SP
            } else {
                dec[k - 6 - n - sd]
            }) by {}
            lemma_ident_run(line, 0, 3);
            assert(line.subrange(0, 3) =~= str_bytes("MSG"));
            lemma_space_run(line, 3, 4);
            lemma_ident_run(line, 4, 4 + n);
            lemma_space_run(line, 4 + n, 5 + n);
            lemma_digit_run(line, 5 + n, 5 + n + sd);
            lemma_space_run(line, 5 + n + sd, 6 + n + sd);
            lemma_ident_run(line, 6 + n + sd, line.len() as int);
            lemma_space_run(line, line.len() as int, line.len() as int);
            lemma_digit_run(line, 6 + n + sd, line.len() as int);
            assert(line.subrange(4, 4 + n) =~= sub);
            assert(line.subrange(5 + n, 5 + n + sd) =~= ds);
            assert(line.subrange(6 + n + sd, line.len() as int) =~= dec);
        },
    }
}

proof fn lemma_parse_line_subscribe(p: subscribe::SubscribeView)
    requires
        wf_wire(MessageView::Subscribe(p)),
    ensures
        crate::parser::spec_parse(line_of(MessageView::Subscribe(p))) == Ok::<
            MessageView,
            crate::parser::ParseErrorView,
        >(MessageView::Subscribe(p)),
{
    reveal_strlit("SUB ");
    reveal_strlit("SUB");
    lemma_op_tok_subscribe();
    lemma_dec_digits_are_digits(p.sid as nat);
    lemma_digits_val_of_dec(p.sid as nat);
    let line = line_of(MessageView::Subscribe(p));
    let hdr = str_bytes("SUB ");
    let sub = p.subject;
    let n = sub.len() as int;
    let dec = dec_digits(p.sid as nat);
    let d = dec.len() as int;
    assert(hdr.len() == 4 && hdr[0] == 83 && hdr[1] == 85 && hdr[2] == 66 && hdr[3] == SP);
    match p.queue_group {
        Some(q) => {
            let m = q.len() as int;
            assert(line =~= hdr + sub + (seq![SP] + q) + seq![SP] + dec);
            assert(line.len() == 6 + n + m + d);
            assert forall|k: int| 0 <= k < line.len() implies line[k] == (if k < 4 {
                hdr[k]
            } else if k < 4 + n {
                sub[k - 4]
            } else if k == 4 + n {
                SP
            } else if k < 5 + n + m {
                q[k - 5 - n]
            } else if k == 5 + n + m {
                SP
            } else {
                dec[k - 6 - n - m]
            }) by {}
            lemma_ident_run(line, 0, 3);
            assert(line.subrange(0, 3) =~= str_bytes("SUB"));
            lemma_space_run(line, 3, 4);
            lemma_ident_run(line, 4, 4 + n);
            lemma_space_run(line, 4 + n, 5 + n);
            lemma_ident_run(line, 5 + n, 5 + n + m);
            lemma_space_run(line, 5 + n + m, 6 + n + m);
            lemma_digit_run(line, 6 + n + m, line.len() as int);
            assert(line.subrange(4, 4 + n) =~= sub);
            assert(line.subrange(5 + n, 5 + n + m) =~= q);
            assert(line.subrange(6 + n + m, line.len() as int) =~= dec);
        },
        None => {
            assert(line =~= hdr + sub + seq![SP] + dec);
            assert(line.len() == 5 + n + d);
            assert forall|k: int| 0 <= k < line.len() implies line[k] == (if k < 4 {
                hdr[k]
            } else if k < 4 + n {
                sub[k - 4]
            } else if k == 4 + n {
                SP
            } else {
                dec[k - 5 - n]
            }) by {}
            lemma_ident_run(line, 0, 3);
            assert(line.subrange(0, 3) =~= str_bytes("SUB"));
            lemma_space_run(line, 3, 4);
            lemma_ident_run(line, 4, 4 + n);
            lemma_space_run(line, 4 + n, 5 + n);
            lemma_ident_run(line, 5 + n, line.len() as int);
            lemma_space_run(line, line.len() as int, line.len() as int);
            lemma_digit_run(line, 5 + n, line.len() as int);
            assert(line.subrange(4, 4 + n) =~= sub);
            assert(line.subrange(5 + n, line.len() as int) =~= dec);
        },
    }
}

proof fn lemma_parse_line_unsubscribe(p: unsubscribe::UnsubscribeView)
    ensures
        crate::parser::spec_parse(line_of(MessageView::Unsubscribe(p))) == Ok::<
            MessageView,
            crate::parser::ParseErrorView,
        >(MessageView::Unsubscribe(p)),
{
    reveal_strlit("UNSUB ");
    reveal_strlit("UNSUB");
    lemma_op_tok_unsubscribe();
    lemma_dec_digits_are_digits(p.sid as nat);
    lemma_digits_val_of_dec(p.sid as nat);
    let line = line_of(MessageView::Unsubscribe(p));
    let hdr = str_bytes("UNSUB ");
    let ds = dec_digits(p.sid as nat);
    let sd = ds.len() as int;
    assert(hdr.len() == 6 && hdr[0] == 85 && hdr[1] == 78 && hdr[2] == 83 && hdr[3] == 85
        && hdr[4] == 66 && hdr[5] == SP);
    match p.max_messages {
        Some(mm) => {
            lemma_dec_digits_are_digits(mm as nat);
            lemma_digits_val_of_dec(mm as nat);
            let dm = dec_digits(mm as nat);
            let md = dm.len() as int;
            assert(line =~= hdr + ds + (seq![SP] + dm));
            assert(line.len() == 7 + sd + md);
            assert forall|k: int| 0 <= k < line.len() implies line[k] == (if k < 6 {
                hdr[k]
            } else if k < 6 + sd {
                ds[k - 6]
            } else if k == 6 + sd {
                SP
            } else {
                dm[k - 7 - sd]
            }) by {}
            lemma_ident_run(line, 0, 5);
            assert(line.subrange(0, 5) =~= str_bytes("UNSUB"));
            lemma_space_run(line, 5, 6);
            lemma_digit_run(line, 6, 6 + sd);
            lemma_space_run(line, 6 + sd, 7 + sd);
            lemma_digit_run(line, 7 + sd, line.len() as int);
            assert(line.subrange(6, 6 + sd) =~= ds);
            assert(line.subrange(7 + sd, line.len() as int) =~= dm);
        },
        None => {
            assert(line =~= hdr + ds);
            assert(line.len() == 6 + sd);
            assert forall|k: int| 0 <= k < line.len() implies line[k] == (if k < 6 {
                hdr[k]
            } else {
                ds[k - 6]
            }) by {}
            lemma_ident_run(line, 0, 5);
            assert(line.subrange(0, 5) =~= str_bytes("UNSUB"));
            lemma_space_run(line, 5, 6);
            lemma_digit_run(line, 6, line.len() as int);
            lemma_space_run(line, line.len() as int, line.len() as int);
            assert(line.subrange(6, line.len() as int) =~= ds);
        },
    }
}


/// The text between the quotes of a well-formed error payload is
/// non-empty and made of error-text bytes only.
proof fn lemma_err_text_charset(e: error::ErrorView)
    requires
        crate::message::wf_error(e),
    ensures
        error::text_of(e).len() > 0,
        forall|k: int|
            0 <= k < error::text_of(e).len() ==> is_err_text(#[trigger] error::text_of(e)[k]),
{
    match e {
        error::ErrorView::Unknown(t) => {
        }
        error::ErrorView::UnknownProtocolOperation => {
            reveal_strlit("Unknown Protocol Operation");
            assert(error::text_of(e).len() == 26);
            assert forall|k: int|
                0 <= k < error::text_of(e).len() implies is_err_text(
                #[trigger] error::text_of(e)[k],
            ) by {}
        }
        error::ErrorView::AttemptedToConnectToRoutePort => {
            reveal_strlit("Attempted To Connect To Route Port");
            assert(error::text_of(e).len() == 34);
            assert forall|k: int|
                0 <= k < error::text_of(e).len() implies is_err_text(
                #[trigger] error::text_of(e)[k],
            ) by {}
        }
        error::ErrorView::AuthorizationViolation => {
            reveal_strlit("Authorization Violation");
            assert(error::text_of(e).len() == 23);
            assert forall|k: int|
                0 <= k < error::text_of(e).len() implies is_err_text(
                #[trigger] error::text_of(e)[k],
            ) by {}
        }
        error::ErrorView::AuthorizationTimeout => {
            reveal_strlit("Authorization Timeout");
            assert(error::text_of(e).len() == 21);
            assert forall|k: int|
                0 <= k < error::text_of(e).len() implies is_err_text(
                #[trigger] error::text_of(e)[k],
            ) by {}
        }
        error::ErrorView::InvalidClientProtocol => {
            reveal_strlit("Invalid Client Protocol");
            assert(error::text_of(e).len() == 23);
            assert forall|k: int|
                0 <= k < error::text_of(e).len() implies is_err_text(
                #[trigger] error::text_of(e)[k],
            ) by {}
        }
        error::ErrorView::MaximumControlLineExceeded => {
            reveal_strlit("Maximum Control Line Exceeded");
            assert(error::text_of(e).len() == 29);
            assert forall|k: int|
                0 <= k < error::text_of(e).len() implies is_err_text(
                #[trigger] error::text_of(e)[k],
            ) by {}
        }
        error::ErrorView::ParserError => {
            reveal_strlit("Parser Error");
            assert(error::text_of(e).len() == 12);
            assert forall|k: int|
                0 <= k < error::text_of(e).len() implies is_err_text(
                #[trigger] error::text_of(e)[k],
            ) by {}
        }
        error::ErrorView::SecureConnectionTLSRequired => {
            reveal_strlit("Secure Connection - TLS Required");
            assert(error::text_of(e).len() == 32);
            assert forall|k: int|
                0 <= k < error::text_of(e).len() implies is_err_text(
                #[trigger] error::text_of(e)[k],
            ) by {}
        }
        error::ErrorView::StaleConnection => {
            reveal_strlit("Stale Connection");
            assert(error::text_of(e).len() == 16);
            assert forall|k: int|
                0 <= k < error::text_of(e).len() implies is_err_text(
                #[trigger] error::text_of(e)[k],
            ) by {}
        }
        error::ErrorView::MaximumConnectionsExceeded => {
            reveal_strlit("Maximum Connections Exceeded");
            assert(error::text_of(e).len() == 28);
            assert forall|k: int|
                0 <= k < error::text_of(e).len() implies is_err_text(
                #[trigger] error::text_of(e)[k],
            ) by {}
        }
        error::ErrorView::SlowConsumer => {
            reveal_strlit("Slow Consumer");
            assert(error::text_of(e).len() == 13);
            assert forall|k: int|
                0 <= k < error::text_of(e).len() implies is_err_text(
                #[trigger] error::text_of(e)[k],
            ) by {}
        }
        error::ErrorView::MaximumPayloadViolation => {
            reveal_strlit("Maximum Payload Violation");
            assert(error::text_of(e).len() == 25);
            assert forall|k: int|
                0 <= k < error::text_of(e).len() implies is_err_text(
                #[trigger] error::text_of(e)[k],
            ) by {}
        }
        error::ErrorView::InvalidSubject => {
            reveal_strlit("Invalid Subject");
            assert(error::text_of(e).len() == 15);
            assert forall|k: int|
                0 <= k < error::text_of(e).len() implies is_err_text(
                #[trigger] error::text_of(e)[k],
            ) by {}
        }
        error::ErrorView::PermissionsViolationForSubscription(x) => {
            reveal_strlit("Permissions Violation for Subscription to ");
            let pre = str_bytes("Permissions Violation for Subscription to ");
            assert(pre.len() == 42);
            assert forall|k: int| 0 <= k < 42 implies is_err_text(#[trigger] pre[k]) by {}
            assert forall|k: int|
                0 <= k < error::text_of(e).len() implies is_err_text(
                #[trigger] error::text_of(e)[k],
            ) by {
                if k < 42 {
                    assert(error::text_of(e)[k] == pre[k]);
                } else {
                    assert(error::text_of(e)[k] == x[k - 42]);
                }
            }
        }
        error::ErrorView::PermissionsViolationForPublishTo(x) => {
            reveal_strlit("Permissions Violation for Publish to ");
            let pre = str_bytes("Permissions Violation for Publish to ");
            assert(pre.len() == 37);
            assert forall|k: int| 0 <= k < 37 implies is_err_text(#[trigger] pre[k]) by {}
            assert forall|k: int|
                0 <= k < error::text_of(e).len() implies is_err_text(
                #[trigger] error::text_of(e)[k],
            ) by {
                if k < 37 {
                    assert(error::text_of(e)[k] == pre[k]);
                } else {
                    assert(error::text_of(e)[k] == x[k - 37]);
                }
            }
        }
    }
}

proof fn lemma_parse_line_error(e: error::ErrorView)
    requires
        wf_wire(MessageView::Error(e)),
    ensures
        crate::parser::spec_parse(line_of(MessageView::Error(e))) == Ok::<
            MessageView,
            crate::parser::ParseErrorView,
        >(MessageView::Error(e)),
{
    reveal_strlit("-ERR '");
    reveal_strlit("-ERR");
    lemma_op_tok_error();
    lemma_err_text_charset(e);
    error::lemma_catalog_round_trip(e);
    let line = line_of(MessageView::Error(e));
    let hdr = str_bytes("-ERR '");
    let t = error::text_of(e);
    let tl = t.len() as int;
    assert(hdr.len() == 6 && hdr[0] == 45 && hdr[1] == 69 && hdr[2] == 82 && hdr[3] == 82
        && hdr[4] == SP && hdr[5] == QUOTE);
    assert(line =~= hdr + t + seq![QUOTE]);
    assert(line.len() == 7 + tl);
    assert forall|k: int| 0 <= k < line.len() implies line[k] == (if k < 6 {
        hdr[k]
    } else if k < 6 + tl {
        t[k - 6]
    } else {
        QUOTE
    }) by {}
    lemma_ident_run(line, 0, 4);
    assert(line.subrange(0, 4) =~= str_bytes("-ERR"));
    lemma_space_run(line, 4, 5);
    lemma_err_text_run(line, 6, 6 + tl);
    assert(line.subrange(6, 6 + tl) =~= t);
}


proof fn lemma_no_cr_concat(a: Seq<u8>, b: Seq<u8>)
    requires
        no_cr(a),
        no_cr(b),
    ensures
        no_cr(a + b),
{
    assert forall|k: int| 0 <= k < (a + b).len() implies (a + b)[k] != CR by {
        if k < a.len() {
            assert((a + b)[k] == a[k]);
        } else {
            assert((a + b)[k] == b[k - a.len()]);
        }
    }
}

/// The control line of a well-formed message holds no CRLF pair, so the
/// decoder's line scan stops exactly at the frame's own CRLF.
proof fn lemma_line_no_crlf(m: MessageView)
    requires
        wf_wire(m),
    ensures
        no_crlf(line_of(m)),
{
    let line = line_of(m);
    match m {
        MessageView::Okay => {
            reveal_strlit("+OK");
            assert forall|k: int| 0 <= k < line.len() implies line[k] != CR by {}
            lemma_no_cr_no_crlf(line);
        },
        MessageView::Ping => {
            reveal_strlit("PING");
            assert forall|k: int| 0 <= k < line.len() implies line[k] != CR by {}
            lemma_no_cr_no_crlf(line);
        },
        MessageView::Pong => {
            reveal_strlit("PONG");
            assert forall|k: int| 0 <= k < line.len() implies line[k] != CR by {}
            lemma_no_cr_no_crlf(line);
        },
        MessageView::Error(e) => {
            reveal_strlit("-ERR '");
            lemma_err_text_charset(e);
            let hdr = str_bytes("-ERR '");
            let t = error::text_of(e);
            assert forall|k: int| 0 <= k < hdr.len() implies hdr[k] != CR by {}
            assert forall|k: int| 0 <= k < t.len() implies t[k] != CR by {
                assert(is_err_text(t[k]));
            }
            assert(no_cr(seq![QUOTE]));
            lemma_no_cr_concat(hdr, t);
            lemma_no_cr_concat(hdr + t, seq![QUOTE]);
            lemma_no_cr_no_crlf(line);
        },
        MessageView::Info(j) => {
            reveal_strlit("INFO ");
            let hdr = str_bytes("INFO ");
            assert forall|k: int| 0 <= k < hdr.len() implies hdr[k] != CR by {}
            lemma_no_cr_no_crlf(hdr);
            lemma_no_crlf_concat(hdr, j);
        },
        MessageView::Connect(j) => {
            reveal_strlit("CONNECT ");
            let hdr = str_bytes("CONNECT ");
            assert forall|k: int| 0 <= k < hdr.len() implies hdr[k] != CR by {}
            lemma_no_cr_no_crlf(hdr);
            lemma_no_crlf_concat(hdr, j);
        },
        MessageView::Publish(p) => {
            reveal_strlit("PUB ");
            let hdr = str_bytes("PUB ");
            let dec = dec_digits(p.payload_size as nat);
            lemma_dec_digits_are_digits(p.payload_size as nat);
            assert forall|k: int| 0 <= k < hdr.len() implies hdr[k] != CR by {}
            lemma_no_cr_no_crlf(hdr);
            assert forall|k: int| 0 <= k < dec.len() implies dec[k] != CR by {
                assert(is_digit(dec[k]));
            }
            lemma_no_cr_no_crlf(dec);
            assert(no_crlf(seq![SP]));
            lemma_no_crlf_concat(hdr, p.subject);
            match p.reply_to {
                Some(r) => {
                    lemma_no_crlf_concat(seq![SP], r);
                    assert((seq![SP] + r)[0] == SP);
                    lemma_no_crlf_concat(hdr + p.subject, seq![SP] + r);
                    lemma_no_crlf_concat(hdr + p.subject + (seq![SP] + r), seq![SP]);
                    lemma_no_crlf_concat(hdr + p.subject + (seq![SP] + r) + seq![SP], dec);
                },
                None => {
                    assert(hdr + p.subject + Seq::<u8>::empty() =~= hdr + p.subject);
                    lemma_no_crlf_concat(hdr + p.subject + Seq::<u8>::empty(), seq![SP]);
                    lemma_no_crlf_concat(hdr + p.subject + Seq::<u8>::empty() + seq![SP], dec);
                },
            }
        },
        MessageView::Message(p) => {
            reveal_strlit("MSG ");
            let hdr = str_bytes("MSG ");
            let ds = dec_digits(p.sid as nat);
            let dec = dec_digits(p.payload_size as nat);
            lemma_dec_digits_are_digits(p.sid as nat);
            lemma_dec_digits_are_digits(p.payload_size as nat);
            assert forall|k: int| 0 <= k < hdr.len() implies hdr[k] != CR by {}
            lemma_no_cr_no_crlf(hdr);
            assert forall|k: int| 0 <= k < ds.len() implies ds[k] != CR by {
                assert(is_digit(ds[k]));
            }
            lemma_no_cr_no_crlf(ds);
            assert forall|k: int| 0 <= k < dec.len() implies dec[k] != CR by {
                assert(is_digit(dec[k]));
            }
            lemma_no_cr_no_crlf(dec);
            assert(no_crlf(seq![SP]));
            lemma_no_crlf_concat(hdr, p.subject);
            lemma_no_crlf_concat(hdr + p.subject, seq![SP]);
            lemma_no_crlf_concat(hdr + p.subject + seq![SP], ds);
            let a = hdr + p.subject + seq![SP] + ds;
            assert(ds.len() > 0);
            assert(a.last() == ds.last() && is_digit(a.last()));
            match p.reply_to {
                Some(r) => {
                    lemma_no_crlf_concat(seq![SP], r);
                    assert((seq![SP] + r)[0] == SP);
                    lemma_no_crlf_concat(a, seq![SP] + r);
                    lemma_no_crlf_concat(a + (seq![SP] + r), seq![SP]);
                    lemma_no_crlf_concat(a + (seq![SP] + r) + seq![SP], dec);
                },
                None => {
                    assert(a + Seq::<u8>::empty() =~= a);
                    lemma_no_crlf_concat(a + Seq::<u8>::empty(), seq![SP]);
                    lemma_no_crlf_concat(a + Seq::<u8>::empty() + seq![SP], dec);
                },
            }
        },
        MessageView::Subscribe(p) => {
            reveal_strlit("SUB ");
            let hdr = str_bytes("SUB ");
            let dec = dec_digits(p.sid as nat);
            lemma_dec_digits_are_digits(p.sid as nat);
            assert forall|k: int| 0 <= k < hdr.len() implies hdr[k] != CR by {}
            lemma_no_cr_no_crlf(hdr);
            assert forall|k: int| 0 <= k < dec.len() implies dec[k] != CR by {
                assert(is_digit(dec[k]));
            }
            lemma_no_cr_no_crlf(dec);
            assert(no_crlf(seq![SP]));
            lemma_no_crlf_concat(hdr, p.subject);
            match p.queue_group {
                Some(q) => {
                    lemma_no_crlf_concat(seq![SP], q);
                    assert((seq![SP] + q)[0] == SP);
                    lemma_no_crlf_concat(hdr + p.subject, seq![SP] + q);
                    lemma_no_crlf_concat(hdr + p.subject + (seq![SP] + q), seq![SP]);
                    lemma_no_crlf_concat(hdr + p.subject + (seq![SP] + q) + seq![SP], dec);
                },
                None => {
                    assert(hdr + p.subject + Seq::<u8>::empty() =~= hdr + p.subject);
                    lemma_no_crlf_concat(hdr + p.subject + Seq::<u8>::empty(), seq![SP]);
                    lemma_no_crlf_concat(hdr + p.subject + Seq::<u8>::empty() + seq![SP], dec);
                },
            }
        },
        MessageView::Unsubscribe(p) => {
            reveal_strlit("UNSUB ");
            let hdr = str_bytes("UNSUB ");
            let ds = dec_digits(p.sid as nat);
            lemma_dec_digits_are_digits(p.sid as nat);
            assert forall|k: int| 0 <= k < hdr.len() implies hdr[k] != CR by {}
            lemma_no_cr_no_crlf(hdr);
            assert forall|k: int| 0 <= k < ds.len() implies ds[k] != CR by {
                assert(is_digit(ds[k]));
            }
            lemma_no_cr_no_crlf(ds);
            lemma_no_crlf_concat(hdr, ds);
            match p.max_messages {
                Some(mm) => {
                    let dm = dec_digits(mm as nat);
                    lemma_dec_digits_are_digits(mm as nat);
                    assert forall|k: int| 0 <= k < dm.len() implies dm[k] != CR by {
                        assert(is_digit(dm[k]));
                    }
                    lemma_no_cr_no_crlf(dm);
                    assert(no_crlf(seq![SP]));
                    lemma_no_crlf_concat(seq![SP], dm);
                    assert((seq![SP] + dm)[0] == SP);
                    lemma_no_crlf_concat(hdr + ds, seq![SP] + dm);
                },
                None => {
                    assert(hdr + ds + Seq::<u8>::empty() =~= hdr + ds);
                },
            }
        },
    }
}


/// Round trip: one decode step on the exact encoding of any well-formed
/// message, from the initial state, produces exactly that message, leaves
/// the decoder awaiting the next control line, and drains the buffer.
pub proof fn lemma_round_trip(m: MessageView)
    requires
        wf_wire(m),
    ensures
        spec_decode(CodecView::AwaitingControlLine, wire_of(m)) == StepView::Produced(
            CodecView::AwaitingControlLine,
            Seq::<u8>::empty(),
            m,
        ),
{
    lemma_wire_split(m);
    lemma_line_no_crlf(m);
    let line = line_of(m);
    let tail = tail_of(m);
    let wire = wire_of(m);
    let ln = line.len() as int;
    assert forall|k: int| 0 <= k < wire.len() implies wire[k] == (if k < ln {
        line[k]
    } else if k == ln {
        CR
    } else if k == ln + 1 {
        LF
    } else {
        tail[k - ln - 2]
    }) by {
        assert(wire == line + seq![CR, LF] + tail);
    }
    assert(crlf_at(wire, ln));
    assert forall|k: int| 0 <= k < ln implies !crlf_at(wire, k) by {
        if k + 1 < ln {
            assert(!crlf_at(line, k));
        }
    }
    lemma_find_crlf_exact(wire, 0, ln);
    assert(wire.subrange(0, ln) =~= line);
    assert(wire.subrange(ln + 2, wire.len() as int) =~= tail);
    match m {
        MessageView::Okay => {
            lemma_parse_line_okay();
            assert(wire.subrange(ln + 2, wire.len() as int) =~= Seq::<u8>::empty());
        },
        MessageView::Ping => {
            lemma_parse_line_ping();
            assert(wire.subrange(ln + 2, wire.len() as int) =~= Seq::<u8>::empty());
        },
        MessageView::Pong => {
            lemma_parse_line_pong();
            assert(wire.subrange(ln + 2, wire.len() as int) =~= Seq::<u8>::empty());
        },
        MessageView::Error(e) => {
            lemma_parse_line_error(e);
            assert(wire.subrange(ln + 2, wire.len() as int) =~= Seq::<u8>::empty());
        },
        MessageView::Info(j) => {
            lemma_parse_line_info(j);
            assert(wire.subrange(ln + 2, wire.len() as int) =~= Seq::<u8>::empty());
        },
        MessageView::Connect(j) => {
            lemma_parse_line_connect(j);
            assert(wire.subrange(ln + 2, wire.len() as int) =~= Seq::<u8>::empty());
        },
        MessageView::Subscribe(p) => {
            lemma_parse_line_subscribe(p);
            assert(wire.subrange(ln + 2, wire.len() as int) =~= Seq::<u8>::empty());
        },
        MessageView::Unsubscribe(p) => {
            lemma_parse_line_unsubscribe(p);
            assert(wire.subrange(ln + 2, wire.len() as int) =~= Seq::<u8>::empty());
        },
        MessageView::Publish(p) => {
            lemma_parse_line_publish(p);
            let head = head_of(m);
            let body = p.payload->0;
            let size = p.payload_size;
            assert(tail == body + seq![CR, LF]);
            assert(tail.len() == size + 2);
            assert(spec_with_body(head));
            assert(crate::message::spec_body_size(head) == Some(size));
            assert(tail.subrange(0, size as int) =~= body);
            assert(tail.subrange(size + 2, tail.len() as int) =~= Seq::<u8>::empty());
            assert(spec_set_body(head, body) == m);
        },
        MessageView::Message(p) => {
            lemma_parse_line_deliver(p);
            let head = head_of(m);
            let body = p.payload->0;
            let size = p.payload_size;
            assert(tail == body + seq![CR, LF]);
            assert(tail.len() == size + 2);
            assert(spec_with_body(head));
            assert(crate::message::spec_body_size(head) == Some(size));
            assert(tail.subrange(0, size as int) =~= body);
            assert(tail.subrange(size + 2, tail.len() as int) =~= Seq::<u8>::empty());
            assert(spec_set_body(head, body) == m);
        },
    }
}


/// The result of decoding against a fixed buffer until it is exhausted:
/// final decoder state, unconsumed bytes, the messages produced in order,
/// and the error that stopped the run, if one did.
pub struct RunView {
    pub state: CodecView,
    pub rest: Seq<u8>,
    pub msgs: Seq<MessageView>,
    pub err: Option<crate::parser::ParseErrorView>,
}

pub open spec fn run_n(s: CodecView, buf: Seq<u8>, fuel: nat) -> RunView
    decreases fuel,
{
    if fuel == 0 {
        RunView { state: s, rest: buf, msgs: Seq::<MessageView>::empty(), err: None }
    } else {
        match spec_decode(s, buf) {
            StepView::Pending(s2, b2) => RunView {
                state: s2,
                rest: b2,
                msgs: Seq::<MessageView>::empty(),
                err: None,
            },
            StepView::Failed(e, s2, b2) => RunView {
                state: s2,
                rest: b2,
                msgs: Seq::<MessageView>::empty(),
                err: Some(e),
            },
            StepView::Produced(s2, b2, m) => {
                let r = run_n(s2, b2, (fuel - 1) as nat);
                RunView { state: r.state, rest: r.rest, msgs: seq![m] + r.msgs, err: r.err }
            },
        }
    }
}

/// Decoding a buffer to exhaustion: a buffer of `n` bytes holds at most
/// `n / 2` frames, so `n / 2 + 1` steps always reach quiescence.
pub open spec fn run(s: CodecView, buf: Seq<u8>) -> RunView {
    run_n(s, buf, buf.len() + 1)
}

/// A produced message consumes at least its CRLF: the buffer shrinks by
/// at least two bytes.
proof fn lemma_step_consumes(s: CodecView, buf: Seq<u8>)
    ensures
        spec_decode(s, buf) matches StepView::Produced(s2, b2, m) ==> b2.len() + 2 <= buf.len(),
{
    match s {
        CodecView::AwaitingControlLine => {
            crate::codec::lemma_find_crlf_bounds(buf, 0);
        },
        CodecView::AwaitingBody(h, sz) => {},
    }
}

/// Any fuel beyond the number of frames a buffer can hold gives the same
/// run.
proof fn lemma_run_fuel(s: CodecView, buf: Seq<u8>, f1: nat, f2: nat)
    requires
        2 * f1 >= buf.len() + 2,
        2 * f2 >= buf.len() + 2,
    ensures
        run_n(s, buf, f1) == run_n(s, buf, f2),
    decreases f1,
{
    lemma_step_consumes(s, buf);
    match spec_decode(s, buf) {
        StepView::Produced(s2, b2, m) => {
            lemma_run_fuel(s2, b2, (f1 - 1) as nat, (f2 - 1) as nat);
        },
        _ => {},
    }
}

/// One decode step is invariant under appending bytes, except that a step
/// still waiting for bytes may be carried further by the new ones: a
/// produced message and a parse failure are stable, with the appended
/// bytes passed through untouched.
proof fn lemma_step_extend(s: CodecView, buf: Seq<u8>, e: Seq<u8>)
    ensures
        spec_decode(s, buf) matches StepView::Produced(s2, b2, m) ==> spec_decode(s, buf + e)
            == StepView::Produced(s2, b2 + e, m),
        spec_decode(s, buf) matches StepView::Failed(er, s2, b2) ==> spec_decode(s, buf + e)
            == StepView::Failed(er, s2, b2 + e),
{
    match s {
        CodecView::AwaitingControlLine => {
            match find_crlf(buf) {
                None => {},
                Some(i) => {
                    crate::codec::lemma_find_crlf_bounds(buf, 0);
                    crate::codec::lemma_find_crlf_append(buf, e);
                    let line = buf.subrange(0, i);
                    let rest = buf.subrange(i + 2, buf.len() as int);
                    assert((buf + e).subrange(0, i) =~= line);
                    assert((buf + e).subrange(i + 2, (buf + e).len() as int) =~= rest + e);
                    match crate::parser::spec_parse(line) {
                        Err(er) => {},
                        Ok(m) => {
                            if spec_with_body(m) {
                                let size = match crate::message::spec_body_size(m) {
                                    Some(sz) => sz,
                                    None => 0,
                                };
                                if rest.len() >= size + 2 {
                                    assert((rest + e).subrange(0, size as int) =~= rest.subrange(
                                        0,
                                        size as int,
                                    ));
                                    assert((rest + e).subrange(size + 2, (rest + e).len() as int)
                                        =~= rest.subrange(size + 2, rest.len() as int) + e);
                                }
                            }
                        },
                    }
                },
            }
        },
        CodecView::AwaitingBody(h, size) => {
            if buf.len() >= size + 2 {
                assert((buf + e).subrange(0, size as int) =~= buf.subrange(0, size as int));
                assert((buf + e).subrange(size + 2, (buf + e).len() as int) =~= buf.subrange(
                    size + 2,
                    buf.len() as int,
                ) + e);
            }
        },
    }
}

/// Incremental feed invariance: decoding a stream is invariant under where
/// it is cut. Running the decoder over `b1` and then feeding `b2` after
/// the unconsumed rest yields the same messages, in the same order, with
/// the same final state and the same verdict, as running it over the whole
/// of `b1 + b2` at once. (Applied chunk by chunk, any split of a stream
/// gives the same result as the unsplit stream.)
pub proof fn lemma_incremental_feed(s: CodecView, b1: Seq<u8>, b2: Seq<u8>)
    ensures
        ({
            let r1 = run(s, b1);
            let whole = run(s, b1 + b2);
            if r1.err is None {
                let r2 = run(r1.state, r1.rest + b2);
                whole == RunView {
                    state: r2.state,
                    rest: r2.rest,
                    msgs: r1.msgs + r2.msgs,
                    err: r2.err,
                }
            } else {
                whole == RunView {
                    state: r1.state,
                    rest: r1.rest + b2,
                    msgs: r1.msgs,
                    err: r1.err,
                }
            }
        }),
    decreases b1.len(),
{
    lemma_step_consumes(s, b1);
    lemma_step_extend(s, b1, b2);
    let r1 = run(s, b1);
    match spec_decode(s, b1) {
        StepView::Pending(s2, bb) => {
            match s {
                CodecView::AwaitingControlLine => {
                    match find_crlf(b1) {
                        None => {
                            // nothing consumed: both sides are one and the
                            // same run over b1 + b2
                            assert(s2 == s && bb == b1);
                            let r2 = run(s, b1 + b2);
                            assert(r1.msgs + r2.msgs =~= r2.msgs);
                        },
                        Some(i) => {
                            // the line was consumed and a body is awaited:
                            // the whole-buffer step lands in the same body
                            // computation
                            crate::codec::lemma_find_crlf_bounds(b1, 0);
                            crate::codec::lemma_find_crlf_append(b1, b2);
                            let line = b1.subrange(0, i);
                            let rest = b1.subrange(i + 2, b1.len() as int);
                            assert((b1 + b2).subrange(0, i) =~= line);
                            assert((b1 + b2).subrange(i + 2, (b1 + b2).len() as int) =~= rest
                                + b2);
                            assert(bb == rest);
                            let r2 = run(s2, rest + b2);
                            match spec_decode(s2, rest + b2) {
                                StepView::Pending(s3, b3) => {
                                    assert(run(s, b1 + b2).msgs =~= r1.msgs + r2.msgs);
                                },
                                StepView::Produced(s3, b3, m) => {
                                    lemma_step_consumes(s2, rest + b2);
                                    lemma_run_fuel(
                                        s3,
                                        b3,
                                        ((b1 + b2).len() + 1 - 1) as nat,
                                        ((rest + b2).len() + 1 - 1) as nat,
                                    );
                                    assert(run(s, b1 + b2).msgs =~= r1.msgs + r2.msgs);
                                },
                                StepView::Failed(..) => {
                                    assert(false);
                                },
                            }
                        },
                    }
                },
                CodecView::AwaitingBody(h, sz) => {
                    // nothing consumed: both sides are one and the same run
                    assert(s2 == s && bb == b1);
                    let r2 = run(s, b1 + b2);
                    assert(r1.msgs + r2.msgs =~= r2.msgs);
                },
            }
        },
        StepView::Failed(er, s2, bb) => {
            assert(run(s, b1 + b2).rest =~= bb + b2);
        },
        StepView::Produced(s2, bb, m) => {
            lemma_incremental_feed(s2, bb, b2);
            lemma_run_fuel(s2, bb, (b1.len() + 1 - 1) as nat, bb.len() + 1);
            lemma_run_fuel(s2, bb + b2, ((b1 + b2).len() + 1 - 1) as nat, (bb + b2).len() + 1);
            let rs = run(s2, bb);
            if rs.err is None {
                let r2 = run(rs.state, rs.rest + b2);
                assert(run(s, b1 + b2).msgs =~= (seq![m] + rs.msgs) + r2.msgs);
                assert(r1.msgs =~= seq![m] + rs.msgs);
            } else {
                assert(r1.msgs =~= seq![m] + rs.msgs);
            }
        },
    }
}


/// Body-size fidelity: a frame that declared a body of `size` bytes yields
/// its message only once `size + 2` bytes (body plus trailing CRLF) have
/// arrived; with even one byte fewer the decoder reports that it needs
/// more bytes and leaves the buffer untouched.
pub proof fn lemma_body_size_fidelity(head: MessageView, size: usize, buf: Seq<u8>)
    ensures
        buf.len() < size + 2 ==> spec_decode(CodecView::AwaitingBody(head, size), buf)
            == StepView::Pending(CodecView::AwaitingBody(head, size), buf),
        buf.len() >= size + 2 ==> (spec_decode(CodecView::AwaitingBody(head, size), buf)
            matches StepView::Produced(s2, b2, m) && (m == spec_set_body(
            head,
            buf.subrange(0, size as int),
        ))),
{
}


/// The bytes of a chunk list, in order.
pub open spec fn concat_chunks(chunks: Seq<Seq<u8>>) -> Seq<u8>
    decreases chunks.len(),
{
    if chunks.len() == 0 {
        Seq::<u8>::empty()
    } else {
        chunks[0] + concat_chunks(chunks.drop_first())
    }
}

/// Feeding a chunk list one chunk at a time: each chunk is appended to
/// the unconsumed bytes and the decoder is run to quiescence; a fatal
/// error stops the feeding.
pub open spec fn feed_chunks(s: CodecView, rest: Seq<u8>, chunks: Seq<Seq<u8>>) -> RunView
    decreases chunks.len(),
{
    if chunks.len() == 0 {
        RunView { state: s, rest, msgs: Seq::<MessageView>::empty(), err: None }
    } else {
        let r = run(s, rest + chunks[0]);
        if r.err is Some {
            r
        } else {
            let rr = feed_chunks(r.state, r.rest, chunks.drop_first());
            RunView { state: rr.state, rest: rr.rest, msgs: r.msgs + rr.msgs, err: rr.err }
        }
    }
}

/// A state and buffer on which one more decode call does nothing but
/// report that more bytes are needed.
pub open spec fn quiescent(s: CodecView, buf: Seq<u8>) -> bool {
    spec_decode(s, buf) == StepView::Pending(s, buf)
}

/// Where a decode step reports more bytes are needed, repeating it from
/// the state and buffer it leaves reports the same.
proof fn lemma_pending_quiescent(s: CodecView, buf: Seq<u8>)
    ensures
        spec_decode(s, buf) matches StepView::Pending(s2, b2) ==> quiescent(s2, b2),
{
}

/// A run that did not fail ends quiescent.
proof fn lemma_run_quiescent(s: CodecView, buf: Seq<u8>, f: nat)
    requires
        2 * f >= buf.len() + 2,
    ensures
        run_n(s, buf, f).err is None ==> quiescent(run_n(s, buf, f).state, run_n(s, buf, f).rest),
    decreases f,
{
    lemma_step_consumes(s, buf);
    lemma_pending_quiescent(s, buf);
    match spec_decode(s, buf) {
        StepView::Produced(s2, b2, m) => {
            lemma_run_quiescent(s2, b2, (f - 1) as nat);
        },
        _ => {},
    }
}

proof fn lemma_chunked_feed_aux(s: CodecView, rest: Seq<u8>, chunks: Seq<Seq<u8>>)
    requires
        quiescent(s, rest),
    ensures
        ({
            let f = feed_chunks(s, rest, chunks);
            let w = run(s, rest + concat_chunks(chunks));
            f.msgs == w.msgs && f.state == w.state && f.err == w.err && (f.err is None ==> f.rest
                == w.rest)
        }),
    decreases chunks.len(),
{
    if chunks.len() == 0 {
        assert(rest + concat_chunks(chunks) =~= rest);
        let f = feed_chunks(s, rest, chunks);
        let w = run(s, rest);
        assert(w.msgs =~= f.msgs);
    } else {
        let c0 = chunks[0];
        let tail = chunks.drop_first();
        let r = run(s, rest + c0);
        lemma_incremental_feed(s, rest + c0, concat_chunks(tail));
        assert((rest + c0) + concat_chunks(tail) =~= rest + concat_chunks(chunks));
        if r.err is Some {
        } else {
            lemma_run_quiescent(s, rest + c0, (rest + c0).len() + 1);
            lemma_chunked_feed_aux(r.state, r.rest, tail);
            let rr = feed_chunks(r.state, r.rest, tail);
            let w2 = run(r.state, r.rest + concat_chunks(tail));
            assert(r.msgs + rr.msgs =~= r.msgs + w2.msgs);
        }
    }
}

/// Chunking invariance, for whole streams: feeding a byte stream as any
/// list of chunks, one at a time, yields the same messages, in the same
/// order, with the same final state and the same verdict, as decoding the
/// whole stream at once; and where nothing failed, the same unconsumed
/// bytes too.
pub proof fn lemma_chunked_feed(s: CodecView, chunks: Seq<Seq<u8>>)
    ensures
        ({
            let f = feed_chunks(s, Seq::<u8>::empty(), chunks);
            let w = run(s, concat_chunks(chunks));
            f.msgs == w.msgs && f.state == w.state && f.err == w.err && (f.err is None ==> f.rest
                == w.rest)
        }),
{
    assert(quiescent(s, Seq::<u8>::empty()));
    lemma_chunked_feed_aux(s, Seq::<u8>::empty(), chunks);
    assert(Seq::<u8>::empty() + concat_chunks(chunks) =~= concat_chunks(chunks));
}

} // verus!