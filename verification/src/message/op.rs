//! Operation classifier: recognizes the leading token of a control line,
//! case-insensitively, and maps it to one of the ten operation kinds.
use vstd::prelude::*;

use crate::scan::{ascii_bytes, str_bytes};

verus! {

/// A classification failure, carrying the offending token.
#[derive(Debug, Clone)]
pub struct InvalidOp(pub Vec<u8>);

impl PartialEq for InvalidOp {
    fn eq(&self, other: &InvalidOp) -> (r: bool) {
        crate::scan::slices_eq(self.0.as_slice(), other.0.as_slice())
    }
}

impl vstd::std_specs::cmp::PartialEqSpecImpl for InvalidOp {
    open spec fn obeys_eq_spec() -> bool {
        true
    }

    open spec fn eq_spec(&self, other: &InvalidOp) -> bool {
        self.0@ == other.0@
    }
}

#[derive(Debug, Clone, Copy, PartialEq, Eq, Structural)]
pub enum Op {
    Okay,
    Error,
    Info,
    Ping,
    Pong,
    Publish,
    Connect,
    Message,
    Subscribe,
    Unsubscribe,
}

/// ASCII lower-casing of one byte.
pub open spec fn lower(c: u8) -> u8 {
    if 65 <= c <= 90 {
        (c + 32) as u8
    } else {
        c
    }
}

/// Whether two byte strings are equal up to ASCII case.
pub open spec fn eq_ci(a: Seq<u8>, b: Seq<u8>) -> bool {
    a.len() == b.len() && (forall|i: int| 0 <= i < a.len() ==> lower(a[i]) == lower(b[i]))
}

/// The operation kind a control-line token names, if any.
pub open spec fn op_of_token(t: Seq<u8>) -> Option<Op> {
    if eq_ci(t, str_bytes("pub")) {
        Some(Op::Publish)
    } else if eq_ci(t, str_bytes("msg")) {
        Some(Op::Message)
    } else if eq_ci(t, str_bytes("sub")) {
        Some(Op::Subscribe)
    } else if eq_ci(t, str_bytes("info")) {
        Some(Op::Info)
    } else if eq_ci(t, str_bytes("ping")) {
        Some(Op::Ping)
    } else if eq_ci(t, str_bytes("pong")) {
        Some(Op::Pong)
    } else if eq_ci(t, str_bytes("unsub")) {
        Some(Op::Unsubscribe)
    } else if eq_ci(t, str_bytes("connect")) {
        Some(Op::Connect)
    } else if eq_ci(t, str_bytes("+ok")) {
        Some(Op::Okay)
    } else if eq_ci(t, str_bytes("-err")) {
        Some(Op::Error)
    } else {
        None
    }
}

/// Classification is case-insensitive: tokens equal up to ASCII case
/// classify identically.
pub proof fn lemma_op_case_insensitive(t1: Seq<u8>, t2: Seq<u8>)
    requires
        eq_ci(t1, t2),
    ensures
        op_of_token(t1) == op_of_token(t2),
{
    assert forall|w: Seq<u8>| eq_ci(t1, w) == eq_ci(t2, w) by {
        if eq_ci(t1, w) {
            assert forall|i: int| 0 <= i < t2.len() implies lower(t2[i]) == lower(w[i]) by {
                assert(lower(t1[i]) == lower(t2[i]));
            }
        }
        if eq_ci(t2, w) {
            assert forall|i: int| 0 <= i < t1.len() implies lower(t1[i]) == lower(w[i]) by {
                assert(lower(t1[i]) == lower(t2[i]));
            }
        }
    }
}

fn lower_byte(c: u8) -> (r: u8)
    ensures
        r == lower(c),
{
    if 65 <= c && c <= 90 {
        c + 32
    } else {
        c
    }
}

/// Whether two byte slices are equal up to ASCII case.
fn eq_ignore_case(a: &[u8], b: &[u8]) -> (r: bool)
    ensures
        r == eq_ci(a@, b@),
{
    if a.len() != b.len() {
        return false;
    }
    let n = a.len();
    let mut i: usize = 0;
    loop
        invariant
            i <= n,
            n == a@.len() == b@.len(),
            forall|k: int| 0 <= k < i ==> lower(a@[k]) == lower(b@[k]),
        ensures
            i <= n,
            if i < n {
                lower(a@[i as int]) != lower(b@[i as int])
            } else {
                forall|k: int| 0 <= k < n ==> lower(a@[k]) == lower(b@[k])
            },
        decreases n - i,
    {
        if i == n {
            break ;
        }
        if lower_byte(a[i]) != lower_byte(b[i]) {
            break ;
        }
        i = i + 1;
    }
    i == n
}

impl Op {
    /// Classifies a control-line token. Publish and deliver are checked
    /// first: they are the highest-frequency operations on a pub/sub wire.
    pub fn try_from(value: &[u8]) -> (r: Result<Op, InvalidOp>)
        ensures
            match op_of_token(value@) {
                Some(op) => r == Ok::<Op, InvalidOp>(op),
                None => r matches Err(e) && e.0@ == value@,
            },
    {
        proof {
            reveal_strlit("pub");
            reveal_strlit("msg");
            reveal_strlit("sub");
            reveal_strlit("info");
            reveal_strlit("ping");
            reveal_strlit("pong");
            reveal_strlit("unsub");
            reveal_strlit("connect");
            reveal_strlit("+ok");
            reveal_strlit("-err");
        }
        if eq_ignore_case(value, ascii_bytes("pub")) {
            Ok(Op::Publish)
        } else if eq_ignore_case(value, ascii_bytes("msg")) {
            Ok(Op::Message)
        } else if eq_ignore_case(value, ascii_bytes("sub")) {
            Ok(Op::Subscribe)
        } else if eq_ignore_case(value, ascii_bytes("info")) {
            Ok(Op::Info)
        } else if eq_ignore_case(value, ascii_bytes("ping")) {
            Ok(Op::Ping)
        } else if eq_ignore_case(value, ascii_bytes("pong")) {
            Ok(Op::Pong)
        } else if eq_ignore_case(value, ascii_bytes("unsub")) {
            Ok(Op::Unsubscribe)
        } else if eq_ignore_case(value, ascii_bytes("connect")) {
            Ok(Op::Connect)
        } else if eq_ignore_case(value, ascii_bytes("+ok")) {
            Ok(Op::Okay)
        } else if eq_ignore_case(value, ascii_bytes("-err")) {
            Ok(Op::Error)
        } else {
            Err(InvalidOp(vstd::slice::slice_to_vec(value)))
        }
    }
}

} // verus!
