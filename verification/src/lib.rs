//! A wire-protocol codec for a text-framed publish/subscribe protocol.
//!
//! A continuous byte stream, arriving in arbitrary chunks, is decoded into
//! typed protocol messages, and typed messages are encoded back into the
//! exact wire bytes a peer expects. Control lines are newline-delimited
//! ASCII; `PUB` and `MSG` frames carry a binary body whose length is
//! declared inside the control line. The decoder resumes correctly when a
//! read boundary falls anywhere — mid control-line, between control line
//! and body, or mid-body — without copying the body and without losing
//! already-consumed bytes.
use vstd::prelude::*;

pub mod bufext;
pub mod codec;
pub mod laws;
pub mod message;
pub mod parser;
pub mod scan;

verus! {

} // verus!
