//! The error-payload catalog: the closed set of known server error kinds,
//! their fixed wire texts, and the longest-prefix classification of a
//! received error text back into a kind.
use vstd::prelude::*;

use crate::scan::{ascii_bytes, starts_with, spec_starts_with, str_bytes, CR, LF, QUOTE};
use crate::bufext::{buf_content, buf_put_slice};

verus! {

/// A known server error kind, or `Unknown` carrying the literal error
/// text verbatim when it matches none of the known prefixes.
#[derive(Debug, Clone, PartialEq)]
pub enum Payload {
    Unknown(Vec<u8>),
    UnknownProtocolOperation,
    AttemptedToConnectToRoutePort,
    AuthorizationViolation,
    AuthorizationTimeout,
    InvalidClientProtocol,
    MaximumControlLineExceeded,
    ParserError,
    SecureConnectionTLSRequired,
    StaleConnection,
    MaximumConnectionsExceeded,
    SlowConsumer,
    MaximumPayloadViolation,
    InvalidSubject,
    PermissionsViolationForSubscription(Vec<u8>),
    PermissionsViolationForPublishTo(Vec<u8>),
}

/// Spec-level image of `Payload`, with texts as byte sequences.
pub enum ErrorView {
    Unknown(Seq<u8>),
    UnknownProtocolOperation,
    AttemptedToConnectToRoutePort,
    AuthorizationViolation,
    AuthorizationTimeout,
    InvalidClientProtocol,
    MaximumControlLineExceeded,
    ParserError,
    SecureConnectionTLSRequired,
    StaleConnection,
    MaximumConnectionsExceeded,
    SlowConsumer,
    MaximumPayloadViolation,
    InvalidSubject,
    PermissionsViolationForSubscription(Seq<u8>),
    PermissionsViolationForPublishTo(Seq<u8>),
}

impl View for Payload {
    type V = ErrorView;

    open spec fn view(&self) -> ErrorView {
        match self {
            Payload::Unknown(t) => ErrorView::Unknown(t@),
            Payload::UnknownProtocolOperation => ErrorView::UnknownProtocolOperation,
            Payload::AttemptedToConnectToRoutePort => ErrorView::AttemptedToConnectToRoutePort,
            Payload::AuthorizationViolation => ErrorView::AuthorizationViolation,
            Payload::AuthorizationTimeout => ErrorView::AuthorizationTimeout,
            Payload::InvalidClientProtocol => ErrorView::InvalidClientProtocol,
            Payload::MaximumControlLineExceeded => ErrorView::MaximumControlLineExceeded,
            Payload::ParserError => ErrorView::ParserError,
            Payload::SecureConnectionTLSRequired => ErrorView::SecureConnectionTLSRequired,
            Payload::StaleConnection => ErrorView::StaleConnection,
            Payload::MaximumConnectionsExceeded => ErrorView::MaximumConnectionsExceeded,
            Payload::SlowConsumer => ErrorView::SlowConsumer,
            Payload::MaximumPayloadViolation => ErrorView::MaximumPayloadViolation,
            Payload::InvalidSubject => ErrorView::InvalidSubject,
            Payload::PermissionsViolationForSubscription(s) => ErrorView::PermissionsViolationForSubscription(s@),
            Payload::PermissionsViolationForPublishTo(s) => ErrorView::PermissionsViolationForPublishTo(s@),
        }
    }
}

/// The exact text a kind renders to between the quotes of an error line.
pub open spec fn text_of(e: ErrorView) -> Seq<u8> {
    match e {
        ErrorView::Unknown(t) => t,
        ErrorView::UnknownProtocolOperation => str_bytes("Unknown Protocol Operation"),
        ErrorView::AttemptedToConnectToRoutePort => str_bytes("Attempted To Connect To Route Port"),
        ErrorView::AuthorizationViolation => str_bytes("Authorization Violation"),
        ErrorView::AuthorizationTimeout => str_bytes("Authorization Timeout"),
        ErrorView::InvalidClientProtocol => str_bytes("Invalid Client Protocol"),
        ErrorView::MaximumControlLineExceeded => str_bytes("Maximum Control Line Exceeded"),
        ErrorView::ParserError => str_bytes("Parser Error"),
        ErrorView::SecureConnectionTLSRequired => str_bytes("Secure Connection - TLS Required"),
        ErrorView::StaleConnection => str_bytes("Stale Connection"),
        ErrorView::MaximumConnectionsExceeded => str_bytes("Maximum Connections Exceeded"),
        ErrorView::SlowConsumer => str_bytes("Slow Consumer"),
        ErrorView::MaximumPayloadViolation => str_bytes("Maximum Payload Violation"),
        ErrorView::InvalidSubject => str_bytes("Invalid Subject"),
        ErrorView::PermissionsViolationForSubscription(s) => str_bytes("Permissions Violation for Subscription to ") + s,
        ErrorView::PermissionsViolationForPublishTo(s) => str_bytes("Permissions Violation for Publish to ") + s,
    }
}

/// Longest-prefix classification of a received error text: the first
/// catalog entry the text starts with wins; the catalog texts are
/// pairwise prefix-disjoint, so at most one can match.
pub open spec fn classify(raw: Seq<u8>) -> ErrorView {
    if spec_starts_with(raw, str_bytes("Unknown Protocol Operation")) {
        ErrorView::UnknownProtocolOperation
    } else if spec_starts_with(raw, str_bytes("Attempted To Connect To Route Port")) {
        ErrorView::AttemptedToConnectToRoutePort
    } else if spec_starts_with(raw, str_bytes("Authorization Violation")) {
        ErrorView::AuthorizationViolation
    } else if spec_starts_with(raw, str_bytes("Authorization Timeout")) {
        ErrorView::AuthorizationTimeout
    } else if spec_starts_with(raw, str_bytes("Invalid Client Protocol")) {
        ErrorView::InvalidClientProtocol
    } else if spec_starts_with(raw, str_bytes("Maximum Control Line Exceeded")) {
        ErrorView::MaximumControlLineExceeded
    } else if spec_starts_with(raw, str_bytes("Parser Error")) {
        ErrorView::ParserError
    } else if spec_starts_with(raw, str_bytes("Secure Connection - TLS Required")) {
        ErrorView::SecureConnectionTLSRequired
    } else if spec_starts_with(raw, str_bytes("Stale Connection")) {
        ErrorView::StaleConnection
    } else if spec_starts_with(raw, str_bytes("Maximum Connections Exceeded")) {
        ErrorView::MaximumConnectionsExceeded
    } else if spec_starts_with(raw, str_bytes("Slow Consumer")) {
        ErrorView::SlowConsumer
    } else if spec_starts_with(raw, str_bytes("Maximum Payload Violation")) {
        ErrorView::MaximumPayloadViolation
    } else if spec_starts_with(raw, str_bytes("Invalid Subject")) {
        ErrorView::InvalidSubject
    } else if spec_starts_with(raw, str_bytes("Permissions Violation for Subscription to ")) {
        ErrorView::PermissionsViolationForSubscription(raw.subrange(42, raw.len() as int))
    } else if spec_starts_with(raw, str_bytes("Permissions Violation for Publish to ")) {
        ErrorView::PermissionsViolationForPublishTo(raw.subrange(37, raw.len() as int))
    } else {
        ErrorView::Unknown(raw)
    }
}

/// Whether a text starts with none of the known catalog texts; such a
/// text classifies as `Unknown` and is preserved verbatim.
pub open spec fn no_known_prefix(raw: Seq<u8>) -> bool {
    !spec_starts_with(raw, str_bytes("Unknown Protocol Operation")) && !spec_starts_with(raw, str_bytes("Attempted To Connect To Route Port")) && !spec_starts_with(raw, str_bytes("Authorization Violation")) && !spec_starts_with(raw, str_bytes("Authorization Timeout")) && !spec_starts_with(raw, str_bytes("Invalid Client Protocol")) && !spec_starts_with(raw, str_bytes("Maximum Control Line Exceeded")) && !spec_starts_with(raw, str_bytes("Parser Error")) && !spec_starts_with(raw, str_bytes("Secure Connection - TLS Required")) && !spec_starts_with(raw, str_bytes("Stale Connection")) && !spec_starts_with(raw, str_bytes("Maximum Connections Exceeded")) && !spec_starts_with(raw, str_bytes("Slow Consumer")) && !spec_starts_with(raw, str_bytes("Maximum Payload Violation")) && !spec_starts_with(raw, str_bytes("Invalid Subject")) && !spec_starts_with(raw, str_bytes("Permissions Violation for Subscription to ")) && !spec_starts_with(raw, str_bytes("Permissions Violation for Publish to "))
}
/// The bytes of a complete error line: `-ERR '<text>'` followed by CRLF.
pub open spec fn err_wire(e: ErrorView) -> Seq<u8> {
    str_bytes("-ERR '") + text_of(e) + seq![QUOTE, CR, LF]
}

impl Payload {
    /// Classifies a received error text by longest known prefix, falling
    /// back to `Unknown` with the text preserved verbatim.
    pub fn from_raw(raw: &[u8]) -> (r: Payload)
        ensures
            r@ == classify(raw@),
    {
        proof {
            reveal_strlit("Unknown Protocol Operation");
            reveal_strlit("Attempted To Connect To Route Port");
            reveal_strlit("Authorization Violation");
            reveal_strlit("Authorization Timeout");
            reveal_strlit("Invalid Client Protocol");
            reveal_strlit("Maximum Control Line Exceeded");
            reveal_strlit("Parser Error");
            reveal_strlit("Secure Connection - TLS Required");
            reveal_strlit("Stale Connection");
            reveal_strlit("Maximum Connections Exceeded");
            reveal_strlit("Slow Consumer");
            reveal_strlit("Maximum Payload Violation");
            reveal_strlit("Invalid Subject");
            reveal_strlit("Permissions Violation for Subscription to ");
            reveal_strlit("Permissions Violation for Publish to ");
        }
        if starts_with(raw, ascii_bytes("Unknown Protocol Operation")) {
            Payload::UnknownProtocolOperation
        } else if starts_with(raw, ascii_bytes("Attempted To Connect To Route Port")) {
            Payload::AttemptedToConnectToRoutePort
        } else if starts_with(raw, ascii_bytes("Authorization Violation")) {
            Payload::AuthorizationViolation
        } else if starts_with(raw, ascii_bytes("Authorization Timeout")) {
            Payload::AuthorizationTimeout
        } else if starts_with(raw, ascii_bytes("Invalid Client Protocol")) {
            Payload::InvalidClientProtocol
        } else if starts_with(raw, ascii_bytes("Maximum Control Line Exceeded")) {
            Payload::MaximumControlLineExceeded
        } else if starts_with(raw, ascii_bytes("Parser Error")) {
            Payload::ParserError
        } else if starts_with(raw, ascii_bytes("Secure Connection - TLS Required")) {
            Payload::SecureConnectionTLSRequired
        } else if starts_with(raw, ascii_bytes("Stale Connection")) {
            Payload::StaleConnection
        } else if starts_with(raw, ascii_bytes("Maximum Connections Exceeded")) {
            Payload::MaximumConnectionsExceeded
        } else if starts_with(raw, ascii_bytes("Slow Consumer")) {
            Payload::SlowConsumer
        } else if starts_with(raw, ascii_bytes("Maximum Payload Violation")) {
            Payload::MaximumPayloadViolation
        } else if starts_with(raw, ascii_bytes("Invalid Subject")) {
            Payload::InvalidSubject
        } else if starts_with(raw, ascii_bytes("Permissions Violation for Subscription to ")) {
            let p = ascii_bytes("Permissions Violation for Subscription to ");
            let rest = vstd::slice::slice_to_vec(vstd::slice::slice_subrange(raw, p.len(), raw.len()));
            Payload::PermissionsViolationForSubscription(rest)
        } else if starts_with(raw, ascii_bytes("Permissions Violation for Publish to ")) {
            let p = ascii_bytes("Permissions Violation for Publish to ");
            let rest = vstd::slice::slice_to_vec(vstd::slice::slice_subrange(raw, p.len(), raw.len()));
            Payload::PermissionsViolationForPublishTo(rest)
        } else {
            Payload::Unknown(vstd::slice::slice_to_vec(raw))
        }
    }

    /// Renders the complete error line `-ERR '<text>'` plus CRLF into
    /// `dst`, after whatever `dst` already holds.
    pub fn encode(&self, dst: &mut bytes::BytesMut)
        requires
            buf_content(*old(dst)).len() + err_wire(self@).len() <= usize::MAX,
        ensures
            buf_content(*final(dst)) == buf_content(*old(dst)) + err_wire(self@),
    {
        proof {
            reveal_strlit("-ERR '");
            reveal_strlit("'\r\n");
            reveal_strlit("Unknown Protocol Operation");
            reveal_strlit("Attempted To Connect To Route Port");
            reveal_strlit("Authorization Violation");
            reveal_strlit("Authorization Timeout");
            reveal_strlit("Invalid Client Protocol");
            reveal_strlit("Maximum Control Line Exceeded");
            reveal_strlit("Parser Error");
            reveal_strlit("Secure Connection - TLS Required");
            reveal_strlit("Stale Connection");
            reveal_strlit("Maximum Connections Exceeded");
            reveal_strlit("Slow Consumer");
            reveal_strlit("Maximum Payload Violation");
            reveal_strlit("Invalid Subject");
            reveal_strlit("Permissions Violation for Subscription to ");
            reveal_strlit("Permissions Violation for Publish to ");
        }
        let ghost start = buf_content(*dst);
        buf_put_slice(dst, ascii_bytes("-ERR '"));
        match self {
            Payload::Unknown(t) => {
                buf_put_slice(dst, t.as_slice());
            }
            Payload::UnknownProtocolOperation => {
                buf_put_slice(dst, ascii_bytes("Unknown Protocol Operation"));
            }
            Payload::AttemptedToConnectToRoutePort => {
                buf_put_slice(dst, ascii_bytes("Attempted To Connect To Route Port"));
            }
            Payload::AuthorizationViolation => {
                buf_put_slice(dst, ascii_bytes("Authorization Violation"));
            }
            Payload::AuthorizationTimeout => {
                buf_put_slice(dst, ascii_bytes("Authorization Timeout"));
            }
            Payload::InvalidClientProtocol => {
                buf_put_slice(dst, ascii_bytes("Invalid Client Protocol"));
            }
            Payload::MaximumControlLineExceeded => {
                buf_put_slice(dst, ascii_bytes("Maximum Control Line Exceeded"));
            }
            Payload::ParserError => {
                buf_put_slice(dst, ascii_bytes("Parser Error"));
            }
            Payload::SecureConnectionTLSRequired => {
                buf_put_slice(dst, ascii_bytes("Secure Connection - TLS Required"));
            }
            Payload::StaleConnection => {
                buf_put_slice(dst, ascii_bytes("Stale Connection"));
            }
            Payload::MaximumConnectionsExceeded => {
                buf_put_slice(dst, ascii_bytes("Maximum Connections Exceeded"));
            }
            Payload::SlowConsumer => {
                buf_put_slice(dst, ascii_bytes("Slow Consumer"));
            }
            Payload::MaximumPayloadViolation => {
                buf_put_slice(dst, ascii_bytes("Maximum Payload Violation"));
            }
            Payload::InvalidSubject => {
                buf_put_slice(dst, ascii_bytes("Invalid Subject"));
            }
            Payload::PermissionsViolationForSubscription(s) => {
                buf_put_slice(dst, ascii_bytes("Permissions Violation for Subscription to "));
                buf_put_slice(dst, s.as_slice());
            }
            Payload::PermissionsViolationForPublishTo(s) => {
                buf_put_slice(dst, ascii_bytes("Permissions Violation for Publish to "));
                buf_put_slice(dst, s.as_slice());
            }
        }
        buf_put_slice(dst, ascii_bytes("'\r\n"));
        proof {
            assert(str_bytes("'\r\n") =~= seq![QUOTE, CR, LF]);
            assert(buf_content(*dst) =~= start + err_wire(self@));
        }
    }
}

/// Every known error kind round-trips through its wire text back to the
/// same kind, and a text that starts with no catalog entry round-trips
/// to `Unknown` with the text preserved exactly.
pub proof fn lemma_catalog_round_trip(e: ErrorView)
    requires
        e matches ErrorView::Unknown(t) ==> no_known_prefix(t),
    ensures
        classify(text_of(e)) == e,
{
        reveal_strlit("Unknown Protocol Operation");
    reveal_strlit("Attempted To Connect To Route Port");
    reveal_strlit("Authorization Violation");
    reveal_strlit("Authorization Timeout");
    reveal_strlit("Invalid Client Protocol");
    reveal_strlit("Maximum Control Line Exceeded");
    reveal_strlit("Parser Error");
    reveal_strlit("Secure Connection - TLS Required");
    reveal_strlit("Stale Connection");
    reveal_strlit("Maximum Connections Exceeded");
    reveal_strlit("Slow Consumer");
    reveal_strlit("Maximum Payload Violation");
    reveal_strlit("Invalid Subject");
    reveal_strlit("Permissions Violation for Subscription to ");
    reveal_strlit("Permissions Violation for Publish to ");
    match e {
        ErrorView::Unknown(t) => {
        }
        ErrorView::UnknownProtocolOperation => {
        }
        ErrorView::AttemptedToConnectToRoutePort => {
            assert(str_bytes("Attempted To Connect To Route Port")[0] != str_bytes("Unknown Protocol Operation")[0]);
        }
        ErrorView::AuthorizationViolation => {
            assert(str_bytes("Authorization Violation")[0] != str_bytes("Unknown Protocol Operation")[0]);
            assert(str_bytes("Authorization Violation")[1] != str_bytes("Attempted To Connect To Route Port")[1]);
        }
        ErrorView::AuthorizationTimeout => {
            assert(str_bytes("Authorization Timeout")[0] != str_bytes("Unknown Protocol Operation")[0]);
            assert(str_bytes("Authorization Timeout")[1] != str_bytes("Attempted To Connect To Route Port")[1]);
            assert(str_bytes("Authorization Timeout")[14] != str_bytes("Authorization Violation")[14]);
        }
        ErrorView::InvalidClientProtocol => {
            assert(str_bytes("Invalid Client Protocol")[0] != str_bytes("Unknown Protocol Operation")[0]);
            assert(str_bytes("Invalid Client Protocol")[0] != str_bytes("Attempted To Connect To Route Port")[0]);
            assert(str_bytes("Invalid Client Protocol")[0] != str_bytes("Authorization Violation")[0]);
            assert(str_bytes("Invalid Client Protocol")[0] != str_bytes("Authorization Timeout")[0]);
        }
        ErrorView::MaximumControlLineExceeded => {
            assert(str_bytes("Maximum Control Line Exceeded")[0] != str_bytes("Unknown Protocol Operation")[0]);
            assert(str_bytes("Maximum Control Line Exceeded")[0] != str_bytes("Attempted To Connect To Route Port")[0]);
            assert(str_bytes("Maximum Control Line Exceeded")[0] != str_bytes("Authorization Violation")[0]);
            assert(str_bytes("Maximum Control Line Exceeded")[0] != str_bytes("Authorization Timeout")[0]);
            assert(str_bytes("Maximum Control Line Exceeded")[0] != str_bytes("Invalid Client Protocol")[0]);
        }
        ErrorView::ParserError => {
            assert(str_bytes("Parser Error")[0] != str_bytes("Unknown Protocol Operation")[0]);
            assert(str_bytes("Parser Error")[0] != str_bytes("Attempted To Connect To Route Port")[0]);
            assert(str_bytes("Parser Error")[0] != str_bytes("Authorization Violation")[0]);
            assert(str_bytes("Parser Error")[0] != str_bytes("Authorization Timeout")[0]);
            assert(str_bytes("Parser Error")[0] != str_bytes("Invalid Client Protocol")[0]);
            assert(str_bytes("Parser Error")[0] != str_bytes("Maximum Control Line Exceeded")[0]);
        }
        ErrorView::SecureConnectionTLSRequired => {
            assert(str_bytes("Secure Connection - TLS Required")[0] != str_bytes("Unknown Protocol Operation")[0]);
            assert(str_bytes("Secure Connection - TLS Required")[0] != str_bytes("Attempted To Connect To Route Port")[0]);
            assert(str_bytes("Secure Connection - TLS Required")[0] != str_bytes("Authorization Violation")[0]);
            assert(str_bytes("Secure Connection - TLS Required")[0] != str_bytes("Authorization Timeout")[0]);
            assert(str_bytes("Secure Connection - TLS Required")[0] != str_bytes("Invalid Client Protocol")[0]);
            assert(str_bytes("Secure Connection - TLS Required")[0] != str_bytes("Maximum Control Line Exceeded")[0]);
            assert(str_bytes("Secure Connection - TLS Required")[0] != str_bytes("Parser Error")[0]);
        }
        ErrorView::StaleConnection => {
            assert(str_bytes("Stale Connection")[0] != str_bytes("Unknown Protocol Operation")[0]);
            assert(str_bytes("Stale Connection")[0] != str_bytes("Attempted To Connect To Route Port")[0]);
            assert(str_bytes("Stale Connection")[0] != str_bytes("Authorization Violation")[0]);
            assert(str_bytes("Stale Connection")[0] != str_bytes("Authorization Timeout")[0]);
            assert(str_bytes("Stale Connection")[0] != str_bytes("Invalid Client Protocol")[0]);
            assert(str_bytes("Stale Connection")[0] != str_bytes("Maximum Control Line Exceeded")[0]);
            assert(str_bytes("Stale Connection")[0] != str_bytes("Parser Error")[0]);
            assert(str_bytes("Stale Connection")[1] != str_bytes("Secure Connection - TLS Required")[1]);
        }
        ErrorView::MaximumConnectionsExceeded => {
            assert(str_bytes("Maximum Connections Exceeded")[0] != str_bytes("Unknown Protocol Operation")[0]);
            assert(str_bytes("Maximum Connections Exceeded")[0] != str_bytes("Attempted To Connect To Route Port")[0]);
            assert(str_bytes("Maximum Connections Exceeded")[0] != str_bytes("Authorization Violation")[0]);
            assert(str_bytes("Maximum Connections Exceeded")[0] != str_bytes("Authorization Timeout")[0]);
            assert(str_bytes("Maximum Connections Exceeded")[0] != str_bytes("Invalid Client Protocol")[0]);
            assert(str_bytes("Maximum Connections Exceeded")[11] != str_bytes("Maximum Control Line Exceeded")[11]);
            assert(str_bytes("Maximum Connections Exceeded")[0] != str_bytes("Parser Error")[0]);
            assert(str_bytes("Maximum Connections Exceeded")[0] != str_bytes("Secure Connection - TLS Required")[0]);
            assert(str_bytes("Maximum Connections Exceeded")[0] != str_bytes("Stale Connection")[0]);
        }
        ErrorView::SlowConsumer => {
            assert(str_bytes("Slow Consumer")[0] != str_bytes("Unknown Protocol Operation")[0]);
            assert(str_bytes("Slow Consumer")[0] != str_bytes("Attempted To Connect To Route Port")[0]);
            assert(str_bytes("Slow Consumer")[0] != str_bytes("Authorization Violation")[0]);
            assert(str_bytes("Slow Consumer")[0] != str_bytes("Authorization Timeout")[0]);
            assert(str_bytes("Slow Consumer")[0] != str_bytes("Invalid Client Protocol")[0]);
            assert(str_bytes("Slow Consumer")[0] != str_bytes("Maximum Control Line Exceeded")[0]);
            assert(str_bytes("Slow Consumer")[0] != str_bytes("Parser Error")[0]);
            assert(str_bytes("Slow Consumer")[1] != str_bytes("Secure Connection - TLS Required")[1]);
            assert(str_bytes("Slow Consumer")[1] != str_bytes("Stale Connection")[1]);
            assert(str_bytes("Slow Consumer")[0] != str_bytes("Maximum Connections Exceeded")[0]);
        }
        ErrorView::MaximumPayloadViolation => {
            assert(str_bytes("Maximum Payload Violation")[0] != str_bytes("Unknown Protocol Operation")[0]);
            assert(str_bytes("Maximum Payload Violation")[0] != str_bytes("Attempted To Connect To Route Port")[0]);
            assert(str_bytes("Maximum Payload Violation")[0] != str_bytes("Authorization Violation")[0]);
            assert(str_bytes("Maximum Payload Violation")[0] != str_bytes("Authorization Timeout")[0]);
            assert(str_bytes("Maximum Payload Violation")[0] != str_bytes("Invalid Client Protocol")[0]);
            assert(str_bytes("Maximum Payload Violation")[8] != str_bytes("Maximum Control Line Exceeded")[8]);
            assert(str_bytes("Maximum Payload Violation")[0] != str_bytes("Parser Error")[0]);
            assert(str_bytes("Maximum Payload Violation")[0] != str_bytes("Secure Connection - TLS Required")[0]);
            assert(str_bytes("Maximum Payload Violation")[0] != str_bytes("Stale Connection")[0]);
            assert(str_bytes("Maximum Payload Violation")[8] != str_bytes("Maximum Connections Exceeded")[8]);
            assert(str_bytes("Maximum Payload Violation")[0] != str_bytes("Slow Consumer")[0]);
        }
        ErrorView::InvalidSubject => {
            assert(str_bytes("Invalid Subject")[0] != str_bytes("Unknown Protocol Operation")[0]);
            assert(str_bytes("Invalid Subject")[0] != str_bytes("Attempted To Connect To Route Port")[0]);
            assert(str_bytes("Invalid Subject")[0] != str_bytes("Authorization Violation")[0]);
            assert(str_bytes("Invalid Subject")[0] != str_bytes("Authorization Timeout")[0]);
            assert(str_bytes("Invalid Subject")[8] != str_bytes("Invalid Client Protocol")[8]);
            assert(str_bytes("Invalid Subject")[0] != str_bytes("Maximum Control Line Exceeded")[0]);
            assert(str_bytes("Invalid Subject")[0] != str_bytes("Parser Error")[0]);
            assert(str_bytes("Invalid Subject")[0] != str_bytes("Secure Connection - TLS Required")[0]);
            assert(str_bytes("Invalid Subject")[0] != str_bytes("Stale Connection")[0]);
            assert(str_bytes("Invalid Subject")[0] != str_bytes("Maximum Connections Exceeded")[0]);
            assert(str_bytes("Invalid Subject")[0] != str_bytes("Slow Consumer")[0]);
            assert(str_bytes("Invalid Subject")[0] != str_bytes("Maximum Payload Violation")[0]);
        }
        ErrorView::PermissionsViolationForSubscription(s) => {
            let t = text_of(e);
            assert(t[0] == str_bytes("Permissions Violation for Subscription to ")[0] && t[0] != str_bytes("Unknown Protocol Operation")[0]);
            assert(t[0] == str_bytes("Permissions Violation for Subscription to ")[0] && t[0] != str_bytes("Attempted To Connect To Route Port")[0]);
            assert(t[0] == str_bytes("Permissions Violation for Subscription to ")[0] && t[0] != str_bytes("Authorization Violation")[0]);
            assert(t[0] == str_bytes("Permissions Violation for Subscription to ")[0] && t[0] != str_bytes("Authorization Timeout")[0]);
            assert(t[0] == str_bytes("Permissions Violation for Subscription to ")[0] && t[0] != str_bytes("Invalid Client Protocol")[0]);
            assert(t[0] == str_bytes("Permissions Violation for Subscription to ")[0] && t[0] != str_bytes("Maximum Control Line Exceeded")[0]);
            assert(t[1] == str_bytes("Permissions Violation for Subscription to ")[1] && t[1] != str_bytes("Parser Error")[1]);
            assert(t[0] == str_bytes("Permissions Violation for Subscription to ")[0] && t[0] != str_bytes("Secure Connection - TLS Required")[0]);
            assert(t[0] == str_bytes("Permissions Violation for Subscription to ")[0] && t[0] != str_bytes("Stale Connection")[0]);
            assert(t[0] == str_bytes("Permissions Violation for Subscription to ")[0] && t[0] != str_bytes("Maximum Connections Exceeded")[0]);
            assert(t[0] == str_bytes("Permissions Violation for Subscription to ")[0] && t[0] != str_bytes("Slow Consumer")[0]);
            assert(t[0] == str_bytes("Permissions Violation for Subscription to ")[0] && t[0] != str_bytes("Maximum Payload Violation")[0]);
            assert(t[0] == str_bytes("Permissions Violation for Subscription to ")[0] && t[0] != str_bytes("Invalid Subject")[0]);
            assert(spec_starts_with(t, str_bytes("Permissions Violation for Subscription to ")));
            assert(t.subrange(42, t.len() as int) =~= s);
        }
        ErrorView::PermissionsViolationForPublishTo(s) => {
            let t = text_of(e);
            assert(t[0] == str_bytes("Permissions Violation for Publish to ")[0] && t[0] != str_bytes("Unknown Protocol Operation")[0]);
            assert(t[0] == str_bytes("Permissions Violation for Publish to ")[0] && t[0] != str_bytes("Attempted To Connect To Route Port")[0]);
            assert(t[0] == str_bytes("Permissions Violation for Publish to ")[0] && t[0] != str_bytes("Authorization Violation")[0]);
            assert(t[0] == str_bytes("Permissions Violation for Publish to ")[0] && t[0] != str_bytes("Authorization Timeout")[0]);
            assert(t[0] == str_bytes("Permissions Violation for Publish to ")[0] && t[0] != str_bytes("Invalid Client Protocol")[0]);
            assert(t[0] == str_bytes("Permissions Violation for Publish to ")[0] && t[0] != str_bytes("Maximum Control Line Exceeded")[0]);
            assert(t[1] == str_bytes("Permissions Violation for Publish to ")[1] && t[1] != str_bytes("Parser Error")[1]);
            assert(t[0] == str_bytes("Permissions Violation for Publish to ")[0] && t[0] != str_bytes("Secure Connection - TLS Required")[0]);
            assert(t[0] == str_bytes("Permissions Violation for Publish to ")[0] && t[0] != str_bytes("Stale Connection")[0]);
            assert(t[0] == str_bytes("Permissions Violation for Publish to ")[0] && t[0] != str_bytes("Maximum Connections Exceeded")[0]);
            assert(t[0] == str_bytes("Permissions Violation for Publish to ")[0] && t[0] != str_bytes("Slow Consumer")[0]);
            assert(t[0] == str_bytes("Permissions Violation for Publish to ")[0] && t[0] != str_bytes("Maximum Payload Violation")[0]);
            assert(t[0] == str_bytes("Permissions Violation for Publish to ")[0] && t[0] != str_bytes("Invalid Subject")[0]);
            assert(t[26] == str_bytes("Permissions Violation for Publish to ")[26] && t[26] != str_bytes("Permissions Violation for Subscription to ")[26]);
            assert(spec_starts_with(t, str_bytes("Permissions Violation for Publish to ")));
            assert(t.subrange(37, t.len() as int) =~= s);
        }
    }
}

/// A text that matches no known catalog prefix is preserved verbatim.
pub proof fn lemma_unknown_preserved(raw: Seq<u8>)
    requires
        no_known_prefix(raw),
    ensures
        classify(raw) == ErrorView::Unknown(raw),
{
}

} // verus!