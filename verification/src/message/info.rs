//! The server handshake record carried by an `INFO` line. The codec only
//! frames its JSON text on the wire; this record models the fields, with
//! the documented default of 1024 for `max_payload`.
use vstd::prelude::*;

verus! {

#[derive(Debug, Clone, PartialEq)]
pub struct Payload {
    pub server_id: String,
    pub version: String,
    pub proto: Option<usize>,
    pub go: String,
    pub host: String,
    pub port: u64,
    pub auth_required: bool,
    pub tls_required: bool,
    pub max_payload: u64,
    pub client_id: Option<usize>,
    pub connect_urls: Option<Vec<String>>,
    pub nonce: Option<String>,
}

impl Default for Payload {
    /// Every field empty or absent, except `max_payload`, which defaults
    /// to 1024 bytes.
    fn default() -> (r: Payload)
        ensures
            r.server_id@ == Seq::<char>::empty(),
            r.version@ == Seq::<char>::empty(),
            r.proto is None,
            r.go@ == Seq::<char>::empty(),
            r.host@ == Seq::<char>::empty(),
            r.port == 0,
            !r.auth_required,
            !r.tls_required,
            r.max_payload == 1024,
            r.client_id is None,
            r.connect_urls is None,
            r.nonce is None,
    {
        Payload {
            server_id: String::new(),
            version: String::new(),
            proto: None,
            go: String::new(),
            host: String::new(),
            port: 0,
            auth_required: false,
            tls_required: false,
            max_payload: 1024,
            client_id: None,
            connect_urls: None,
            nonce: None,
        }
    }
}

} // verus!
