//! The client handshake record carried by a `CONNECT` line. The codec only
//! frames its JSON text on the wire; this record models the fields.
use vstd::prelude::*;

verus! {

#[derive(Debug, Clone, PartialEq)]
pub struct Payload {
    pub verbose: bool,
    pub pedantic: bool,
    pub tls_required: bool,
    pub auth_token: Option<String>,
    pub user: Option<String>,
    pub pass: Option<String>,
    pub lang: String,
    pub name: String,
    pub version: String,
    pub protocol: Option<u64>,
    pub sig: Option<String>,
    pub jwt: Option<String>,
}

impl Default for Payload {
    /// Every field false, empty or absent.
    fn default() -> (r: Payload)
        ensures
            !r.verbose,
            !r.pedantic,
            !r.tls_required,
            r.auth_token is None,
            r.user is None,
            r.pass is None,
            r.lang@ == Seq::<char>::empty(),
            r.name@ == Seq::<char>::empty(),
            r.version@ == Seq::<char>::empty(),
            r.protocol is None,
            r.sig is None,
            r.jwt is None,
    {
        Payload {
            verbose: false,
            pedantic: false,
            tls_required: false,
            auth_token: None,
            user: None,
            pass: None,
            lang: String::new(),
            name: String::new(),
            version: String::new(),
            protocol: None,
            sig: None,
            jwt: None,
        }
    }
}

} // verus!
