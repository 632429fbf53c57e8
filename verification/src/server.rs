//! The server-wide configuration the engine consults: limits, feature
//! flags, and the baseline capability list advertised in EHLO.

use vstd::prelude::*;

verus! {

/// Process-wide configuration, immutable once serving starts. `has_tls`
/// says whether a TLS acceptor is configured, which gates STARTTLS.
pub struct Config {
    pub domain: String,
    pub max_recipients: usize,
    pub max_message_bytes: usize,
    pub max_line_length: usize,
    pub allow_insecure_auth: bool,
    pub strict: bool,
    pub enable_smtputf8: bool,
    pub enable_requiretls: bool,
    pub enable_binarymime: bool,
    pub has_tls: bool,
    pub caps: Vec<String>,
}

/// The baseline capabilities every EHLO reply advertises.
pub open spec fn base_caps() -> Seq<Seq<char>> {
    seq!["PIPELINING"@, "8BITMIME"@, "ENHANCEDSTATUSCODES"@, "CHUNKING"@]
}

impl Config {
    /// The default configuration: no limits, a 2000-byte line cap,
    /// insecure authentication allowed, every optional extension off,
    /// and the baseline capability list.
    pub fn new() -> (r: Config)
        ensures
            r.domain@ == Seq::<char>::empty(),
            r.max_recipients == 0,
            r.max_message_bytes == 0,
            r.max_line_length == 2000,
            r.allow_insecure_auth,
            !r.strict,
            !r.enable_smtputf8,
            !r.enable_requiretls,
            !r.enable_binarymime,
            !r.has_tls,
            r.caps.deep_view() == base_caps(),
    {
        let mut caps: Vec<String> = Vec::new();
        caps.push(String::from_str("PIPELINING"));
        caps.push(String::from_str("8BITMIME"));
        caps.push(String::from_str("ENHANCEDSTATUSCODES"));
        caps.push(String::from_str("CHUNKING"));
        proof {
            assert(caps.deep_view() =~= base_caps());
        }
        Config {
            domain: String::new(),
            max_recipients: 0,
            max_message_bytes: 0,
            max_line_length: 2000,
            allow_insecure_auth: true,
            strict: false,
            enable_smtputf8: false,
            enable_requiretls: false,
            enable_binarymime: false,
            has_tls: false,
            caps,
        }
    }
}

} // verus!
