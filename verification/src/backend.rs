//! The values the engine hands to the application backend.

use vstd::prelude::*;

verus! {

/// The parameters of one MAIL FROM command, as handed to the backend:
/// the declared body type, the declared size, the REQUIRETLS and
/// SMTPUTF8 choices, and the decoded AUTH mailbox.
pub struct MailOptions {
    pub body: String,
    pub size: usize,
    pub require_tls: bool,
    pub utf8: bool,
    pub auth: String,
}

impl MailOptions {
    pub fn new() -> (r: MailOptions)
        ensures
            r.body@ == "7BIT"@,
            r.size == 0,
            !r.require_tls,
            !r.utf8,
            r.auth@ == Seq::<char>::empty(),
    {
        MailOptions {
            body: String::from_str("7BIT"),
            size: 0,
            require_tls: false,
            utf8: false,
            auth: String::new(),
        }
    }
}

} // verus!
