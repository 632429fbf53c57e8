//! The per-connection command engine. It holds the protocol state of
//! one connection and decides, command by command, what to answer and
//! what to ask of the transport and the application session. All I/O
//! stays with the caller: each handler returns an [`Action`], the
//! caller performs it (writes the reply, calls the session, reads
//! chunk bytes, performs the TLS handshake) and reports the result
//! back through the matching continuation method.

use vstd::prelude::*;

use crate::backend::MailOptions;
use crate::data::EnhancedCode;
use crate::reply::Reply;
use crate::server::Config;
use crate::text::contains_str;
use crate::text::eq_ignore_case_range;
use crate::text::lower_seq;
use crate::text::str_eq;
use crate::text::strip_leading;
use crate::text::strip_leading_spec;
use crate::text::strip_trailing;
use crate::text::strip_trailing_spec;
use crate::text::to_lower;
use crate::text::to_upper;
use crate::text::trim;
use crate::text::trim_spec;
use crate::text::upper_seq;

verus! {

/// What the caller must do next. Replies are written as rendered by
/// [`Reply::render`]; the variants say what else the step asks for.
pub enum Action {
    /// Write the reply.
    Reply(Reply),
    /// The transaction was cleared: call `session.reset()`, then write
    /// the reply.
    ResetSession(Reply),
    /// Write the reply, then close the connection.
    Quit(Reply),
    /// Ask the backend for a session, then report through `greet_ok`
    /// or `greet_failed`.
    NewSession { enhanced: bool },
    /// Call `session.mail(from, opts)`, then report through `mail_ok`
    /// or `mail_failed`.
    Mail { from: String, opts: MailOptions },
    /// Call `session.rcpt(to)`, then report through `rcpt_ok` or
    /// `rcpt_failed`.
    Rcpt { to: String },
    /// Write the reply, stream the dot-framed body through a
    /// `DataReader` into `session.data`, drain to end of body, then
    /// report through `data_conclude`.
    BeginData(Reply),
    /// Write the reply, perform the TLS handshake, then report through
    /// `starttls_ok` or `starttls_failed`.
    BeginTls(Reply),
    /// Read exactly `size` bytes and hand them to `bdat_chunk`; a
    /// failed read or pipe ends the transfer through `bdat_conclude`.
    /// `first` says a body consumer must be spawned before the bytes
    /// are piped.
    BdatChunk { size: usize, last: bool, first: bool },
    /// Write the reply, read and discard the refused chunk's `size`
    /// bytes so the stream stays in step, and call `session.reset()`:
    /// the transaction was cleared.
    BdatDiscard { reply: Reply, size: usize },
    /// Drive the named SASL mechanism, starting from the decoded
    /// initial response, through `auth_step` and `auth_response`.
    AuthBegin { mechanism: String, initial: Vec<u8> },
    /// Send nothing and read the next command.
    Silent,
}

/// The protocol state of one connection.
pub struct Conn {
    /// The client identity from HELO/EHLO; empty until received.
    pub helo: String,
    /// Protocol errors seen, for abuse tracking.
    pub err_count: usize,
    /// Whether a backend session exists.
    pub session_active: bool,
    /// Whether the transport is TLS by now.
    pub is_tls: bool,
    /// The SASL mechanism names the session offered at HELO/EHLO.
    pub mechanisms: Vec<String>,
    /// Whether the current transaction chose BODY=BINARYMIME.
    pub binarymime: bool,
    /// Whether a chunked transfer is open (the BDAT pipe exists).
    pub bdat_active: bool,
    /// Bytes accepted across the transaction's BDAT chunks.
    pub bytes_received: usize,
    /// Whether MAIL FROM succeeded in the current transaction.
    pub from_received: bool,
    /// The accepted recipients, in order.
    pub recipients: Vec<String>,
    /// Whether authentication succeeded on the live transport.
    pub did_auth: bool,
    /// Whether a SASL dialogue is underway.
    pub auth_in_progress: bool,
    /// The bytes handed to the body consumer in this transaction.
    pub transferred: Ghost<Seq<u8>>,
}

impl Conn {
    /// What every reachable state satisfies: the recipient cap holds,
    /// authentication never succeeded against the policy, an open
    /// transfer implies a transaction, and a transaction implies a
    /// session.
    pub open spec fn inv(&self, cfg: &Config) -> bool {
        &&& (cfg.max_recipients > 0 ==> self.recipients.len() <= cfg.max_recipients)
        &&& (self.did_auth ==> (self.is_tls || cfg.allow_insecure_auth))
        &&& (self.auth_in_progress ==> (self.is_tls || cfg.allow_insecure_auth))
        &&& (self.bdat_active ==> self.from_received && self.recipients.len() >= 1)
        &&& (self.from_received ==> self.session_active)
    }

    /// The transaction is empty: nothing received, nobody to deliver
    /// to, no transfer open.
    pub open spec fn transaction_clear(&self) -> bool {
        &&& !self.from_received
        &&& self.recipients.len() == 0
        &&& !self.binarymime
        &&& !self.bdat_active
        &&& self.bytes_received == 0
        &&& self.transferred@ == Seq::<u8>::empty()
    }

    pub fn new() -> (r: Conn)
        ensures
            r.helo@ == Seq::<char>::empty(),
            r.err_count == 0,
            !r.session_active,
            !r.is_tls,
            r.mechanisms.len() == 0,
            !r.did_auth,
            !r.auth_in_progress,
            r.transaction_clear(),
            forall|cfg: Config| r.inv(&cfg),
    {
        Conn {
            helo: String::new(),
            err_count: 0,
            session_active: false,
            is_tls: false,
            mechanisms: Vec::new(),
            binarymime: false,
            bdat_active: false,
            bytes_received: 0,
            from_received: false,
            recipients: Vec::new(),
            did_auth: false,
            auth_in_progress: false,
            transferred: Ghost(Seq::empty()),
        }
    }

    /// Empties the transaction. The caller also calls
    /// `session.reset()` whenever this happens.
    pub fn reset(&mut self)
        ensures
            final(self).transaction_clear(),
            final(self).helo == old(self).helo,
            final(self).err_count == old(self).err_count,
            final(self).session_active == old(self).session_active,
            final(self).is_tls == old(self).is_tls,
            final(self).mechanisms == old(self).mechanisms,
            final(self).did_auth == old(self).did_auth,
            final(self).auth_in_progress == old(self).auth_in_progress,
            forall|cfg: Config| old(self).inv(&cfg) ==> final(self).inv(&cfg),
    {
        self.from_received = false;
        self.recipients = Vec::new();
        self.binarymime = false;
        self.bdat_active = false;
        self.bytes_received = 0;
        self.transferred = Ghost(Seq::empty());
    }
}

/// A one-line reply.
pub fn reply1(code: u16, ec: EnhancedCode, text: &str) -> (r: Reply)
    ensures
        r.code == code,
        r.ec == ec,
        r.texts.deep_view() == seq![text@],
        r.texts.len() == 1,
{
    let mut texts: Vec<String> = Vec::new();
    texts.push(text.to_owned());
    proof {
        assert(texts.deep_view() =~= seq![text@]);
    }
    Reply::new(code, ec, texts)
}

/// A one-line reply whose text is built at run time.
pub fn reply1s(code: u16, ec: EnhancedCode, text: String) -> (r: Reply)
    ensures
        r.code == code,
        r.ec == ec,
        r.texts.deep_view() == seq![text@],
        r.texts.len() == 1,
{
    let ghost t = text@;
    let mut texts: Vec<String> = Vec::new();
    texts.push(text);
    proof {
        assert(texts.deep_view() =~= seq![t]);
    }
    Reply::new(code, ec, texts)
}

/// Whether a reply action carries the given code, enhanced code and
/// one-line text.
pub open spec fn is_reply(a: &Action, code: u16, ec: EnhancedCode, text: Seq<char>) -> bool {
    a matches Action::Reply(rep) && rep.code == code && rep.ec == ec && rep.texts.deep_view()
        == seq![text]
}

/// The RCPT argument parses when, upper-cased, it is at least four
/// characters and starts with `TO:`.
pub open spec fn rcpt_arg_ok(arg: Seq<char>) -> bool {
    arg.len() >= 4 && upper_seq(arg).take(3) == seq!['T', 'O', ':']
}

/// The recipient denoted by the RCPT argument: the tail after `TO:`,
/// unwrapped from angle brackets, trimmed and lower-cased.
pub open spec fn rcpt_addr(arg: Seq<char>) -> Seq<char> {
    lower_seq(
        trim_spec(
            strip_trailing_spec(strip_leading_spec(upper_seq(arg).skip(3), '<'), '>'),
        ),
    )
}

/// What RCPT decides, given the state it read: the recipient goes to
/// the session exactly when a transaction is open, no chunked transfer
/// runs, the argument parses, and the cap leaves room; each refusal
/// carries its reply.
pub open spec fn rcpt_action_ok(c: &Conn, cfg: &Config, arg: Seq<char>, r: &Action) -> bool {
    &&& ((r is Rcpt) <==> (c.from_received && !c.bdat_active && rcpt_arg_ok(arg) && (
    cfg.max_recipients == 0 || c.recipients.len() < cfg.max_recipients) && c.session_active))
    &&& (r matches Action::Rcpt { to } ==> to@ == rcpt_addr(arg))
    &&& (!c.from_received ==> is_reply(
        r,
        502,
        EnhancedCode::Code(5, 5, 1),
        "Missing MAIL FROM command"@,
    ))
    &&& (c.from_received && c.bdat_active ==> is_reply(
        r,
        502,
        EnhancedCode::Code(5, 5, 1),
        "RCPT not allowed during message transfer"@,
    ))
    &&& (c.from_received && !c.bdat_active && !rcpt_arg_ok(arg) ==> is_reply(
        r,
        501,
        EnhancedCode::Code(5, 5, 2),
        "Was expecting RCPT arg syntax of TO:<address>"@,
    ))
    &&& (c.from_received && !c.bdat_active && rcpt_arg_ok(arg) && !(cfg.max_recipients == 0
        || c.recipients.len() < cfg.max_recipients) ==> is_reply(
        r,
        552,
        EnhancedCode::Code(5, 5, 3),
        "Too many recipients. Max is "@ + crate::text::dec_digits(cfg.max_recipients as int),
    ))
    &&& (c.from_received && !c.bdat_active && rcpt_arg_ok(arg) && (cfg.max_recipients == 0
        || c.recipients.len() < cfg.max_recipients) && !c.session_active ==> is_reply(
        r,
        502,
        EnhancedCode::Code(5, 5, 1),
        "Wrong sequence of commands"@,
    ))
}

/// What STARTTLS decides: the handshake begins exactly on a cleartext
/// connection of a server with a TLS acceptor.
pub open spec fn starttls_action_ok(c: &Conn, cfg: &Config, r: &Action) -> bool {
    &&& ((r is BeginTls) <==> (!c.is_tls && cfg.has_tls))
    &&& (r matches Action::BeginTls(rep) ==> rep.code == 220 && rep.ec == EnhancedCode::Code(
        2,
        0,
        0,
    ) && rep.texts.deep_view() == seq!["Ready to start TLS"@])
    &&& (c.is_tls ==> is_reply(r, 502, EnhancedCode::Code(5, 5, 1), "Already in TLS mode"@))
    &&& (!c.is_tls && !cfg.has_tls ==> is_reply(
        r,
        502,
        EnhancedCode::Code(5, 5, 1),
        "TLS not supported"@,
    ))
}

/// What DATA decides: the body transfer begins exactly when the
/// command is bare, no chunked transfer runs, the transaction is not
/// BINARYMIME, and a recipient was accepted.
pub open spec fn data_action_ok(c: &Conn, arg: Seq<char>, r: &Action) -> bool {
    &&& ((r is BeginData) <==> (arg.len() == 0 && !c.bdat_active && !c.binarymime
        && c.from_received && c.recipients.len() > 0))
    &&& (r matches Action::BeginData(rep) ==> rep.code == 354 && rep.ec == EnhancedCode::Code(
        2,
        0,
        0,
    ) && rep.texts.deep_view() == seq!["Go ahead. End your data with <CR><LF>.<CR><LF>"@])
    &&& (arg.len() > 0 ==> is_reply(
        r,
        501,
        EnhancedCode::Code(5, 5, 4),
        "DATA command should not have any arguments"@,
    ))
    &&& (arg.len() == 0 && c.bdat_active ==> is_reply(
        r,
        502,
        EnhancedCode::Code(5, 5, 1),
        "DATA not allowed during message transfer"@,
    ))
    &&& (arg.len() == 0 && !c.bdat_active && c.binarymime ==> is_reply(
        r,
        502,
        EnhancedCode::Code(5, 5, 1),
        "DATA not allowed for BINARYMIME messages"@,
    ))
    &&& (arg.len() == 0 && !c.bdat_active && !c.binarymime && !(c.from_received
        && c.recipients.len() > 0) ==> is_reply(
        r,
        502,
        EnhancedCode::Code(5, 5, 1),
        "Missing RCPT TO command."@,
    ))
}

impl Conn {
    /// RCPT TO. Legal only inside a transaction and outside a chunked
    /// transfer, under the recipient cap; the accepted recipient is
    /// handed to the session.
    pub fn handle_rcpt(&self, cfg: &Config, arg: &String) -> (r: Action)
        ensures
            rcpt_action_ok(self, cfg, arg@, &r),
    {
        let argu = to_upper(arg.as_str());
        if !self.from_received {
            return Action::Reply(reply1(502, EnhancedCode::Code(5, 5, 1), "Missing MAIL FROM command"));
        }
        if self.bdat_active {
            return Action::Reply(
                reply1(502, EnhancedCode::Code(5, 5, 1), "RCPT not allowed during message transfer"),
            );
        }
        let arg_ok = if argu.as_str().unicode_len() >= 4 {
            let p = eq_ignore_case_range(arg.as_str(), 0, 3, "TO:");
            proof {
                reveal_strlit("TO:");
                assert("TO:"@ =~= seq!['T', 'O', ':']);
                assert(arg@.subrange(0, 3) =~= arg@.take(3));
                assert(upper_seq(arg@.take(3)) =~= upper_seq(arg@).take(3));
            }
            p
        } else {
            false
        };
        if !arg_ok {
            return Action::Reply(
                reply1(501, EnhancedCode::Code(5, 5, 2), "Was expecting RCPT arg syntax of TO:<address>"),
            );
        }
        let n = argu.as_str().unicode_len();
        let tail = argu.as_str().substring_char(3, n);
        proof {
            assert(tail@ =~= upper_seq(arg@).skip(3));
        }
        let s1 = strip_leading(tail, '<');
        let s2 = strip_trailing(s1.as_str(), '>');
        let s3 = trim(s2.as_str());
        let recipient = to_lower(s3.as_str());
        if cfg.max_recipients > 0 && self.recipients.len() >= cfg.max_recipients {
            let mut text = String::from_str("Too many recipients. Max is ");
            text.append(crate::text::dec_string(cfg.max_recipients).as_str());
            return Action::Reply(reply1s(552, EnhancedCode::Code(5, 5, 3), text));
        }
        if !self.session_active {
            return Action::Reply(reply1(502, EnhancedCode::Code(5, 5, 1), "Wrong sequence of commands"));
        }
        Action::Rcpt { to: recipient }
    }

    /// The session accepted the recipient: record it and reply.
    pub fn rcpt_ok(&mut self, cfg: &Config, to: String) -> (r: Reply)
        requires
            cfg.max_recipients == 0 || old(self).recipients.len() < cfg.max_recipients,
        ensures
            final(self).recipients.deep_view() == old(self).recipients.deep_view().push(to@),
            r.code == 250 && r.ec == EnhancedCode::Code(2, 0, 0) && r.texts.deep_view() == seq![
                "OK"@,
            ],
            *final(self) == (Conn { recipients: final(self).recipients, ..*old(self) }),
            old(self).inv(cfg) ==> final(self).inv(cfg),
    {
        let ghost t = to@;
        let ghost old_r = self.recipients.deep_view();
        self.recipients.push(to);
        proof {
            assert(self.recipients.deep_view() =~= old_r.push(t));
        }
        reply1(250, EnhancedCode::Code(2, 0, 0), "OK")
    }

    /// The session refused the recipient.
    pub fn rcpt_failed(&self, errmsg: String) -> (r: Reply)
        ensures
            r.code == 451 && r.ec == EnhancedCode::Code(4, 0, 0),
            r.texts.deep_view() == seq![errmsg@],
    {
        reply1s(451, EnhancedCode::Code(4, 0, 0), errmsg)
    }

    /// DATA. Legal only with at least one recipient, outside a chunked
    /// transfer, and not for a BINARYMIME transaction; it takes no
    /// argument.
    pub fn handle_data(&self, cfg: &Config, arg: &String) -> (r: Action)
        ensures
            data_action_ok(self, arg@, &r),
    {
        if arg.as_str().unicode_len() > 0 {
            return Action::Reply(
                reply1(501, EnhancedCode::Code(5, 5, 4), "DATA command should not have any arguments"),
            );
        }
        if self.bdat_active {
            return Action::Reply(
                reply1(502, EnhancedCode::Code(5, 5, 1), "DATA not allowed during message transfer"),
            );
        }
        if self.binarymime {
            return Action::Reply(
                reply1(502, EnhancedCode::Code(5, 5, 1), "DATA not allowed for BINARYMIME messages"),
            );
        }
        if !self.from_received || self.recipients.len() == 0 {
            return Action::Reply(reply1(502, EnhancedCode::Code(5, 5, 1), "Missing RCPT TO command."));
        }
        Action::BeginData(
            reply1(354, EnhancedCode::Code(2, 0, 0), "Go ahead. End your data with <CR><LF>.<CR><LF>"),
        )
    }

    /// The body transfer ended: report the session's verdict and clear
    /// the transaction. The caller also calls `session.reset()`.
    pub fn data_conclude(&mut self, ok: bool, errmsg: String) -> (r: Reply)
        ensures
            final(self).transaction_clear(),
            ok ==> r.code == 250 && r.ec == EnhancedCode::Code(2, 0, 0) && r.texts.deep_view()
                == seq!["OK"@],
            !ok ==> r.code == 554 && r.ec == EnhancedCode::Code(5, 0, 0) && r.texts.deep_view()
                == seq![errmsg@],
            final(self).helo == old(self).helo,
            final(self).err_count == old(self).err_count,
            final(self).session_active == old(self).session_active,
            final(self).is_tls == old(self).is_tls,
            final(self).mechanisms == old(self).mechanisms,
            final(self).did_auth == old(self).did_auth,
            final(self).auth_in_progress == old(self).auth_in_progress,
            forall|cfg: Config| old(self).inv(&cfg) ==> final(self).inv(&cfg),
    {
        self.reset();
        if ok {
            reply1(250, EnhancedCode::Code(2, 0, 0), "OK")
        } else {
            reply1s(554, EnhancedCode::Code(5, 0, 0), errmsg)
        }
    }

    /// STARTTLS. Legal only on a cleartext connection of a server that
    /// has a TLS acceptor.
    pub fn handle_starttls(&self, cfg: &Config) -> (r: Action)
        ensures
            starttls_action_ok(self, cfg, &r),
    {
        if self.is_tls {
            return Action::Reply(reply1(502, EnhancedCode::Code(5, 5, 1), "Already in TLS mode"));
        }
        if !cfg.has_tls {
            return Action::Reply(reply1(502, EnhancedCode::Code(5, 5, 1), "TLS not supported"));
        }
        Action::BeginTls(reply1(220, EnhancedCode::Code(2, 0, 0), "Ready to start TLS"))
    }

    /// The handshake succeeded: the connection starts over on the new
    /// transport. The caller logs the old session out; nothing of the
    /// cleartext conversation survives, in particular `did_auth`.
    pub fn starttls_ok(&mut self)
        ensures
            final(self).is_tls,
            final(self).helo@ == Seq::<char>::empty(),
            !final(self).did_auth,
            !final(self).auth_in_progress,
            !final(self).session_active,
            final(self).mechanisms.len() == 0,
            final(self).transaction_clear(),
            final(self).err_count == old(self).err_count,
            forall|cfg: Config| final(self).inv(&cfg),
    {
        self.is_tls = true;
        self.helo = String::new();
        self.did_auth = false;
        self.auth_in_progress = false;
        self.session_active = false;
        self.mechanisms = Vec::new();
        self.reset();
    }

    /// The handshake failed.
    pub fn starttls_failed(&self) -> (r: Reply)
        ensures
            r.code == 550 && r.ec == EnhancedCode::Code(5, 0, 0),
            r.texts.deep_view() == seq!["Handshake error"@],
    {
        reply1(550, EnhancedCode::Code(5, 0, 0), "Handshake error")
    }

    /// The backend refused a session at HELO/EHLO.
    pub fn greet_failed(&self, errmsg: String) -> (r: Reply)
        ensures
            r.code == 451 && r.ec == EnhancedCode::Code(4, 0, 0),
            r.texts.deep_view() == seq![errmsg@],
    {
        reply1s(451, EnhancedCode::Code(4, 0, 0), errmsg)
    }
}

/// The mechanism names joined by spaces, each preceded by one.
pub open spec fn spaced(mechs: Seq<Seq<char>>) -> Seq<char>
    decreases mechs.len(),
{
    if mechs.len() == 0 {
        Seq::<char>::empty()
    } else {
        seq![' '] + mechs[0] + spaced(mechs.drop_first())
    }
}

/// The AUTH capability line: the word AUTH, then each mechanism name.
pub open spec fn auth_cap_line(mechs: Seq<Seq<char>>) -> Seq<char> {
    "AUTH"@ + spaced(mechs)
}

proof fn lemma_spaced_snoc(mechs: Seq<Seq<char>>, i: int)
    requires
        0 <= i < mechs.len(),
    ensures
        spaced(mechs.take(i + 1)) == spaced(mechs.take(i)) + (seq![' '] + mechs[i]),
    decreases i,
{
    let t = mechs.take(i + 1);
    if i == 0 {
        assert(t.drop_first() =~= Seq::<Seq<char>>::empty());
        assert(t[0] == mechs[0]);
        assert(spaced(mechs.take(0)) =~= Seq::<char>::empty());
        assert(spaced(t) == seq![' '] + mechs[0] + spaced(t.drop_first()));
        assert(seq![' '] + mechs[0] + Seq::<char>::empty() =~= seq![' '] + mechs[0]);
        assert(spaced(mechs.take(0)) + (seq![' '] + mechs[0]) =~= seq![' '] + mechs[0]);
    } else {
        let u = mechs.skip(1);
        lemma_spaced_snoc(u, i - 1);
        assert(t.drop_first() =~= u.take(i));
        assert(mechs.take(i).drop_first() =~= u.take(i - 1));
        assert(u[i - 1] == mechs[i]);
        assert(t[0] == mechs[0]);
        assert(mechs.take(i)[0] == mechs[0]);
        assert(spaced(t) == seq![' '] + mechs[0] + spaced(u.take(i)));
        assert(spaced(mechs.take(i)) == seq![' '] + mechs[0] + spaced(u.take(i - 1)));
        assert(spaced(t) =~= spaced(mechs.take(i)) + (seq![' '] + mechs[i]));
    }
}

/// The capability lines of an EHLO reply, after the greeting line:
/// the configured baseline, then STARTTLS when available and not yet
/// active, the AUTH line when a mechanism may be used, the optional
/// extensions, and the SIZE line with the cap when one is set.
pub open spec fn ehlo_lines(
    cfg: &Config,
    helo: Seq<char>,
    is_tls: bool,
    mechs: Seq<Seq<char>>,
) -> Seq<Seq<char>> {
    seq!["Hello "@ + helo] + cfg.caps.deep_view() + (if cfg.has_tls && !is_tls {
        seq!["STARTTLS"@]
    } else {
        Seq::<Seq<char>>::empty()
    }) + (if mechs.len() > 0 && (is_tls || cfg.allow_insecure_auth) {
        seq![auth_cap_line(mechs)]
    } else {
        Seq::<Seq<char>>::empty()
    }) + (if cfg.enable_smtputf8 {
        seq!["SMTPUTF8"@]
    } else {
        Seq::<Seq<char>>::empty()
    }) + (if cfg.enable_requiretls && is_tls {
        seq!["REQUIRETLS"@]
    } else {
        Seq::<Seq<char>>::empty()
    }) + (if cfg.enable_binarymime {
        seq!["BINARYMIME"@]
    } else {
        Seq::<Seq<char>>::empty()
    }) + seq![
        if cfg.max_message_bytes > 0 {
            "SIZE "@ + crate::text::dec_digits(cfg.max_message_bytes as int)
        } else {
            "SIZE"@
        },
    ]
}

/// Builds the EHLO capability lines for the given connection state.
#[verifier::rlimit(100)]
fn ehlo_texts(cfg: &Config, helo: &String, is_tls: bool, mechanisms: &Vec<String>) -> (texts: Vec<
    String,
>)
    ensures
        texts.deep_view() == ehlo_lines(cfg, helo@, is_tls, mechanisms.deep_view()),
        texts.len() >= 1,
{
    let ghost mechs = mechanisms.deep_view();
    let hello = String::from_str("Hello ").concat(helo.as_str());
    let mut texts: Vec<String> = Vec::new();
    texts.push(hello);
    let ghost step1 = seq!["Hello "@ + helo@];
    proof {
        assert(texts.deep_view() =~= step1);
    }
    let ncaps = cfg.caps.len();
    for i in 0..ncaps
        invariant
            ncaps == cfg.caps.len(),
            texts.deep_view() =~= step1 + cfg.caps.deep_view().take(i as int),
    {
        let ghost old_texts = texts.deep_view();
        texts.push(cfg.caps[i].clone());
        proof {
            assert(cfg.caps.deep_view()[i as int] == cfg.caps@[i as int]@);
            assert(texts.deep_view() =~= old_texts.push(cfg.caps.deep_view()[i as int]));
            assert(step1 + cfg.caps.deep_view().take(i + 1) =~= (step1
                + cfg.caps.deep_view().take(i as int)).push(cfg.caps.deep_view()[i as int]));
        }
    }
    let ghost step2 = step1 + cfg.caps.deep_view();
    proof {
        assert(cfg.caps.deep_view().take(ncaps as int) =~= cfg.caps.deep_view());
    }
    if cfg.has_tls && !is_tls {
        let ghost old_texts = texts.deep_view();
        texts.push(String::from_str("STARTTLS"));
        proof {
            assert(texts.deep_view() =~= old_texts.push("STARTTLS"@));
        }
    }
    let ghost step3 = step2 + (if cfg.has_tls && !is_tls {
        seq!["STARTTLS"@]
    } else {
        Seq::<Seq<char>>::empty()
    });
    proof {
        assert(texts.deep_view() =~= step3);
    }
    let auth_allowed = mechanisms.len() > 0 && (is_tls || cfg.allow_insecure_auth);
    if auth_allowed {
        let line = auth_text(mechanisms);
        let ghost old_texts = texts.deep_view();
        texts.push(line);
        proof {
            assert(texts.deep_view() =~= old_texts.push(auth_cap_line(mechs)));
        }
    }
    let ghost step4 = step3 + (if mechs.len() > 0 && (is_tls || cfg.allow_insecure_auth) {
        seq![auth_cap_line(mechs)]
    } else {
        Seq::<Seq<char>>::empty()
    });
    proof {
        assert(texts.deep_view() =~= step4);
    }
    if cfg.enable_smtputf8 {
        let ghost old_texts = texts.deep_view();
        texts.push(String::from_str("SMTPUTF8"));
        proof {
            assert(texts.deep_view() =~= old_texts.push("SMTPUTF8"@));
        }
    }
    let ghost step5 = step4 + (if cfg.enable_smtputf8 {
        seq!["SMTPUTF8"@]
    } else {
        Seq::<Seq<char>>::empty()
    });
    proof {
        assert(texts.deep_view() =~= step5);
    }
    if cfg.enable_requiretls && is_tls {
        let ghost old_texts = texts.deep_view();
        texts.push(String::from_str("REQUIRETLS"));
        proof {
            assert(texts.deep_view() =~= old_texts.push("REQUIRETLS"@));
        }
    }
    let ghost step6 = step5 + (if cfg.enable_requiretls && is_tls {
        seq!["REQUIRETLS"@]
    } else {
        Seq::<Seq<char>>::empty()
    });
    proof {
        assert(texts.deep_view() =~= step6);
    }
    if cfg.enable_binarymime {
        let ghost old_texts = texts.deep_view();
        texts.push(String::from_str("BINARYMIME"));
        proof {
            assert(texts.deep_view() =~= old_texts.push("BINARYMIME"@));
        }
    }
    let ghost step7 = step6 + (if cfg.enable_binarymime {
        seq!["BINARYMIME"@]
    } else {
        Seq::<Seq<char>>::empty()
    });
    proof {
        assert(texts.deep_view() =~= step7);
    }
    let ghost old_texts = texts.deep_view();
    if cfg.max_message_bytes > 0 {
        let line = String::from_str("SIZE ").concat(
            crate::text::dec_string(cfg.max_message_bytes).as_str(),
        );
        texts.push(line);
        proof {
            assert(texts.deep_view() =~= old_texts.push(
                "SIZE "@ + crate::text::dec_digits(cfg.max_message_bytes as int),
            ));
        }
    } else {
        texts.push(String::from_str("SIZE"));
        proof {
            assert(texts.deep_view() =~= old_texts.push("SIZE"@));
        }
    }
    proof {
        assert(texts.deep_view() =~= ehlo_lines(cfg, helo@, is_tls, mechs));
    }
    texts
}

/// Builds the AUTH capability line from the mechanism names.
fn auth_text(mechanisms: &Vec<String>) -> (line: String)
    ensures
        line@ == auth_cap_line(mechanisms.deep_view()),
{
    let ghost mechs = mechanisms.deep_view();
    let mut line = String::from_str("AUTH");
    let nm = mechanisms.len();
    proof {
        assert(spaced(mechs.take(0)) =~= Seq::<char>::empty());
        assert(line@ =~= "AUTH"@ + spaced(mechs.take(0)));
    }
    for i in 0..nm
        invariant
            nm == mechanisms.len(),
            mechs == mechanisms.deep_view(),
            line@ =~= "AUTH"@ + spaced(mechs.take(i as int)),
    {
        line.append(" ");
        line.append(mechanisms[i].as_str());
        proof {
            reveal_strlit(" ");
            assert(" "@ =~= seq![' ']);
            assert(mechs[i as int] == mechanisms@[i as int]@);
            lemma_spaced_snoc(mechs, i as int);
            assert(line@ =~= "AUTH"@ + spaced(mechs.take(i + 1)));
        }
    }
    proof {
        assert(mechs.take(nm as int) =~= mechs);
    }
    line
}

impl Conn {
    /// The backend produced a session: record it and the mechanisms it
    /// offers, and greet. A HELO greeting is one line; an EHLO greeting
    /// lists the capabilities.
    pub fn greet_ok(&mut self, cfg: &Config, enhanced: bool, mechanisms: Vec<String>) -> (r: Reply)
        ensures
            final(self).session_active,
            final(self).mechanisms == mechanisms,
            final(self).helo == old(self).helo,
            final(self).err_count == old(self).err_count,
            final(self).is_tls == old(self).is_tls,
            final(self).binarymime == old(self).binarymime,
            final(self).bdat_active == old(self).bdat_active,
            final(self).bytes_received == old(self).bytes_received,
            final(self).from_received == old(self).from_received,
            final(self).recipients == old(self).recipients,
            final(self).did_auth == old(self).did_auth,
            final(self).auth_in_progress == old(self).auth_in_progress,
            final(self).transferred == old(self).transferred,
            r.code == 250,
            !enhanced ==> r.ec == EnhancedCode::Code(2, 0, 0) && r.texts.deep_view() == seq![
                "Hello "@ + old(self).helo@,
            ],
            enhanced ==> r.ec == EnhancedCode::Omit && r.texts.deep_view() == ehlo_lines(
                cfg,
                old(self).helo@,
                old(self).is_tls,
                mechanisms.deep_view(),
            ),
            r.texts.len() >= 1,
            old(self).inv(cfg) && !old(self).from_received && !old(self).bdat_active
                ==> final(self).inv(cfg),
    {
        self.session_active = true;
        if !enhanced {
            let hello = String::from_str("Hello ").concat(self.helo.as_str());
            let r = reply1s(250, EnhancedCode::Code(2, 0, 0), hello);
            self.mechanisms = mechanisms;
            return r;
        }
        let texts = ehlo_texts(cfg, &self.helo, self.is_tls, &mechanisms);
        let r = Reply::new(250, EnhancedCode::Omit, texts);
        self.mechanisms = mechanisms;
        r
    }
}

/// What the engine asks after a line arrives during the SASL dialogue.
pub enum AuthResponse {
    /// The client cancelled: write the reply; the dialogue is over.
    Cancelled(Reply),
    /// Feed these bytes to the mechanism and report through
    /// `auth_step`.
    Respond(Vec<u8>),
    /// The line was not base64: write the reply; the dialogue is over.
    Bad(Reply),
}

/// Whether the upper-cased first word of `arg` is one of the offered
/// mechanism names.
pub open spec fn mech_offered(mechs: Seq<Seq<char>>, arg: Seq<char>) -> bool {
    exists|j: int|
        0 <= j < mechs.len() && mechs[j] == upper_seq(crate::text::split_ws_spec(arg)[0])
}

/// What AUTH decides and changes: the dialogue begins exactly after a
/// greeting, before any authentication, under the transport policy,
/// with an offered mechanism and a well-formed initial response; each
/// refusal carries its reply, and only the dialogue marker moves.
pub open spec fn auth_action_ok(
    pre: &Conn,
    post: &Conn,
    cfg: &Config,
    arg: Seq<char>,
    r: &Action,
) -> bool {
    let parts = crate::text::split_ws_spec(arg);
    &&& *post == (Conn { auth_in_progress: post.auth_in_progress, ..*pre })
    &&& post.auth_in_progress == (pre.auth_in_progress || r is AuthBegin)
    &&& (r is AuthBegin ==> pre.helo@.len() > 0 && !pre.did_auth && (pre.is_tls
        || cfg.allow_insecure_auth) && pre.mechanisms.len() > 0)
    &&& (pre.mechanisms.len() == 0 ==> is_reply(
        r,
        502,
        EnhancedCode::Code(5, 5, 1),
        "Authentication disabled"@,
    ))
    &&& (pre.mechanisms.len() > 0 && pre.helo@.len() == 0 ==> is_reply(
        r,
        502,
        EnhancedCode::Code(5, 5, 1),
        "Please introduce yourself first."@,
    ))
    &&& (pre.mechanisms.len() > 0 && pre.helo@.len() > 0 && pre.did_auth ==> is_reply(
        r,
        503,
        EnhancedCode::Code(5, 5, 1),
        "Already authenticated."@,
    ))
    &&& (pre.mechanisms.len() > 0 && pre.helo@.len() > 0 && !pre.did_auth && parts.len() == 0
        ==> is_reply(r, 502, EnhancedCode::Code(5, 5, 4), "Missing parameter"@))
    &&& (pre.mechanisms.len() > 0 && pre.helo@.len() > 0 && !pre.did_auth && parts.len() > 0
        && !(pre.is_tls || cfg.allow_insecure_auth) ==> is_reply(
        r,
        502,
        EnhancedCode::Code(5, 5, 1),
        "TLS is required"@,
    ))
    &&& (pre.mechanisms.len() > 0 && pre.helo@.len() > 0 && !pre.did_auth && parts.len() > 0 && (
    pre.is_tls || cfg.allow_insecure_auth) ==> {
        if parts.len() > 1 && crate::b64::b64_parse(parts[1]) is None {
            r is Silent
        } else if !mech_offered(pre.mechanisms.deep_view(), arg) {
            is_reply(r, 504, EnhancedCode::Code(5, 7, 4), "Unsupported authentication mechanism"@)
        } else {
            r matches Action::AuthBegin { mechanism, initial } && mechanism@ == upper_seq(
                parts[0],
            ) && (if parts.len() > 1 {
                crate::b64::b64_parse(parts[1]) == Some(initial@)
            } else {
                initial@ == Seq::<u8>::empty()
            })
        }
    })
}

impl Conn {
    /// AUTH. Legal after HELO/EHLO, once, and only over TLS unless
    /// insecure authentication is allowed; the named mechanism must be
    /// offered, and a present initial response must be base64.
    pub fn handle_auth(&mut self, cfg: &Config, arg: &String) -> (r: Action)
        ensures
            auth_action_ok(old(self), final(self), cfg, arg@, &r),
            old(self).inv(cfg) ==> final(self).inv(cfg),
    {
        if self.mechanisms.len() == 0 {
            return Action::Reply(reply1(502, EnhancedCode::Code(5, 5, 1), "Authentication disabled"));
        }
        if self.helo.as_str().unicode_len() == 0 {
            return Action::Reply(
                reply1(502, EnhancedCode::Code(5, 5, 1), "Please introduce yourself first."),
            );
        }
        if self.did_auth {
            return Action::Reply(reply1(503, EnhancedCode::Code(5, 5, 1), "Already authenticated."));
        }
        let parts = crate::text::split_ws(arg.as_str());
        if parts.len() == 0 {
            return Action::Reply(reply1(502, EnhancedCode::Code(5, 5, 4), "Missing parameter"));
        }
        if !self.is_tls && !cfg.allow_insecure_auth {
            return Action::Reply(reply1(502, EnhancedCode::Code(5, 5, 1), "TLS is required"));
        }
        proof {
            assert(parts.deep_view()[0] == parts@[0]@);
        }
        let mechanism = to_upper(parts[0].as_str());
        let initial: Vec<u8> = if parts.len() > 1 {
            proof {
                assert(parts.deep_view()[1] == parts@[1]@);
            }
            match crate::b64::b64_decode(parts[1].as_str()) {
                Some(v) => v,
                None => {
                    return Action::Silent;
                },
            }
        } else {
            Vec::new()
        };
        if !contains_str(&self.mechanisms, mechanism.as_str()) {
            return Action::Reply(
                reply1(504, EnhancedCode::Code(5, 7, 4), "Unsupported authentication mechanism"),
            );
        }
        self.auth_in_progress = true;
        Action::AuthBegin { mechanism, initial }
    }

    /// The mechanism took a step: a failure ends the dialogue, a
    /// finished step records the authentication, and an unfinished one
    /// sends the base64 challenge and waits for the next line.
    pub fn auth_step(&mut self, res: Result<(Vec<u8>, bool), crate::sasl::SaslError>) -> (r: Reply)
        requires
            old(self).auth_in_progress,
            !old(self).did_auth,
            ({
                res matches Ok(p) ==> p.0@.len() <= 0x1000_0000
            }),
        ensures
            *final(self) == (Conn {
                did_auth: final(self).did_auth,
                auth_in_progress: final(self).auth_in_progress,
                ..*old(self)
            }),
            final(self).did_auth == (res matches Ok(p) && p.1),
            final(self).auth_in_progress == (res matches Ok(p) && !p.1),
            res matches Err(e) ==> r.code == 454 && r.ec == EnhancedCode::Code(4, 7, 0)
                && r.texts.deep_view() == seq![e.message@],
            ({
                res matches Ok(p) ==> {
                    if p.1 {
                        r.code == 235 && r.ec == EnhancedCode::Code(2, 0, 0)
                            && r.texts.deep_view() == seq!["Authentication succeeded"@]
                    } else {
                        r.code == 334 && r.ec == EnhancedCode::Omit && r.texts.deep_view()
                            == seq![crate::b64::b64_of(p.0@)]
                    }
                }
            }),
            forall|cfg: Config| old(self).inv(&cfg) ==> final(self).inv(&cfg),
    {
        match res {
            Err(e) => {
                self.auth_in_progress = false;
                reply1s(454, EnhancedCode::Code(4, 7, 0), e.message)
            },
            Ok((challenge, done)) => {
                if done {
                    self.auth_in_progress = false;
                    self.did_auth = true;
                    reply1(235, EnhancedCode::Code(2, 0, 0), "Authentication succeeded")
                } else {
                    let encoded = crate::b64::b64_encode(&challenge);
                    reply1s(334, EnhancedCode::Omit, encoded)
                }
            },
        }
    }

    /// A line arrived while a mechanism waits: `*` cancels, anything
    /// else must be base64 and is fed back to the mechanism.
    pub fn auth_response(&mut self, line: &String) -> (r: AuthResponse)
        requires
            old(self).auth_in_progress,
        ensures
            *final(self) == (Conn {
                auth_in_progress: final(self).auth_in_progress,
                ..*old(self)
            }),
            final(self).auth_in_progress == (r is Respond),
            ({
                let t = crate::text::trim_end_spec(line@);
                &&& t == seq!['*'] ==> (r matches AuthResponse::Cancelled(rep) && rep.code == 501
                    && rep.ec == EnhancedCode::Code(5, 0, 0) && rep.texts.deep_view() == seq![
                    "Negotiation cancelled"@,
                ])
                &&& t != seq!['*'] && crate::b64::b64_parse(t) is None ==> (r matches
                    AuthResponse::Bad(rep) && rep.code == 454 && rep.ec == EnhancedCode::Code(
                    4,
                    7,
                    0,
                ) && rep.texts.deep_view() == seq!["Invalid base64 data"@])
                &&& t != seq!['*'] && crate::b64::b64_parse(t) is Some ==> (r matches
                    AuthResponse::Respond(v) && crate::b64::b64_parse(t) == Some(v@))
            }),
            forall|cfg: Config| old(self).inv(&cfg) ==> final(self).inv(&cfg),
    {
        let t = crate::text::trim_end(line.as_str());
        let star = str_eq(t.as_str(), "*");
        proof {
            reveal_strlit("*");
            assert("*"@ =~= seq!['*']);
        }
        if star {
            self.auth_in_progress = false;
            return AuthResponse::Cancelled(reply1(501, EnhancedCode::Code(5, 0, 0), "Negotiation cancelled"));
        }
        match crate::b64::b64_decode(t.as_str()) {
            Some(v) => AuthResponse::Respond(v),
            None => {
                self.auth_in_progress = false;
                AuthResponse::Bad(reply1(454, EnhancedCode::Code(4, 7, 0), "Invalid base64 data"))
            },
        }
    }
}

/// Whether the BDAT argument list ends in a well-formed LAST marker.
pub open spec fn bdat_last(args: Seq<Seq<char>>) -> bool {
    args.len() == 2 && lower_seq(args[1]) == seq!['l', 'a', 's', 't']
}

/// Whether the BDAT size token parses as a usize.
pub open spec fn bdat_size_ok(args: Seq<Seq<char>>) -> bool {
    1 <= args[0].len() && crate::text::all_digits(args[0]) && crate::text::dec_val(args[0])
        <= usize::MAX
}

/// What BDAT decides and changes: a well-formed chunk under the cap is
/// received (opening the transfer if needed), an oversized chunk is
/// discarded and clears the transaction, and everything else is a
/// refusal that changes nothing.
pub open spec fn bdat_action_ok(
    pre: &Conn,
    post: &Conn,
    cfg: &Config,
    arg: Seq<char>,
    r: &Action,
) -> bool {
    let args = crate::text::split_ws_spec(arg);
    &&& (args.len() == 0 ==> is_reply(
        r,
        501,
        EnhancedCode::Code(5, 5, 4),
        "Missing chunk size argument"@,
    ))
    &&& (args.len() > 2 ==> is_reply(r, 501, EnhancedCode::Code(5, 5, 4), "Too many arguments"@))
    &&& (1 <= args.len() <= 2 && !(pre.from_received && pre.recipients.len() > 0) ==> is_reply(
        r,
        502,
        EnhancedCode::Code(5, 5, 1),
        "Missing RCPT TO command."@,
    ))
    &&& (1 <= args.len() <= 2 && pre.from_received && pre.recipients.len() > 0 ==> {
        if args.len() == 2 && !bdat_last(args) {
            is_reply(r, 501, EnhancedCode::Code(5, 5, 4), "Unknown BDAT argument"@)
        } else if !bdat_size_ok(args) {
            is_reply(r, 501, EnhancedCode::Code(5, 5, 4), "Malformed size argument"@)
        } else if cfg.max_message_bytes != 0 && pre.bytes_received + crate::text::dec_val(
            args[0],
        ) > cfg.max_message_bytes {
            r matches Action::BdatDiscard { reply: rep, size } && rep.code == 552 && rep.ec
                == EnhancedCode::Code(5, 3, 4) && rep.texts.deep_view() == seq![
                "Max message size exceeded"@,
            ] && size == crate::text::dec_val(args[0])
        } else {
            r matches Action::BdatChunk { size, last, first } && size == crate::text::dec_val(
                args[0],
            ) && last == bdat_last(args) && first == !pre.bdat_active
        }
    })
    &&& (r is BdatDiscard ==> post.transaction_clear())
    &&& (r is BdatChunk ==> *post == (Conn { bdat_active: true, ..*pre }))
    &&& (!(r is BdatDiscard || r is BdatChunk) ==> *post == *pre)
    &&& post.helo == pre.helo
    &&& post.err_count == pre.err_count
    &&& post.did_auth == pre.did_auth
    &&& post.auth_in_progress == pre.auth_in_progress
    &&& post.session_active == pre.session_active
    &&& post.is_tls == pre.is_tls
}

impl Conn {
    /// BDAT. Legal only with at least one recipient; each chunk
    /// declares its size, and a chunk that would pass the message cap
    /// is refused and ends the transaction.
    pub fn handle_bdat(&mut self, cfg: &Config, arg: &String) -> (r: Action)
        ensures
            bdat_action_ok(old(self), final(self), cfg, arg@, &r),
            old(self).inv(cfg) ==> final(self).inv(cfg),
    {
        let args = crate::text::split_ws(arg.as_str());
        if args.len() == 0 {
            return Action::Reply(reply1(501, EnhancedCode::Code(5, 5, 4), "Missing chunk size argument"));
        }
        if args.len() > 2 {
            return Action::Reply(reply1(501, EnhancedCode::Code(5, 5, 4), "Too many arguments"));
        }
        if !self.from_received || self.recipients.len() == 0 {
            return Action::Reply(reply1(502, EnhancedCode::Code(5, 5, 1), "Missing RCPT TO command."));
        }
        let mut last = false;
        if args.len() == 2 {
            proof {
                assert(args.deep_view()[1] == args@[1]@);
            }
            let low = to_lower(args[1].as_str());
            let is_last = str_eq(low.as_str(), "last");
            proof {
                reveal_strlit("last");
                assert("last"@ =~= seq!['l', 'a', 's', 't']);
            }
            if !is_last {
                return Action::Reply(reply1(501, EnhancedCode::Code(5, 5, 4), "Unknown BDAT argument"));
            }
            last = true;
        }
        proof {
            assert(args.deep_view()[0] == args@[0]@);
        }
        let size = match crate::text::parse_dec(args[0].as_str()) {
            Some(v) => v,
            None => {
                return Action::Reply(reply1(501, EnhancedCode::Code(5, 5, 4), "Malformed size argument"));
            },
        };
        if cfg.max_message_bytes != 0 {
            let over = match self.bytes_received.checked_add(size) {
                Some(total) => total > cfg.max_message_bytes,
                None => true,
            };
            if over {
                self.reset();
                return Action::BdatDiscard {
                    reply: reply1(552, EnhancedCode::Code(5, 3, 4), "Max message size exceeded"),
                    size,
                };
            }
        }
        let first = !self.bdat_active;
        self.bdat_active = true;
        Action::BdatChunk { size, last, first }
    }

    /// The chunk's bytes were piped to the body consumer: account for
    /// them. A non-final chunk is acknowledged at once; after the last
    /// chunk the caller joins the consumer and calls `bdat_conclude`.
    pub fn bdat_chunk(&mut self, payload: &Vec<u8>, last: bool) -> (r: Option<Reply>)
        requires
            old(self).bdat_active,
        ensures
            final(self).transferred@ == old(self).transferred@ + payload@,
            final(self).bytes_received == (if old(self).bytes_received + payload@.len()
                <= usize::MAX {
                old(self).bytes_received + payload@.len()
            } else {
                usize::MAX as int
            }),
            *final(self) == (Conn {
                bytes_received: final(self).bytes_received,
                transferred: final(self).transferred,
                ..*old(self)
            }),
            r is Some <==> !last,
            r matches Some(rep) ==> rep.code == 250 && rep.ec == EnhancedCode::Code(2, 0, 0)
                && rep.texts.deep_view() == seq!["Continue"@],
            forall|cfg: Config| old(self).inv(&cfg) ==> final(self).inv(&cfg),
    {
        self.bytes_received = self.bytes_received.saturating_add(payload.len());
        self.transferred = Ghost(self.transferred@ + payload@);
        if last {
            None
        } else {
            Some(reply1(250, EnhancedCode::Code(2, 0, 0), "Continue"))
        }
    }

    /// The chunked transfer ended, by its last chunk or by a failure:
    /// report the verdict and clear the transaction. The caller also
    /// calls `session.reset()`.
    pub fn bdat_conclude(&mut self, ok: bool, errmsg: String) -> (r: Reply)
        ensures
            final(self).transaction_clear(),
            ok ==> r.code == 250 && r.ec == EnhancedCode::Code(2, 0, 0) && r.texts.deep_view()
                == seq!["OK"@],
            !ok ==> r.code == 554 && r.ec == EnhancedCode::Code(5, 0, 0) && r.texts.deep_view()
                == seq![errmsg@],
            final(self).helo == old(self).helo,
            final(self).err_count == old(self).err_count,
            final(self).session_active == old(self).session_active,
            final(self).is_tls == old(self).is_tls,
            final(self).mechanisms == old(self).mechanisms,
            final(self).did_auth == old(self).did_auth,
            final(self).auth_in_progress == old(self).auth_in_progress,
            forall|cfg: Config| old(self).inv(&cfg) ==> final(self).inv(&cfg),
    {
        self.reset();
        if ok {
            reply1(250, EnhancedCode::Code(2, 0, 0), "OK")
        } else {
            reply1s(554, EnhancedCode::Code(5, 0, 0), errmsg)
        }
    }
}

/// The MAIL options as the parameter evaluator accumulates them,
/// together with whether the transaction chose BINARYMIME.
pub struct MailOptsSpec {
    pub body: Seq<char>,
    pub size: int,
    pub require_tls: bool,
    pub utf8: bool,
    pub auth: Seq<char>,
    pub binarymime: bool,
}

/// The ways a MAIL parameter list is refused.
pub enum MailErr {
    SizeParse,
    SizeExceeds,
    UtfOff,
    TlsOff,
    BinaryOff,
    BodyUnknown,
    AuthMalformed,
    AuthNoOpen,
    AuthNoClose,
    UnknownKey,
}

/// The reply each refusal earns.
pub open spec fn mail_err_reply(e: MailErr) -> (u16, EnhancedCode) {
    match e {
        MailErr::SizeParse => (501, EnhancedCode::Code(5, 5, 4)),
        MailErr::SizeExceeds => (552, EnhancedCode::Code(5, 3, 4)),
        MailErr::UtfOff => (504, EnhancedCode::Code(5, 5, 4)),
        MailErr::TlsOff => (504, EnhancedCode::Code(5, 5, 4)),
        MailErr::BinaryOff => (501, EnhancedCode::Code(5, 5, 4)),
        MailErr::BodyUnknown => (500, EnhancedCode::Code(5, 5, 4)),
        MailErr::AuthMalformed => (500, EnhancedCode::Code(5, 5, 4)),
        MailErr::AuthNoOpen => (500, EnhancedCode::Code(5, 5, 4)),
        MailErr::AuthNoClose => (500, EnhancedCode::Code(5, 5, 4)),
        MailErr::UnknownKey => (500, EnhancedCode::Code(5, 5, 4)),
    }
}

/// The message each refusal earns.
pub open spec fn mail_err_text(e: MailErr) -> Seq<char> {
    match e {
        MailErr::SizeParse => "Unable to parse SIZE as an integer"@,
        MailErr::SizeExceeds => "Message size exceeds maximum message size"@,
        MailErr::UtfOff => "SMTPUTF8 is not implemented"@,
        MailErr::TlsOff => "REQUIRETLS is not implemented"@,
        MailErr::BinaryOff => "BINARYMIME is not implemented"@,
        MailErr::BodyUnknown => "Unknown BODY value"@,
        MailErr::AuthMalformed => "Malformed AUTH parameter value"@,
        MailErr::AuthNoOpen => "Missing opening angle bracket"@,
        MailErr::AuthNoClose => "Missing closing angle bracket"@,
        MailErr::UnknownKey => "Unknown MAIL FROM argument"@,
    }
}

pub open spec fn default_mail_opts() -> MailOptsSpec {
    MailOptsSpec {
        body: seq!['7', 'B', 'I', 'T'],
        size: 0,
        require_tls: false,
        utf8: false,
        auth: Seq::<char>::empty(),
        binarymime: false,
    }
}

/// How the ESMTP parameters of a MAIL command are evaluated, pair by
/// pair: SIZE must parse and stay under the cap, SMTPUTF8 and
/// REQUIRETLS and BODY=BINARYMIME need their feature switched on, a
/// BODY value must be known, an AUTH value must be xtext wrapped in
/// angle brackets, and any other key is refused.
pub open spec fn eval_mail_params(
    cfg: &Config,
    pairs: Seq<(Seq<char>, Seq<char>)>,
    opts: MailOptsSpec,
) -> Result<MailOptsSpec, MailErr>
    decreases pairs.len(),
{
    if pairs.len() == 0 {
        Ok(opts)
    } else {
        let k = pairs[0].0;
        let v = pairs[0].1;
        let rest = pairs.drop_first();
        if k == seq!['S', 'I', 'Z', 'E'] {
            if !(1 <= v.len() && crate::text::all_digits(v) && crate::text::dec_val(v)
                <= usize::MAX) {
                Err(MailErr::SizeParse)
            } else if cfg.max_message_bytes > 0 && crate::text::dec_val(v)
                > cfg.max_message_bytes {
                Err(MailErr::SizeExceeds)
            } else {
                eval_mail_params(
                    cfg,
                    rest,
                    MailOptsSpec { size: crate::text::dec_val(v), ..opts },
                )
            }
        } else if k == seq!['S', 'M', 'T', 'P', 'U', 'T', 'F', '8'] {
            if !cfg.enable_smtputf8 {
                Err(MailErr::UtfOff)
            } else {
                eval_mail_params(cfg, rest, MailOptsSpec { utf8: true, ..opts })
            }
        } else if k == seq!['R', 'E', 'Q', 'U', 'I', 'R', 'E', 'T', 'L', 'S'] {
            if !cfg.enable_requiretls {
                Err(MailErr::TlsOff)
            } else {
                eval_mail_params(cfg, rest, MailOptsSpec { require_tls: true, ..opts })
            }
        } else if k == seq!['B', 'O', 'D', 'Y'] {
            if v == seq!['B', 'I', 'N', 'A', 'R', 'Y', 'M', 'I', 'M', 'E'] {
                if !cfg.enable_binarymime {
                    Err(MailErr::BinaryOff)
                } else {
                    eval_mail_params(cfg, rest, MailOptsSpec { body: v, binarymime: true, ..opts })
                }
            } else if v == seq!['7', 'B', 'I', 'T'] || v == seq![
                '8',
                'B',
                'I',
                'T',
                'M',
                'I',
                'M',
                'E',
            ] {
                eval_mail_params(cfg, rest, MailOptsSpec { body: v, binarymime: false, ..opts })
            } else {
                Err(MailErr::BodyUnknown)
            }
        } else if k == seq!['A', 'U', 'T', 'H'] {
            match crate::xtext::xtext_decode_spec(v) {
                Option::None => Err(MailErr::AuthMalformed),
                Option::Some(d) => {
                    if !(d.len() >= 1 && d[0] == '<') {
                        Err(MailErr::AuthNoOpen)
                    } else if d.last() != '>' {
                        Err(MailErr::AuthNoClose)
                    } else {
                        eval_mail_params(
                            cfg,
                            rest,
                            MailOptsSpec { auth: d.subrange(1, d.len() - 1), ..opts },
                        )
                    }
                },
            }
        } else {
            Err(MailErr::UnknownKey)
        }
    }
}

/// The MAIL argument starts with `FROM:` in any case and is long
/// enough to hold an address.
pub open spec fn mail_prefix_ok(arg: Seq<char>) -> bool {
    arg.len() >= 6 && upper_seq(arg.take(5)) == seq!['F', 'R', 'O', 'M', ':']
}

/// The whitespace-trimmed tail after `FROM:`, split at single spaces:
/// the address token first, then the parameter tokens.
pub open spec fn mail_tokens(arg: Seq<char>) -> Seq<Seq<char>> {
    crate::text::split_spec(trim_spec(arg.skip(5)), ' ')
}

/// What MAIL decides. The state it reads is the greeting, the open
/// transfer, and the presence of a session.
pub enum MailOutcome {
    Rep { code: u16, ec: EnhancedCode, text: Seq<char> },
    Proceed { from: Seq<char>, opts: MailOptsSpec },
}

pub open spec fn spec_handle_mail(
    cfg: &Config,
    helo: Seq<char>,
    bdat_active: bool,
    session_active: bool,
    arg: Seq<char>,
) -> MailOutcome {
    if helo.len() == 0 {
        MailOutcome::Rep {
            code: 502,
            ec: EnhancedCode::Code(2, 5, 1),
            text: "Please introduce yourself first."@,
        }
    } else if bdat_active {
        MailOutcome::Rep {
            code: 502,
            ec: EnhancedCode::Code(5, 5, 1),
            text: "MAIL not allowed during message transfer"@,
        }
    } else if !mail_prefix_ok(arg) {
        MailOutcome::Rep {
            code: 501,
            ec: EnhancedCode::Code(5, 5, 2),
            text: "Was expecting MAIL arg syntax of FROM:<address>"@,
        }
    } else {
        let toks = mail_tokens(arg);
        let t0 = toks[0];
        if cfg.strict && !(t0.len() > 0 && t0[0] == '<' && t0.last() == '>') {
            MailOutcome::Rep {
                code: 501,
                ec: EnhancedCode::Code(5, 5, 2),
                text: "Was expecting MAIL arg syntax of FROM:<address>"@,
            }
        } else if t0.len() < 3 {
            MailOutcome::Rep {
                code: 501,
                ec: EnhancedCode::Code(5, 5, 2),
                text: "Was expecting MAIL arg syntax of FROM:<address>"@,
            }
        } else {
            match eval_mail_params(
                cfg,
                crate::parse::spec_parse_args(toks.drop_first()),
                default_mail_opts(),
            ) {
                Err(e) => MailOutcome::Rep {
                    code: mail_err_reply(e).0,
                    ec: mail_err_reply(e).1,
                    text: mail_err_text(e),
                },
                Ok(opts) => {
                    if !session_active {
                        MailOutcome::Rep {
                            code: 502,
                            ec: EnhancedCode::Code(5, 5, 1),
                            text: "Wrong sequence of commands"@,
                        }
                    } else {
                        MailOutcome::Proceed { from: t0.subrange(1, t0.len() - 1), opts }
                    }
                },
            }
        }
    }
}

/// Whether the command got far enough to start a fresh transaction's
/// option parsing, which is the point where `binarymime` is chosen
/// anew.
pub open spec fn mail_reaches_params(cfg: &Config, helo: Seq<char>, bdat_active: bool, arg: Seq<char>) -> bool {
    helo.len() > 0 && !bdat_active && mail_prefix_ok(arg) && {
        let t0 = mail_tokens(arg)[0];
        &&& (cfg.strict ==> t0.len() > 0 && t0[0] == '<' && t0.last() == '>')
        &&& t0.len() >= 3
    }
}

/// Whether the executable options agree with the evaluated ones.
pub open spec fn opts_match(o: &MailOptions, s: MailOptsSpec) -> bool {
    &&& o.body@ == s.body
    &&& o.size == s.size
    &&& o.require_tls == s.require_tls
    &&& o.utf8 == s.utf8
    &&& o.auth@ == s.auth
}

/// Evaluates the parsed key/value pairs into mail options, mirroring
/// `eval_mail_params`; the second component of a success is the
/// BINARYMIME choice.
#[verifier::rlimit(100)]
fn apply_mail_params(cfg: &Config, pairs: &Vec<(String, String)>) -> (r: Result<
    (MailOptions, bool),
    (u16, EnhancedCode, String),
>)
    ensures
        ({
            let out = eval_mail_params(
                cfg,
                crate::parse::pairs_view(pairs@),
                default_mail_opts(),
            );
            match out {
                Ok(o) => r matches Ok(p) && opts_match(&p.0, o) && p.1 == o.binarymime,
                Err(e) => r matches Err(c) && (c.0, c.1) == mail_err_reply(e) && c.2@
                    == mail_err_text(e),
            }
        }),
{
    let ghost pairs_view = crate::parse::pairs_view(pairs@);
    let mut opts = MailOptions::new();
    let mut binarymime = false;
    let ghost opts0 = default_mail_opts();
    let n = pairs.len();
    proof {
        reveal_strlit("7BIT");
        assert("7BIT"@ =~= seq!['7', 'B', 'I', 'T']);
        assert(pairs_view.skip(0) =~= pairs_view);
    }
    for i in 0..n
        invariant
            n == pairs.len(),
            pairs_view == crate::parse::pairs_view(pairs@),
            opts0 == default_mail_opts(),
            opts_match(&opts, spec_cur(&opts, binarymime)),
            eval_mail_params(cfg, pairs_view, opts0) == eval_mail_params(
                cfg,
                pairs_view.skip(i as int),
                spec_cur(&opts, binarymime),
            ),
    {
        let ghost cur = spec_cur(&opts, binarymime);
        let ghost rest = pairs_view.skip(i as int);
        proof {
            assert(rest[0] == pairs_view[i as int]);
            assert(pairs_view[i as int] == (pairs@[i as int].0@, pairs@[i as int].1@));
            assert(rest.drop_first() =~= pairs_view.skip(i + 1));
            reveal_strlit("SIZE");
            reveal_strlit("SMTPUTF8");
            reveal_strlit("REQUIRETLS");
            reveal_strlit("BODY");
            reveal_strlit("AUTH");
            reveal_strlit("BINARYMIME");
            reveal_strlit("7BIT");
            reveal_strlit("8BITMIME");
            assert("SIZE"@ =~= seq!['S', 'I', 'Z', 'E']);
            assert("SMTPUTF8"@ =~= seq!['S', 'M', 'T', 'P', 'U', 'T', 'F', '8']);
            assert("REQUIRETLS"@ =~= seq!['R', 'E', 'Q', 'U', 'I', 'R', 'E', 'T', 'L', 'S']);
            assert("BODY"@ =~= seq!['B', 'O', 'D', 'Y']);
            assert("AUTH"@ =~= seq!['A', 'U', 'T', 'H']);
            assert("BINARYMIME"@ =~= seq!['B', 'I', 'N', 'A', 'R', 'Y', 'M', 'I', 'M', 'E']);
            assert("7BIT"@ =~= seq!['7', 'B', 'I', 'T']);
            assert("8BITMIME"@ =~= seq!['8', 'B', 'I', 'T', 'M', 'I', 'M', 'E']);
        }
        let key = &pairs[i].0;
        let value = &pairs[i].1;
        if str_eq(key.as_str(), "SIZE") {
            match crate::text::parse_dec(value.as_str()) {
                Option::None => {
                    proof {
                        assert(eval_mail_params(cfg, rest, cur) == Err::<MailOptsSpec, MailErr>(
                            MailErr::SizeParse,
                        ));
                    }
                    return Err((
                        501,
                        EnhancedCode::Code(5, 5, 4),
                        String::from_str("Unable to parse SIZE as an integer"),
                    ));
                },
                Option::Some(size) => {
                    if cfg.max_message_bytes > 0 && size > cfg.max_message_bytes {
                        proof {
                            assert(eval_mail_params(cfg, rest, cur) == Err::<
                                MailOptsSpec,
                                MailErr,
                            >(MailErr::SizeExceeds));
                        }
                        return Err((
                            552,
                            EnhancedCode::Code(5, 3, 4),
                            String::from_str("Message size exceeds maximum message size"),
                        ));
                    }
                    opts.size = size;
                    proof {
                        assert(spec_cur(&opts, binarymime) == (MailOptsSpec {
                            size: crate::text::dec_val(value@),
                            ..cur
                        }));
                        assert(eval_mail_params(cfg, rest, cur) == eval_mail_params(
                            cfg,
                            pairs_view.skip(i + 1),
                            spec_cur(&opts, binarymime),
                        ));
                    }
                },
            }
        } else if str_eq(key.as_str(), "SMTPUTF8") {
            if !cfg.enable_smtputf8 {
                proof {
                    assert(eval_mail_params(cfg, rest, cur) == Err::<MailOptsSpec, MailErr>(
                        MailErr::UtfOff,
                    ));
                }
                return Err((
                    504,
                    EnhancedCode::Code(5, 5, 4),
                    String::from_str("SMTPUTF8 is not implemented"),
                ));
            }
            opts.utf8 = true;
            proof {
                assert(spec_cur(&opts, binarymime) == (MailOptsSpec { utf8: true, ..cur }));
                assert(eval_mail_params(cfg, rest, cur) == eval_mail_params(
                    cfg,
                    pairs_view.skip(i + 1),
                    spec_cur(&opts, binarymime),
                ));
            }
        } else if str_eq(key.as_str(), "REQUIRETLS") {
            if !cfg.enable_requiretls {
                proof {
                    assert(eval_mail_params(cfg, rest, cur) == Err::<MailOptsSpec, MailErr>(
                        MailErr::TlsOff,
                    ));
                }
                return Err((
                    504,
                    EnhancedCode::Code(5, 5, 4),
                    String::from_str("REQUIRETLS is not implemented"),
                ));
            }
            opts.require_tls = true;
            proof {
                assert(spec_cur(&opts, binarymime) == (MailOptsSpec { require_tls: true, ..cur }));
                assert(eval_mail_params(cfg, rest, cur) == eval_mail_params(
                    cfg,
                    pairs_view.skip(i + 1),
                    spec_cur(&opts, binarymime),
                ));
            }
        } else if str_eq(key.as_str(), "BODY") {
            if str_eq(value.as_str(), "BINARYMIME") {
                if !cfg.enable_binarymime {
                    proof {
                        assert(eval_mail_params(cfg, rest, cur) == Err::<MailOptsSpec, MailErr>(
                            MailErr::BinaryOff,
                        ));
                    }
                    return Err((
                        501,
                        EnhancedCode::Code(5, 5, 4),
                        String::from_str("BINARYMIME is not implemented"),
                    ));
                }
                opts.body = value.clone();
                binarymime = true;
                proof {
                    assert(spec_cur(&opts, binarymime) == (MailOptsSpec {
                        body: value@,
                        binarymime: true,
                        ..cur
                    }));
                    assert(eval_mail_params(cfg, rest, cur) == eval_mail_params(
                        cfg,
                        pairs_view.skip(i + 1),
                        spec_cur(&opts, binarymime),
                    ));
                }
            } else if str_eq(value.as_str(), "7BIT") || str_eq(value.as_str(), "8BITMIME") {
                opts.body = value.clone();
                binarymime = false;
                proof {
                    assert(spec_cur(&opts, binarymime) == (MailOptsSpec {
                        body: value@,
                        binarymime: false,
                        ..cur
                    }));
                    assert(eval_mail_params(cfg, rest, cur) == eval_mail_params(
                        cfg,
                        pairs_view.skip(i + 1),
                        spec_cur(&opts, binarymime),
                    ));
                }
            } else {
                proof {
                    assert(eval_mail_params(cfg, rest, cur) == Err::<MailOptsSpec, MailErr>(
                        MailErr::BodyUnknown,
                    ));
                }
                return Err((
                    500,
                    EnhancedCode::Code(5, 5, 4),
                    String::from_str("Unknown BODY value"),
                ));
            }
        } else if str_eq(key.as_str(), "AUTH") {
            match crate::xtext::decode_xtext(value.as_str()) {
                Option::None => {
                    proof {
                        assert(eval_mail_params(cfg, rest, cur) == Err::<MailOptsSpec, MailErr>(
                            MailErr::AuthMalformed,
                        ));
                    }
                    return Err((
                        500,
                        EnhancedCode::Code(5, 5, 4),
                        String::from_str("Malformed AUTH parameter value"),
                    ));
                },
                Option::Some(d) => {
                    let dn = d.as_str().unicode_len();
                    if dn == 0 || d.as_str().get_char(0) != '<' {
                        proof {
                            assert(eval_mail_params(cfg, rest, cur) == Err::<
                                MailOptsSpec,
                                MailErr,
                            >(MailErr::AuthNoOpen));
                        }
                        return Err((
                            500,
                            EnhancedCode::Code(5, 5, 4),
                            String::from_str("Missing opening angle bracket"),
                        ));
                    }
                    if d.as_str().get_char(dn - 1) != '>' {
                        proof {
                            assert(eval_mail_params(cfg, rest, cur) == Err::<
                                MailOptsSpec,
                                MailErr,
                            >(MailErr::AuthNoClose));
                        }
                        return Err((
                            500,
                            EnhancedCode::Code(5, 5, 4),
                            String::from_str("Missing closing angle bracket"),
                        ));
                    }
                    let inner = d.as_str().substring_char(1, dn - 1);
                    opts.auth = inner.to_owned();
                    proof {
                        assert(inner@ =~= d@.subrange(1, d@.len() - 1));
                        assert(spec_cur(&opts, binarymime) == (MailOptsSpec {
                            auth: d@.subrange(1, d@.len() - 1),
                            ..cur
                        }));
                        assert(eval_mail_params(cfg, rest, cur) == eval_mail_params(
                            cfg,
                            pairs_view.skip(i + 1),
                            spec_cur(&opts, binarymime),
                        ));
                    }
                },
            }
        } else {
            proof {
                assert(eval_mail_params(cfg, rest, cur) == Err::<MailOptsSpec, MailErr>(
                    MailErr::UnknownKey,
                ));
            }
            return Err((
                500,
                EnhancedCode::Code(5, 5, 4),
                String::from_str("Unknown MAIL FROM argument"),
            ));
        }
    }
    proof {
        assert(pairs_view.skip(n as int) =~= Seq::<(Seq<char>, Seq<char>)>::empty());
    }
    Ok((opts, binarymime))
}

/// The evaluator state that a partly filled `MailOptions` denotes.
pub open spec fn spec_cur(o: &MailOptions, binarymime: bool) -> MailOptsSpec {
    MailOptsSpec {
        body: o.body@,
        size: o.size as int,
        require_tls: o.require_tls,
        utf8: o.utf8,
        auth: o.auth@,
        binarymime,
    }
}

/// What MAIL decides and changes: the action matches the outcome of
/// `spec_handle_mail`, nothing but the BINARYMIME choice moves, and
/// that choice is made anew exactly when option parsing was reached.
pub open spec fn mail_step_ok(
    pre: &Conn,
    post: &Conn,
    cfg: &Config,
    arg: Seq<char>,
    r: &Action,
) -> bool {
    &&& (match spec_handle_mail(cfg, pre.helo@, pre.bdat_active, pre.session_active, arg) {
        MailOutcome::Rep { code, ec, text } => r matches Action::Reply(rep) && rep.code == code
            && rep.ec == ec && rep.texts.deep_view() == seq![text],
        MailOutcome::Proceed { from, opts } => r matches Action::Mail { from: f, opts: o } && f@
            == from && opts_match(&o, opts),
    })
    &&& *post == (Conn { binarymime: post.binarymime, ..*pre })
    &&& (mail_reaches_params(cfg, pre.helo@, pre.bdat_active, arg) ==> post.binarymime == (
    spec_handle_mail(
        cfg,
        pre.helo@,
        pre.bdat_active,
        pre.session_active,
        arg,
    ) matches MailOutcome::Proceed { opts, .. } && opts.binarymime))
    &&& (!mail_reaches_params(cfg, pre.helo@, pre.bdat_active, arg) ==> post.binarymime
        == pre.binarymime)
}

impl Conn {
    /// MAIL FROM. Legal after HELO/EHLO and outside a chunked
    /// transfer; the address token is unwrapped, the ESMTP parameters
    /// are evaluated, and the accepted sender is handed to the session.
    /// The transaction's BINARYMIME choice is made anew here.
    pub fn handle_mail(&mut self, cfg: &Config, arg: &String) -> (r: Action)
        ensures
            mail_step_ok(old(self), final(self), cfg, arg@, &r),
            old(self).inv(cfg) ==> final(self).inv(cfg),
    {
        if self.helo.as_str().unicode_len() == 0 {
            return Action::Reply(
                reply1(502, EnhancedCode::Code(2, 5, 1), "Please introduce yourself first."),
            );
        }
        if self.bdat_active {
            return Action::Reply(
                reply1(502, EnhancedCode::Code(5, 5, 1), "MAIL not allowed during message transfer"),
            );
        }
        let an = arg.as_str().unicode_len();
        let prefix_ok = if an >= 6 {
            let p = eq_ignore_case_range(arg.as_str(), 0, 5, "FROM:");
            proof {
                reveal_strlit("FROM:");
                assert("FROM:"@ =~= seq!['F', 'R', 'O', 'M', ':']);
                assert(arg@.subrange(0, 5) =~= arg@.take(5));
            }
            p
        } else {
            false
        };
        if !prefix_ok {
            return Action::Reply(
                reply1(501, EnhancedCode::Code(5, 5, 2), "Was expecting MAIL arg syntax of FROM:<address>"),
            );
        }
        let tail = arg.as_str().substring_char(5, an);
        proof {
            assert(tail@ =~= arg@.skip(5));
        }
        let trimmed = trim(tail);
        let from_args = crate::text::split_char(trimmed.as_str(), ' ');
        proof {
            assert(from_args.deep_view() == mail_tokens(arg@));
            assert(from_args.deep_view().len() >= 1);
            assert(from_args.deep_view()[0] == from_args@[0]@);
        }
        let t0 = &from_args[0];
        let t0n = t0.as_str().unicode_len();
        if cfg.strict {
            let wrapped = t0n > 0 && t0.as_str().get_char(0) == '<' && t0.as_str().get_char(
                t0n - 1,
            ) == '>';
            if !wrapped {
                return Action::Reply(
                    reply1(501, EnhancedCode::Code(5, 5, 2), "Was expecting MAIL arg syntax of FROM:<address>"),
                );
            }
        }
        if t0n < 3 {
            return Action::Reply(
                reply1(501, EnhancedCode::Code(5, 5, 2), "Was expecting MAIL arg syntax of FROM:<address>"),
            );
        }
        self.binarymime = false;
        let from = t0.as_str().substring_char(1, t0n - 1).to_owned();
        let mut rest: Vec<(String, String)>;
        let mut params: Vec<String> = Vec::new();
        let m = from_args.len();
        let mut j: usize = 1;
        while j < m
            invariant
                1 <= j <= m,
                m == from_args.len(),
                params.deep_view() =~= from_args.deep_view().subrange(1, j as int),
            decreases m - j,
        {
            let ghost old_params = params.deep_view();
            params.push(from_args[j].clone());
            proof {
                assert(from_args.deep_view()[j as int] == from_args@[j as int]@);
                assert(params.deep_view() =~= old_params.push(from_args.deep_view()[j as int]));
                assert(old_params.push(from_args.deep_view()[j as int]) =~= from_args.deep_view()
                    .subrange(1, j + 1));
            }
            j = j + 1;
        }
        proof {
            assert(from_args.deep_view().subrange(1, m as int) =~= from_args.deep_view()
                .drop_first());
        }
        let pairs = crate::parse::parse_args(&params);
        match apply_mail_params(cfg, &pairs) {
            Err((code, ec, msg)) => {
                return Action::Reply(reply1s(code, ec, msg));
            },
            Ok((opts, binarymime)) => {
                if !self.session_active {
                    return Action::Reply(
                        reply1(502, EnhancedCode::Code(5, 5, 1), "Wrong sequence of commands"),
                    );
                }
                self.binarymime = binarymime;
                proof {
                    assert(from@ =~= from_args.deep_view()[0].subrange(
                        1,
                        from_args.deep_view()[0].len() - 1,
                    ));
                }
                Action::Mail { from, opts }
            },
        }
    }

    /// The session accepted the sender: the transaction is open.
    pub fn mail_ok(&mut self) -> (r: Reply)
        requires
            old(self).session_active,
        ensures
            final(self).from_received,
            *final(self) == (Conn { from_received: true, ..*old(self) }),
            r.code == 250 && r.ec == EnhancedCode::Code(2, 0, 0) && r.texts.deep_view() == seq![
                "OK"@,
            ],
            forall|cfg: Config| old(self).inv(&cfg) ==> final(self).inv(&cfg),
    {
        self.from_received = true;
        reply1(250, EnhancedCode::Code(2, 0, 0), "OK")
    }

    /// The session refused the sender.
    pub fn mail_failed(&self, errmsg: String) -> (r: Reply)
        ensures
            r.code == 451 && r.ec == EnhancedCode::Code(4, 0, 0),
            r.texts.deep_view() == seq![errmsg@],
    {
        reply1s(451, EnhancedCode::Code(4, 0, 0), errmsg)
    }
}

/// The verbs the dispatcher recognizes, upper-cased.
pub open spec fn known_verb(u: Seq<char>) -> bool {
    ||| u == seq!['S', 'E', 'N', 'D']
    ||| u == seq!['S', 'O', 'M', 'L']
    ||| u == seq!['S', 'A', 'M', 'L']
    ||| u == seq!['E', 'X', 'P', 'N']
    ||| u == seq!['H', 'E', 'L', 'P']
    ||| u == seq!['T', 'U', 'R', 'N']
    ||| u == seq!['H', 'E', 'L', 'O']
    ||| u == seq!['E', 'H', 'L', 'O']
    ||| u == seq!['M', 'A', 'I', 'L']
    ||| u == seq!['R', 'C', 'P', 'T']
    ||| u == seq!['V', 'R', 'F', 'Y']
    ||| u == seq!['N', 'O', 'O', 'P']
    ||| u == seq!['R', 'S', 'E', 'T']
    ||| u == seq!['B', 'D', 'A', 'T']
    ||| u == seq!['D', 'A', 'T', 'A']
    ||| u == seq!['Q', 'U', 'I', 'T']
    ||| u == seq!['A', 'U', 'T', 'H']
    ||| u == seq!['S', 'T', 'A', 'R', 'T', 'T', 'L', 'S']
}

/// Whether one dispatched line counts as a protocol error: an empty
/// verb, an unrecognized verb, or AUTH when none is offered.
pub open spec fn counts_as_error(c: &Conn, cmd: Seq<char>) -> bool {
    ||| cmd.len() == 0
    ||| !known_verb(upper_seq(cmd))
    ||| (upper_seq(cmd) == seq!['A', 'U', 'T', 'H'] && c.mechanisms.len() == 0)
}

/// The dispatches that are answered on the spot: they touch nothing of
/// the connection state but, possibly, the error counter.
pub open spec fn reply_only_cmd(c: &Conn, cmd: Seq<char>) -> bool {
    ||| counts_as_error(c, cmd)
    ||| upper_seq(cmd) == seq!['Q', 'U', 'I', 'T']
    ||| upper_seq(cmd) == seq!['N', 'O', 'O', 'P']
    ||| upper_seq(cmd) == seq!['V', 'R', 'F', 'Y']
    ||| upper_seq(cmd) == seq!['S', 'E', 'N', 'D']
    ||| upper_seq(cmd) == seq!['S', 'O', 'M', 'L']
    ||| upper_seq(cmd) == seq!['S', 'A', 'M', 'L']
    ||| upper_seq(cmd) == seq!['E', 'X', 'P', 'N']
    ||| upper_seq(cmd) == seq!['H', 'E', 'L', 'P']
    ||| upper_seq(cmd) == seq!['T', 'U', 'R', 'N']
}

/// The fields a transaction reset leaves alone.
pub open spec fn same_outside_transaction(pre: &Conn, post: &Conn) -> bool {
    &&& post.helo == pre.helo
    &&& post.err_count == pre.err_count
    &&& post.session_active == pre.session_active
    &&& post.is_tls == pre.is_tls
    &&& post.mechanisms == pre.mechanisms
    &&& post.did_auth == pre.did_auth
    &&& post.auth_in_progress == pre.auth_in_progress
}

impl Conn {
    /// Replies to a protocol error and counts it.
    pub fn protocol_error(&mut self, code: u16, ec: EnhancedCode, msg: String) -> (r: Reply)
        ensures
            r.code == code,
            r.ec == ec,
            r.texts.deep_view() == seq![msg@],
            final(self).err_count == (if old(self).err_count < usize::MAX {
                old(self).err_count + 1
            } else {
                usize::MAX as int
            }),
            *final(self) == (Conn { err_count: final(self).err_count, ..*old(self) }),
            forall|cfg: Config| old(self).inv(&cfg) ==> final(self).inv(&cfg),
    {
        self.err_count = self.err_count.saturating_add(1);
        reply1s(code, ec, msg)
    }

    /// Dispatches one parsed command line. The returned action is the
    /// only way the engine ever asks for a session call: `Mail` only
    /// for a MAIL command, `Rcpt` only for RCPT inside a transaction,
    /// and so on. An RCPT before a successful MAIL is refused.
    pub fn handle(&mut self, cfg: &Config, cmd: &String, arg: &String) -> (r: Action)
        ensures
            r is Mail ==> upper_seq(cmd@) == seq!['M', 'A', 'I', 'L'],
            r is Rcpt ==> upper_seq(cmd@) == seq!['R', 'C', 'P', 'T'] && old(self).from_received
                && !old(self).bdat_active && old(self).session_active,
            upper_seq(cmd@) == seq!['R', 'C', 'P', 'T'] && !old(self).from_received ==> is_reply(
                &r,
                502,
                EnhancedCode::Code(5, 5, 1),
                "Missing MAIL FROM command"@,
            ),
            r is BeginData ==> upper_seq(cmd@) == seq!['D', 'A', 'T', 'A']
                && old(self).from_received && old(self).recipients.len() > 0
                && !old(self).binarymime && !old(self).bdat_active,
            r is BdatChunk ==> upper_seq(cmd@) == seq!['B', 'D', 'A', 'T']
                && old(self).from_received && old(self).recipients.len() > 0,
            r is BeginTls ==> upper_seq(cmd@) == seq!['S', 'T', 'A', 'R', 'T', 'T', 'L', 'S']
                && !old(self).is_tls && cfg.has_tls,
            r is AuthBegin ==> upper_seq(cmd@) == seq!['A', 'U', 'T', 'H'] && !old(self).did_auth
                && (old(self).is_tls || cfg.allow_insecure_auth) && old(self).helo@.len() > 0,
            r is NewSession ==> (upper_seq(cmd@) == seq!['H', 'E', 'L', 'O'] || upper_seq(cmd@)
                == seq!['E', 'H', 'L', 'O']) && final(self).helo@ == arg@,
            r matches Action::NewSession { enhanced } ==> enhanced == (upper_seq(cmd@) == seq![
                'E',
                'H',
                'L',
                'O',
            ]),
            r is Quit ==> upper_seq(cmd@) == seq!['Q', 'U', 'I', 'T'],
            r is ResetSession ==> upper_seq(cmd@) == seq!['R', 'S', 'E', 'T']
                && final(self).transaction_clear(),
            r is Silent ==> upper_seq(cmd@) == seq!['A', 'U', 'T', 'H'],
            cmd@.len() == 0 ==> is_reply(&r, 500, EnhancedCode::Code(5, 5, 2), "Error: bad syntax"@),
            cmd@.len() > 0 && !known_verb(upper_seq(cmd@)) ==> is_reply(
                &r,
                500,
                EnhancedCode::Code(5, 5, 2),
                "Syntax errors, "@ + upper_seq(cmd@) + " command unrecognized"@,
            ),
            cmd@.len() > 0 && upper_seq(cmd@) == seq!['M', 'A', 'I', 'L'] ==> mail_step_ok(
                old(self),
                final(self),
                cfg,
                arg@,
                &r,
            ),
            cmd@.len() > 0 && upper_seq(cmd@) == seq!['R', 'C', 'P', 'T'] ==> rcpt_action_ok(
                old(self),
                cfg,
                arg@,
                &r,
            ),
            cmd@.len() > 0 && upper_seq(cmd@) == seq!['D', 'A', 'T', 'A'] ==> data_action_ok(
                old(self),
                arg@,
                &r,
            ),
            cmd@.len() > 0 && upper_seq(cmd@) == seq!['S', 'T', 'A', 'R', 'T', 'T', 'L', 'S']
                ==> starttls_action_ok(old(self), cfg, &r),
            cmd@.len() > 0 && upper_seq(cmd@) == seq!['B', 'D', 'A', 'T'] ==> bdat_action_ok(
                old(self),
                final(self),
                cfg,
                arg@,
                &r,
            ),
            cmd@.len() > 0 && upper_seq(cmd@) == seq!['A', 'U', 'T', 'H'] && old(
                self,
            ).mechanisms.len() > 0 ==> auth_action_ok(old(self), final(self), cfg, arg@, &r),
            cmd@.len() > 0 && upper_seq(cmd@) == seq!['A', 'U', 'T', 'H'] && old(
                self,
            ).mechanisms.len() == 0 ==> is_reply(
                &r,
                500,
                EnhancedCode::Code(5, 5, 2),
                "Syntax error, AUTH command unrecognized"@,
            ),
            upper_seq(cmd@) == seq!['Q', 'U', 'I', 'T'] ==> (r matches Action::Quit(rep)
                && rep.code == 221 && rep.ec == EnhancedCode::Code(2, 0, 0)
                && rep.texts.deep_view() == seq!["Bye"@]),
            upper_seq(cmd@) == seq!['N', 'O', 'O', 'P'] ==> is_reply(
                &r,
                250,
                EnhancedCode::Code(2, 0, 0),
                "I have sucessfully done nothing"@,
            ),
            upper_seq(cmd@) == seq!['V', 'R', 'F', 'Y'] ==> is_reply(
                &r,
                252,
                EnhancedCode::Code(2, 5, 0),
                "Cannot VRFY user, but will accept message"@,
            ),
            upper_seq(cmd@) == seq!['R', 'S', 'E', 'T'] ==> (r matches Action::ResetSession(rep)
                && rep.code == 250 && rep.ec == EnhancedCode::Code(2, 0, 0)
                && rep.texts.deep_view() == seq!["Session reset"@])
                && same_outside_transaction(old(self), final(self)),
            reply_only_cmd(old(self), cmd@) ==> *final(self) == (Conn {
                err_count: final(self).err_count,
                ..*old(self)
            }),
            cmd@.len() > 0 && (upper_seq(cmd@) == seq!['R', 'C', 'P', 'T'] || upper_seq(cmd@)
                == seq!['D', 'A', 'T', 'A'] || upper_seq(cmd@) == seq![
                'S',
                'T',
                'A',
                'R',
                'T',
                'T',
                'L',
                'S',
            ]) ==> *final(self) == *old(self),
            (upper_seq(cmd@) == seq!['H', 'E', 'L', 'O'] || upper_seq(cmd@) == seq![
                'E',
                'H',
                'L',
                'O',
            ]) ==> (r is NewSession && *final(self) == (Conn {
                helo: final(self).helo,
                ..*old(self)
            })),
            (upper_seq(cmd@) == seq!['S', 'E', 'N', 'D'] || upper_seq(cmd@) == seq![
                'S',
                'O',
                'M',
                'L',
            ] || upper_seq(cmd@) == seq!['S', 'A', 'M', 'L'] || upper_seq(cmd@) == seq![
                'E',
                'X',
                'P',
                'N',
            ] || upper_seq(cmd@) == seq!['H', 'E', 'L', 'P'] || upper_seq(cmd@) == seq![
                'T',
                'U',
                'R',
                'N',
            ]) ==> is_reply(
                &r,
                502,
                EnhancedCode::Code(5, 5, 1),
                upper_seq(cmd@) + " command not implemented"@,
            ),
            final(self).err_count == (if counts_as_error(old(self), cmd@) {
                if old(self).err_count < usize::MAX {
                    old(self).err_count + 1
                } else {
                    usize::MAX as int
                }
            } else {
                old(self).err_count as int
            }),
            old(self).inv(cfg) ==> final(self).inv(cfg),
    {
        if cmd.as_str().unicode_len() == 0 {
            proof {
                assert(upper_seq(cmd@).len() == cmd@.len());
            }
            let rep = self.protocol_error(
                500,
                EnhancedCode::Code(5, 5, 2),
                String::from_str("Error: bad syntax"),
            );
            return Action::Reply(rep);
        }
        let cmd_up = to_upper(cmd.as_str());
        proof {
            reveal_strlit("SEND");
            reveal_strlit("SOML");
            reveal_strlit("SAML");
            reveal_strlit("EXPN");
            reveal_strlit("HELP");
            reveal_strlit("TURN");
            reveal_strlit("HELO");
            reveal_strlit("EHLO");
            reveal_strlit("MAIL");
            reveal_strlit("RCPT");
            reveal_strlit("VRFY");
            reveal_strlit("NOOP");
            reveal_strlit("RSET");
            reveal_strlit("BDAT");
            reveal_strlit("DATA");
            reveal_strlit("QUIT");
            reveal_strlit("AUTH");
            reveal_strlit("STARTTLS");
            assert("MAIL"@ =~= seq!['M', 'A', 'I', 'L']);
            assert("RCPT"@ =~= seq!['R', 'C', 'P', 'T']);
            assert("DATA"@ =~= seq!['D', 'A', 'T', 'A']);
            assert("BDAT"@ =~= seq!['B', 'D', 'A', 'T']);
            assert("STARTTLS"@ =~= seq!['S', 'T', 'A', 'R', 'T', 'T', 'L', 'S']);
            assert("AUTH"@ =~= seq!['A', 'U', 'T', 'H']);
            assert("HELO"@ =~= seq!['H', 'E', 'L', 'O']);
            assert("EHLO"@ =~= seq!['E', 'H', 'L', 'O']);
            assert("QUIT"@ =~= seq!['Q', 'U', 'I', 'T']);
            assert("RSET"@ =~= seq!['R', 'S', 'E', 'T']);
            assert("SEND"@ =~= seq!['S', 'E', 'N', 'D']);
            assert("SOML"@ =~= seq!['S', 'O', 'M', 'L']);
            assert("SAML"@ =~= seq!['S', 'A', 'M', 'L']);
            assert("EXPN"@ =~= seq!['E', 'X', 'P', 'N']);
            assert("HELP"@ =~= seq!['H', 'E', 'L', 'P']);
            assert("TURN"@ =~= seq!['T', 'U', 'R', 'N']);
            assert("VRFY"@ =~= seq!['V', 'R', 'F', 'Y']);
            assert("NOOP"@ =~= seq!['N', 'O', 'O', 'P']);
        }
        if str_eq(cmd_up.as_str(), "SEND") || str_eq(cmd_up.as_str(), "SOML") || str_eq(
            cmd_up.as_str(),
            "SAML",
        ) || str_eq(cmd_up.as_str(), "EXPN") || str_eq(cmd_up.as_str(), "HELP") || str_eq(
            cmd_up.as_str(),
            "TURN",
        ) {
            let text = cmd_up.concat(" command not implemented");
            return Action::Reply(reply1s(502, EnhancedCode::Code(5, 5, 1), text));
        }
        if str_eq(cmd_up.as_str(), "HELO") || str_eq(cmd_up.as_str(), "EHLO") {
            let enhanced = str_eq(cmd_up.as_str(), "EHLO");
            self.helo = arg.clone();
            return Action::NewSession { enhanced };
        }
        if str_eq(cmd_up.as_str(), "MAIL") {
            return self.handle_mail(cfg, arg);
        }
        if str_eq(cmd_up.as_str(), "RCPT") {
            return self.handle_rcpt(cfg, arg);
        }
        if str_eq(cmd_up.as_str(), "VRFY") {
            return Action::Reply(
                reply1(252, EnhancedCode::Code(2, 5, 0), "Cannot VRFY user, but will accept message"),
            );
        }
        if str_eq(cmd_up.as_str(), "NOOP") {
            return Action::Reply(
                reply1(250, EnhancedCode::Code(2, 0, 0), "I have sucessfully done nothing"),
            );
        }
        if str_eq(cmd_up.as_str(), "RSET") {
            self.reset();
            return Action::ResetSession(reply1(250, EnhancedCode::Code(2, 0, 0), "Session reset"));
        }
        if str_eq(cmd_up.as_str(), "BDAT") {
            return self.handle_bdat(cfg, arg);
        }
        if str_eq(cmd_up.as_str(), "DATA") {
            return self.handle_data(cfg, arg);
        }
        if str_eq(cmd_up.as_str(), "QUIT") {
            return Action::Quit(reply1(221, EnhancedCode::Code(2, 0, 0), "Bye"));
        }
        if str_eq(cmd_up.as_str(), "AUTH") {
            if self.mechanisms.len() == 0 {
                let rep = self.protocol_error(
                    500,
                    EnhancedCode::Code(5, 5, 2),
                    String::from_str("Syntax error, AUTH command unrecognized"),
                );
                return Action::Reply(rep);
            }
            return self.handle_auth(cfg, arg);
        }
        if str_eq(cmd_up.as_str(), "STARTTLS") {
            return self.handle_starttls(cfg);
        }
        let text = String::from_str("Syntax errors, ").concat(cmd_up.as_str()).concat(
            " command unrecognized",
        );
        let rep = self.protocol_error(500, EnhancedCode::Code(5, 5, 2), text);
        Action::Reply(rep)
    }
}

impl Conn {
    /// The client identity from HELO/EHLO.
    pub fn hostname(&self) -> (r: String)
        ensures
            r@ == self.helo@,
    {
        self.helo.clone()
    }

    /// Whether AUTH may proceed: a mechanism is offered and the
    /// transport or the policy admits it.
    pub fn auth_allowed(&self, cfg: &Config) -> (r: bool)
        ensures
            r == (self.mechanisms.len() > 0 && (self.is_tls || cfg.allow_insecure_auth)),
    {
        self.mechanisms.len() > 0 && (self.is_tls || cfg.allow_insecure_auth)
    }

    /// The banner sent when the connection opens.
    pub fn greet(&self, cfg: &Config) -> (r: Reply)
        ensures
            r.code == 220,
            r.ec == EnhancedCode::Omit,
            r.texts.deep_view() == seq![cfg.domain@ + " ESMTP Service Ready"@],
            r.texts.len() == 1,
    {
        let text = cfg.domain.clone().concat(" ESMTP Service Ready");
        reply1s(220, EnhancedCode::Omit, text)
    }

    /// The farewell on a clean end of the stream.
    pub fn bye(&self) -> (r: Reply)
        ensures
            r.code == 221,
            r.ec == EnhancedCode::Code(2, 4, 0),
            r.texts.deep_view() == seq!["Connection closed, bye"@],
    {
        reply1(221, EnhancedCode::Code(2, 4, 0), "Connection closed, bye")
    }

    /// The farewell when a wire read timed out.
    pub fn idle_timeout(&self) -> (r: Reply)
        ensures
            r.code == 221,
            r.ec == EnhancedCode::Code(2, 4, 2),
            r.texts.deep_view() == seq!["Idle timeout, bye bye"@],
    {
        reply1(221, EnhancedCode::Code(2, 4, 2), "Idle timeout, bye bye")
    }

    /// The answer to a line the command parser refuses.
    pub fn bad_command(&self) -> (r: Reply)
        ensures
            r.code == 501,
            r.ec == EnhancedCode::Code(5, 5, 2),
            r.texts.deep_view() == seq!["Bad command"@],
    {
        reply1(501, EnhancedCode::Code(5, 5, 2), "Bad command")
    }

    /// The fatal answer to a line beyond the configured length; the
    /// reader cannot synchronize further, so the connection closes.
    pub fn line_too_long(&self) -> (r: Reply)
        ensures
            r.code == 500,
            r.ec == EnhancedCode::Code(5, 5, 2),
            r.texts.deep_view() == seq!["Line too long"@],
    {
        reply1(500, EnhancedCode::Code(5, 5, 2), "Line too long")
    }

    /// The reply sent when the server turns a connection away.
    pub fn reject(&self) -> (r: Reply)
        ensures
            r.code == 421,
            r.ec == EnhancedCode::Code(4, 4, 5),
            r.texts.deep_view() == seq!["Too busy. Try again later."@],
    {
        reply1(421, EnhancedCode::Code(4, 4, 5), "Too busy. Try again later.")
    }
}

/// The recipient-cap law: in every state satisfying the connection
/// invariant, when a cap is configured the recipient list is within
/// it. Recipients are only ever added by `rcpt_ok` under its guard.
pub proof fn lemma_recipient_cap(c: &Conn, cfg: &Config)
    requires
        c.inv(cfg),
        cfg.max_recipients > 0,
    ensures
        c.recipients.len() <= cfg.max_recipients,
{
}

/// The authentication-policy law: in every state satisfying the
/// connection invariant, a recorded authentication happened over TLS
/// or under the insecure-auth allowance; `starttls_ok` clears it with
/// the transport it belonged to.
pub proof fn lemma_auth_policy(c: &Conn, cfg: &Config)
    requires
        c.inv(cfg),
        c.did_auth,
    ensures
        c.is_tls || cfg.allow_insecure_auth,
{
}

} // verus!
