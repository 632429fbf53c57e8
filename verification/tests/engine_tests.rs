use rs_smtp::conn::{Action, AuthResponse, Conn};
use rs_smtp::data::{DataReader, DataStatus, EnhancedCode, SMTPError};
use rs_smtp::reply::Reply;
use rs_smtp::server::Config;

fn rendered(r: &Reply) -> Vec<String> {
    r.render()
}

fn last_line(r: &Reply) -> String {
    r.render_last()
}

fn greeted(cfg: &Config) -> Conn {
    let mut c = Conn::new();
    match c.handle(cfg, &"HELO".to_string(), &"x".to_string()) {
        Action::NewSession { enhanced } => {
            assert!(!enhanced);
            c.greet_ok(cfg, false, Vec::new());
        }
        _ => panic!("HELO should ask for a session"),
    }
    c
}

fn in_transaction(cfg: &Config) -> Conn {
    let mut c = greeted(cfg);
    match c.handle(cfg, &"MAIL".to_string(), &"FROM:<a@b>".to_string()) {
        Action::Mail { from, .. } => {
            assert_eq!(from, "a@b");
            c.mail_ok();
        }
        _ => panic!("MAIL should proceed"),
    }
    match c.handle(cfg, &"RCPT".to_string(), &"TO:<c@d>".to_string()) {
        Action::Rcpt { to } => {
            assert_eq!(to, "c@d");
            c.rcpt_ok(cfg, to);
        }
        _ => panic!("RCPT should proceed"),
    }
    c
}

#[test]
fn unknown_command_rejected() {
    let cfg = Config::new();
    let mut c = Conn::new();
    match c.handle(&cfg, &"FOO".to_string(), &"".to_string()) {
        Action::Reply(rep) => {
            assert_eq!(
                last_line(&rep),
                "500 5.5.2 Syntax errors, FOO command unrecognized"
            );
        }
        _ => panic!("unknown command must get a reply"),
    }
    assert_eq!(c.err_count, 1);
}

#[test]
fn ehlo_advertises_capabilities() {
    let mut cfg = Config::new();
    cfg.has_tls = true;
    cfg.allow_insecure_auth = true;
    cfg.max_message_bytes = 0;
    let mut c = Conn::new();
    match c.handle(&cfg, &"EHLO".to_string(), &"client.example".to_string()) {
        Action::NewSession { enhanced } => {
            assert!(enhanced);
            let rep = c.greet_ok(&cfg, true, vec!["PLAIN".to_string()]);
            let lines = rendered(&rep);
            assert_eq!(
                lines,
                vec![
                    "250-Hello client.example".to_string(),
                    "250-PIPELINING".to_string(),
                    "250-8BITMIME".to_string(),
                    "250-ENHANCEDSTATUSCODES".to_string(),
                    "250-CHUNKING".to_string(),
                    "250-STARTTLS".to_string(),
                    "250-AUTH PLAIN".to_string(),
                    "250 SIZE".to_string(),
                ]
            );
        }
        _ => panic!("EHLO should ask for a session"),
    }
}

#[test]
fn ehlo_size_with_cap() {
    let mut cfg = Config::new();
    cfg.max_message_bytes = 1024;
    let mut c = Conn::new();
    match c.handle(&cfg, &"EHLO".to_string(), &"h".to_string()) {
        Action::NewSession { .. } => {
            let rep = c.greet_ok(&cfg, true, Vec::new());
            let lines = rendered(&rep);
            assert_eq!(lines.last().unwrap(), "250 SIZE 1024");
        }
        _ => panic!("EHLO should ask for a session"),
    }
}

#[test]
fn simple_data_transaction() {
    let cfg = Config::new();
    let mut c = Conn::new();
    match c.handle(&cfg, &"HELO".to_string(), &"x".to_string()) {
        Action::NewSession { .. } => {
            let rep = c.greet_ok(&cfg, false, Vec::new());
            assert_eq!(last_line(&rep), "250 2.0.0 Hello x");
        }
        _ => panic!(),
    }
    match c.handle(&cfg, &"MAIL".to_string(), &"FROM:<a@b>".to_string()) {
        Action::Mail { from, opts } => {
            assert_eq!(from, "a@b");
            assert_eq!(opts.body, "7BIT");
            let rep = c.mail_ok();
            assert_eq!(last_line(&rep), "250 2.0.0 OK");
        }
        _ => panic!(),
    }
    match c.handle(&cfg, &"RCPT".to_string(), &"TO:<c@d>".to_string()) {
        Action::Rcpt { to } => {
            let rep = c.rcpt_ok(&cfg, to);
            assert_eq!(last_line(&rep), "250 2.0.0 OK");
        }
        _ => panic!(),
    }
    match c.handle(&cfg, &"DATA".to_string(), &"".to_string()) {
        Action::BeginData(rep) => {
            assert_eq!(
                last_line(&rep),
                "354 2.0.0 Go ahead. End your data with <CR><LF>.<CR><LF>"
            );
        }
        _ => panic!(),
    }
    let mut reader = DataReader::new(cfg.max_message_bytes);
    let (body, used, status) = reader.feed(b"..hi\r\n.\r\n");
    assert_eq!(body, b".hi\r\n");
    assert_eq!(used, 9);
    assert_eq!(status, DataStatus::Done);
    let rep = c.data_conclude(true, String::new());
    assert_eq!(last_line(&rep), "250 2.0.0 OK");
    assert!(!c.from_received);
    assert!(c.recipients.is_empty());
}

#[test]
fn size_cap_in_data() {
    let mut cfg = Config::new();
    cfg.max_message_bytes = 5;
    let mut c = in_transaction(&cfg);
    match c.handle(&cfg, &"DATA".to_string(), &"".to_string()) {
        Action::BeginData(_) => {}
        _ => panic!(),
    }
    let mut reader = DataReader::new(cfg.max_message_bytes);
    let (body, used, status) = reader.feed(b"hello world\r\n.\r\n");
    assert_eq!(status, DataStatus::TooLarge);
    assert_eq!(body, b"hello");
    assert_eq!(used, 5);
    // The dispatcher lifts the cap and drains to the end of the body.
    reader.disable_cap();
    let (_, _, status) = reader.feed(b" world\r\n.\r\n");
    assert_eq!(status, DataStatus::Done);
    let err = SMTPError {
        code: 554,
        enhanced_code: EnhancedCode::Code(5, 0, 0),
        message: "Data too large".to_string(),
    };
    let rep = c.data_conclude(false, err.error());
    assert_eq!(last_line(&rep), "554 5.0.0 Data too large");
    assert!(!c.from_received);
    assert!(c.recipients.is_empty());
}

#[test]
fn bdat_two_chunks() {
    let cfg = Config::new();
    let mut c = in_transaction(&cfg);
    match c.handle(&cfg, &"BDAT".to_string(), &"5".to_string()) {
        Action::BdatChunk { size, last, first } => {
            assert_eq!(size, 5);
            assert!(!last);
            assert!(first);
        }
        _ => panic!("first BDAT should receive a chunk"),
    }
    let rep = c.bdat_chunk(&b"hello".to_vec(), false).unwrap();
    assert_eq!(last_line(&rep), "250 2.0.0 Continue");
    match c.handle(&cfg, &"BDAT".to_string(), &"6 LAST".to_string()) {
        Action::BdatChunk { size, last, first } => {
            assert_eq!(size, 6);
            assert!(last);
            assert!(!first);
        }
        _ => panic!("second BDAT should receive a chunk"),
    }
    assert!(c.bdat_chunk(&b" world".to_vec(), true).is_none());
    assert_eq!(c.bytes_received, 11);
    let rep = c.bdat_conclude(true, String::new());
    assert_eq!(last_line(&rep), "250 2.0.0 OK");
    assert!(!c.from_received);
    assert!(c.recipients.is_empty());
}

#[test]
fn bdat_size_cap() {
    let mut cfg = Config::new();
    cfg.max_message_bytes = 8;
    let mut c = in_transaction(&cfg);
    match c.handle(&cfg, &"BDAT".to_string(), &"20".to_string()) {
        Action::BdatDiscard { reply, size } => {
            assert_eq!(last_line(&reply), "552 5.3.4 Max message size exceeded");
            assert_eq!(size, 20);
        }
        _ => panic!("oversized chunk must be discarded"),
    }
    assert!(!c.from_received);
    assert!(c.recipients.is_empty());
}

#[test]
fn bdat_bad_arguments() {
    let cfg = Config::new();
    let mut c = in_transaction(&cfg);
    match c.handle(&cfg, &"BDAT".to_string(), &"".to_string()) {
        Action::Reply(rep) => assert_eq!(rep.code, 501),
        _ => panic!(),
    }
    match c.handle(&cfg, &"BDAT".to_string(), &"5 6 LAST".to_string()) {
        Action::Reply(rep) => assert_eq!(rep.code, 501),
        _ => panic!(),
    }
    match c.handle(&cfg, &"BDAT".to_string(), &"x LAST".to_string()) {
        Action::Reply(rep) => assert_eq!(last_line(&rep), "501 5.5.4 Malformed size argument"),
        _ => panic!(),
    }
    match c.handle(&cfg, &"BDAT".to_string(), &"5 NEXT".to_string()) {
        Action::Reply(rep) => assert_eq!(last_line(&rep), "501 5.5.4 Unknown BDAT argument"),
        _ => panic!(),
    }
}

#[test]
fn auth_plain_over_cleartext_denied() {
    let mut cfg = Config::new();
    cfg.allow_insecure_auth = false;
    let mut c = Conn::new();
    match c.handle(&cfg, &"EHLO".to_string(), &"x".to_string()) {
        Action::NewSession { .. } => {
            c.greet_ok(&cfg, true, vec!["PLAIN".to_string()]);
        }
        _ => panic!(),
    }
    match c.handle(&cfg, &"AUTH".to_string(), &"PLAIN AGFiAGNk".to_string()) {
        Action::Reply(rep) => {
            assert_eq!(last_line(&rep), "502 5.5.1 TLS is required");
        }
        _ => panic!("insecure AUTH must be refused"),
    }
    assert!(!c.did_auth);
}

#[test]
fn auth_dialogue_succeeds() {
    let cfg = Config::new();
    let mut c = Conn::new();
    match c.handle(&cfg, &"EHLO".to_string(), &"x".to_string()) {
        Action::NewSession { .. } => {
            c.greet_ok(&cfg, true, vec!["PLAIN".to_string()]);
        }
        _ => panic!(),
    }
    match c.handle(&cfg, &"AUTH".to_string(), &"PLAIN AGFiAGNk".to_string()) {
        Action::AuthBegin { mechanism, initial } => {
            assert_eq!(mechanism, "PLAIN");
            assert_eq!(initial, b"\x00ab\x00cd");
        }
        _ => panic!("AUTH should begin the dialogue"),
    }
    // The mechanism asks for one more round before finishing.
    let rep = c.auth_step(Ok((b"ab".to_vec(), false)));
    assert_eq!(last_line(&rep), "334 YWI=");
    match c.auth_response(&"dGVzdA==\r\n".to_string()) {
        AuthResponse::Respond(bytes) => assert_eq!(bytes, b"test"),
        _ => panic!("a base64 line is a response"),
    }
    let rep = c.auth_step(Ok((Vec::new(), true)));
    assert_eq!(last_line(&rep), "235 2.0.0 Authentication succeeded");
    assert!(c.did_auth);
}

#[test]
fn auth_cancel_and_bad_base64() {
    let cfg = Config::new();
    let mut c = Conn::new();
    match c.handle(&cfg, &"EHLO".to_string(), &"x".to_string()) {
        Action::NewSession { .. } => {
            c.greet_ok(&cfg, true, vec!["PLAIN".to_string()]);
        }
        _ => panic!(),
    }
    match c.handle(&cfg, &"AUTH".to_string(), &"PLAIN".to_string()) {
        Action::AuthBegin { initial, .. } => assert!(initial.is_empty()),
        _ => panic!(),
    }
    match c.auth_response(&"*\r\n".to_string()) {
        AuthResponse::Cancelled(rep) => {
            assert_eq!(last_line(&rep), "501 5.0.0 Negotiation cancelled");
        }
        _ => panic!("* cancels the dialogue"),
    }
    match c.handle(&cfg, &"AUTH".to_string(), &"PLAIN".to_string()) {
        Action::AuthBegin { .. } => {}
        _ => panic!(),
    }
    match c.auth_response(&"!!!\r\n".to_string()) {
        AuthResponse::Bad(rep) => {
            assert_eq!(last_line(&rep), "454 4.7.0 Invalid base64 data");
        }
        _ => panic!("junk is not base64"),
    }
}

#[test]
fn auth_unknown_mechanism() {
    let cfg = Config::new();
    let mut c = Conn::new();
    match c.handle(&cfg, &"EHLO".to_string(), &"x".to_string()) {
        Action::NewSession { .. } => {
            c.greet_ok(&cfg, true, vec!["PLAIN".to_string()]);
        }
        _ => panic!(),
    }
    match c.handle(&cfg, &"AUTH".to_string(), &"CRAM-MD5".to_string()) {
        Action::Reply(rep) => {
            assert_eq!(last_line(&rep), "504 5.7.4 Unsupported authentication mechanism");
        }
        _ => panic!(),
    }
}

#[test]
fn auth_without_mechanisms_is_unrecognized() {
    let cfg = Config::new();
    let mut c = greeted(&cfg);
    match c.handle(&cfg, &"AUTH".to_string(), &"PLAIN".to_string()) {
        Action::Reply(rep) => {
            assert_eq!(last_line(&rep), "500 5.5.2 Syntax error, AUTH command unrecognized");
        }
        _ => panic!(),
    }
    assert_eq!(c.err_count, 1);
}

#[test]
fn rcpt_before_mail_refused() {
    let cfg = Config::new();
    let mut c = greeted(&cfg);
    match c.handle(&cfg, &"RCPT".to_string(), &"TO:<c@d>".to_string()) {
        Action::Reply(rep) => {
            assert_eq!(last_line(&rep), "502 5.5.1 Missing MAIL FROM command");
        }
        _ => panic!("RCPT before MAIL must be refused"),
    }
}

#[test]
fn recipient_cap_enforced() {
    let mut cfg = Config::new();
    cfg.max_recipients = 1;
    let mut c = in_transaction(&cfg);
    assert_eq!(c.recipients.len(), 1);
    match c.handle(&cfg, &"RCPT".to_string(), &"TO:<e@f>".to_string()) {
        Action::Reply(rep) => {
            assert_eq!(last_line(&rep), "552 5.5.3 Too many recipients. Max is 1");
        }
        _ => panic!("the cap must hold"),
    }
    assert_eq!(c.recipients.len(), 1);
}

#[test]
fn mail_before_helo_refused() {
    let cfg = Config::new();
    let mut c = Conn::new();
    match c.handle(&cfg, &"MAIL".to_string(), &"FROM:<a@b>".to_string()) {
        Action::Reply(rep) => {
            assert_eq!(last_line(&rep), "502 2.5.1 Please introduce yourself first.");
        }
        _ => panic!(),
    }
}

#[test]
fn mail_bad_syntax() {
    let cfg = Config::new();
    let mut c = greeted(&cfg);
    match c.handle(&cfg, &"MAIL".to_string(), &"TO:<a@b>".to_string()) {
        Action::Reply(rep) => assert_eq!(rep.code, 501),
        _ => panic!(),
    }
}

#[test]
fn mail_strict_requires_brackets() {
    let mut cfg = Config::new();
    cfg.strict = true;
    let mut c = greeted(&cfg);
    match c.handle(&cfg, &"MAIL".to_string(), &"FROM:a@bcd".to_string()) {
        Action::Reply(rep) => assert_eq!(rep.code, 501),
        _ => panic!(),
    }
}

#[test]
fn mail_size_parameter() {
    let mut cfg = Config::new();
    cfg.max_message_bytes = 100;
    let mut c = greeted(&cfg);
    match c.handle(&cfg, &"MAIL".to_string(), &"FROM:<a@b> SIZE=50".to_string()) {
        Action::Mail { opts, .. } => assert_eq!(opts.size, 50),
        _ => panic!("a declared size under the cap is accepted"),
    }
    match c.handle(&cfg, &"MAIL".to_string(), &"FROM:<a@b> SIZE=500".to_string()) {
        Action::Reply(rep) => assert_eq!(rep.code, 552),
        _ => panic!("a declared size over the cap is refused"),
    }
    match c.handle(&cfg, &"MAIL".to_string(), &"FROM:<a@b> SIZE=abc".to_string()) {
        Action::Reply(rep) => assert_eq!(rep.code, 501),
        _ => panic!("a malformed size is refused"),
    }
}

#[test]
fn mail_feature_parameters() {
    let cfg = Config::new();
    let mut c = greeted(&cfg);
    match c.handle(&cfg, &"MAIL".to_string(), &"FROM:<a@b> SMTPUTF8".to_string()) {
        Action::Reply(rep) => assert_eq!(rep.code, 504),
        _ => panic!("SMTPUTF8 is off by default"),
    }
    match c.handle(&cfg, &"MAIL".to_string(), &"FROM:<a@b> REQUIRETLS".to_string()) {
        Action::Reply(rep) => assert_eq!(rep.code, 504),
        _ => panic!("REQUIRETLS is off by default"),
    }
    match c.handle(&cfg, &"MAIL".to_string(), &"FROM:<a@b> BODY=BINARYMIME".to_string()) {
        Action::Reply(rep) => assert_eq!(rep.code, 501),
        _ => panic!("BINARYMIME is off by default"),
    }
    match c.handle(&cfg, &"MAIL".to_string(), &"FROM:<a@b> BODY=WEIRD".to_string()) {
        Action::Reply(rep) => assert_eq!(rep.code, 500),
        _ => panic!("unknown BODY values are refused"),
    }
    match c.handle(&cfg, &"MAIL".to_string(), &"FROM:<a@b> COLOR=RED".to_string()) {
        Action::Reply(rep) => assert_eq!(rep.code, 500),
        _ => panic!("unknown keys are refused"),
    }
}

#[test]
fn mail_auth_parameter() {
    let cfg = Config::new();
    let mut c = greeted(&cfg);
    match c.handle(&cfg, &"MAIL".to_string(), &"FROM:<a@b> AUTH=<e+3Dx>".to_string()) {
        Action::Mail { opts, .. } => assert_eq!(opts.auth, "e=x"),
        _ => panic!("a bracketed xtext AUTH value is accepted"),
    }
    match c.handle(&cfg, &"MAIL".to_string(), &"FROM:<a@b> AUTH=box".to_string()) {
        Action::Reply(rep) => assert_eq!(rep.code, 500),
        _ => panic!("AUTH needs angle brackets"),
    }
    match c.handle(&cfg, &"MAIL".to_string(), &"FROM:<a@b> AUTH=<+Zx>".to_string()) {
        Action::Reply(rep) => assert_eq!(rep.code, 500),
        _ => panic!("a bad escape is refused"),
    }
}

#[test]
fn binarymime_transaction_refuses_data() {
    let mut cfg = Config::new();
    cfg.enable_binarymime = true;
    let mut c = greeted(&cfg);
    match c.handle(&cfg, &"MAIL".to_string(), &"FROM:<a@b> BODY=BINARYMIME".to_string()) {
        Action::Mail { opts, .. } => {
            assert_eq!(opts.body, "BINARYMIME");
            c.mail_ok();
        }
        _ => panic!("BINARYMIME is on"),
    }
    match c.handle(&cfg, &"RCPT".to_string(), &"TO:<c@d>".to_string()) {
        Action::Rcpt { to } => {
            c.rcpt_ok(&cfg, to);
        }
        _ => panic!(),
    }
    match c.handle(&cfg, &"DATA".to_string(), &"".to_string()) {
        Action::Reply(rep) => {
            assert_eq!(last_line(&rep), "502 5.5.1 DATA not allowed for BINARYMIME messages");
        }
        _ => panic!("DATA is not for BINARYMIME"),
    }
}

#[test]
fn data_argument_refused() {
    let cfg = Config::new();
    let mut c = in_transaction(&cfg);
    match c.handle(&cfg, &"DATA".to_string(), &"now".to_string()) {
        Action::Reply(rep) => assert_eq!(rep.code, 501),
        _ => panic!(),
    }
}

#[test]
fn rset_clears_transaction() {
    let cfg = Config::new();
    let mut c = in_transaction(&cfg);
    assert!(c.from_received);
    match c.handle(&cfg, &"RSET".to_string(), &"".to_string()) {
        Action::ResetSession(rep) => {
            assert_eq!(last_line(&rep), "250 2.0.0 Session reset");
        }
        _ => panic!(),
    }
    assert!(!c.from_received);
    assert!(c.recipients.is_empty());
    assert_eq!(c.bytes_received, 0);
}

#[test]
fn quit_replies_bye() {
    let cfg = Config::new();
    let mut c = Conn::new();
    match c.handle(&cfg, &"QUIT".to_string(), &"".to_string()) {
        Action::Quit(rep) => assert_eq!(last_line(&rep), "221 2.0.0 Bye"),
        _ => panic!(),
    }
}

#[test]
fn starttls_resets_connection_state() {
    let mut cfg = Config::new();
    cfg.has_tls = true;
    let mut c = Conn::new();
    match c.handle(&cfg, &"EHLO".to_string(), &"x".to_string()) {
        Action::NewSession { .. } => {
            c.greet_ok(&cfg, true, vec!["PLAIN".to_string()]);
        }
        _ => panic!(),
    }
    // Authentication succeeds over cleartext (insecure auth allowed).
    match c.handle(&cfg, &"AUTH".to_string(), &"PLAIN".to_string()) {
        Action::AuthBegin { .. } => {
            c.auth_step(Ok((Vec::new(), true)));
        }
        _ => panic!(),
    }
    assert!(c.did_auth);
    match c.handle(&cfg, &"STARTTLS".to_string(), &"".to_string()) {
        Action::BeginTls(rep) => {
            assert_eq!(last_line(&rep), "220 2.0.0 Ready to start TLS");
        }
        _ => panic!(),
    }
    c.starttls_ok();
    assert!(c.is_tls);
    assert!(!c.did_auth);
    assert_eq!(c.hostname(), "");
    assert!(!c.from_received);
    assert!(c.recipients.is_empty());
    // A second STARTTLS is refused.
    match c.handle(&cfg, &"STARTTLS".to_string(), &"".to_string()) {
        Action::Reply(rep) => {
            assert_eq!(last_line(&rep), "502 5.5.1 Already in TLS mode");
        }
        _ => panic!(),
    }
}

#[test]
fn starttls_without_acceptor_refused() {
    let cfg = Config::new();
    let mut c = Conn::new();
    match c.handle(&cfg, &"STARTTLS".to_string(), &"".to_string()) {
        Action::Reply(rep) => {
            assert_eq!(last_line(&rep), "502 5.5.1 TLS not supported");
        }
        _ => panic!(),
    }
}

#[test]
fn mail_during_bdat_refused() {
    let cfg = Config::new();
    let mut c = in_transaction(&cfg);
    match c.handle(&cfg, &"BDAT".to_string(), &"3".to_string()) {
        Action::BdatChunk { .. } => {}
        _ => panic!(),
    }
    match c.handle(&cfg, &"MAIL".to_string(), &"FROM:<x@y>".to_string()) {
        Action::Reply(rep) => {
            assert_eq!(last_line(&rep), "502 5.5.1 MAIL not allowed during message transfer");
        }
        _ => panic!(),
    }
    match c.handle(&cfg, &"DATA".to_string(), &"".to_string()) {
        Action::Reply(rep) => {
            assert_eq!(last_line(&rep), "502 5.5.1 DATA not allowed during message transfer");
        }
        _ => panic!(),
    }
}

#[test]
fn enhanced_code_rendering() {
    // An explicit triplet prints verbatim.
    let rep = Reply::new(250, EnhancedCode::Code(2, 1, 5), vec!["OK".to_string()]);
    assert_eq!(rep.render(), vec!["250 2.1.5 OK".to_string()]);
    // The unset tag derives the class default for 2xx/4xx/5xx.
    let rep = Reply::new(452, EnhancedCode::NotSet, vec!["slow down".to_string()]);
    assert_eq!(rep.render(), vec!["452 5.5.0 slow down".to_string()]);
    // The unset tag is omitted for other classes.
    let rep = Reply::new(334, EnhancedCode::NotSet, vec!["YWI=".to_string()]);
    assert_eq!(rep.render(), vec!["334 YWI=".to_string()]);
    // The suppressed tag is always omitted.
    let rep = Reply::new(250, EnhancedCode::Omit, vec!["PIPELINING".to_string()]);
    assert_eq!(rep.render(), vec!["250 PIPELINING".to_string()]);
}

#[test]
fn multi_line_reply_rendering() {
    let rep = Reply::new(
        250,
        EnhancedCode::Omit,
        vec!["one".to_string(), "two".to_string(), "three".to_string()],
    );
    assert_eq!(
        rep.render(),
        vec!["250-one".to_string(), "250-two".to_string(), "250 three".to_string()]
    );
}

#[test]
fn smtp_error_constructors() {
    let e = SMTPError::err_data_too_large();
    assert_eq!(e.code, 552);
    assert_eq!(
        e.error(),
        "Requested mail action aborted: exceeded storage allocation"
    );
    assert!(!e.is_temporary());
    let e = SMTPError::err_auth_required();
    assert_eq!(e.code, 502);
    assert_eq!(e.error(), "Please authenticate first");
    let e = SMTPError::err_auth_unsupported();
    assert_eq!(e.code, 502);
    assert_eq!(e.error(), "Authentication not supported");
    let e = SMTPError {
        code: 451,
        enhanced_code: EnhancedCode::Code(4, 0, 0),
        message: "later".to_string(),
    };
    assert!(e.is_temporary());
}

#[test]
fn loop_replies() {
    let c = Conn::new();
    assert_eq!(c.bye().render(), vec!["221 2.4.0 Connection closed, bye".to_string()]);
    assert_eq!(c.idle_timeout().render(), vec!["221 2.4.2 Idle timeout, bye bye".to_string()]);
    assert_eq!(c.bad_command().render(), vec!["501 5.5.2 Bad command".to_string()]);
    assert_eq!(c.line_too_long().render(), vec!["500 5.5.2 Line too long".to_string()]);
}

#[test]
fn banner_and_reject() {
    let mut cfg = Config::new();
    cfg.domain = "mx.example".to_string();
    let c = Conn::new();
    assert_eq!(c.greet(&cfg).render(), vec!["220 mx.example ESMTP Service Ready".to_string()]);
    assert_eq!(c.reject().render_last(), "421 4.4.5 Too busy. Try again later.");
}

#[test]
fn noop_vrfy_and_not_implemented() {
    let cfg = Config::new();
    let mut c = Conn::new();
    match c.handle(&cfg, &"NOOP".to_string(), &"".to_string()) {
        Action::Reply(rep) => {
            assert_eq!(last_line(&rep), "250 2.0.0 I have sucessfully done nothing");
        }
        _ => panic!(),
    }
    match c.handle(&cfg, &"VRFY".to_string(), &"user".to_string()) {
        Action::Reply(rep) => {
            assert_eq!(last_line(&rep), "252 2.5.0 Cannot VRFY user, but will accept message");
        }
        _ => panic!(),
    }
    match c.handle(&cfg, &"HELP".to_string(), &"".to_string()) {
        Action::Reply(rep) => {
            assert_eq!(last_line(&rep), "502 5.5.1 HELP command not implemented");
        }
        _ => panic!(),
    }
}
