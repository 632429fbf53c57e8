use rs_smtp::sasl::{
    conclude_verdict, AnonymousAuthenticator, AnonymousServer, PlainAuthenticator, PlainServer,
    SaslError, Server,
};

struct RecordingPlain {
    seen: Option<(String, String, String)>,
    accept: bool,
}

impl PlainAuthenticator for RecordingPlain {
    fn authenticate(
        &mut self,
        identity: &str,
        username: &str,
        password: &str,
    ) -> Result<(), SaslError> {
        self.seen = Some((identity.to_string(), username.to_string(), password.to_string()));
        if self.accept {
            Ok(())
        } else {
            Err(SaslError { message: "bad credentials".to_string() })
        }
    }
}

struct RecordingAnonymous {
    seen: Option<String>,
}

impl AnonymousAuthenticator for RecordingAnonymous {
    fn authenticate(&mut self, trace: &str) -> Result<(), SaslError> {
        self.seen = Some(trace.to_string());
        Ok(())
    }
}

#[test]
fn plain_initial_challenge_is_empty() {
    let mut s = PlainServer::new(RecordingPlain { seen: None, accept: true });
    let (challenge, done) = s.step(None).unwrap();
    assert!(challenge.is_empty());
    assert!(!done);
}

#[test]
fn plain_accepts_triple() {
    let mut s = PlainServer::new(RecordingPlain { seen: None, accept: true });
    let (challenge, done) = s.step(Some(&b"ident\x00user\x00pass".to_vec())).unwrap();
    assert!(challenge.is_empty());
    assert!(done);
    assert_eq!(
        s.authenticator.seen,
        Some(("ident".to_string(), "user".to_string(), "pass".to_string()))
    );
}

#[test]
fn plain_empty_identity() {
    let mut s = PlainServer::new(RecordingPlain { seen: None, accept: true });
    s.step(Some(&b"\x00user\x00pass".to_vec())).unwrap();
    assert_eq!(
        s.authenticator.seen,
        Some(("".to_string(), "user".to_string(), "pass".to_string()))
    );
}

#[test]
fn plain_missing_parts_fails() {
    let mut s = PlainServer::new(RecordingPlain { seen: None, accept: true });
    assert!(s.step(Some(&b"useronly".to_vec())).is_err());
    assert!(s.step(Some(&b"user\x00pass".to_vec())).is_err());
    assert!(s.authenticator.seen.is_none());
}

#[test]
fn plain_invalid_utf8_fails() {
    let mut s = PlainServer::new(RecordingPlain { seen: None, accept: true });
    assert!(s.step(Some(&b"\x00\xff\xfe\x00pass".to_vec())).is_err());
    assert!(s.authenticator.seen.is_none());
}

#[test]
fn plain_authenticator_verdict_propagates() {
    let mut s = PlainServer::new(RecordingPlain { seen: None, accept: false });
    let e = s.step(Some(&b"\x00user\x00pass".to_vec())).unwrap_err();
    assert_eq!(e.message, "bad credentials");
}

#[test]
fn plain_mechanism_name() {
    let s = PlainServer::new(RecordingPlain { seen: None, accept: true });
    assert_eq!(s.mechanism(), "PLAIN");
}

#[test]
fn anonymous_dialogue() {
    let mut s = AnonymousServer::new(RecordingAnonymous { seen: None });
    assert_eq!(s.mechanism(), "ANONYMOUS");
    let (challenge, done) = s.step(None).unwrap();
    assert!(challenge.is_empty());
    assert!(!done);
    let (_, done) = s.step(Some(&b"trace@example".to_vec())).unwrap();
    assert!(done);
    assert_eq!(s.authenticator.seen, Some("trace@example".to_string()));
}

#[test]
fn verdict_mapping() {
    let (challenge, done) = conclude_verdict(Ok(())).unwrap();
    assert!(challenge.is_empty());
    assert!(done);
    let e = conclude_verdict(Err(SaslError { message: "nope".to_string() })).unwrap_err();
    assert_eq!(e.message, "nope");
}

#[test]
fn mechanisms_as_trait_objects() {
    let mut servers: Vec<Box<dyn Server>> = vec![
        Box::new(PlainServer::new(RecordingPlain { seen: None, accept: true })),
        Box::new(AnonymousServer::new(RecordingAnonymous { seen: None })),
    ];
    let names: Vec<String> = servers.iter().map(|s| s.mechanism()).collect();
    assert_eq!(names, vec!["PLAIN".to_string(), "ANONYMOUS".to_string()]);
    let r = servers[0].next(None).unwrap();
    assert!(!r.1);
}
