//! The SASL server side as the engine consumes it: an abstract
//! challenge-response mechanism, and the PLAIN and ANONYMOUS mechanisms
//! over application-supplied authenticators.

use vstd::prelude::*;

use vstd::utf8::decode_utf8;
use vstd::utf8::valid_utf8;

verus! {

/// An authentication failure, with its one-line message.
#[derive(Debug)]
pub struct SaslError {
    pub message: String,
}

/// A server-side SASL mechanism. `next` begins or continues the
/// challenge-response dialogue: handed the client's response (or
/// nothing, before the client has spoken), it returns the next server
/// challenge and whether the dialogue is finished, or fails.
pub trait Server {
    fn mechanism(&self) -> (r: String);

    fn next(&mut self, response: Option<&Vec<u8>>) -> (r: Result<(Vec<u8>, bool), SaslError>);
}

/// Checks an identity/username/password triple. Implemented by the
/// application; the library states nothing about which triples pass.
pub trait PlainAuthenticator {
    fn authenticate(&mut self, identity: &str, username: &str, password: &str) -> (r: Result<
        (),
        SaslError,
    >);
}

/// Accepts an anonymous login with its trace string. Implemented by the
/// application.
pub trait AnonymousAuthenticator {
    fn authenticate(&mut self, trace: &str) -> (r: Result<(), SaslError>);
}

/// The segments of `v` between occurrences of `sep`.
pub open spec fn split_bytes_spec(v: Seq<u8>, sep: u8) -> Seq<Seq<u8>>
    decreases v.len(),
{
    let i = byte_index(v, sep);
    if 0 <= i < v.len() {
        seq![v.take(i)] + split_bytes_spec(v.skip(i + 1), sep)
    } else {
        seq![v]
    }
}

/// The position of the first occurrence of `sep`, or the length.
pub open spec fn byte_index(v: Seq<u8>, sep: u8) -> int
    decreases v.len(),
{
    if v.len() == 0 {
        0
    } else if v[0] == sep {
        0
    } else {
        1 + byte_index(v.drop_first(), sep)
    }
}

proof fn lemma_byte_index_at(v: Seq<u8>, sep: u8, k: int)
    requires
        0 <= k <= v.len(),
        forall|j: int| 0 <= j < k ==> v[j] != sep,
        k == v.len() || v[k] == sep,
    ensures
        byte_index(v, sep) == k,
    decreases v.len(),
{
    if v.len() > 0 && k > 0 {
        let t = v.drop_first();
        assert(forall|j: int| 0 <= j < k - 1 ==> t[j] != sep);
        lemma_byte_index_at(t, sep, k - 1);
    }
}

/// Splits a byte string at each occurrence of `sep`.
fn split_bytes(v: &[u8], sep: u8) -> (r: Vec<Vec<u8>>)
    ensures
        r.deep_view() == split_bytes_spec(v@, sep),
{
    let n = v.len();
    let mut r: Vec<Vec<u8>> = Vec::new();
    let mut start: usize = 0;
    let mut i: usize = 0;
    let mut cur: Vec<u8> = Vec::new();
    proof {
        assert(v@.skip(0) =~= v@);
    }
    while i < n
        invariant
            n == v@.len(),
            start <= i <= n,
            cur@ =~= v@.subrange(start as int, i as int),
            forall|j: int| start <= j < i ==> v@[j] != sep,
            r.deep_view() + split_bytes_spec(v@.skip(start as int), sep) =~= split_bytes_spec(
                v@,
                sep,
            ),
        decreases n - i,
    {
        let c = v[i];
        if c == sep {
            let ghost old_r = r.deep_view();
            r.push(cur);
            cur = Vec::new();
            proof {
                let rest = v@.skip(start as int);
                let k = i - start;
                assert(forall|j: int| 0 <= j < k ==> rest[j] != sep);
                lemma_byte_index_at(rest, sep, k);
                assert(rest.take(k) =~= v@.subrange(start as int, i as int));
                assert(rest.skip(k + 1) =~= v@.skip(i + 1));
                assert(split_bytes_spec(rest, sep) == seq![rest.take(k)] + split_bytes_spec(
                    v@.skip(i + 1),
                    sep,
                ));
                assert(r.deep_view() =~~= old_r.push(rest.take(k)));
                assert(r.deep_view() + split_bytes_spec(v@.skip(i + 1), sep) =~= split_bytes_spec(
                    v@,
                    sep,
                ));
                assert(Seq::<u8>::empty() =~= v@.subrange(i + 1, i + 1));
            }
            start = i + 1;
        } else {
            cur.push(c);
            proof {
                assert(cur@ =~= v@.subrange(start as int, i + 1));
            }
        }
        i = i + 1;
    }
    let ghost old_r = r.deep_view();
    r.push(cur);
    proof {
        let rest = v@.skip(start as int);
        assert(forall|j: int| 0 <= j < rest.len() ==> rest[j] != sep);
        lemma_byte_index_at(rest, sep, rest.len() as int);
        assert(split_bytes_spec(rest, sep) == seq![rest]);
        assert(rest =~= v@.subrange(start as int, n as int));
        assert(r.deep_view() =~~= old_r.push(rest));
        assert(r.deep_view() =~= split_bytes_spec(v@, sep));
    }
    r
}

/// Relies on String::from_utf8: it succeeds exactly on valid UTF-8 and
/// returns the decoded characters.
#[verifier::external_body]
fn bytes_to_string(v: Vec<u8>) -> (r: Option<String>)
    ensures
        r is Some <==> valid_utf8(v@),
        r matches Some(s) ==> s@ == decode_utf8(v@),
{
    match String::from_utf8(v) {
        Ok(s) => Some(s),
        Err(_) => None,
    }
}

/// Folds an authenticator's verdict into a dialogue step: acceptance
/// finishes the dialogue with the empty challenge, and a refusal is
/// handed through unchanged.
pub fn conclude_verdict(verdict: Result<(), SaslError>) -> (r: Result<(Vec<u8>, bool), SaslError>)
    ensures
        verdict is Ok ==> (r matches Ok(p) && p.0@ == Seq::<u8>::empty() && p.1 == true),
        verdict matches Err(e) ==> (r matches Err(e2) && e2 == e),
{
    match verdict {
        Ok(()) => Ok((Vec::new(), true)),
        Err(e) => Err(e),
    }
}

/// The PLAIN mechanism: one client response carrying identity, username
/// and password separated by NUL bytes.
pub struct PlainServer<PA: PlainAuthenticator> {
    pub authenticator: PA,
}

/// A PLAIN response is well-formed when it has at least three NUL-split
/// parts and the first three are valid UTF-8.
pub open spec fn plain_response_ok(v: Seq<u8>) -> bool {
    let parts = split_bytes_spec(v, 0x00);
    &&& parts.len() >= 3
    &&& valid_utf8(parts[0])
    &&& valid_utf8(parts[1])
    &&& valid_utf8(parts[2])
}

impl<PA: PlainAuthenticator> PlainServer<PA> {
    pub fn new(authenticator: PA) -> (r: PlainServer<PA>)
        ensures
            r.authenticator == authenticator,
    {
        PlainServer { authenticator }
    }

    /// One step of the PLAIN dialogue. With no response yet, it sends
    /// the empty challenge and is not done. A response is split at NUL
    /// into identity, username and password and handed to the
    /// authenticator; malformed responses fail, and a finished step
    /// returns the empty challenge.
    pub fn step(&mut self, response: Option<&Vec<u8>>) -> (r: Result<(Vec<u8>, bool), SaslError>)
        ensures
            response is None ==> (r matches Ok(p) && p.0@ == Seq::<u8>::empty() && p.1 == false),
            response is None ==> *final(self) == *old(self),
            (response matches Some(v) && !plain_response_ok(v@)) ==> r is Err && *final(self)
                == *old(self),
            response is Some ==> (r matches Ok(p) ==> p.0@ == Seq::<u8>::empty() && p.1
                == true),
    {
        match response {
            None => Ok((Vec::new(), false)),
            Some(v) => {
                let parts = split_bytes(v.as_slice(), 0x00);
                if parts.len() < 3 {
                    return Err(
                        SaslError { message: String::from_str("sasl: missing identity, username or password") },
                    );
                }
                proof {
                    assert(parts.deep_view()[0] == parts@[0]@);
                    assert(parts.deep_view()[1] == parts@[1]@);
                    assert(parts.deep_view()[2] == parts@[2]@);
                }
                let identity = match bytes_to_string(parts[0].clone()) {
                    Some(s) => s,
                    None => {
                        return Err(SaslError { message: String::from_str("sasl: invalid identity") });
                    },
                };
                let username = match bytes_to_string(parts[1].clone()) {
                    Some(s) => s,
                    None => {
                        return Err(SaslError { message: String::from_str("sasl: invalid username") });
                    },
                };
                let password = match bytes_to_string(parts[2].clone()) {
                    Some(s) => s,
                    None => {
                        return Err(SaslError { message: String::from_str("sasl: invalid password") });
                    },
                };
                let verdict = self.authenticator.authenticate(
                    identity.as_str(),
                    username.as_str(),
                    password.as_str(),
                );
                conclude_verdict(verdict)
            },
        }
    }
}

impl<PA: PlainAuthenticator> Server for PlainServer<PA> {
    fn mechanism(&self) -> (r: String)
        ensures
            r@ == "PLAIN"@,
    {
        String::from_str("PLAIN")
    }

    fn next(&mut self, response: Option<&Vec<u8>>) -> (r: Result<(Vec<u8>, bool), SaslError>)
        ensures
            response is None ==> (r matches Ok(p) && p.0@ == Seq::<u8>::empty() && p.1 == false),
            response is None ==> *final(self) == *old(self),
            (response matches Some(v) && !plain_response_ok(v@)) ==> r is Err && *final(self)
                == *old(self),
            response is Some ==> (r matches Ok(p) ==> p.0@ == Seq::<u8>::empty() && p.1 == true),
    {
        self.step(response)
    }
}

/// The ANONYMOUS mechanism: one client response carrying a trace
/// string.
pub struct AnonymousServer<AA: AnonymousAuthenticator> {
    pub authenticator: AA,
}

impl<AA: AnonymousAuthenticator> AnonymousServer<AA> {
    pub fn new(authenticator: AA) -> (r: AnonymousServer<AA>)
        ensures
            r.authenticator == authenticator,
    {
        AnonymousServer { authenticator }
    }

    /// One step of the ANONYMOUS dialogue: the empty challenge first,
    /// then the UTF-8 trace handed to the authenticator.
    pub fn step(&mut self, response: Option<&Vec<u8>>) -> (r: Result<(Vec<u8>, bool), SaslError>)
        ensures
            response is None ==> (r matches Ok(p) && p.0@ == Seq::<u8>::empty() && p.1 == false),
            response is None ==> *final(self) == *old(self),
            (response matches Some(v) && !valid_utf8(v@)) ==> r is Err && *final(self) == *old(
                self,
            ),
            response is Some ==> (r matches Ok(p) ==> p.0@ == Seq::<u8>::empty() && p.1
                == true),
    {
        match response {
            None => Ok((Vec::new(), false)),
            Some(v) => {
                let trace = match bytes_to_string(v.clone()) {
                    Some(s) => s,
                    None => {
                        return Err(SaslError { message: String::from_str("sasl: invalid trace") });
                    },
                };
                let verdict = self.authenticator.authenticate(trace.as_str());
                conclude_verdict(verdict)
            },
        }
    }
}

impl<AA: AnonymousAuthenticator> Server for AnonymousServer<AA> {
    fn mechanism(&self) -> (r: String)
        ensures
            r@ == "ANONYMOUS"@,
    {
        String::from_str("ANONYMOUS")
    }

    fn next(&mut self, response: Option<&Vec<u8>>) -> (r: Result<(Vec<u8>, bool), SaslError>)
        ensures
            response is None ==> (r matches Ok(p) && p.0@ == Seq::<u8>::empty() && p.1 == false),
            response is None ==> *final(self) == *old(self),
            (response matches Some(v) && !valid_utf8(v@)) ==> r is Err && *final(self) == *old(
                self,
            ),
            response is Some ==> (r matches Ok(p) ==> p.0@ == Seq::<u8>::empty() && p.1 == true),
    {
        self.step(response)
    }
}

} // verus!
