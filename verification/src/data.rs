//! Reply status data: the enhanced status code tag (RFC 3463) and the
//! error value handed between the engine and the body readers.

use vstd::prelude::*;

verus! {

/// The three ways a reply names an enhanced status code: left unset
/// (the writer derives a default from the reply's numeric class),
/// suppressed, or given verbatim as a `class.subject.detail` triplet.
#[derive(Clone, Copy, PartialEq, Eq, Structural, Debug)]
pub enum EnhancedCode {
    NotSet,
    Omit,
    Code(u8, u8, u8),
}

/// An SMTP-level error: a reply code, an enhanced code and a one-line
/// message.
pub struct SMTPError {
    pub code: u16,
    pub enhanced_code: EnhancedCode,
    pub message: String,
}

impl SMTPError {
    /// The error reported when a message body exceeds the configured cap.
    pub fn err_data_too_large() -> (r: SMTPError)
        ensures
            r.code == 552,
            r.enhanced_code == EnhancedCode::NotSet,
            r.message@ == "Requested mail action aborted: exceeded storage allocation"@,
    {
        SMTPError {
            code: 552,
            enhanced_code: EnhancedCode::NotSet,
            message: String::from_str("Requested mail action aborted: exceeded storage allocation"),
        }
    }

    /// The error reported when a command requires prior authentication.
    pub fn err_auth_required() -> (r: SMTPError)
        ensures
            r.code == 502,
            r.enhanced_code == EnhancedCode::Code(5, 7, 0),
            r.message@ == "Please authenticate first"@,
    {
        SMTPError {
            code: 502,
            enhanced_code: EnhancedCode::Code(5, 7, 0),
            message: String::from_str("Please authenticate first"),
        }
    }

    /// The error reported when authentication is not offered.
    pub fn err_auth_unsupported() -> (r: SMTPError)
        ensures
            r.code == 502,
            r.enhanced_code == EnhancedCode::Code(5, 7, 0),
            r.message@ == "Authentication not supported"@,
    {
        SMTPError {
            code: 502,
            enhanced_code: EnhancedCode::Code(5, 7, 0),
            message: String::from_str("Authentication not supported"),
        }
    }

    /// The one-line message of the error.
    pub fn error(&self) -> (r: String)
        ensures
            r@ == self.message@,
    {
        self.message.clone()
    }

    /// Whether the error is in the transient (4xx) class.
    pub fn is_temporary(&self) -> (r: bool)
        ensures
            r == (400 <= self.code < 500),
    {
        self.code >= 400 && self.code < 500
    }
}

/// The states of the dot-stuffing decoder: at a line start, after a
/// line-start dot, after that dot's CR, after a CR inside a line,
/// inside a line, and past the terminating `.` line.
#[derive(Clone, Copy, PartialEq, Eq, Structural, Debug)]
pub enum DotState {
    BeginLine,
    Dot,
    DotCr,
    Cr,
    Data,
    Eof,
}

/// One transition of the decoder: the next state, and whether the byte
/// read is passed through to the body.
pub open spec fn dot_step(s: DotState, c: u8) -> (DotState, bool) {
    match s {
        DotState::BeginLine => {
            if c == 0x2E {
                (DotState::Dot, false)
            } else {
                (DotState::Data, true)
            }
        },
        DotState::Dot => {
            if c == 0x0D {
                (DotState::DotCr, false)
            } else if c == 0x0A {
                (DotState::Eof, false)
            } else {
                (DotState::Data, true)
            }
        },
        DotState::DotCr => {
            if c == 0x0A {
                (DotState::Eof, false)
            } else {
                (DotState::Data, true)
            }
        },
        DotState::Cr => {
            if c == 0x0A {
                (DotState::BeginLine, true)
            } else {
                (DotState::Data, true)
            }
        },
        DotState::Data => {
            if c == 0x0D {
                (DotState::Cr, true)
            } else if c == 0x0A {
                (DotState::BeginLine, true)
            } else {
                (DotState::Data, true)
            }
        },
        DotState::Eof => (DotState::Eof, false),
    }
}

/// Runs the decoder over `input` with a budget of `allow` body bytes
/// (negative means unlimited): the final state, the bytes passed
/// through, the bytes consumed, and whether the budget ran out first.
/// Only bytes passed through to the body spend budget; stuffed dots
/// and the terminating dot line are free, so a body within the cap is
/// never refused for its framing.
pub open spec fn dot_run(s: DotState, input: Seq<u8>, allow: int) -> (
    DotState,
    Seq<u8>,
    int,
    bool,
)
    decreases input.len(),
{
    if s is Eof || input.len() == 0 {
        (s, Seq::<u8>::empty(), 0, false)
    } else {
        let (s2, emit) = dot_step(s, input[0]);
        if emit && allow == 0 {
            (s, Seq::<u8>::empty(), 0, true)
        } else {
            let head = if emit {
                seq![input[0]]
            } else {
                Seq::<u8>::empty()
            };
            let next_allow = if emit && allow > 0 {
                allow - 1
            } else {
                allow
            };
            let (s3, out, used, tl) = dot_run(s2, input.drop_first(), next_allow);
            (s3, head + out, 1 + used, tl)
        }
    }
}

/// What one call of `feed` reports: more body bytes may follow, the
/// terminating dot line was seen, or the byte cap ran out first.
#[derive(Clone, Copy, PartialEq, Eq, Structural, Debug)]
pub enum DataStatus {
    More,
    Done,
    TooLarge,
}

/// The streaming decoder of a DATA body: undoes dot-stuffing, detects
/// the `CRLF . CRLF` terminator, and enforces the configured byte cap.
pub struct DataReader {
    pub state: DotState,
    pub limited: bool,
    pub n: usize,
}

impl DataReader {
    /// The budget the decoder still has, negative when unlimited.
    pub open spec fn allowance(&self) -> int {
        if self.limited {
            self.n as int
        } else {
            -1
        }
    }

    pub fn new(max_message_bytes: usize) -> (r: DataReader)
        ensures
            r.state == DotState::BeginLine,
            r.limited == (max_message_bytes > 0),
            r.n == max_message_bytes,
    {
        DataReader { state: DotState::BeginLine, limited: max_message_bytes > 0, n: max_message_bytes }
    }

    /// Lifts the byte cap; the dispatcher does this before draining the
    /// rest of a body whose transfer already failed.
    pub fn disable_cap(&mut self)
        ensures
            final(self).state == old(self).state,
            !final(self).limited,
            final(self).n == old(self).n,
    {
        self.limited = false;
    }

    /// Decodes as much of `input` as the framing and the cap admit.
    /// Returns the body bytes passed through, how many input bytes were
    /// consumed, and whether the body ended or overran the cap.
    pub fn feed(&mut self, input: &[u8]) -> (r: (Vec<u8>, usize, DataStatus))
        ensures
            ({
                let (s3, out, used, tl) = dot_run(
                    old(self).state,
                    input@,
                    old(self).allowance(),
                );
                &&& final(self).state == s3
                &&& final(self).limited == old(self).limited
                &&& r.0@ == out
                &&& r.1 == used
                &&& final(self).allowance() == (if old(self).limited {
                    old(self).allowance() - out.len()
                } else {
                    -1
                })
                &&& r.2 == (if tl {
                    DataStatus::TooLarge
                } else if s3 is Eof {
                    DataStatus::Done
                } else {
                    DataStatus::More
                })
            }),
    {
        let ghost s0 = self.state;
        let ghost allow0 = self.allowance();
        let len = input.len();
        let mut out: Vec<u8> = Vec::new();
        let mut i: usize = 0;
        let mut too_large = false;
        proof {
            assert(input@.skip(0) =~= input@);
        }
        while i < len && self.state != DotState::Eof && !too_large
            invariant
                len == input@.len(),
                i <= len,
                self.limited == old(self).limited,
                self.limited ==> self.n == allow0 - out@.len() && out@.len() <= allow0,
                allow0 == (if old(self).limited {
                    old(self).n as int
                } else {
                    -1
                }),
                dot_run(s0, input@, allow0) == ({
                    let (s3, o, u, tl) = dot_run(
                        self.state,
                        input@.skip(i as int),
                        self.allowance(),
                    );
                    (s3, out@ + o, i + u, (too_large || tl))
                }),
                too_large ==> i < len && !(self.state is Eof),
                too_large ==> dot_step(self.state, input@[i as int]).1 && self.limited
                    && self.n == 0,
            decreases len - i, (if too_large { 0int } else { 1int }),
        {
            let c = input[i];
            proof {
                assert(input@.skip(i as int)[0] == c);
                assert(input@.skip(i as int).drop_first() =~= input@.skip(i + 1));
            }
            let (next, emit) = step_of(self.state, c);
            if emit && self.limited && self.n == 0 {
                too_large = true;
            } else {
                let ghost old_out = out@;
                self.state = next;
                if emit {
                    out.push(c);
                    if self.limited {
                        self.n = self.n - 1;
                    }
                    proof {
                        assert(out@ =~= old_out.push(c));
                    }
                }
                proof {
                    let head = if emit {
                        seq![c]
                    } else {
                        Seq::<u8>::empty()
                    };
                    assert(old_out + head =~= out@);
                    lemma_seq_concat_assoc(
                        old_out,
                        head,
                        dot_run(self.state, input@.skip(i + 1), self.allowance()).1,
                    );
                }
                i = i + 1;
            }
        }
        proof {
            let rest = input@.skip(i as int);
            if i == len {
                assert(rest =~= Seq::<u8>::empty());
            }
            if !too_large {
                assert(out@ + dot_run(self.state, rest, self.allowance()).1 =~= out@);
            } else {
                assert(dot_run(self.state, rest, self.allowance()) == (
                    self.state,
                    Seq::<u8>::empty(),
                    0int,
                    true,
                ));
                assert(out@ + Seq::<u8>::empty() =~= out@);
            }
        }
        let status = if too_large {
            DataStatus::TooLarge
        } else if self.state == DotState::Eof {
            DataStatus::Done
        } else {
            DataStatus::More
        };
        (out, i, status)
    }

}

/// Computes one decoder transition.
fn step_of(s: DotState, c: u8) -> (r: (DotState, bool))
    ensures
        r == dot_step(s, c),
{
    match s {
        DotState::BeginLine => {
            if c == 0x2E {
                (DotState::Dot, false)
            } else {
                (DotState::Data, true)
            }
        },
        DotState::Dot => {
            if c == 0x0D {
                (DotState::DotCr, false)
            } else if c == 0x0A {
                (DotState::Eof, false)
            } else {
                (DotState::Data, true)
            }
        },
        DotState::DotCr => {
            if c == 0x0A {
                (DotState::Eof, false)
            } else {
                (DotState::Data, true)
            }
        },
        DotState::Cr => {
            if c == 0x0A {
                (DotState::BeginLine, true)
            } else {
                (DotState::Data, true)
            }
        },
        DotState::Data => {
            if c == 0x0D {
                (DotState::Cr, true)
            } else if c == 0x0A {
                (DotState::BeginLine, true)
            } else {
                (DotState::Data, true)
            }
        },
        DotState::Eof => (DotState::Eof, false),
    }
}

proof fn lemma_seq_concat_assoc(a: Seq<u8>, b: Seq<u8>, c: Seq<u8>)
    ensures
        (a + b) + c =~= a + (b + c),
{
}

/// One line of a message body as the client frames it: it ends with
/// CRLF and holds no other LF.
pub open spec fn is_body_line(l: Seq<u8>) -> bool {
    &&& l.len() >= 2
    &&& l[l.len() - 2] == 0x0D
    &&& l[l.len() - 1] == 0x0A
    &&& forall|i: int| 0 <= i < l.len() - 1 ==> l[i] != 0x0A
}

/// How the sender escapes one line: a line that starts with a dot is
/// sent with that dot doubled.
pub open spec fn stuff_line(l: Seq<u8>) -> Seq<u8> {
    if l.len() > 0 && l[0] == 0x2E {
        seq![0x2Eu8] + l
    } else {
        l
    }
}

/// The terminating dot line.
pub open spec fn end_of_data() -> Seq<u8> {
    seq![0x2Eu8, 0x0Du8, 0x0Au8]
}

/// The exact bytes on the wire for a body of the given lines: each
/// line dot-stuffed, then the terminating dot line.
pub open spec fn wire_of(lines: Seq<Seq<u8>>) -> Seq<u8>
    decreases lines.len(),
{
    if lines.len() == 0 {
        end_of_data()
    } else {
        stuff_line(lines[0]) + wire_of(lines.drop_first())
    }
}

/// The body itself: the lines, concatenated.
pub open spec fn body_of(lines: Seq<Seq<u8>>) -> Seq<u8>
    decreases lines.len(),
{
    if lines.len() == 0 {
        Seq::<u8>::empty()
    } else {
        lines[0] + body_of(lines.drop_first())
    }
}

/// A finished run over `a` continues through `b` unchanged, with the
/// budget the emitted bytes left.
pub(crate) proof fn lemma_dot_run_append(s: DotState, a: Seq<u8>, b: Seq<u8>, allow: int)
    requires
        ({
            let (s1, o1, u1, t1) = dot_run(s, a, allow);
            u1 == a.len() && !t1
        }),
    ensures
        dot_run(s, a + b, allow) == ({
            let (s1, o1, u1, t1) = dot_run(s, a, allow);
            let allow2 = if allow < 0 {
                allow
            } else {
                allow - o1.len()
            };
            let (s2, o2, u2, t2) = dot_run(s1, b, allow2);
            (s2, o1 + o2, a.len() + u2, t2)
        }),
    decreases a.len(),
{
    let (s1, o1, u1, t1) = dot_run(s, a, allow);
    if a.len() == 0 {
        assert(a + b =~= b);
        assert(o1 + dot_run(s1, b, allow).1 =~= dot_run(s1, b, allow).1);
    } else {
        if s is Eof {
            assert(u1 == 0);
        }
        assert(!(s is Eof));
        let (s2, emit) = dot_step(s, a[0]);
        assert(!(emit && allow == 0));
        let head = if emit {
            seq![a[0]]
        } else {
            Seq::<u8>::empty()
        };
        let next_allow = if emit && allow > 0 {
            allow - 1
        } else {
            allow
        };
        assert((a + b)[0] == a[0]);
        assert((a + b).drop_first() =~= a.drop_first() + b);
        lemma_dot_run_append(s2, a.drop_first(), b, next_allow);
        let (sa, oa, ua, ta) = dot_run(s2, a.drop_first(), next_allow);
        let allow2a = if next_allow < 0 {
            next_allow
        } else {
            next_allow - oa.len()
        };
        let (sb, ob, ub, tb) = dot_run(sa, b, allow2a);
        lemma_seq_concat_assoc(head, oa, ob);
        assert(o1 =~= head + oa);
        assert(allow2a == (if allow < 0 {
            allow
        } else {
            allow - o1.len()
        }));
    }
}

/// One byte, one transition; budget is needed only for an emitted
/// byte.
pub(crate) proof fn lemma_dot_run_one(s: DotState, c: u8, allow: int)
    requires
        !(s is Eof),
        dot_step(s, c).1 ==> allow != 0,
    ensures
        dot_run(s, seq![c], allow) == ({
            let (s2, emit) = dot_step(s, c);
            (
                s2,
                if emit {
                    seq![c]
                } else {
                    Seq::<u8>::empty()
                },
                1int,
                false,
            )
        }),
{
    reveal_with_fuel(dot_run, 3);
    let input = seq![c];
    assert(input[0] == c);
    assert(input.drop_first() =~= Seq::<u8>::empty());
    assert(dot_run(dot_step(s, c).0, Seq::<u8>::empty(), (if dot_step(s, c).1 && allow > 0 {
        allow - 1
    } else {
        allow
    })) == (dot_step(s, c).0, Seq::<u8>::empty(), 0int, false));
    let (s2, emit) = dot_step(s, c);
    let head = if emit {
        seq![c]
    } else {
        Seq::<u8>::empty()
    };
    assert(head + Seq::<u8>::empty() =~= head);
}

/// From inside a line, LF-free bytes pass straight through.
proof fn lemma_run_plain(s: DotState, m: Seq<u8>, allow: int)
    requires
        s is Data || s is Cr,
        forall|i: int| 0 <= i < m.len() ==> m[i] != 0x0A,
        allow < 0 || allow >= m.len(),
    ensures
        ({
            let (s1, o1, u1, t1) = dot_run(s, m, allow);
            o1 == m && u1 == m.len() && !t1 && (s1 is Data || s1 is Cr)
        }),
    decreases m.len(),
{
    if m.len() > 0 {
        let (s2, emit) = dot_step(s, m[0]);
        assert(emit);
        assert(s2 is Data || s2 is Cr);
        let next_allow = if allow > 0 {
            allow - 1
        } else {
            allow
        };
        lemma_run_plain(s2, m.drop_first(), next_allow);
        assert(seq![m[0]] + m.drop_first() =~= m);
    }
}

/// One stuffed body line decodes to the line itself and returns the
/// decoder to the start of a line. The budget pays for the line's own
/// bytes only; the stuffed dot is free.
proof fn lemma_run_line(l: Seq<u8>, allow: int)
    requires
        is_body_line(l),
        allow < 0 || allow >= l.len(),
    ensures
        dot_run(DotState::BeginLine, stuff_line(l), allow) == (
            DotState::BeginLine,
            l,
            stuff_line(l).len() as int,
            false,
        ),
{
    let stuffed = stuff_line(l);
    let m = l.subrange(1, l.len() - 1);
    let tail = seq![0x0Au8];
    if l[0] == 0x2E {
        // The swallowed extra dot, then the line's own first dot.
        let a1 = seq![0x2Eu8, 0x2Eu8];
        assert(stuffed =~= a1 + (m + tail));
        lemma_dot_run_one(DotState::BeginLine, 0x2E, allow);
        assert(a1 =~= seq![0x2Eu8] + seq![0x2Eu8]);
        lemma_dot_run_append(DotState::BeginLine, seq![0x2Eu8], seq![0x2Eu8], allow);
        lemma_dot_run_one(DotState::Dot, 0x2E, allow);
        assert(dot_run(DotState::BeginLine, a1, allow).1 =~= seq![0x2Eu8]);
        assert(dot_run(DotState::BeginLine, a1, allow) == (
            DotState::Data,
            seq![0x2Eu8],
            2int,
            false,
        ));
        lemma_dot_run_append(DotState::BeginLine, a1, m + tail, allow);
        let allow2 = if allow < 0 {
            allow
        } else {
            allow - 1
        };
        lemma_run_plain(DotState::Data, m, allow2);
        lemma_dot_run_append(DotState::Data, m, tail, allow2);
        let allow3 = if allow2 < 0 {
            allow2
        } else {
            allow2 - m.len()
        };
        let (sm, om, um, tm) = dot_run(DotState::Data, m, allow2);
        assert(allow3 != 0);
        lemma_dot_run_one(sm, 0x0A, allow3);
        assert(dot_run(sm, tail, allow3) == (DotState::BeginLine, tail, 1int, false));
        assert(seq![0x2Eu8] + (m + tail) =~= l);
    } else {
        let a1 = seq![l[0]];
        assert(stuffed =~= a1 + (m + tail));
        assert(l[0] != 0x0A);
        lemma_dot_run_one(DotState::BeginLine, l[0], allow);
        assert(dot_run(DotState::BeginLine, a1, allow) == (
            DotState::Data,
            seq![l[0]],
            1int,
            false,
        ));
        lemma_dot_run_append(DotState::BeginLine, a1, m + tail, allow);
        let allow2 = if allow < 0 {
            allow
        } else {
            allow - 1
        };
        lemma_run_plain(DotState::Data, m, allow2);
        lemma_dot_run_append(DotState::Data, m, tail, allow2);
        let allow3 = if allow2 < 0 {
            allow2
        } else {
            allow2 - m.len()
        };
        let (sm, om, um, tm) = dot_run(DotState::Data, m, allow2);
        assert(allow3 != 0);
        lemma_dot_run_one(sm, 0x0A, allow3);
        assert(dot_run(sm, tail, allow3) == (DotState::BeginLine, tail, 1int, false));
        assert(seq![l[0]] + (m + tail) =~= l);
    }
}

/// The decoder inverts the sender's framing: run over the wire bytes of
/// any CRLF-framed body, it passes through exactly the body's lines
/// with the stuffed dots stripped, consumes the wire up to and
/// including the terminating dot line, and stops there.
pub proof fn lemma_data_round_trip(lines: Seq<Seq<u8>>, allow: int)
    requires
        forall|i: int| 0 <= i < lines.len() ==> is_body_line(#[trigger] lines[i]),
        allow < 0 || allow >= body_of(lines).len(),
    ensures
        dot_run(DotState::BeginLine, wire_of(lines), allow) == (
            DotState::Eof,
            body_of(lines),
            wire_of(lines).len() as int,
            false,
        ),
    decreases lines.len(),
{
    if lines.len() == 0 {
        let w = end_of_data();
        lemma_dot_run_one(DotState::BeginLine, 0x2E, allow);
        lemma_dot_run_one(DotState::Dot, 0x0D, allow);
        lemma_dot_run_one(DotState::DotCr, 0x0A, allow);
        assert(w =~= seq![0x2Eu8] + (seq![0x0Du8] + seq![0x0Au8]));
        lemma_dot_run_append(DotState::Dot, seq![0x0Du8], seq![0x0Au8], allow);
        assert(dot_run(DotState::Dot, seq![0x0Du8] + seq![0x0Au8], allow).1
            =~= Seq::<u8>::empty());
        lemma_dot_run_append(DotState::BeginLine, seq![0x2Eu8], seq![0x0Du8] + seq![0x0Au8], allow);
        assert(dot_run(DotState::BeginLine, w, allow).1 =~= body_of(lines));
        assert(dot_run(DotState::BeginLine, w, allow) == (
            DotState::Eof,
            body_of(lines),
            3int,
            false,
        ));
    } else {
        let l = lines[0];
        let rest = lines.drop_first();
        let stuffed = stuff_line(l);
        assert(is_body_line(l));
        lemma_run_line(l, allow);
        lemma_dot_run_append(DotState::BeginLine, stuffed, wire_of(rest), allow);
        let allow2 = if allow < 0 {
            allow
        } else {
            allow - l.len()
        };
        lemma_data_round_trip(rest, allow2);
        assert(wire_of(lines) == stuffed + wire_of(rest));
        assert(l + body_of(rest) == body_of(lines));
    }
}

} // verus!
