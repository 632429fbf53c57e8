//! The sending side of the dot framing: a writer that escapes body
//! bytes for the wire, doubling a line-start dot and normalizing line
//! ends to CRLF, and that closes a body with the terminating dot line.

use vstd::prelude::*;

verus! {

/// The encoder's states: before anything, at a line start, after a CR,
/// inside a line.
#[derive(Clone, Copy, PartialEq, Eq, Structural, Debug)]
pub enum WState {
    Begin,
    BeginLine,
    Cr,
    Data,
}

/// One encoding transition: the next state and the bytes put on the
/// wire for this input byte. At a line start a dot is doubled; a bare
/// LF becomes CRLF.
pub open spec fn dot_write_step(s: WState, c: u8) -> (WState, Seq<u8>) {
    match s {
        WState::Begin | WState::BeginLine => {
            if c == 0x2E {
                (WState::Data, seq![0x2Eu8, 0x2Eu8])
            } else if c == 0x0D {
                (WState::Cr, seq![0x0Du8])
            } else if c == 0x0A {
                (WState::BeginLine, seq![0x0Du8, 0x0Au8])
            } else {
                (WState::Data, seq![c])
            }
        },
        WState::Data => {
            if c == 0x0D {
                (WState::Cr, seq![0x0Du8])
            } else if c == 0x0A {
                (WState::BeginLine, seq![0x0Du8, 0x0Au8])
            } else {
                (WState::Data, seq![c])
            }
        },
        WState::Cr => {
            if c == 0x0A {
                (WState::BeginLine, seq![0x0Au8])
            } else {
                (WState::Data, seq![c])
            }
        },
    }
}

/// The encoder run over a whole buffer.
pub open spec fn dot_write_run(s: WState, input: Seq<u8>) -> (WState, Seq<u8>)
    decreases input.len(),
{
    if input.len() == 0 {
        (s, Seq::<u8>::empty())
    } else {
        let (s2, head) = dot_write_step(s, input[0]);
        let (s3, rest) = dot_write_run(s2, input.drop_first());
        (s3, head + rest)
    }
}

/// The bytes that end a body from each state: the line is finished if
/// one is open, then the terminating dot line follows.
pub open spec fn dot_close_bytes(s: WState) -> Seq<u8> {
    match s {
        WState::Begin => seq![0x2Eu8, 0x0Du8, 0x0Au8],
        WState::BeginLine => seq![0x2Eu8, 0x0Du8, 0x0Au8],
        WState::Cr => seq![0x0Au8, 0x2Eu8, 0x0Du8, 0x0Au8],
        WState::Data => seq![0x0Du8, 0x0Au8, 0x2Eu8, 0x0Du8, 0x0Au8],
    }
}

/// The dot-framing encoder.
pub struct DotWriter {
    pub state: WState,
}

impl DotWriter {
    pub fn new() -> (r: DotWriter)
        ensures
            r.state == WState::Begin,
    {
        DotWriter { state: WState::Begin }
    }

    /// Encodes one byte, appending its wire form to `out`.
    fn step_byte(&mut self, c: u8, out: &mut Vec<u8>)
        ensures
            ({
                let (s2, e) = dot_write_step(old(self).state, c);
                final(self).state == s2 && final(out)@ == old(out)@ + e
            }),
    {
        let ghost out0 = out@;
        let line_start = matches!(self.state, WState::Begin) || matches!(
            self.state,
            WState::BeginLine,
        );
        if line_start {
            if c == 0x2E {
                out.push(0x2E);
                out.push(0x2E);
                self.state = WState::Data;
                proof {
                    assert(out@ =~= out0 + seq![0x2Eu8, 0x2Eu8]);
                }
            } else if c == 0x0D {
                out.push(0x0D);
                self.state = WState::Cr;
                proof {
                    assert(out@ =~= out0 + seq![0x0Du8]);
                }
            } else if c == 0x0A {
                out.push(0x0D);
                out.push(0x0A);
                self.state = WState::BeginLine;
                proof {
                    assert(out@ =~= out0 + seq![0x0Du8, 0x0Au8]);
                }
            } else {
                out.push(c);
                self.state = WState::Data;
                proof {
                    assert(out@ =~= out0 + seq![c]);
                }
            }
        } else if matches!(self.state, WState::Data) {
            if c == 0x0D {
                out.push(0x0D);
                self.state = WState::Cr;
                proof {
                    assert(out@ =~= out0 + seq![0x0Du8]);
                }
            } else if c == 0x0A {
                out.push(0x0D);
                out.push(0x0A);
                self.state = WState::BeginLine;
                proof {
                    assert(out@ =~= out0 + seq![0x0Du8, 0x0Au8]);
                }
            } else {
                out.push(c);
                self.state = WState::Data;
                proof {
                    assert(out@ =~= out0 + seq![c]);
                }
            }
        } else {
            if c == 0x0A {
                out.push(0x0A);
                self.state = WState::BeginLine;
                proof {
                    assert(out@ =~= out0 + seq![0x0Au8]);
                }
            } else {
                out.push(c);
                self.state = WState::Data;
                proof {
                    assert(out@ =~= out0 + seq![c]);
                }
            }
        }
    }

    /// Encodes `b`, appending the wire bytes to `out`.
    pub fn write(&mut self, b: &[u8], out: &mut Vec<u8>)
        ensures
            ({
                let (s2, emitted) = dot_write_run(old(self).state, b@);
                final(self).state == s2 && final(out)@ == old(out)@ + emitted
            }),
    {
        let ghost s0 = self.state;
        let ghost out0 = out@;
        let len = b.len();
        let mut i: usize = 0;
        proof {
            assert(b@.skip(0) =~= b@);
            assert(out@.skip(out0.len() as int) =~= Seq::<u8>::empty());
        }
        while i < len
            invariant
                len == b@.len(),
                i <= len,
                out@.len() >= out0.len(),
                out@.take(out0.len() as int) == out0,
                dot_write_run(s0, b@) == ({
                    let (s3, rest) = dot_write_run(self.state, b@.skip(i as int));
                    (s3, out@.skip(out0.len() as int) + rest)
                }),
            decreases len - i,
        {
            let c = b[i];
            proof {
                assert(b@.skip(i as int)[0] == c);
                assert(b@.skip(i as int).drop_first() =~= b@.skip(i + 1));
            }
            let ghost before = out@;
            let ghost sprev = self.state;
            self.step_byte(c, out);
            proof {
                assert(out@.take(out0.len() as int) =~= out0);
                assert(out@.skip(out0.len() as int) =~= before.skip(out0.len() as int)
                    + dot_write_step(sprev, c).1);
                assert((before.skip(out0.len() as int) + dot_write_step(sprev, c).1)
                    + dot_write_run(self.state, b@.skip(i + 1)).1 =~= before.skip(
                    out0.len() as int,
                ) + (dot_write_step(sprev, c).1 + dot_write_run(self.state, b@.skip(i + 1)).1));
            }
            i = i + 1;
        }
        proof {
            assert(b@.skip(len as int) =~= Seq::<u8>::empty());
            assert(out@.skip(out0.len() as int) + Seq::<u8>::empty() =~= out@.skip(
                out0.len() as int,
            ));
            assert(out@ =~= out0 + out@.skip(out0.len() as int));
        }
    }

    /// Ends the body: finishes an open line and writes the terminating
    /// dot line. The writer is then ready for a fresh body.
    pub fn close(&mut self, out: &mut Vec<u8>)
        ensures
            final(out)@ == old(out)@ + dot_close_bytes(old(self).state),
            final(self).state == WState::Begin,
    {
        let ghost out0 = out@;
        let line_start = matches!(self.state, WState::Begin) || matches!(
            self.state,
            WState::BeginLine,
        );
        if line_start {
            out.push(0x2E);
            out.push(0x0D);
            out.push(0x0A);
            proof {
                assert(out@ =~= out0 + seq![0x2Eu8, 0x0Du8, 0x0Au8]);
            }
        } else if matches!(self.state, WState::Cr) {
            out.push(0x0A);
            out.push(0x2E);
            out.push(0x0D);
            out.push(0x0A);
            proof {
                assert(out@ =~= out0 + seq![0x0Au8, 0x2Eu8, 0x0Du8, 0x0Au8]);
            }
        } else {
            out.push(0x0D);
            out.push(0x0A);
            out.push(0x2E);
            out.push(0x0D);
            out.push(0x0A);
            proof {
                assert(out@ =~= out0 + seq![0x0Du8, 0x0Au8, 0x2Eu8, 0x0Du8, 0x0Au8]);
            }
        }
        self.state = WState::Begin;
    }
}

/// How the decoder's states shadow the encoder's: at a line start on
/// both sides, or inside a line on both sides.
pub open spec fn sim(ws: WState, rs: crate::data::DotState) -> bool {
    match ws {
        WState::Begin | WState::BeginLine => rs is BeginLine,
        WState::Cr | WState::Data => rs is Cr || rs is Data,
    }
}

/// The body a peer's decoder recovers from this writer's wire bytes:
/// the input with each bare LF expanded to CRLF.
pub open spec fn normalized(ws: WState, b: Seq<u8>) -> Seq<u8>
    decreases b.len(),
{
    if b.len() == 0 {
        Seq::<u8>::empty()
    } else {
        let head = if b[0] == 0x0A && !(ws is Cr) {
            seq![0x0Du8, 0x0Au8]
        } else {
            seq![b[0]]
        };
        head + normalized(dot_write_step(ws, b[0]).0, b.drop_first())
    }
}

/// What the closing bytes add to the recovered body: the line ending
/// that finishes an open line.
pub open spec fn close_decoded(ws: WState) -> Seq<u8> {
    match ws {
        WState::Begin | WState::BeginLine => Seq::<u8>::empty(),
        WState::Cr => seq![0x0Au8],
        WState::Data => seq![0x0Du8, 0x0Au8],
    }
}

/// One encoded byte decodes back to its normalized form.
proof fn lemma_sim_step(ws: WState, rs: crate::data::DotState, c: u8)
    requires
        sim(ws, rs),
    ensures
        ({
            let (ws2, e) = dot_write_step(ws, c);
            let (rs2, out, used, tl) = crate::data::dot_run(rs, e, -1);
            sim(ws2, rs2) && used == e.len() && !tl && !(rs2 is Eof) && out == (if c == 0x0A
                && !(ws is Cr) {
                seq![0x0Du8, 0x0Au8]
            } else {
                seq![c]
            })
        }),
{
    let (ws2, e) = dot_write_step(ws, c);
    if e.len() == 1 {
        crate::data::lemma_dot_run_one(rs, e[0], -1);
        assert(e =~= seq![e[0]]);
    } else {
        assert(e.len() == 2);
        assert(e =~= seq![e[0]] + seq![e[1]]);
        crate::data::lemma_dot_run_one(rs, e[0], -1);
        crate::data::lemma_dot_run_append(rs, seq![e[0]], seq![e[1]], -1);
        let rs1 = crate::data::dot_step(rs, e[0]).0;
        crate::data::lemma_dot_run_one(rs1, e[1], -1);
        let (rs2, out, used, tl) = crate::data::dot_run(rs, e, -1);
        assert(out =~= (if c == 0x0A && !(ws is Cr) {
            seq![0x0Du8, 0x0Au8]
        } else {
            seq![c]
        }));
    }
}

/// A whole buffer, encoded, decodes back to its normalized form and
/// leaves the decoder shadowing the encoder.
proof fn lemma_sim_run(ws: WState, rs: crate::data::DotState, b: Seq<u8>)
    requires
        sim(ws, rs),
    ensures
        ({
            let (wsf, wire) = dot_write_run(ws, b);
            let (rsf, out, used, tl) = crate::data::dot_run(rs, wire, -1);
            sim(wsf, rsf) && used == wire.len() && !tl && !(rsf is Eof) && out == normalized(
                ws,
                b,
            )
        }),
    decreases b.len(),
{
    if b.len() == 0 {
    } else {
        let (ws2, e) = dot_write_step(ws, b[0]);
        lemma_sim_step(ws, rs, b[0]);
        let (rs2, out1, used1, tl1) = crate::data::dot_run(rs, e, -1);
        lemma_sim_run(ws2, rs2, b.drop_first());
        let (wsf, rest_wire) = dot_write_run(ws2, b.drop_first());
        crate::data::lemma_dot_run_append(rs, e, rest_wire, -1);
        let (rsf, out2, used2, tl2) = crate::data::dot_run(rs2, rest_wire, -1);
        assert(dot_write_run(ws, b).1 == e + rest_wire);
        assert(crate::data::dot_run(rs, e + rest_wire, -1).1 == out1 + out2);
        assert(out1 + out2 =~~= normalized(ws, b));
    }
}

/// The closing bytes finish the open line and stop the decoder.
proof fn lemma_close_decode(ws: WState, rs: crate::data::DotState)
    requires
        sim(ws, rs),
    ensures
        ({
            let e = dot_close_bytes(ws);
            crate::data::dot_run(rs, e, -1) == (
                crate::data::DotState::Eof,
                close_decoded(ws),
                e.len() as int,
                false,
            )
        }),
{
    let e = dot_close_bytes(ws);
    match ws {
        WState::Begin | WState::BeginLine => {
            assert(e =~= seq![0x2Eu8] + (seq![0x0Du8] + seq![0x0Au8]));
            crate::data::lemma_dot_run_one(rs, 0x2E, -1);
            crate::data::lemma_dot_run_one(crate::data::DotState::Dot, 0x0D, -1);
            crate::data::lemma_dot_run_one(crate::data::DotState::DotCr, 0x0A, -1);
            crate::data::lemma_dot_run_append(
                crate::data::DotState::Dot,
                seq![0x0Du8],
                seq![0x0Au8],
                -1,
            );
            assert(crate::data::dot_run(
                crate::data::DotState::Dot,
                seq![0x0Du8] + seq![0x0Au8],
                -1,
            ).1 =~= Seq::<u8>::empty());
            crate::data::lemma_dot_run_append(rs, seq![0x2Eu8], seq![0x0Du8] + seq![0x0Au8], -1);
            assert(crate::data::dot_run(rs, e, -1).1 =~= close_decoded(ws));
        },
        WState::Cr => {
            assert(e =~= seq![0x0Au8] + end_seq());
            crate::data::lemma_dot_run_one(rs, 0x0A, -1);
            lemma_terminator(crate::data::DotState::BeginLine);
            crate::data::lemma_dot_run_append(rs, seq![0x0Au8], end_seq(), -1);
            assert(crate::data::dot_run(rs, e, -1).1 =~= close_decoded(ws));
        },
        WState::Data => {
            assert(e =~= seq![0x0Du8] + (seq![0x0Au8] + end_seq()));
            crate::data::lemma_dot_run_one(rs, 0x0D, -1);
            let rs1 = crate::data::dot_step(rs, 0x0D).0;
            assert(rs1 is Cr || rs1 is Data);
            crate::data::lemma_dot_run_one(rs1, 0x0A, -1);
            lemma_terminator(crate::data::DotState::BeginLine);
            crate::data::lemma_dot_run_append(rs1, seq![0x0Au8], end_seq(), -1);
            assert(crate::data::dot_run(rs1, seq![0x0Au8] + end_seq(), -1).1 =~= seq![0x0Au8]);
            crate::data::lemma_dot_run_append(rs, seq![0x0Du8], seq![0x0Au8] + end_seq(), -1);
            assert(crate::data::dot_run(rs, e, -1).1 =~= close_decoded(ws));
        },
    }
}

pub open spec fn end_seq() -> Seq<u8> {
    seq![0x2Eu8, 0x0Du8, 0x0Au8]
}

/// The terminating dot line stops the decoder from a line start.
proof fn lemma_terminator(rs: crate::data::DotState)
    requires
        rs is BeginLine,
    ensures
        crate::data::dot_run(rs, end_seq(), -1) == (
            crate::data::DotState::Eof,
            Seq::<u8>::empty(),
            3int,
            false,
        ),
{
    assert(end_seq() =~= seq![0x2Eu8] + (seq![0x0Du8] + seq![0x0Au8]));
    crate::data::lemma_dot_run_one(rs, 0x2E, -1);
    crate::data::lemma_dot_run_one(crate::data::DotState::Dot, 0x0D, -1);
    crate::data::lemma_dot_run_one(crate::data::DotState::DotCr, 0x0A, -1);
    crate::data::lemma_dot_run_append(
        crate::data::DotState::Dot,
        seq![0x0Du8],
        seq![0x0Au8],
        -1,
    );
    assert(crate::data::dot_run(crate::data::DotState::Dot, seq![0x0Du8] + seq![0x0Au8], -1).1
        =~= Seq::<u8>::empty());
    crate::data::lemma_dot_run_append(rs, seq![0x2Eu8], seq![0x0Du8] + seq![0x0Au8], -1);
    assert(crate::data::dot_run(rs, end_seq(), -1).1 =~= Seq::<u8>::empty());
}

/// The framing law: a body written through the dot-framing encoder and
/// closed is recovered exactly by the dot-stuffing decoder — the body
/// with its line ends normalized to CRLF and the final line finished —
/// and the decoder consumes the whole frame and stops there.
pub proof fn lemma_framing_round_trip(b: Seq<u8>)
    ensures
        ({
            let (wsf, wire) = dot_write_run(WState::Begin, b);
            let framed = wire + dot_close_bytes(wsf);
            crate::data::dot_run(crate::data::DotState::BeginLine, framed, -1) == (
                crate::data::DotState::Eof,
                normalized(WState::Begin, b) + close_decoded(wsf),
                framed.len() as int,
                false,
            )
        }),
{
    let (wsf, wire) = dot_write_run(WState::Begin, b);
    lemma_sim_run(WState::Begin, crate::data::DotState::BeginLine, b);
    let (rsf, out, used, tl) = crate::data::dot_run(
        crate::data::DotState::BeginLine,
        wire,
        -1,
    );
    crate::data::lemma_dot_run_append(
        crate::data::DotState::BeginLine,
        wire,
        dot_close_bytes(wsf),
        -1,
    );
    lemma_close_decode(wsf, rsf);
}

} // verus!
