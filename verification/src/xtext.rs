//! The xtext encoding of ESMTP parameter values (RFC 3461): a `+XX`
//! escape carries one byte as two upper-case hex digits; every other
//! character stands for itself.

use vstd::prelude::*;

use crate::text::push_char;

verus! {

/// Upper-case hexadecimal digits, the only ones xtext accepts.
pub open spec fn is_hex_upper(c: char) -> bool {
    ('0' <= c && c <= '9') || ('A' <= c && c <= 'F')
}

pub open spec fn hex_val(c: char) -> int {
    if '0' <= c && c <= '9' {
        (c as u8) - 0x30
    } else {
        (c as u8) - 0x41 + 10
    }
}

pub open spec fn hex_char(d: int) -> char {
    if d < 10 {
        (((d + 0x30) as u8) as char)
    } else {
        (((d - 10 + 0x41) as u8) as char)
    }
}

/// The decoding of an xtext string: each `+XX` escape with two
/// upper-case hex digits becomes the escaped byte; a `+` not followed
/// by two such digits is an error; everything else passes through.
pub open spec fn xtext_decode_spec(s: Seq<char>) -> Option<Seq<char>>
    decreases s.len(),
{
    if s.len() == 0 {
        Some(Seq::empty())
    } else if s[0] == '+' {
        if s.len() >= 3 && is_hex_upper(s[1]) && is_hex_upper(s[2]) {
            match xtext_decode_spec(s.skip(3)) {
                Some(r) => Some(
                    seq![(((hex_val(s[1]) * 16 + hex_val(s[2])) as u8) as char)] + r,
                ),
                None => None,
            }
        } else {
            None
        }
    } else {
        match xtext_decode_spec(s.drop_first()) {
            Some(r) => Some(seq![s[0]] + r),
            None => None,
        }
    }
}

/// A character an xtext encoder may leave as it is: printable ASCII
/// other than `+` and `=`.
pub open spec fn xchar_plain(c: char) -> bool {
    '!' <= c && c <= '~' && c != '+' && c != '='
}

/// The encoding of a string as xtext: plain characters stand for
/// themselves, every other character becomes a `+XX` escape of its low
/// byte.
pub open spec fn xtext_encode_spec(s: Seq<char>) -> Seq<char>
    decreases s.len(),
{
    if s.len() == 0 {
        Seq::empty()
    } else {
        let head = if xchar_plain(s[0]) {
            seq![s[0]]
        } else {
            seq!['+', hex_char(((s[0] as u8) / 16) as int), hex_char(((s[0] as u8) % 16) as int)]
        };
        head + xtext_encode_spec(s.drop_first())
    }
}

pub fn is_hex_upper_exec(c: char) -> (r: bool)
    ensures
        r == is_hex_upper(c),
{
    ('0' <= c && c <= '9') || ('A' <= c && c <= 'F')
}

pub fn hex_val_exec(c: char) -> (r: u8)
    requires
        is_hex_upper(c),
    ensures
        r == hex_val(c),
        r < 16,
{
    if '0' <= c && c <= '9' {
        (c as u8) - 0x30
    } else {
        (c as u8) - 0x41 + 10
    }
}

pub fn hex_char_exec(d: u8) -> (r: char)
    requires
        d < 16,
    ensures
        r == hex_char(d as int),
{
    if d < 10 {
        (d + 0x30) as char
    } else {
        (d - 10 + 0x41) as char
    }
}

/// Decodes an xtext value; `None` is a malformed escape.
pub fn decode_xtext(val: &str) -> (r: Option<String>)
    ensures
        r is Some <==> xtext_decode_spec(val@) is Some,
        r matches Some(out) ==> xtext_decode_spec(val@) == Some(out@),
{
    let n = val.unicode_len();
    let mut out = String::new();
    let mut i: usize = 0;
    proof {
        assert(val@.skip(0) =~= val@);
    }
    while i < n
        invariant
            n == val@.len(),
            i <= n,
            xtext_decode_opt(out@, xtext_decode_spec(val@.skip(i as int))) == xtext_decode_spec(
                val@,
            ),
        decreases n - i,
    {
        let ghost rest = val@.skip(i as int);
        let c = val.get_char(i);
        if c == '+' {
            if n - i >= 3 {
                let h1 = val.get_char(i + 1);
                let h2 = val.get_char(i + 2);
                if is_hex_upper_exec(h1) && is_hex_upper_exec(h2) {
                    let b = hex_val_exec(h1) * 16 + hex_val_exec(h2);
                    push_char(&mut out, b as char);
                    proof {
                        assert(rest.skip(3) =~= val@.skip(i + 3));
                        assert(rest[1] == h1 && rest[2] == h2);
                        lemma_decode_opt_push(
                            out@.drop_last(),
                            (b as char),
                            xtext_decode_spec(val@.skip(i + 3)),
                        );
                    }
                    i = i + 3;
                } else {
                    proof {
                        assert(xtext_decode_spec(rest) is None);
                    }
                    return None;
                }
            } else {
                proof {
                    if rest.len() >= 3 {
                        assert(rest[1] == val@[i + 1] && rest[2] == val@[i + 2]);
                    }
                    assert(xtext_decode_spec(rest) is None);
                }
                return None;
            }
        } else {
            push_char(&mut out, c);
            proof {
                assert(rest.drop_first() =~= val@.skip(i + 1));
                lemma_decode_opt_push(out@.drop_last(), c, xtext_decode_spec(val@.skip(i + 1)));
            }
            i = i + 1;
        }
    }
    proof {
        assert(val@.skip(n as int) =~= Seq::<char>::empty());
        assert(out@ + Seq::<char>::empty() =~= out@);
    }
    Some(out)
}

/// Prefixes an already-decoded head onto a pending decode result.
pub open spec fn xtext_decode_opt(head: Seq<char>, rest: Option<Seq<char>>) -> Option<Seq<char>> {
    match rest {
        Some(r) => Some(head + r),
        None => None,
    }
}

proof fn lemma_decode_opt_push(head: Seq<char>, c: char, rest: Option<Seq<char>>)
    ensures
        xtext_decode_opt(head.push(c), rest) == xtext_decode_opt(
            head,
            match rest {
                Some(r) => Some(seq![c] + r),
                None => None,
            },
        ),
{
    match rest {
        Some(r) => {
            assert(head.push(c) + r =~= head + (seq![c] + r));
        },
        None => {},
    }
}

/// Encodes a string as xtext.
pub fn encode_xtext(raw: &str) -> (r: String)
    ensures
        r@ == xtext_encode_spec(raw@),
{
    let n = raw.unicode_len();
    let mut out = String::new();
    let mut i: usize = 0;
    proof {
        assert(xtext_encode_spec(raw@.take(0)) =~= Seq::<char>::empty());
    }
    while i < n
        invariant
            n == raw@.len(),
            i <= n,
            out@ == xtext_encode_spec(raw@.take(i as int)),
        decreases n - i,
    {
        let c = raw.get_char(i);
        let plain = '!' <= c && c <= '~' && c != '+' && c != '=';
        if plain {
            push_char(&mut out, c);
        } else {
            push_char(&mut out, '+');
            let b = c as u8;
            push_char(&mut out, hex_char_exec(b / 16));
            push_char(&mut out, hex_char_exec(b % 16));
        }
        proof {
            lemma_encode_snoc(raw@, i as int);
        }
        i = i + 1;
    }
    proof {
        assert(raw@.take(n as int) =~= raw@);
    }
    out
}

/// Encoding a string one character longer appends that character's
/// encoding.
proof fn lemma_encode_snoc(s: Seq<char>, i: int)
    requires
        0 <= i < s.len(),
    ensures
        xtext_encode_spec(s.take(i + 1)) == xtext_encode_spec(s.take(i)) + (if xchar_plain(s[i]) {
            seq![s[i]]
        } else {
            seq![
                '+',
                hex_char(((s[i] as u8) / 16) as int),
                hex_char(((s[i] as u8) % 16) as int),
            ]
        }),
    decreases i,
{
    let t = s.take(i + 1);
    if i == 0 {
        assert(t[0] == s[0]);
        assert(t.drop_first() =~= Seq::<char>::empty());
        assert(xtext_encode_spec(Seq::<char>::empty()) =~= Seq::<char>::empty());
        assert(xtext_encode_spec(s.take(0)) =~= Seq::<char>::empty());
        let head = if xchar_plain(s[0]) {
            seq![s[0]]
        } else {
            seq![
                '+',
                hex_char(((s[0] as u8) / 16) as int),
                hex_char(((s[0] as u8) % 16) as int),
            ]
        };
        assert(xtext_encode_spec(t) == head + xtext_encode_spec(t.drop_first()));
        assert(head + xtext_encode_spec(Seq::<char>::empty()) =~= head);
        assert(xtext_encode_spec(s.take(0)) + head =~= head);
    } else {
        let u = s.skip(1);
        lemma_encode_snoc(u, i - 1);
        assert(t.drop_first() =~= u.take(i));
        assert(s.take(i).drop_first() =~= u.take(i - 1));
        assert(u[i - 1] == s[i]);
        assert(t[0] == s[0]);
        assert(s.take(i)[0] == s[0]);
        assert(xtext_encode_spec(t) == (if xchar_plain(s[0]) {
            seq![s[0]]
        } else {
            seq![
                '+',
                hex_char(((s[0] as u8) / 16) as int),
                hex_char(((s[0] as u8) % 16) as int),
            ]
        }) + xtext_encode_spec(u.take(i)));
        assert(xtext_encode_spec(s.take(i)) == (if xchar_plain(s[0]) {
            seq![s[0]]
        } else {
            seq![
                '+',
                hex_char(((s[0] as u8) / 16) as int),
                hex_char(((s[0] as u8) % 16) as int),
            ]
        }) + xtext_encode_spec(u.take(i - 1)));
        assert(xtext_encode_spec(t) =~= xtext_encode_spec(s.take(i)) + (if xchar_plain(s[i]) {
            seq![s[i]]
        } else {
            seq![
                '+',
                hex_char(((s[i] as u8) / 16) as int),
                hex_char(((s[i] as u8) % 16) as int),
            ]
        }));
    }
}

/// The encoder's hex digits decode back to their value.
proof fn lemma_hex_char_round(d: int)
    requires
        0 <= d < 16,
    ensures
        is_hex_upper(hex_char(d)),
        hex_val(hex_char(d)) == d,
{
}

/// Encoding then decoding returns the input, for strings whose
/// characters each survive the round trip through one byte: the `+XX`
/// escape carries exactly that byte.
pub proof fn lemma_xtext_round_trip(s: Seq<char>)
    requires
        forall|i: int| 0 <= i < s.len() ==> ((#[trigger] s[i]) as u8) as char == s[i],
    ensures
        xtext_decode_spec(xtext_encode_spec(s)) == Some(s),
    decreases s.len(),
{
    if s.len() == 0 {
        assert(xtext_encode_spec(s) =~= Seq::<char>::empty());
        assert(Some(Seq::<char>::empty()) == Some(s));
    } else {
        let c = s[0];
        let rest = s.drop_first();
        assert(forall|i: int|
            0 <= i < rest.len() ==> ((#[trigger] rest[i]) as u8) as char == rest[i]);
        lemma_xtext_round_trip(rest);
        let e = xtext_encode_spec(s);
        if xchar_plain(c) {
            assert(e == seq![c] + xtext_encode_spec(rest));
            assert(e[0] == c);
            assert(c != '+');
            assert(e.drop_first() =~= xtext_encode_spec(rest));
            assert(seq![c] + rest =~= s);
        } else {
            let b = c as u8;
            lemma_hex_char_round((b / 16) as int);
            lemma_hex_char_round((b % 16) as int);
            let h1 = hex_char((b / 16) as int);
            let h2 = hex_char((b % 16) as int);
            assert(e == seq!['+', h1, h2] + xtext_encode_spec(rest));
            assert(e[0] == '+');
            assert(e.len() >= 3);
            assert(e[1] == h1 && e[2] == h2);
            assert(e.skip(3) =~= xtext_encode_spec(rest));
            assert(hex_val(e[1]) * 16 + hex_val(e[2]) == b as int);
            assert((hex_val(e[1]) * 16 + hex_val(e[2])) as u8 == b);
            assert(((hex_val(e[1]) * 16 + hex_val(e[2])) as u8) as char == c);
            assert(seq![c] + rest =~= s);
        }
    }
}

} // verus!
