//! Command-line parsing: classifying one wire line into a verb and an
//! argument tail, tokenizing ESMTP parameters, and the line validity
//! check used before anything is sent.

use vstd::prelude::*;

use crate::text::eq_ignore_case_range;
use crate::text::split_spec;
use crate::text::split_char;
use crate::text::to_upper;
use crate::text::trim_end;
use crate::text::trim_end_spec;
use crate::text::upper_seq;

verus! {

/// The line with every trailing CRLF pair removed.
pub open spec fn strip_crlf_spec(s: Seq<char>) -> Seq<char>
    decreases s.len(),
{
    if s.len() >= 2 && s[s.len() - 2] == '\r' && s[s.len() - 1] == '\n' {
        strip_crlf_spec(s.take(s.len() - 2))
    } else {
        s
    }
}

pub open spec fn starttls_chars() -> Seq<char> {
    seq!['S', 'T', 'A', 'R', 'T', 'T', 'L', 'S']
}

/// How one received line is classified, before the CRLF is stripped:
/// a STARTTLS line of any case stands alone; an empty line is the empty
/// verb; a line of fewer than four or exactly five characters is
/// malformed; a four-character line is a bare verb; a longer line needs
/// a space after the verb, and its tail loses trailing whitespace.
pub open spec fn spec_parse_cmd(s: Seq<char>) -> Option<(Seq<char>, Seq<char>)> {
    let t = strip_crlf_spec(s);
    if t.len() >= 8 && upper_seq(t.take(8)) == starttls_chars() {
        Some((starttls_chars(), Seq::empty()))
    } else if t.len() == 0 {
        Some((Seq::empty(), Seq::empty()))
    } else if t.len() < 4 {
        None
    } else if t.len() == 4 {
        Some((upper_seq(t), Seq::empty()))
    } else if t.len() == 5 {
        None
    } else if t[4] != ' ' {
        None
    } else {
        Some((upper_seq(t.take(4)), trim_end_spec(t.skip(5))))
    }
}

/// Splits one wire line into its upper-cased verb and its argument
/// tail. `None` is a malformed line, answered with a syntax error.
pub fn parse_cmd(line: &str) -> (r: Option<(String, String)>)
    ensures
        r is Some <==> spec_parse_cmd(line@) is Some,
        r matches Some(p) ==> spec_parse_cmd(line@) == Some((p.0@, p.1@)),
{
    let n = line.unicode_len();
    let mut hi: usize = n;
    proof {
        assert(line@.take(n as int) =~= line@);
    }
    while hi >= 2 && line.get_char(hi - 2) == '\r' && line.get_char(hi - 1) == '\n'
        invariant
            n == line@.len(),
            hi <= n,
            strip_crlf_spec(line@) == strip_crlf_spec(line@.take(hi as int)),
        decreases hi,
    {
        proof {
            let t = line@.take(hi as int);
            assert(t.take(t.len() - 2) =~= line@.take(hi - 2));
        }
        hi = hi - 2;
    }
    let ghost t = line@.take(hi as int);
    proof {
        assert(strip_crlf_spec(t) == t);
        assert(strip_crlf_spec(line@) == t);
    }
    if hi >= 8 && eq_ignore_case_range(line, 0, 8, "STARTTLS") {
        proof {
            reveal_strlit("STARTTLS");
            assert("STARTTLS"@ =~= starttls_chars());
            assert(t.take(8) =~= line@.subrange(0, 8));
        }
        let verb: String = "STARTTLS".to_owned();
        return Some((verb, String::new()));
    }
    proof {
        if hi >= 8 {
            reveal_strlit("STARTTLS");
            assert("STARTTLS"@ =~= starttls_chars());
            assert(t.take(8) =~= line@.subrange(0, 8));
        }
    }
    if hi == 0 {
        return Some((String::new(), String::new()));
    }
    if hi < 4 || hi == 5 {
        return None;
    }
    if hi == 4 {
        let sub = line.substring_char(0, 4);
        let verb = to_upper(sub);
        proof {
            assert(t =~= line@.subrange(0, 4));
        }
        return Some((verb, String::new()));
    }
    if line.get_char(4) != ' ' {
        return None;
    }
    let sub = line.substring_char(0, 4);
    let verb = to_upper(sub);
    let tail = line.substring_char(5, hi);
    let arg = trim_end(tail);
    proof {
        assert(t.take(4) =~= line@.subrange(0, 4));
        assert(t.skip(5) =~= line@.subrange(5, hi as int));
    }
    Some((verb, arg))
}

/// The key/value pairs denoted by a token list: an empty token is
/// skipped; otherwise the key is the text before the first `=`, and the
/// value the text between the first and second `=`, empty when there is
/// no `=`.
pub open spec fn spec_parse_args(args: Seq<Seq<char>>) -> Seq<(Seq<char>, Seq<char>)>
    decreases args.len(),
{
    if args.len() == 0 {
        seq![]
    } else {
        let rest = spec_parse_args(args.drop_first());
        let a = args[0];
        if a.len() == 0 {
            rest
        } else {
            seq![spec_arg_pair(a)] + rest
        }
    }
}

/// The views of a vector of key/value string pairs.
pub open spec fn pairs_view(v: Seq<(String, String)>) -> Seq<(Seq<char>, Seq<char>)> {
    v.map_values(|p: (String, String)| (p.0@, p.1@))
}

pub open spec fn spec_arg_pair(a: Seq<char>) -> (Seq<char>, Seq<char>) {
    let parts = split_spec(a, '=');
    if parts.len() >= 2 {
        (parts[0], parts[1])
    } else {
        (parts[0], Seq::empty())
    }
}

/// Parses ESMTP `KEY=VALUE` and bare `KEY` tokens into key/value pairs,
/// in token order.
pub fn parse_args(args: &Vec<String>) -> (r: Vec<(String, String)>)
    ensures
        pairs_view(r@) == spec_parse_args(args.deep_view()),
{
    let mut r: Vec<(String, String)> = Vec::new();
    let n = args.len();
    proof {
        assert(args.deep_view().skip(0) =~= args.deep_view());
        assert(pairs_view(r@) =~= Seq::<(Seq<char>, Seq<char>)>::empty());
    }
    for i in 0..n
        invariant
            n == args.len(),
            pairs_view(r@) + spec_parse_args(
                args.deep_view().skip(i as int),
            ) =~= spec_parse_args(args.deep_view()),
    {
        let ghost old_pairs = pairs_view(r@);
        let a = &args[i];
        proof {
            assert(args.deep_view().skip(i as int).drop_first() =~= args.deep_view().skip(i + 1));
            assert(args.deep_view().skip(i as int)[0] == a@);
        }
        if a.as_str().unicode_len() > 0 {
            let parts = split_char(a.as_str(), '=');
            proof {
                assert(parts.deep_view().len() >= 1);
            }
            let key = parts[0].clone();
            let value = if parts.len() >= 2 {
                parts[1].clone()
            } else {
                String::new()
            };
            r.push((key, value));
            proof {
                assert(parts.deep_view()[0] == parts[0]@);
                if parts.len() >= 2 {
                    assert(parts.deep_view()[1] == parts[1]@);
                }
                assert(pairs_view(r@) =~= old_pairs.push(spec_arg_pair(a@)));
            }
        }
    }
    proof {
        assert(args.deep_view().skip(n as int) =~= Seq::<Seq<char>>::empty());
        assert(pairs_view(r@) =~= spec_parse_args(args.deep_view()));
    }
    r
}

/// The line without its single trailing CRLF, if it has one.
pub open spec fn line_core(s: Seq<char>) -> Seq<char> {
    if s.len() >= 2 && s[s.len() - 2] == '\r' && s[s.len() - 1] == '\n' {
        s.take(s.len() - 2)
    } else {
        s
    }
}

/// A line may be sent when it holds no CR and no LF, a single trailing
/// CRLF aside: anything else would smuggle extra lines into the reply.
pub open spec fn line_ok(s: Seq<char>) -> bool {
    forall|i: int|
        0 <= i < line_core(s).len() ==> (#[trigger] line_core(s)[i]) != '\r' && line_core(s)[i]
            != '\n'
}

/// Checks a reply line before it is sent.
pub fn validate_line(line: &str) -> (r: bool)
    ensures
        r == line_ok(line@),
{
    let n = line.unicode_len();
    let hi = if n >= 2 && line.get_char(n - 2) == '\r' && line.get_char(n - 1) == '\n' {
        n - 2
    } else {
        n
    };
    let ghost core = line_core(line@);
    proof {
        assert(core.len() == hi);
        assert(forall|j: int| 0 <= j < hi ==> core[j] == line@[j]);
    }
    for i in 0..hi
        invariant
            n == line@.len(),
            hi <= n,
            core.len() == hi,
            forall|j: int| 0 <= j < hi ==> core[j] == line@[j],
            core == line_core(line@),
            forall|j: int| 0 <= j < i ==> (#[trigger] core[j]) != '\r' && core[j] != '\n',
    {
        let c = line.get_char(i);
        if c == '\r' || c == '\n' {
            proof {
                assert(line_core(line@)[i as int] == c);
                assert(!line_ok(line@));
            }
            return false;
        }
    }
    true
}

} // verus!
