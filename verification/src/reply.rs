//! Wire replies: a code, an enhanced status code tag and one or more
//! text lines, rendered into the CRLF-separated lines the server sends.
//!
//! Rendering follows the reply writer's rules: every line but the last
//! is `code-text`; the last is `code text`, with the enhanced triplet
//! `a.b.c` inserted before the text when one is to be printed. An unset
//! tag resolves to `5.5.0` for the 2xx, 4xx and 5xx classes and is
//! omitted otherwise; a suppressed tag is always omitted; an explicit
//! triplet is printed verbatim.

use vstd::prelude::*;

use crate::data::EnhancedCode;
use crate::text::dec_digits;
use crate::text::dec_string;
use crate::text::push_char;

verus! {

/// One SMTP reply: a three-digit code, an enhanced code tag and the
/// text lines, of which the last carries the canonical message.
pub struct Reply {
    pub code: u16,
    pub ec: EnhancedCode,
    pub texts: Vec<String>,
}

/// The enhanced code that rendering actually prints: an unset tag
/// becomes the class default for 2xx/4xx/5xx codes and is omitted for
/// other classes; a suppressed tag stays omitted; an explicit triplet
/// stays itself.
pub open spec fn resolved_ec(code: u16, ec: EnhancedCode) -> EnhancedCode {
    match ec {
        EnhancedCode::NotSet => {
            let cat = code / 100;
            if cat == 2 || cat == 4 || cat == 5 {
                EnhancedCode::Code(5, 5, 0)
            } else {
                EnhancedCode::Omit
            }
        },
        _ => ec,
    }
}

/// The last line of a rendered reply.
pub open spec fn spec_last_line(code: u16, ec: EnhancedCode, text: Seq<char>) -> Seq<char> {
    match resolved_ec(code, ec) {
        EnhancedCode::Code(a, b, c) => dec_digits(code as int) + seq![' '] + dec_digits(a as int)
            + seq!['.'] + dec_digits(b as int) + seq!['.'] + dec_digits(c as int) + seq![' ']
            + text,
        _ => dec_digits(code as int) + seq![' '] + text,
    }
}

/// The full sequence of rendered lines.
pub open spec fn spec_reply_lines(code: u16, ec: EnhancedCode, texts: Seq<Seq<char>>) -> Seq<
    Seq<char>,
>
    recommends
        texts.len() >= 1,
{
    Seq::new((texts.len() - 1) as nat, |i: int| dec_digits(code as int) + seq!['-'] + texts[i]).push(
        spec_last_line(code, ec, texts.last()),
    )
}

impl Reply {
    pub fn new(code: u16, ec: EnhancedCode, texts: Vec<String>) -> (r: Reply)
        ensures
            r.code == code,
            r.ec == ec,
            r.texts == texts,
    {
        Reply { code, ec, texts }
    }

    /// Renders the reply into the lines to be sent, each without its
    /// trailing CRLF. The enhanced code tag resolves as the module
    /// description says: unset derives the class default, suppressed
    /// prints none, and an explicit triplet is printed verbatim.
    pub fn render(&self) -> (lines: Vec<String>)
        requires
            self.texts.len() >= 1,
        ensures
            lines.deep_view() == spec_reply_lines(self.code, self.ec, self.texts.deep_view()),
    {
        let n = self.texts.len();
        let mut lines: Vec<String> = Vec::new();
        for i in 0..n - 1
            invariant
                n == self.texts.len(),
            n >= 1,
                lines.deep_view() =~= Seq::new(
                    i as nat,
                    |j: int| dec_digits(self.code as int) + seq!['-'] + self.texts.deep_view()[j],
                ),
        {
            let ghost old_lines = lines.deep_view();
            let mut line = dec_string(self.code as usize);
            push_char(&mut line, '-');
            line.append(self.texts[i].as_str());
            proof {
                assert(line@ =~= dec_digits(self.code as int) + seq!['-']
                    + self.texts.deep_view()[i as int]);
            }
            lines.push(line);
            proof {
                assert(lines.deep_view() =~= old_lines.push(line@));
            }
        }
        let ghost old_lines = lines.deep_view();
        let last = self.render_last();
        lines.push(last);
        proof {
            assert(lines.deep_view() =~= old_lines.push(
                spec_last_line(self.code, self.ec, self.texts.deep_view().last()),
            ));
            assert(lines.deep_view() =~= spec_reply_lines(
                self.code,
                self.ec,
                self.texts.deep_view(),
            ));
        }
        lines
    }

    /// Renders only the final line, which carries the canonical message.
    pub fn render_last(&self) -> (line: String)
        requires
            self.texts.len() >= 1,
        ensures
            line@ == spec_last_line(self.code, self.ec, self.texts.deep_view().last()),
    {
        let resolved = resolve_ec(self.code, self.ec);
        let mut line = dec_string(self.code as usize);
        push_char(&mut line, ' ');
        match resolved {
            EnhancedCode::Code(a, b, c) => {
                line.append(dec_string(a as usize).as_str());
                push_char(&mut line, '.');
                line.append(dec_string(b as usize).as_str());
                push_char(&mut line, '.');
                line.append(dec_string(c as usize).as_str());
                push_char(&mut line, ' ');
            },
            _ => {},
        }
        line.append(self.texts[self.texts.len() - 1].as_str());
        proof {
            assert(line@ =~= spec_last_line(self.code, self.ec, self.texts.deep_view().last()));
        }
        line
    }
}

/// Computes the enhanced code tag that rendering prints.
pub fn resolve_ec(code: u16, ec: EnhancedCode) -> (r: EnhancedCode)
    ensures
        r == resolved_ec(code, ec),
{
    match ec {
        EnhancedCode::NotSet => {
            let cat = code / 100;
            if cat == 2 || cat == 4 || cat == 5 {
                EnhancedCode::Code(5, 5, 0)
            } else {
                EnhancedCode::Omit
            }
        },
        _ => ec,
    }
}

/// The enhanced-code rendering law: a suppressed tag is never printed,
/// an unset tag prints the class default exactly for the 2xx, 4xx and
/// 5xx classes, and an explicit triplet is printed as given.
pub proof fn lemma_enhanced_code_rendering(code: u16, a: u8, b: u8, c: u8)
    ensures
        resolved_ec(code, EnhancedCode::Omit) == EnhancedCode::Omit,
        resolved_ec(code, EnhancedCode::Code(a, b, c)) == EnhancedCode::Code(a, b, c),
        (code / 100 == 2 || code / 100 == 4 || code / 100 == 5) ==> resolved_ec(
            code,
            EnhancedCode::NotSet,
        ) == EnhancedCode::Code(5, 5, 0),
        !(code / 100 == 2 || code / 100 == 4 || code / 100 == 5) ==> resolved_ec(
            code,
            EnhancedCode::NotSet,
        ) == EnhancedCode::Omit,
{
}

} // verus!
