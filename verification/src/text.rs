//! Character and string helpers shared by the parsers and the reply
//! writer: ASCII case mapping, whitespace trimming and splitting, and
//! decimal conversion, each tied to a spec-level definition.

use vstd::prelude::*;

verus! {

/// ASCII upper-casing of one character; everything else is unchanged.
pub open spec fn upper_char(c: char) -> char {
    if 'a' <= c && c <= 'z' {
        (((c as u8) - 0x20) as u8) as char
    } else {
        c
    }
}

/// ASCII lower-casing of one character; everything else is unchanged.
pub open spec fn lower_char(c: char) -> char {
    if 'A' <= c && c <= 'Z' {
        (((c as u8) + 0x20) as u8) as char
    } else {
        c
    }
}

pub open spec fn upper_seq(s: Seq<char>) -> Seq<char> {
    s.map_values(|c: char| upper_char(c))
}

pub open spec fn lower_seq(s: Seq<char>) -> Seq<char> {
    s.map_values(|c: char| lower_char(c))
}

/// The whitespace characters recognized by the protocol parsers.
pub open spec fn is_space(c: char) -> bool {
    c == ' ' || c == '\t' || c == '\r' || c == '\n'
}

/// Relies on String::push: appends one character to the string.
#[verifier::external_body]
pub fn push_char(s: &mut String, c: char)
    ensures
        final(s)@ == old(s)@.push(c),
{
    s.push(c)
}

/// Appends one character to a fresh copy; used when building strings.
pub fn upper_char_exec(c: char) -> (r: char)
    ensures
        r == upper_char(c),
{
    if 'a' <= c && c <= 'z' {
        ((c as u8) - 0x20) as char
    } else {
        c
    }
}

pub fn lower_char_exec(c: char) -> (r: char)
    ensures
        r == lower_char(c),
{
    if 'A' <= c && c <= 'Z' {
        ((c as u8) + 0x20) as char
    } else {
        c
    }
}

pub fn to_upper(s: &str) -> (r: String)
    ensures
        r@ == upper_seq(s@),
{
    let n = s.unicode_len();
    let mut r = String::new();
    for i in 0..n
        invariant
            n == s@.len(),
            r@ == upper_seq(s@.take(i as int)),
    {
        let c = s.get_char(i);
        push_char(&mut r, upper_char_exec(c));
        proof {
            assert(s@.take(i + 1).drop_last() =~= s@.take(i as int));
            assert(upper_seq(s@.take(i + 1)) =~= upper_seq(s@.take(i as int)).push(
                upper_char(s@[i as int]),
            ));
        }
    }
    proof {
        assert(s@.take(n as int) =~= s@);
    }
    r
}

pub fn to_lower(s: &str) -> (r: String)
    ensures
        r@ == lower_seq(s@),
{
    let n = s.unicode_len();
    let mut r = String::new();
    for i in 0..n
        invariant
            n == s@.len(),
            r@ == lower_seq(s@.take(i as int)),
    {
        let c = s.get_char(i);
        push_char(&mut r, lower_char_exec(c));
        proof {
            assert(s@.take(i + 1).drop_last() =~= s@.take(i as int));
            assert(lower_seq(s@.take(i + 1)) =~= lower_seq(s@.take(i as int)).push(
                lower_char(s@[i as int]),
            ));
        }
    }
    proof {
        assert(s@.take(n as int) =~= s@);
    }
    r
}

/// String equality decided character by character.
pub fn str_eq(a: &str, b: &str) -> (r: bool)
    ensures
        r == (a@ == b@),
{
    let x: String = a.to_owned();
    let y: String = b.to_owned();
    x == y
}

/// The substring with leading and trailing whitespace removed.
pub open spec fn trim_spec(s: Seq<char>) -> Seq<char>
    decreases s.len(),
{
    if s.len() == 0 {
        s
    } else if is_space(s[0]) {
        trim_spec(s.drop_first())
    } else if is_space(s.last()) {
        trim_spec(s.drop_last())
    } else {
        s
    }
}

/// The substring with trailing whitespace removed.
pub open spec fn trim_end_spec(s: Seq<char>) -> Seq<char>
    decreases s.len(),
{
    if s.len() == 0 {
        s
    } else if is_space(s.last()) {
        trim_end_spec(s.drop_last())
    } else {
        s
    }
}

pub fn is_space_exec(c: char) -> (r: bool)
    ensures
        r == is_space(c),
{
    c == ' ' || c == '\t' || c == '\r' || c == '\n'
}

pub fn trim(s: &str) -> (r: String)
    ensures
        r@ == trim_spec(s@),
{
    let n = s.unicode_len();
    let mut lo: usize = 0;
    let mut hi: usize = n;
    proof {
        assert(s@.subrange(0, n as int) =~= s@);
    }
    while lo < hi && is_space_exec(s.get_char(lo))
        invariant
            n == s@.len(),
            lo <= hi <= n,
            hi == n,
            trim_spec(s@) == trim_spec(s@.subrange(lo as int, hi as int)),
        decreases hi - lo,
    {
        proof {
            assert(s@.subrange(lo as int, hi as int).drop_first() =~= s@.subrange(
                lo + 1,
                hi as int,
            ));
        }
        lo = lo + 1;
    }
    while lo < hi && is_space_exec(s.get_char(hi - 1))
        invariant
            n == s@.len(),
            lo <= hi <= n,
            lo < hi ==> !is_space(s@[lo as int]),
            trim_spec(s@) == trim_spec(s@.subrange(lo as int, hi as int)),
        decreases hi,
    {
        proof {
            assert(s@.subrange(lo as int, hi as int).drop_last() =~= s@.subrange(
                lo as int,
                hi - 1,
            ));
        }
        hi = hi - 1;
    }
    proof {
        assert(trim_spec(s@.subrange(lo as int, hi as int)) == s@.subrange(lo as int, hi as int));
    }
    let r = s.substring_char(lo, hi);
    r.to_owned()
}

pub fn trim_end(s: &str) -> (r: String)
    ensures
        r@ == trim_end_spec(s@),
{
    let n = s.unicode_len();
    let mut hi: usize = n;
    proof {
        assert(s@.subrange(0, n as int) =~= s@);
    }
    while 0 < hi && is_space_exec(s.get_char(hi - 1))
        invariant
            n == s@.len(),
            hi <= n,
            trim_end_spec(s@) == trim_end_spec(s@.subrange(0, hi as int)),
        decreases hi,
    {
        proof {
            assert(s@.subrange(0, hi as int).drop_last() =~= s@.subrange(0, hi - 1));
        }
        hi = hi - 1;
    }
    proof {
        assert(trim_end_spec(s@.subrange(0, hi as int)) == s@.subrange(0, hi as int));
    }
    let r = s.substring_char(0, hi);
    r.to_owned()
}

pub open spec fn is_digit(c: char) -> bool {
    '0' <= c && c <= '9'
}

pub open spec fn digit_val(c: char) -> int {
    (c as u8) - 0x30
}

pub open spec fn digit_char(d: int) -> char {
    (((d + 0x30) as u8) as char)
}

pub open spec fn all_digits(s: Seq<char>) -> bool {
    forall|i: int| 0 <= i < s.len() ==> is_digit(#[trigger] s[i])
}

/// The number denoted by a digit string, most significant digit first.
pub open spec fn dec_val(s: Seq<char>) -> int
    decreases s.len(),
{
    if s.len() == 0 {
        0
    } else {
        dec_val(s.drop_last()) * 10 + digit_val(s.last())
    }
}

/// The decimal digit string of a number, without leading zeros.
pub open spec fn dec_digits(n: int) -> Seq<char>
    decreases n,
{
    if n < 10 {
        seq![digit_char(n)]
    } else {
        dec_digits(n / 10).push(digit_char(n % 10))
    }
}

/// Appending digits never makes the denoted number smaller.
pub proof fn lemma_dec_val_prefix(s: Seq<char>, k: int)
    requires
        all_digits(s),
        0 <= k <= s.len(),
    ensures
        dec_val(s.take(k)) <= dec_val(s),
        0 <= dec_val(s),
    decreases s.len() - k,
{
    if k == s.len() {
        assert(s.take(k) =~= s);
        lemma_dec_val_nonneg(s);
    } else {
        lemma_dec_val_prefix(s, k + 1);
        let t = s.take(k + 1);
        assert(t.drop_last() =~= s.take(k));
        lemma_dec_val_nonneg(s.take(k));
        assert(dec_val(s.take(k)) <= dec_val(t)) by (nonlinear_arith)
            requires
                dec_val(t) == dec_val(s.take(k)) * 10 + digit_val(t.last()),
                0 <= dec_val(s.take(k)),
                0 <= digit_val(t.last()),
        {
        }
        lemma_dec_val_le_trans(s, k);
    }
}

proof fn lemma_dec_val_le_trans(s: Seq<char>, k: int)
    requires
        all_digits(s),
        0 <= k < s.len(),
        dec_val(s.take(k)) <= dec_val(s.take(k + 1)),
        dec_val(s.take(k + 1)) <= dec_val(s),
    ensures
        dec_val(s.take(k)) <= dec_val(s),
{
}

pub proof fn lemma_dec_val_nonneg(s: Seq<char>)
    requires
        all_digits(s),
    ensures
        0 <= dec_val(s),
    decreases s.len(),
{
    if s.len() > 0 {
        assert(all_digits(s.drop_last()));
        lemma_dec_val_nonneg(s.drop_last());
        assert(0 <= dec_val(s.drop_last()) * 10) by (nonlinear_arith)
            requires
                0 <= dec_val(s.drop_last()),
        {
        }
    }
}

/// Parses a non-empty decimal digit string whose value fits in `usize`.
pub fn parse_dec(s: &str) -> (r: Option<usize>)
    ensures
        r is Some <==> 1 <= s@.len() && all_digits(s@) && dec_val(s@) <= usize::MAX,
        r is Some ==> r->0 == dec_val(s@),
{
    let n = s.unicode_len();
    if n == 0 {
        return None;
    }
    let mut acc: usize = 0;
    for i in 0..n
        invariant
            n == s@.len(),
            1 <= n,
            all_digits(s@.take(i as int)),
            acc == dec_val(s@.take(i as int)),
    {
        let c = s.get_char(i);
        if !('0' <= c && c <= '9') {
            return None;
        }
        let d = ((c as u8) - 0x30) as usize;
        proof {
            assert(s@.take(i + 1).drop_last() =~= s@.take(i as int));
        }
        let step = match acc.checked_mul(10) {
            Some(x) => x.checked_add(d),
            None => None,
        };
        match step {
            Some(v) => {
                acc = v;
            },
            None => {
                proof {
                    assert(all_digits(s@.take(i + 1)));
                    assert(dec_val(s@.take(i + 1)) == acc * 10 + d);
                    assert(dec_val(s@.take(i + 1)) > usize::MAX);
                    if all_digits(s@) {
                        lemma_dec_val_prefix(s@, i + 1);
                        assert(s@.take(s@.len() as int) =~= s@);
                        assert(dec_val(s@) > usize::MAX);
                    }
                }
                return None;
            },
        }
    }
    proof {
        assert(s@.take(n as int) =~= s@);
    }
    Some(acc)
}

/// Renders a number in decimal.
pub fn dec_string(n: usize) -> (r: String)
    ensures
        r@ == dec_digits(n as int),
    decreases n,
{
    if n < 10 {
        let d = (n as u8) + 0x30;
        let mut r = String::new();
        push_char(&mut r, d as char);
        proof {
            assert(r@ =~= seq![digit_char(n as int)]);
        }
        r
    } else {
        let mut r = dec_string(n / 10);
        let d = ((n % 10) as u8) + 0x30;
        push_char(&mut r, d as char);
        r
    }
}

/// The position of the first occurrence of `sep`, or the length if absent.
pub open spec fn first_index(s: Seq<char>, sep: char) -> int
    decreases s.len(),
{
    if s.len() == 0 {
        0
    } else if s[0] == sep {
        0
    } else {
        1 + first_index(s.drop_first(), sep)
    }
}

pub proof fn lemma_first_index_at(s: Seq<char>, sep: char, k: int)
    requires
        0 <= k <= s.len(),
        forall|j: int| 0 <= j < k ==> s[j] != sep,
        k == s.len() || s[k] == sep,
    ensures
        first_index(s, sep) == k,
    decreases s.len(),
{
    if s.len() > 0 && k > 0 {
        assert(s[0] != sep);
        let t = s.drop_first();
        assert(forall|j: int| 0 <= j < k - 1 ==> t[j] != sep);
        lemma_first_index_at(t, sep, k - 1);
    }
}

/// The segments of `s` between occurrences of `sep`; adjacent separators
/// produce empty segments, and the empty string is one empty segment.
pub open spec fn split_spec(s: Seq<char>, sep: char) -> Seq<Seq<char>>
    decreases s.len(),
{
    let i = first_index(s, sep);
    if 0 <= i < s.len() {
        seq![s.take(i)] + split_spec(s.skip(i + 1), sep)
    } else {
        seq![s]
    }
}

/// Splits at each occurrence of `sep`.
pub fn split_char(s: &str, sep: char) -> (r: Vec<String>)
    ensures
        r.deep_view() == split_spec(s@, sep),
{
    let n = s.unicode_len();
    let mut r: Vec<String> = Vec::new();
    let mut start: usize = 0;
    let mut i: usize = 0;
    proof {
        assert(s@.skip(0) =~= s@);
    }
    while i < n
        invariant
            n == s@.len(),
            start <= i <= n,
            forall|j: int| start <= j < i ==> s@[j] != sep,
            r.deep_view() + split_spec(s@.skip(start as int), sep) =~= split_spec(s@, sep),
        decreases n - i,
    {
        if s.get_char(i) == sep {
            let ghost old_r = r.deep_view();
            let piece = s.substring_char(start, i);
            r.push(piece.to_owned());
            proof {
                let rest = s@.skip(start as int);
                let k = i - start;
                assert(forall|j: int| 0 <= j < k ==> rest[j] != sep);
                lemma_first_index_at(rest, sep, k);
                assert(rest.take(k) =~= s@.subrange(start as int, i as int));
                assert(rest.skip(k + 1) =~= s@.skip(i + 1));
                assert(split_spec(rest, sep) == seq![rest.take(k)] + split_spec(
                    s@.skip(i + 1),
                    sep,
                ));
                assert(r.deep_view() =~= old_r.push(rest.take(k)));
                assert(r.deep_view() + split_spec(s@.skip(i + 1), sep) =~= split_spec(s@, sep));
            }
            start = i + 1;
        }
        i = i + 1;
    }
    let ghost old_r = r.deep_view();
    let piece = s.substring_char(start, n);
    r.push(piece.to_owned());
    proof {
        let rest = s@.skip(start as int);
        assert(forall|j: int| 0 <= j < rest.len() ==> rest[j] != sep);
        lemma_first_index_at(rest, sep, rest.len() as int);
        assert(split_spec(rest, sep) == seq![rest]);
        assert(rest =~= s@.subrange(start as int, n as int));
        assert(r.deep_view() =~= old_r.push(rest));
        assert(r.deep_view() =~= split_spec(s@, sep));
    }
    r
}

/// The length of the leading run of non-whitespace characters.
pub open spec fn run_end(s: Seq<char>) -> int
    decreases s.len(),
{
    if s.len() == 0 {
        0
    } else if is_space(s[0]) {
        0
    } else {
        1 + run_end(s.drop_first())
    }
}

pub proof fn lemma_run_end_at(s: Seq<char>, k: int)
    requires
        0 <= k <= s.len(),
        forall|j: int| 0 <= j < k ==> !is_space(s[j]),
        k == s.len() || is_space(s[k]),
    ensures
        run_end(s) == k,
    decreases s.len(),
{
    if s.len() > 0 && k > 0 {
        let t = s.drop_first();
        assert(forall|j: int| 0 <= j < k - 1 ==> !is_space(t[j]));
        lemma_run_end_at(t, k - 1);
    }
}

/// The maximal non-empty runs of non-whitespace characters.
pub open spec fn split_ws_spec(s: Seq<char>) -> Seq<Seq<char>>
    decreases s.len(),
{
    if s.len() == 0 {
        seq![]
    } else if is_space(s[0]) {
        split_ws_spec(s.drop_first())
    } else {
        let i = run_end(s);
        if 0 < i <= s.len() {
            seq![s.take(i)] + split_ws_spec(s.skip(i))
        } else {
            seq![]
        }
    }
}

/// Splits at whitespace runs, dropping empty segments.
pub fn split_ws(s: &str) -> (r: Vec<String>)
    ensures
        r.deep_view() == split_ws_spec(s@),
{
    let n = s.unicode_len();
    let mut r: Vec<String> = Vec::new();
    let mut i: usize = 0;
    proof {
        assert(s@.skip(0) =~= s@);
    }
    while i < n
        invariant
            n == s@.len(),
            i <= n,
            r.deep_view() + split_ws_spec(s@.skip(i as int)) =~= split_ws_spec(s@),
        decreases n - i,
    {
        if is_space_exec(s.get_char(i)) {
            proof {
                assert(s@.skip(i as int).drop_first() =~= s@.skip(i + 1));
            }
            i = i + 1;
        } else {
            let start = i;
            let mut j = i + 1;
            while j < n && !is_space_exec(s.get_char(j))
                invariant
                    n == s@.len(),
                    start < j <= n,
                    forall|t: int| start <= t < j ==> !is_space(s@[t]),
                    !is_space(s@[start as int]),
                decreases n - j,
            {
                j = j + 1;
            }
            let ghost old_r = r.deep_view();
            let piece = s.substring_char(start, j);
            r.push(piece.to_owned());
            proof {
                let rest = s@.skip(start as int);
                let k = j - start;
                assert(forall|t: int| 0 <= t < k ==> !is_space(rest[t]));
                lemma_run_end_at(rest, k);
                assert(rest.take(k) =~= s@.subrange(start as int, j as int));
                assert(rest.skip(k) =~= s@.skip(j as int));
                assert(split_ws_spec(rest) == seq![rest.take(k)] + split_ws_spec(
                    s@.skip(j as int),
                ));
                assert(r.deep_view() =~= old_r.push(rest.take(k)));
                assert(r.deep_view() + split_ws_spec(s@.skip(j as int)) =~= split_ws_spec(s@));
            }
            i = j;
        }
    }
    proof {
        assert(s@.skip(n as int) =~= Seq::<char>::empty());
        assert(r.deep_view() =~= split_ws_spec(s@));
    }
    r
}

/// Whether upper-casing `s[lo..hi]` yields exactly `p`.
pub fn eq_ignore_case_range(s: &str, lo: usize, hi: usize, p: &str) -> (r: bool)
    requires
        lo <= hi <= s@.len(),
    ensures
        r == (upper_seq(s@.subrange(lo as int, hi as int)) == p@),
{
    let m = p.unicode_len();
    if hi - lo != m {
        proof {
            assert(upper_seq(s@.subrange(lo as int, hi as int)).len() == hi - lo);
        }
        return false;
    }
    for i in 0..m
        invariant
            m == p@.len(),
            lo <= hi <= s@.len(),
            hi - lo == m,
            forall|j: int|
                0 <= j < i ==> upper_char(s@.subrange(lo as int, hi as int)[j]) == p@[j],
    {
        let c = upper_char_exec(s.get_char(lo + i));
        if c != p.get_char(i) {
            proof {
                assert(upper_seq(s@.subrange(lo as int, hi as int))[i as int] != p@[i as int]);
            }
            return false;
        }
    }
    proof {
        assert(upper_seq(s@.subrange(lo as int, hi as int)) =~= p@);
    }
    true
}

/// The string with every leading occurrence of `c` removed.
pub open spec fn strip_leading_spec(s: Seq<char>, c: char) -> Seq<char>
    decreases s.len(),
{
    if s.len() > 0 && s[0] == c {
        strip_leading_spec(s.drop_first(), c)
    } else {
        s
    }
}

/// The string with every trailing occurrence of `c` removed.
pub open spec fn strip_trailing_spec(s: Seq<char>, c: char) -> Seq<char>
    decreases s.len(),
{
    if s.len() > 0 && s.last() == c {
        strip_trailing_spec(s.drop_last(), c)
    } else {
        s
    }
}

pub fn strip_leading(s: &str, c: char) -> (r: String)
    ensures
        r@ == strip_leading_spec(s@, c),
{
    let n = s.unicode_len();
    let mut lo: usize = 0;
    proof {
        assert(s@.subrange(0, n as int) =~= s@);
    }
    while lo < n && s.get_char(lo) == c
        invariant
            n == s@.len(),
            lo <= n,
            strip_leading_spec(s@, c) == strip_leading_spec(s@.subrange(lo as int, n as int), c),
        decreases n - lo,
    {
        proof {
            assert(s@.subrange(lo as int, n as int).drop_first() =~= s@.subrange(lo + 1, n as int));
        }
        lo = lo + 1;
    }
    proof {
        assert(strip_leading_spec(s@.subrange(lo as int, n as int), c) == s@.subrange(
            lo as int,
            n as int,
        ));
    }
    let r = s.substring_char(lo, n);
    r.to_owned()
}

pub fn strip_trailing(s: &str, c: char) -> (r: String)
    ensures
        r@ == strip_trailing_spec(s@, c),
{
    let n = s.unicode_len();
    let mut hi: usize = n;
    proof {
        assert(s@.subrange(0, n as int) =~= s@);
    }
    while 0 < hi && s.get_char(hi - 1) == c
        invariant
            n == s@.len(),
            hi <= n,
            strip_trailing_spec(s@, c) == strip_trailing_spec(s@.subrange(0, hi as int), c),
        decreases hi,
    {
        proof {
            assert(s@.subrange(0, hi as int).drop_last() =~= s@.subrange(0, hi - 1));
        }
        hi = hi - 1;
    }
    proof {
        assert(strip_trailing_spec(s@.subrange(0, hi as int), c) == s@.subrange(0, hi as int));
    }
    let r = s.substring_char(0, hi);
    r.to_owned()
}

/// Whether some element of `v` reads exactly `s`.
pub fn contains_str(v: &Vec<String>, s: &str) -> (r: bool)
    ensures
        r == (exists|j: int| 0 <= j < v.deep_view().len() && v.deep_view()[j] == s@),
{
    let n = v.len();
    for i in 0..n
        invariant
            n == v.len(),
            forall|j: int| 0 <= j < i ==> v.deep_view()[j] != s@,
    {
        if str_eq(v[i].as_str(), s) {
            proof {
                assert(v.deep_view()[i as int] == s@);
            }
            return true;
        }
        proof {
            assert(v.deep_view()[i as int] == v@[i as int]@);
        }
    }
    false
}

} // verus!
