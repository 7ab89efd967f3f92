//! Small string helpers shared across the crate: character-level equality,
//! ASCII whitespace tokenization, decimal rendering and joining.

use vstd::prelude::*;

verus! {

/// Character-for-character equality of two string slices.
pub fn str_eq(a: &str, b: &str) -> (r: bool)
    ensures
        r == (a@ == b@),
{
    let na = a.unicode_len();
    let nb = b.unicode_len();
    if na != nb {
        return false;
    }
    let mut i: usize = 0;
    while i < na
        invariant
            i <= na == a@.len(),
            na == nb == b@.len(),
            forall|j: int| 0 <= j < i ==> a@[j] == b@[j],
        decreases na - i,
    {
        if a.get_char(i) != b.get_char(i) {
            return false;
        }
        i = i + 1;
    }
    proof {
        assert(a@ =~= b@);
    }
    true
}

/// The whitespace characters this crate splits on (ASCII whitespace).
pub open spec fn is_ascii_space(c: char) -> bool {
    c == ' ' || c == '\t' || c == '\n' || c == '\x0c' || c == '\r'
}

pub fn is_space_char(c: char) -> (r: bool)
    ensures
        r == is_ascii_space(c),
{
    c == ' ' || c == '\t' || c == '\n' || c == '\x0c' || c == '\r'
}

/// First index at or after `i` holding a non-whitespace character (or the length).
pub open spec fn spec_skip_spaces(s: Seq<char>, i: int) -> int
    decreases s.len() - i,
{
    if i < 0 || i >= s.len() {
        s.len() as int
    } else if is_ascii_space(s[i]) {
        spec_skip_spaces(s, i + 1)
    } else {
        i
    }
}

/// First index at or after `i` holding a whitespace character (or the length).
pub open spec fn spec_token_end(s: Seq<char>, i: int) -> int
    decreases s.len() - i,
{
    if i < 0 || i >= s.len() {
        s.len() as int
    } else if is_ascii_space(s[i]) {
        i
    } else {
        spec_token_end(s, i + 1)
    }
}

pub proof fn lemma_skip_spaces_bounds(s: Seq<char>, i: int)
    requires
        0 <= i <= s.len(),
    ensures
        i <= spec_skip_spaces(s, i) <= s.len(),
        i <= spec_token_end(s, i) <= s.len(),
    decreases s.len() - i,
{
    if i < s.len() {
        lemma_skip_spaces_bounds(s, i + 1);
    }
}

pub proof fn lemma_skip_spaces_all(s: Seq<char>, i: int)
    requires
        0 <= i <= s.len(),
    ensures
        forall|j: int| i <= j < spec_skip_spaces(s, i) ==> is_ascii_space(#[trigger] s[j]),
        spec_skip_spaces(s, i) < s.len() ==> !is_ascii_space(s[spec_skip_spaces(s, i)]),
        i < s.len() && is_ascii_space(s[i]) ==> spec_skip_spaces(s, i) > i,
    decreases s.len() - i,
{
    lemma_skip_spaces_bounds(s, i);
    if i < s.len() && is_ascii_space(s[i]) {
        lemma_skip_spaces_all(s, i + 1);
    }
}

pub proof fn lemma_token_end_all(s: Seq<char>, i: int)
    requires
        0 <= i <= s.len(),
    ensures
        forall|j: int| i <= j < spec_token_end(s, i) ==> !is_ascii_space(#[trigger] s[j]),
        spec_token_end(s, i) < s.len() ==> is_ascii_space(s[spec_token_end(s, i)]),
        i < s.len() && !is_ascii_space(s[i]) ==> spec_token_end(s, i) > i,
    decreases s.len() - i,
{
    lemma_skip_spaces_bounds(s, i);
    if i < s.len() && !is_ascii_space(s[i]) {
        lemma_token_end_all(s, i + 1);
    }
}

pub fn skip_spaces(s: &str, i: usize, n: usize) -> (r: usize)
    requires
        i <= n == s@.len(),
    ensures
        r == spec_skip_spaces(s@, i as int),
        i <= r <= n,
{
    let mut j: usize = i;
    while j < n
        invariant
            i <= j <= n == s@.len(),
            spec_skip_spaces(s@, i as int) == spec_skip_spaces(s@, j as int),
        decreases n - j,
    {
        if !is_space_char(s.get_char(j)) {
            return j;
        }
        j = j + 1;
    }
    j
}

pub fn token_end(s: &str, i: usize, n: usize) -> (r: usize)
    requires
        i <= n == s@.len(),
    ensures
        r == spec_token_end(s@, i as int),
        i <= r <= n,
{
    let mut j: usize = i;
    while j < n
        invariant
            i <= j <= n == s@.len(),
            spec_token_end(s@, i as int) == spec_token_end(s@, j as int),
        decreases n - j,
    {
        if is_space_char(s.get_char(j)) {
            return j;
        }
        j = j + 1;
    }
    j
}

/// The first whitespace-delimited token of `s`, if any.
pub open spec fn spec_first_token(s: Seq<char>) -> Option<Seq<char>> {
    let a = spec_skip_spaces(s, 0);
    if a >= s.len() {
        None
    } else {
        Some(s.subrange(a, spec_token_end(s, a)))
    }
}

/// The second whitespace-delimited token of `s`, if any.
pub open spec fn spec_second_token(s: Seq<char>) -> Option<Seq<char>> {
    let a = spec_skip_spaces(s, 0);
    if a >= s.len() {
        None
    } else {
        let b = spec_token_end(s, a);
        let a2 = spec_skip_spaces(s, b);
        if a2 >= s.len() {
            None
        } else {
            Some(s.subrange(a2, spec_token_end(s, a2)))
        }
    }
}

/// Relies on `String::push`: appends exactly one character at the end.
#[verifier::external_body]
pub fn push_char(s: &mut String, c: char)
    ensures
        final(s)@ == old(s)@.push(c),
{
    s.push(c);
}

pub open spec fn digit_char(d: int) -> char {
    ((48 + d) as u8) as char
}

/// Decimal rendering of a non-negative integer, most significant digit first.
pub open spec fn u64_digits(n: int) -> Seq<char>
    decreases n,
{
    if n < 10 {
        seq![digit_char(n)]
    } else {
        u64_digits(n / 10).push(digit_char(n % 10))
    }
}

/// Renders `n` in decimal, as `format!("{}", n)` would.
pub fn u64_to_string(n: u64) -> (r: String)
    ensures
        r@ == u64_digits(n as int),
{
    let mut rev: Vec<char> = Vec::new();
    let mut cur: u64 = n;
    while cur >= 10
        invariant
            u64_digits(n as int) == u64_digits(cur as int) + rev@.reverse(),
        decreases cur,
    {
        let d: u8 = (cur % 10) as u8;
        let c: char = (48 + d) as char;
        proof {
            let prev = rev@;
            assert((prev.push(c)).reverse() =~= seq![c] + prev.reverse());
            assert(u64_digits(cur as int) + prev.reverse() =~= u64_digits(cur as int / 10) + (
            seq![c] + prev.reverse()));
        }
        rev.push(c);
        cur = cur / 10;
    }
    let d: u8 = cur as u8;
    let c: char = (48 + d) as char;
    proof {
        let prev = rev@;
        assert((prev.push(c)).reverse() =~= seq![c] + prev.reverse());
        assert(u64_digits(cur as int) =~= seq![c]);
        assert(seq![c] + prev.reverse() =~= u64_digits(n as int));
    }
    rev.push(c);
    let mut out = String::new();
    let len = rev.len();
    let mut j: usize = len;
    while j > 0
        invariant
            j <= len == rev@.len(),
            rev@.reverse() == u64_digits(n as int),
            out@ == rev@.subrange(j as int, len as int).reverse(),
        decreases j,
    {
        j = j - 1;
        proof {
            let tail = rev@.subrange(j as int, len as int);
            assert(tail.reverse() =~= rev@.subrange(j as int + 1, len as int).reverse().push(
            rev@[j as int]));
        }
        push_char(&mut out, rev[j]);
    }
    proof {
        assert(rev@.subrange(0, len as int) =~= rev@);
    }
    out
}

/// `parts` joined by `sep`, with no trailing separator.
pub open spec fn spec_join(parts: Seq<Seq<char>>, sep: Seq<char>) -> Seq<char>
    decreases parts.len(),
{
    if parts.len() == 0 {
        Seq::empty()
    } else if parts.len() == 1 {
        parts[0]
    } else {
        spec_join(parts.drop_last(), sep) + sep + parts.last()
    }
}

/// Joins the views of `parts` with `sep` between consecutive elements.
pub fn join_strings(parts: &Vec<String>, sep: &str) -> (r: String)
    ensures
        r@ == spec_join(parts.deep_view(), sep@),
{
    let mut out = String::new();
    let mut i: usize = 0;
    while i < parts.len()
        invariant
            i <= parts@.len(),
            parts.deep_view().len() == parts@.len(),
            out@ == spec_join(parts.deep_view().subrange(0, i as int), sep@),
        decreases parts@.len() - i,
    {
        if i > 0 {
            out.append(sep);
        }
        out.append(parts[i].as_str());
        proof {
            let dv = parts.deep_view();
            assert(dv[i as int] == parts@[i as int]@);
            let pre = dv.subrange(0, i as int + 1);
            assert(pre.drop_last() =~= dv.subrange(0, i as int));
            assert(pre.last() == dv[i as int]);
        }
        i = i + 1;
    }
    proof {
        assert(parts.deep_view().subrange(0, parts.deep_view().len() as int) =~= parts.deep_view());
    }
    out
}

} // verus!
