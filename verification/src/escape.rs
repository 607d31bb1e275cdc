//! HTML escaping of text inserted into rendered fragments.

use vstd::prelude::*;
use crate::text::{chars_of, string_of, push_chars};

verus! {

/// The escaped form of one character: `& < > " '` become entities, every
/// other character stands for itself.
pub open spec fn esc_char(c: char) -> Seq<char> {
    if c == '&' {
        seq!['&', 'a', 'm', 'p', ';']
    } else if c == '<' {
        seq!['&', 'l', 't', ';']
    } else if c == '>' {
        seq!['&', 'g', 't', ';']
    } else if c == '"' {
        seq!['&', 'q', 'u', 'o', 't', ';']
    } else if c == '\'' {
        seq!['&', '#', '3', '9', ';']
    } else {
        seq![c]
    }
}

/// The escaped form of a whole sequence.
pub open spec fn esc_seq(s: Seq<char>) -> Seq<char>
    decreases s.len(),
{
    if s.len() == 0 {
        Seq::empty()
    } else {
        esc_seq(s.drop_last()) + esc_char(s.last())
    }
}

fn push_esc_char(out: &mut Vec<char>, c: char)
    ensures
        final(out)@ == old(out)@ + esc_char(c),
{
    if c == '&' {
        out.push('&');
        out.push('a');
        out.push('m');
        out.push('p');
        out.push(';');
    } else if c == '<' {
        out.push('&');
        out.push('l');
        out.push('t');
        out.push(';');
    } else if c == '>' {
        out.push('&');
        out.push('g');
        out.push('t');
        out.push(';');
    } else if c == '"' {
        out.push('&');
        out.push('q');
        out.push('u');
        out.push('o');
        out.push('t');
        out.push(';');
    } else if c == '\'' {
        out.push('&');
        out.push('#');
        out.push('3');
        out.push('9');
        out.push(';');
    } else {
        out.push(c);
    }
    assert(out@ =~= old(out)@ + esc_char(c));
}

/// Append the escaped form of `s` to `out`.
pub fn push_esc_chars(out: &mut Vec<char>, s: &Vec<char>)
    ensures
        final(out)@ == old(out)@ + esc_seq(s@),
{
    let mut i: usize = 0;
    while i < s.len()
        invariant
            i <= s@.len(),
            out@ == old(out)@ + esc_seq(s@.subrange(0, i as int)),
        decreases s@.len() - i,
    {
        push_esc_char(out, s[i]);
        i = i + 1;
        assert(s@.subrange(0, i as int).drop_last() =~= s@.subrange(0, i - 1));
    }
    assert(s@.subrange(0, s@.len() as int) =~= s@);
}

/// The escaped form of `s` as a fresh character vector.
pub fn esc_chars(s: &Vec<char>) -> (r: Vec<char>)
    ensures
        r@ == esc_seq(s@),
{
    let mut out: Vec<char> = Vec::new();
    push_esc_chars(&mut out, s);
    out
}

/// Append the HTML-escaped form of `s` to the string `out`.
pub fn html_esc_append(out: &mut String, s: &str)
    ensures
        final(out)@ == old(out)@ + esc_seq(s@),
{
    let mut v = chars_of(out.as_str());
    let sv = chars_of(s);
    push_esc_chars(&mut v, &sv);
    *out = string_of(&v);
}

/// The HTML-escaped form of `s` as a fresh string.
pub fn html_escape_text(s: &str) -> (r: String)
    ensures
        r@ == esc_seq(s@),
{
    let sv = chars_of(s);
    let e = esc_chars(&sv);
    string_of(&e)
}

/// Escaping never produces a double quote, so an escaped value may stand
/// inside a quoted HTML attribute.
pub proof fn lemma_esc_no_quote(s: Seq<char>)
    ensures
        forall|i: int| 0 <= i < esc_seq(s).len() ==> esc_seq(s)[i] != '"',
    decreases s.len(),
{
    if s.len() > 0 {
        lemma_esc_no_quote(s.drop_last());
        assert forall|i: int| 0 <= i < esc_seq(s).len() implies esc_seq(s)[i] != '"' by {
            let pre = esc_seq(s.drop_last());
            if i < pre.len() {
                assert(esc_seq(s)[i] == pre[i]);
            } else {
                assert(esc_seq(s)[i] == esc_char(s.last())[i - pre.len()]);
            }
        }
    }
}

} // verus!
