//! Slug derivation and raw markdown-link literals.
//!
//! A relationship entry in a document header is a raw literal of the shape
//! `[alias](target)`, optionally with angle brackets around the target.
//! This module extracts the alias and target, normalizes target basenames,
//! and derives slugs from filename stems.

use vstd::prelude::*;
use crate::text::{
    is_space, is_space_exec, leading_while, trailing_while, lemma_leading_while_is,
    lemma_trailing_while_is, trim_spec, trim_chars, sub_chars, lower_seq, lower_chars, lower_char,
    lower_char_exec, ends_with, check_ends_with,
};

verus! {

/// Characters that survive slugification: ASCII lowercase letters and digits.
pub open spec fn slug_keep(c: char) -> bool {
    ('a' <= c && c <= 'z') || ('0' <= c && c <= '9')
}

#[verifier::when_used_as_spec(slug_keep)]
pub fn slug_keep_exec(c: char) -> (r: bool)
    ensures
        r == slug_keep(c),
{
    ('a' <= c && c <= 'z') || ('0' <= c && c <= '9')
}

/// Phase one of slugification: lowercase, and turn every character that is
/// not a lowercase letter or digit into a hyphen.
pub open spec fn slug_map(s: Seq<char>) -> Seq<char> {
    s.map_values(
        |c: char|
            if slug_keep(lower_char(c)) {
                lower_char(c)
            } else {
                '-'
            },
    )
}

/// Phase two: collapse every run of hyphens to a single hyphen.
pub open spec fn collapse_hyphens(s: Seq<char>) -> Seq<char>
    decreases s.len(),
{
    if s.len() == 0 {
        Seq::empty()
    } else {
        let r = collapse_hyphens(s.drop_last());
        if s.last() == '-' && r.len() > 0 && r.last() == '-' {
            r
        } else {
            r.push(s.last())
        }
    }
}

/// Phase three: trim hyphens from both ends.
pub open spec fn trim_hyphens(s: Seq<char>) -> Seq<char> {
    let lead = leading_while(s, |c: char| c == '-');
    let trail = trailing_while(s, |c: char| c == '-');
    if lead == s.len() {
        Seq::empty()
    } else {
        s.subrange(lead, s.len() - trail)
    }
}

/// The slug of a filename stem: lowercased, runs of characters other than
/// `a..z`/`0..9` collapsed to one hyphen, hyphens trimmed from both ends.
pub open spec fn slug_spec(s: Seq<char>) -> Seq<char> {
    trim_hyphens(collapse_hyphens(slug_map(s)))
}

fn collapse_hyphen_chars(s: &Vec<char>) -> (r: Vec<char>)
    ensures
        r@ == collapse_hyphens(s@),
{
    let mut out: Vec<char> = Vec::new();
    let mut i: usize = 0;
    while i < s.len()
        invariant
            i <= s@.len(),
            out@ == collapse_hyphens(s@.subrange(0, i as int)),
        decreases s@.len() - i,
    {
        let c = s[i];
        if !(c == '-' && out.len() > 0 && out[out.len() - 1] == '-') {
            out.push(c);
        }
        i = i + 1;
        assert(s@.subrange(0, i as int).drop_last() =~= s@.subrange(0, i - 1));
    }
    assert(s@.subrange(0, s@.len() as int) =~= s@);
    out
}

fn trim_hyphen_chars(v: &Vec<char>) -> (r: Vec<char>)
    ensures
        r@ == trim_hyphens(v@),
{
    let ghost p = |c: char| c == '-';
    let mut a: usize = 0;
    while a < v.len() && v[a] == '-'
        invariant
            a <= v@.len(),
            forall|j: int| 0 <= j < a ==> v@[j] == '-',
        decreases v@.len() - a,
    {
        a = a + 1;
    }
    proof {
        lemma_leading_while_is(v@, p, a as int);
    }
    if a == v.len() {
        return Vec::new();
    }
    let mut b: usize = v.len();
    while b > a && v[b - 1] == '-'
        invariant
            a <= b <= v@.len(),
            v@[a as int] != '-',
            forall|j: int| b <= j < v@.len() ==> v@[j] == '-',
        decreases b,
    {
        b = b - 1;
    }
    proof {
        lemma_trailing_while_is(v@, p, (v@.len() - b) as int);
    }
    sub_chars(v, a, b)
}

/// Slug of a filename stem.
pub fn slugify(s: &Vec<char>) -> (r: Vec<char>)
    ensures
        r@ == slug_spec(s@),
{
    let mut mapped: Vec<char> = Vec::new();
    let mut i: usize = 0;
    while i < s.len()
        invariant
            i <= s@.len(),
            mapped@ == slug_map(s@.subrange(0, i as int)),
        decreases s@.len() - i,
    {
        let lc = lower_char_exec(s[i]);
        if slug_keep_exec(lc) {
            mapped.push(lc);
        } else {
            mapped.push('-');
        }
        i = i + 1;
        assert(mapped@ =~= slug_map(s@.subrange(0, i as int)));
    }
    assert(mapped@ =~= slug_map(s@));
    let collapsed = collapse_hyphen_chars(&mapped);
    trim_hyphen_chars(&collapsed)
}

/// The filename stem: everything before the last dot, or the whole name when
/// there is no dot.
pub open spec fn stem_spec(f: Seq<char>) -> Seq<char> {
    let tw = trailing_while(f, |c: char| c != '.');
    if tw == f.len() {
        f
    } else {
        f.subrange(0, f.len() - 1 - tw)
    }
}

pub fn stem_chars(f: &Vec<char>) -> (r: Vec<char>)
    ensures
        r@ == stem_spec(f@),
{
    let ghost p = |c: char| c != '.';
    let mut b: usize = f.len();
    while b > 0 && f[b - 1] != '.'
        invariant
            b <= f@.len(),
            forall|j: int| b <= j < f@.len() ==> f@[j] != '.',
        decreases b,
    {
        b = b - 1;
    }
    proof {
        lemma_trailing_while_is(f@, p, (f@.len() - b) as int);
    }
    if b == 0 {
        sub_chars(f, 0, f.len())
    } else {
        sub_chars(f, 0, b - 1)
    }
}

/// The basename: everything after the last slash, or the whole path.
pub open spec fn basename_spec(t: Seq<char>) -> Seq<char> {
    t.subrange(t.len() - trailing_while(t, |c: char| c != '/'), t.len() as int)
}

pub fn basename_chars(t: &Vec<char>) -> (r: Vec<char>)
    ensures
        r@ == basename_spec(t@),
{
    let ghost p = |c: char| c != '/';
    let mut b: usize = t.len();
    while b > 0 && t[b - 1] != '/'
        invariant
            b <= t@.len(),
            forall|j: int| b <= j < t@.len() ==> t@[j] != '/',
        decreases b,
    {
        b = b - 1;
    }
    proof {
        lemma_trailing_while_is(t@, p, (t@.len() - b) as int);
    }
    sub_chars(t, b, t.len())
}

/// The page-document extension, as a sequence.
pub open spec fn md_ext() -> Seq<char> {
    seq!['.', 'm', 'd']
}

fn md_ext_chars() -> (r: Vec<char>)
    ensures
        r@ == md_ext(),
{
    let mut v: Vec<char> = Vec::new();
    v.push('.');
    v.push('m');
    v.push('d');
    assert(v@ =~= md_ext());
    v
}

/// A raw link target normalized to a basename ending in the page extension:
/// the part after the last slash, with `.md` appended unless the lowercased
/// basename already ends in `.md`.
pub open spec fn norm_target_basename(t: Seq<char>) -> Seq<char> {
    let b = basename_spec(t);
    if ends_with(lower_seq(b), md_ext()) {
        b
    } else {
        b + md_ext()
    }
}

pub fn normalize_target_basename(t: &Vec<char>) -> (r: Vec<char>)
    ensures
        r@ == norm_target_basename(t@),
{
    let b = basename_chars(t);
    let lb = lower_chars(&b);
    let ext = md_ext_chars();
    if check_ends_with(&lb, &ext) {
        b
    } else {
        let mut r = b;
        r.push('.');
        r.push('m');
        r.push('d');
        assert(r@ =~= basename_spec(t@) + md_ext());
        r
    }
}

/// The alias and target of a raw `[alias](target)` literal, both trimmed,
/// or `None` when the trimmed literal does not have that shape.
///
/// The accepted shape, on the literal trimmed of surrounding spaces, is:
/// `[`, the alias (no `]`), `](`, optional spaces, an optional `<`, the
/// target (at least one character, no `)` and no `>`), an optional `>`,
/// optional spaces, and a final `)`.
pub open spec fn md_parts(raw: Seq<char>) -> Option<(Seq<char>, Seq<char>)> {
    let t = trim_spec(raw);
    if t.len() < 2 || t[0] != '[' || t.last() != ')' {
        None
    } else {
        let cb = 1 + leading_while(t.drop_first(), |c: char| c != ']');
        if cb + 1 >= t.len() || t[cb + 1] != '(' {
            None
        } else {
            let inner = t.subrange(cb + 2, t.len() - 1);
            let i0 = leading_while(inner, |c: char| is_space(c));
            let i1 = if i0 < inner.len() && inner[i0] == '<' {
                i0 + 1
            } else {
                i0
            };
            let core_len = leading_while(inner.skip(i1), |c: char| c != ')' && c != '>');
            if core_len == 0 {
                None
            } else {
                let j0 = i1 + core_len;
                let j1 = if j0 < inner.len() && inner[j0] == '>' {
                    j0 + 1
                } else {
                    j0
                };
                if leading_while(inner.skip(j1), |c: char| is_space(c)) == inner.len() - j1 {
                    Some((trim_spec(t.subrange(1, cb)), trim_spec(inner.subrange(i1, j0))))
                } else {
                    None
                }
            }
        }
    }
}

/// Extract alias and target from a raw `[alias](target)` literal.
pub fn extract_md_link_parts(raw: &Vec<char>) -> (r: Option<(Vec<char>, Vec<char>)>)
    ensures
        r is Some <==> md_parts(raw@) is Some,
        r matches Some((a, t)) ==> Some((a@, t@)) == md_parts(raw@),
{
    let t = trim_chars(raw);
    if t.len() < 2 || t[0] != '[' || t[t.len() - 1] != ')' {
        return None;
    }
    // first `]` in t (t[0] is `[`, so scanning may start at 1)
    let ghost notcb = |c: char| c != ']';
    let mut cb: usize = 1;
    while cb < t.len() && t[cb] != ']'
        invariant
            1 <= cb <= t@.len(),
            forall|j: int| 1 <= j < cb ==> t@[j] != ']',
        decreases t@.len() - cb,
    {
        cb = cb + 1;
    }
    proof {
        assert forall|j: int| 0 <= j < cb - 1 implies notcb(t@.drop_first()[j]) by {
            assert(t@.drop_first()[j] == t@[j + 1]);
        }
        if cb < t@.len() {
            assert(t@.drop_first()[cb - 1] == t@[cb as int]);
        }
        lemma_leading_while_is(t@.drop_first(), notcb, cb - 1 as int);
    }
    if cb >= t.len() - 1 || t[cb + 1] != '(' {
        return None;
    }
    let inner = sub_chars(&t, cb + 2, t.len() - 1);
    // spaces
    let ghost sp = |c: char| is_space(c);
    let mut i0: usize = 0;
    while i0 < inner.len() && is_space_exec(inner[i0])
        invariant
            i0 <= inner@.len(),
            forall|j: int| 0 <= j < i0 ==> is_space(inner@[j]),
        decreases inner@.len() - i0,
    {
        i0 = i0 + 1;
    }
    proof {
        lemma_leading_while_is(inner@, sp, i0 as int);
    }
    // optional `<`
    let i1: usize = if i0 < inner.len() && inner[i0] == '<' {
        i0 + 1
    } else {
        i0
    };
    // target core
    let ghost tc = |c: char| c != ')' && c != '>';
    let mut j0: usize = i1;
    while j0 < inner.len() && inner[j0] != ')' && inner[j0] != '>'
        invariant
            i1 <= j0 <= inner@.len(),
            forall|j: int| i1 <= j < j0 ==> inner@[j] != ')' && inner@[j] != '>',
        decreases inner@.len() - j0,
    {
        j0 = j0 + 1;
    }
    proof {
        assert forall|j: int| 0 <= j < j0 - i1 implies tc(inner@.skip(i1 as int)[j]) by {
            assert(inner@.skip(i1 as int)[j] == inner@[j + i1]);
        }
        if (j0 as int) < inner@.len() {
            assert(inner@.skip(i1 as int)[j0 - i1] == inner@[j0 as int]);
        }
        lemma_leading_while_is(inner@.skip(i1 as int), tc, j0 - i1 as int);
    }
    if j0 == i1 {
        return None;
    }
    // optional `>`
    let j1: usize = if j0 < inner.len() && inner[j0] == '>' {
        j0 + 1
    } else {
        j0
    };
    // the rest must be spaces
    let mut j2: usize = j1;
    while j2 < inner.len() && is_space_exec(inner[j2])
        invariant
            j1 <= j2 <= inner@.len(),
            forall|j: int| j1 <= j < j2 ==> is_space(inner@[j]),
        decreases inner@.len() - j2,
    {
        j2 = j2 + 1;
    }
    proof {
        assert forall|j: int| 0 <= j < j2 - j1 implies sp(inner@.skip(j1 as int)[j]) by {
            assert(inner@.skip(j1 as int)[j] == inner@[j + j1]);
        }
        if (j2 as int) < inner@.len() {
            assert(inner@.skip(j1 as int)[j2 - j1] == inner@[j2 as int]);
        }
        lemma_leading_while_is(inner@.skip(j1 as int), sp, j2 - j1 as int);
    }
    if j2 < inner.len() {
        return None;
    }
    let alias_raw = sub_chars(&t, 1, cb);
    let core_raw = sub_chars(&inner, i1, j0);
    let alias = trim_chars(&alias_raw);
    let target = trim_chars(&core_raw);
    Some((alias, target))
}

} // verus!
