//! Attachment discovery, deduplication and reference rewriting.
//!
//! Rendered fragments are scanned for quoted `src="..."` and `href="..."`
//! values. A value is a candidate attachment iff it is non-empty, does not
//! start with `#` or `/`, is not a `data:` or `mailto:` URI, holds no
//! `://`, and does not end in the page extension before any query or
//! fragment. Each distinct resolved source file gets one target name under
//! `assets/`, reused across documents; colliding basenames get a numeric
//! suffix. References are rewritten to the assigned target, spaces
//! re-encoded as `%20`, with a `../` prefix for non-root pages of a nested
//! layout.

use vstd::prelude::*;
use crate::text::{
    matches_at, find_from, lemma_find_from_props, lemma_find_from_is, find_char, find_sub,
    sub_chars, push_chars, push_str_chars, lower_seq, lower_chars, starts_with, check_starts_with, ends_with,
    check_ends_with, decode20, decode20_chars, encode20, encode20_chars, dec_spec, dec_chars,
    dec_usize_chars, chars_of,
};
use crate::links::{md_ext, basename_spec, basename_chars};
use crate::rewrite::url_core;
use crate::metadata::contains_chars;

verus! {

// ------------------------------------------------------------------
// Candidates
// ------------------------------------------------------------------

/// Is a quoted attribute value a candidate attachment reference?
pub open spec fn is_candidate(v: Seq<char>) -> bool {
    &&& v.len() > 0
    &&& v[0] != '#'
    &&& v[0] != '/'
    &&& !starts_with(v, seq!['d', 'a', 't', 'a', ':'])
    &&& !starts_with(v, seq!['m', 'a', 'i', 'l', 't', 'o', ':'])
    &&& find_from(v, 0, seq![':', '/', '/']) is None
    &&& !ends_with(lower_seq(url_core(v)), md_ext())
}

/// Decide whether a value is a candidate attachment reference.
#[verifier::loop_isolation(false)]
pub fn check_candidate(v: &Vec<char>) -> (r: bool)
    ensures
        r == is_candidate(v@),
{
    if v.len() == 0 {
        return false;
    }
    if v[0] == '#' || v[0] == '/' {
        return false;
    }
    let data_pat = {
        let mut p: Vec<char> = Vec::new();
        p.push('d');
        p.push('a');
        p.push('t');
        p.push('a');
        p.push(':');
        assert(p@ =~= seq!['d', 'a', 't', 'a', ':']);
        p
    };
    if check_starts_with(v, &data_pat) {
        return false;
    }
    let mailto_pat = {
        let mut p: Vec<char> = Vec::new();
        p.push('m');
        p.push('a');
        p.push('i');
        p.push('l');
        p.push('t');
        p.push('o');
        p.push(':');
        assert(p@ =~= seq!['m', 'a', 'i', 'l', 't', 'o', ':']);
        p
    };
    if check_starts_with(v, &mailto_pat) {
        return false;
    }
    let scheme_pat = {
        let mut p: Vec<char> = Vec::new();
        p.push(':');
        p.push('/');
        p.push('/');
        assert(p@ =~= seq![':', '/', '/']);
        p
    };
    match find_sub(v, 0, &scheme_pat) {
        Some(i) => {
            proof {
                lemma_find_from_props(v@, 0, seq![':', '/', '/']);
                match find_from(v@, 0, seq![':', '/', '/']) {
                    Some(_) => {},
                    None => {
                        assert(!matches_at(v@, i as int, seq![':', '/', '/']));
                    },
                }
            }
            return false;
        },
        None => {
            proof {
                lemma_find_from_props(v@, 0, seq![':', '/', '/']);
                match find_from(v@, 0, seq![':', '/', '/']) {
                    Some(p) => {
                        assert(!matches_at(v@, p, seq![':', '/', '/']));
                    },
                    None => {},
                }
            }
        },
    }
    let split = {
        let mut i: usize = 0;
        while i < v.len() && v[i] != '?' && v[i] != '#'
            invariant
                i <= v@.len(),
                forall|j: int| 0 <= j < i ==> v@[j] != '?' && v@[j] != '#',
            decreases v@.len() - i,
        {
            i = i + 1;
        }
        proof {
            crate::text::lemma_leading_while_is(v@, |c: char| c != '?' && c != '#', i as int);
        }
        i
    };
    let core = sub_chars(v, 0, split);
    let lower = lower_chars(&core);
    let ext = {
        let mut e: Vec<char> = Vec::new();
        e.push('.');
        e.push('m');
        e.push('d');
        assert(e@ =~= md_ext());
        e
    };
    !check_ends_with(&lower, &ext)
}

// ------------------------------------------------------------------
// Attribute scanning
// ------------------------------------------------------------------

/// Case-insensitive match of `pat` (already lowercase) at `i`.
pub open spec fn matches_ci(h: Seq<char>, i: int, pat: Seq<char>) -> bool {
    0 <= i && i + pat.len() <= h.len() && lower_seq(h.subrange(i, i + pat.len())) == pat
}

pub open spec fn src_pat() -> Seq<char> {
    seq!['s', 'r', 'c', '=', '"']
}

pub open spec fn href_attr_pat() -> Seq<char> {
    seq!['h', 'r', 'e', 'f', '=', '"']
}

/// A quoted attribute of interest at `i`: the start of its value.
pub open spec fn attr_at(h: Seq<char>, i: int) -> Option<int> {
    if matches_ci(h, i, src_pat()) {
        Some(i + 5)
    } else if matches_ci(h, i, href_attr_pat()) {
        Some(i + 6)
    } else {
        None
    }
}

/// The first attribute of interest at or after `i`.
pub open spec fn next_attr(h: Seq<char>, i: int) -> Option<(int, int)>
    decreases h.len() - i,
{
    if i < 0 || i >= h.len() {
        None
    } else {
        match attr_at(h, i) {
            Some(vs) => Some((i, vs)),
            None => next_attr(h, i + 1),
        }
    }
}

proof fn lemma_next_attr_props(h: Seq<char>, i: int)
    requires
        0 <= i,
    ensures
        match next_attr(h, i) {
            Some(t) => i <= t.0 && attr_at(h, t.0) == Some(t.1) && forall|j: int|
                i <= j < t.0 ==> attr_at(h, j) is None,
            None => forall|j: int| i <= j < h.len() ==> attr_at(h, j) is None,
        },
    decreases h.len() - i,
{
    if 0 <= i < h.len() && attr_at(h, i) is None {
        lemma_next_attr_props(h, i + 1);
    }
}

proof fn lemma_next_attr_is(h: Seq<char>, i: int, p: int, vs: int)
    requires
        0 <= i <= p < h.len(),
        attr_at(h, p) == Some(vs),
        forall|j: int| i <= j < p ==> attr_at(h, j) is None,
    ensures
        next_attr(h, i) == Some((p, vs)),
    decreases p - i,
{
    if i < p {
        lemma_next_attr_is(h, i + 1, p, vs);
    }
}

proof fn lemma_next_attr_none(h: Seq<char>, i: int)
    requires
        0 <= i,
        forall|j: int| i <= j < h.len() ==> attr_at(h, j) is None,
    ensures
        next_attr(h, i) is None,
    decreases h.len() - i,
{
    if 0 <= i < h.len() {
        lemma_next_attr_none(h, i + 1);
    }
}

#[verifier::loop_isolation(false)]
fn check_ci_at(h: &Vec<char>, i: usize, pat: &Vec<char>) -> (r: bool)
    requires
        forall|k: int| 0 <= k < pat@.len() ==> crate::text::lower_char(pat@[k]) == pat@[k],
    ensures
        r == matches_ci(h@, i as int, pat@),
{
    if i > h.len() || pat.len() > h.len() - i {
        assert(!matches_ci(h@, i as int, pat@));
        return false;
    }
    let mut k: usize = 0;
    while k < pat.len()
        invariant
            i + pat@.len() <= h@.len(),
            k <= pat@.len(),
            forall|j: int| 0 <= j < k ==> crate::text::lower_char(h@[i + j]) == pat@[j],
        decreases pat@.len() - k,
    {
        if crate::text::lower_char_exec(h[i + k]) != pat[k] {
            assert(lower_seq(h@.subrange(i as int, i + pat@.len()))[k as int] == crate::text::lower_char(
                h@[i + k],
            ));
            return false;
        }
        k = k + 1;
    }
    assert(lower_seq(h@.subrange(i as int, i + pat@.len())) =~= pat@);
    true
}

/// The attribute values of a fragment, in scan order.
pub open spec fn scan_vals(h: Seq<char>) -> Seq<Seq<char>>
    decreases h.len(),
    via scan_vals_dec
{
    match next_attr(h, 0) {
        None => Seq::empty(),
        Some(t) => match find_from(h, t.1, seq!['"']) {
            None => Seq::empty(),
            Some(q) => seq![h.subrange(t.1, q)] + scan_vals(h.skip(q + 1)),
        },
    }
}

#[via_fn]
proof fn scan_vals_dec(h: Seq<char>) {
    lemma_next_attr_props(h, 0);
    match next_attr(h, 0) {
        None => {},
        Some(t) => {
            lemma_find_from_props(h, t.1, seq!['"']);
        },
    }
}

/// Find the first attribute of interest at or after `pos`.
#[verifier::loop_isolation(false)]
fn find_attr(h: &Vec<char>, pos: usize) -> (r: Option<(usize, usize)>)
    requires
        pos <= h@.len(),
    ensures
        match r {
            Some(t) => pos <= t.0 < h@.len() && attr_at(h@, t.0 as int) == Some(t.1 as int)
                && t.0 < t.1 <= h@.len() && forall|j: int|
                pos <= j < t.0 ==> attr_at(h@, j) is None,
            None => forall|j: int| pos <= j < h@.len() ==> attr_at(h@, j) is None,
        },
{
    let src_p = {
        let mut p: Vec<char> = Vec::new();
        p.push('s');
        p.push('r');
        p.push('c');
        p.push('=');
        p.push('"');
        assert(p@ =~= src_pat());
        p
    };
    let href_p = {
        let mut p: Vec<char> = Vec::new();
        p.push('h');
        p.push('r');
        p.push('e');
        p.push('f');
        p.push('=');
        p.push('"');
        assert(p@ =~= href_attr_pat());
        p
    };
    proof {
        assert forall|k: int| 0 <= k < src_pat().len() implies crate::text::lower_char(
            src_pat()[k],
        ) == src_pat()[k] by {}
        assert forall|k: int| 0 <= k < href_attr_pat().len() implies crate::text::lower_char(
            href_attr_pat()[k],
        ) == href_attr_pat()[k] by {}
    }
    let mut p: usize = pos;
    while p < h.len()
        invariant
            pos <= p <= h@.len(),
            src_p@ == src_pat(),
            href_p@ == href_attr_pat(),
            forall|j: int| pos <= j < p ==> attr_at(h@, j) is None,
        decreases h@.len() - p,
    {
        if check_ci_at(h, p, &src_p) {
            return Some((p, p + 5));
        }
        if check_ci_at(h, p, &href_p) {
            return Some((p, p + 6));
        }
        p = p + 1;
    }
    None
}

/// Collect the quoted attribute values of a fragment.
#[verifier::loop_isolation(false)]
#[verifier::rlimit(100)]
pub fn scan_vals_exec(h: &Vec<char>) -> (r: Vec<Vec<char>>)
    ensures
        r@.map_values(|s: Vec<char>| s@) == scan_vals(h@),
{
    let mut out: Vec<Vec<char>> = Vec::new();
    let mut pos: usize = 0;
    assert(h@.skip(0) =~= h@);
    while pos < h.len()
        invariant
            pos <= h@.len(),
            scan_vals(h@) == out@.map_values(|s: Vec<char>| s@) + scan_vals(h@.skip(pos as int)),
        decreases h@.len() - pos,
    {
        let ghost rest = h@.skip(pos as int);
        match find_attr(h, pos) {
            None => {
                proof {
                    assert forall|j: int| 0 <= j < rest.len() implies attr_at(rest, j) is None by {
                        lemma_attr_at_skip(h@, pos as int, j);
                    }
                    lemma_next_attr_none(rest, 0);
                }
                pos = h.len();
                assert(scan_vals(h@.skip(pos as int)) =~= Seq::<Seq<char>>::empty());
            },
            Some((p, vstart)) => {
                proof {
                    assert forall|j: int| 0 <= j < p - pos implies attr_at(rest, j) is None by {
                        lemma_attr_at_skip(h@, pos as int, j);
                    }
                    lemma_attr_at_skip(h@, pos as int, p - pos as int);
                    lemma_next_attr_is(rest, 0, p - pos as int, vstart - pos as int);
                }
                match find_char(h, vstart, '"') {
                    None => {
                        proof {
                            assert forall|j: int| j >= vstart - pos implies !matches_at(
                                rest,
                                j,
                                seq!['"'],
                            ) by {
                                if 0 <= j && j + 1 <= rest.len() {
                                    assert(rest.subrange(j, j + 1)[0] == rest[j]);
                                    assert(rest[j] == h@[pos + j]);
                                }
                            }
                            lemma_find_from_is(rest, vstart - pos as int, seq!['"'], None);
                        }
                        pos = h.len();
                        assert(scan_vals(h@.skip(pos as int)) =~= Seq::<Seq<char>>::empty());
                    },
                    Some(q) => {
                        proof {
                            assert forall|j: int| vstart - pos <= j < q - pos implies !matches_at(
                                rest,
                                j,
                                seq!['"'],
                            ) by {
                                assert(rest.subrange(j, j + 1)[0] == rest[j]);
                                assert(rest[j] == h@[pos + j]);
                            }
                            assert(rest[q - pos] == h@[q as int]);
                            assert(rest.subrange(q - pos, q - pos + 1) =~= seq!['"']);
                            assert(matches_at(rest, q - pos, seq!['"']));
                            lemma_find_from_is(rest, vstart - pos as int, seq!['"'], Some(q - pos));
                        }
                        let val = sub_chars(h, vstart, q);
                        let ghost out0 = out@.map_values(|s: Vec<char>| s@);
                        out.push(val);
                        let ghost oldpos = pos as int;
                        pos = q + 1;
                        proof {
                            assert(val@ =~= rest.subrange(vstart - oldpos, q - oldpos));
                            assert(h@.skip(pos as int) =~= rest.skip(q - oldpos + 1));
                            assert(out@.map_values(|s: Vec<char>| s@) =~= out0 + seq![val@]);
                            assert(out0 + (seq![val@] + scan_vals(h@.skip(pos as int))) =~= (out0
                                + seq![val@]) + scan_vals(h@.skip(pos as int)));
                        }
                    },
                }
            },
        }
    }
    assert(scan_vals(h@.skip(pos as int)) =~= Seq::<Seq<char>>::empty());
    assert(out@.map_values(|s: Vec<char>| s@) =~= scan_vals(h@));
    out
}

proof fn lemma_attr_at_skip(h: Seq<char>, n: int, j: int)
    requires
        0 <= n <= h.len(),
        0 <= j,
    ensures
        attr_at(h.skip(n), j) == (match attr_at(h, n + j) {
            Some(vs) => Some(vs - n),
            None => None::<int>,
        }),
{
    let r = h.skip(n);
    if j + src_pat().len() <= r.len() {
        assert(r.subrange(j, j + 5) =~= h.subrange(n + j, n + j + 5));
    }
    if j + href_attr_pat().len() <= r.len() {
        assert(r.subrange(j, j + 6) =~= h.subrange(n + j, n + j + 6));
    }
    assert(matches_ci(r, j, src_pat()) == matches_ci(h, n + j, src_pat()));
    assert(matches_ci(r, j, href_attr_pat()) == matches_ci(h, n + j, href_attr_pat()));
}

// ------------------------------------------------------------------
// Target naming
// ------------------------------------------------------------------

/// The longest length among the used names.
pub open spec fn max_len(used: Seq<Seq<char>>) -> int
    decreases used.len(),
{
    if used.len() == 0 {
        0
    } else {
        let m = max_len(used.drop_last());
        if used.last().len() > m {
            used.last().len() as int
        } else {
            m
        }
    }
}

proof fn lemma_max_len_ge(used: Seq<Seq<char>>)
    ensures
        forall|i: int| 0 <= i < used.len() ==> used[i].len() <= max_len(used),
    decreases used.len(),
{
    if used.len() > 0 {
        lemma_max_len_ge(used.drop_last());
        assert forall|i: int| 0 <= i < used.len() implies used[i].len() <= max_len(used) by {
            if i < used.len() - 1 {
                assert(used.drop_last()[i] == used[i]);
            }
        }
    }
}

/// The stem and the extension (with its dot) of a basename.
pub open spec fn split_base(base: Seq<char>) -> (Seq<char>, Seq<char>) {
    let tw = crate::text::trailing_while(base, |c: char| c != '.');
    if tw == base.len() {
        (base, Seq::empty())
    } else {
        (base.subrange(0, base.len() - 1 - tw), base.subrange(base.len() - 1 - tw, base.len() as int))
    }
}

pub open spec fn suffixed(stem: Seq<char>, ext: Seq<char>, n: int) -> Seq<char> {
    stem + seq!['-'] + dec_spec(n as nat) + ext
}

/// Try `stem-1.ext`, `stem-2.ext`, … up to `cap`.
pub open spec fn try_suffixes(
    used: Seq<Seq<char>>,
    stem: Seq<char>,
    ext: Seq<char>,
    n: int,
    cap: int,
) -> Option<Seq<char>>
    decreases cap + 1 - n when n >= 1
{
    if n > cap {
        None
    } else if !used.contains(suffixed(stem, ext, n)) {
        Some(suffixed(stem, ext, n))
    } else {
        try_suffixes(used, stem, ext, n + 1, cap)
    }
}

/// Extend a name until it is longer than every used name.
pub open spec fn pad_free(c: Seq<char>, maxl: int) -> Seq<char>
    decreases maxl + 2 - c.len(),
{
    if c.len() > maxl {
        c
    } else {
        pad_free(c + seq!['-', '1'], maxl)
    }
}

/// The target basename for a new source: the basename itself when free,
/// else the first free numeric suffix, else a name longer than every used
/// name.
pub open spec fn name_cap(used: Seq<Seq<char>>) -> int {
    if used.len() < 1000000 {
        used.len() as int
    } else {
        1000000
    }
}

pub open spec fn assign_name(used: Seq<Seq<char>>, base: Seq<char>) -> Seq<char> {
    if !used.contains(base) {
        base
    } else {
        let s = split_base(base);
        match try_suffixes(used, s.0, s.1, 1, name_cap(used)) {
            Some(c) => c,
            None => pad_free(suffixed(s.0, s.1, 1), max_len(used)),
        }
    }
}

proof fn lemma_try_suffixes_free(
    used: Seq<Seq<char>>,
    stem: Seq<char>,
    ext: Seq<char>,
    n: int,
    cap: int,
)
    requires
        n >= 1,
    ensures
        match try_suffixes(used, stem, ext, n, cap) {
            Some(c) => !used.contains(c),
            None => true,
        },
    decreases cap + 1 - n,
{
    if n > cap {
    } else if !used.contains(suffixed(stem, ext, n)) {
    } else {
        lemma_try_suffixes_free(used, stem, ext, n + 1, cap);
    }
}

proof fn lemma_pad_free_long(c: Seq<char>, maxl: int)
    ensures
        pad_free(c, maxl).len() > maxl,
    decreases maxl + 2 - c.len(),
{
    if c.len() > maxl {
    } else {
        lemma_pad_free_long(c + seq!['-', '1'], maxl);
    }
}

/// An assigned name is never one of the used names.
pub proof fn lemma_assign_name_free(used: Seq<Seq<char>>, base: Seq<char>)
    ensures
        !used.contains(assign_name(used, base)),
{
    if used.contains(base) {
        let s = split_base(base);
        lemma_try_suffixes_free(used, s.0, s.1, 1, name_cap(used));
        match try_suffixes(used, s.0, s.1, 1, name_cap(used)) {
            Some(_) => {},
            None => {
                lemma_pad_free_long(suffixed(s.0, s.1, 1), max_len(used));
                lemma_max_len_ge(used);
                let c = pad_free(suffixed(s.0, s.1, 1), max_len(used));
                if used.contains(c) {
                    let i = choose|i: int| 0 <= i < used.len() && used[i] == c;
                    assert(used[i].len() <= max_len(used));
                }
            },
        }
    }
}

#[verifier::loop_isolation(false)]
fn assign_name_exec(used: &Vec<Vec<char>>, base: &Vec<char>) -> (r: Vec<char>)
    ensures
        r@ == assign_name(used@.map_values(|s: Vec<char>| s@), base@),
{
    let ghost uv = used@.map_values(|s: Vec<char>| s@);
    if !contains_chars(used, base) {
        return base.clone();
    }
    // split at the last dot
    let stem;
    let ext;
    {
        let ghost pdot = |c: char| c != '.';
        let mut b: usize = base.len();
        while b > 0 && base[b - 1] != '.'
            invariant
                b <= base@.len(),
                forall|j: int| b <= j < base@.len() ==> base@[j] != '.',
            decreases b,
        {
            b = b - 1;
        }
        proof {
            crate::text::lemma_trailing_while_is(base@, pdot, (base@.len() - b) as int);
        }
        if b == 0 {
            stem = base.clone();
            ext = Vec::<char>::new();
            assert(stem@ == split_base(base@).0);
            assert(ext@ =~= split_base(base@).1);
        } else {
            stem = sub_chars(base, 0, b - 1);
            ext = sub_chars(base, b - 1, base.len());
            assert(stem@ == split_base(base@).0);
            assert(ext@ == split_base(base@).1);
        }
    }
    let capx: usize = if used.len() < 1000000 {
        used.len()
    } else {
        1000000
    };
    let ghost cap: int = name_cap(uv);
    assert(cap == capx as int);
    let mut n: usize = 1;
    while n <= capx
        invariant
            1 <= n <= capx + 1,
            capx <= 1000000,
            cap == capx as int,
            uv == used@.map_values(|s: Vec<char>| s@),
            stem@ == split_base(base@).0,
            ext@ == split_base(base@).1,
            try_suffixes(uv, stem@, ext@, 1, cap) == try_suffixes(uv, stem@, ext@, n as int, cap),
        decreases capx + 1 - n,
    {
        let mut cand = stem.clone();
        cand.push('-');
        let d = dec_usize_chars(n);
        push_chars(&mut cand, &d);
        push_chars(&mut cand, &ext);
        assert(cand@ =~= suffixed(stem@, ext@, n as int));
        if !contains_chars(used, &cand) {
            assert(try_suffixes(uv, stem@, ext@, n as int, cap) == Some(cand@));
            return cand;
        }
        n = n + 1;
    }
    assert(try_suffixes(uv, stem@, ext@, n as int, cap) is None);
    assert(try_suffixes(uv, stem@, ext@, 1, cap) is None);
    // fall back to a name longer than every used one
    let mut maxl: usize = 0;
    let mut i: usize = 0;
    while i < used.len()
        invariant
            i <= used@.len(),
            uv == used@.map_values(|s: Vec<char>| s@),
            maxl as int == max_len(uv.subrange(0, i as int)),
        decreases used@.len() - i,
    {
        if used[i].len() > maxl {
            maxl = used[i].len();
        }
        i = i + 1;
        proof {
            assert(uv.subrange(0, i as int).drop_last() =~= uv.subrange(0, i - 1));
            assert(uv.subrange(0, i as int).last() == uv[i - 1]);
        }
    }
    assert(uv.subrange(0, uv.len() as int) =~= uv);
    let mut cand = stem.clone();
    cand.push('-');
    let d = dec_chars(1);
    push_chars(&mut cand, &d);
    push_chars(&mut cand, &ext);
    assert(cand@ =~= suffixed(stem@, ext@, 1));
    while cand.len() <= maxl
        invariant
            uv == used@.map_values(|s: Vec<char>| s@),
            maxl as int == max_len(uv),
            pad_free(cand@, maxl as int) == pad_free(suffixed(stem@, ext@, 1), maxl as int),
        decreases maxl + 2 - cand.len(),
    {
        let ghost c0 = cand@;
        cand.push('-');
        cand.push('1');
        assert(cand@ =~= c0 + seq!['-', '1']);
    }
    cand
}

// ------------------------------------------------------------------
// The copy plan
// ------------------------------------------------------------------

/// One scanned attribute occurrence: the raw value, the source path it
/// resolved to, and what the file provider said about that path. For a
/// value that is not a candidate the last three fields are unused.
pub struct CandInfo {
    pub value: Vec<char>,
    pub resolved: Vec<char>,
    pub exists: bool,
    pub is_file: bool,
}

pub open spec fn ci_view(c: CandInfo) -> (Seq<char>, Seq<char>, bool, bool) {
    (c.value@, c.resolved@, c.exists, c.is_file)
}

pub open spec fn infos_view(v: Vec<CandInfo>) -> Seq<(Seq<char>, Seq<char>, bool, bool)> {
    v@.map_values(|c: CandInfo| ci_view(c))
}

/// The target basename for a resolved source: its path basename, or a
/// fixed word when the basename is empty.
pub open spec fn base_of(resolved: Seq<char>) -> Seq<char> {
    if basename_spec(resolved).len() == 0 {
        "attachment"@
    } else {
        basename_spec(resolved)
    }
}

/// One scanned occurrence extends the source map: a candidate that
/// resolved to an existing file and has no entry yet gets a fresh target
/// under `assets/`.
pub open spec fn step_plan(
    m: Seq<(Seq<char>, Seq<char>)>,
    used: Seq<Seq<char>>,
    info: (Seq<char>, Seq<char>, bool, bool),
) -> (Seq<(Seq<char>, Seq<char>)>, Seq<Seq<char>>) {
    if is_candidate(info.0) && info.2 && info.3 && crate::metadata::am_lookup(m, info.1) is None {
        let name = assign_name(used, base_of(info.1));
        (m.push((info.1, "assets/"@ + name)), used.push(name))
    } else {
        (m, used)
    }
}

/// The source map and used names after a document's occurrences.
pub open spec fn build_plan(
    infos: Seq<(Seq<char>, Seq<char>, bool, bool)>,
    m: Seq<(Seq<char>, Seq<char>)>,
    used: Seq<Seq<char>>,
) -> (Seq<(Seq<char>, Seq<char>)>, Seq<Seq<char>>)
    decreases infos.len(),
{
    if infos.len() == 0 {
        (m, used)
    } else {
        let st = step_plan(m, used, infos[0]);
        build_plan(infos.drop_first(), st.0, st.1)
    }
}

/// The well-formed state of the copy plan: as many used names as map
/// entries, each entry's target `assets/` plus its used name, sources and
/// used names pairwise distinct.
pub open spec fn plan_wf(m: Seq<(Seq<char>, Seq<char>)>, used: Seq<Seq<char>>) -> bool {
    &&& m.len() == used.len()
    &&& forall|i: int, j: int| 0 <= i < j < m.len() ==> m[i].0 != m[j].0
    &&& forall|i: int| 0 <= i < m.len() ==> #[trigger] m[i].1 == "assets/"@ + used[i]
    &&& forall|i: int, j: int| 0 <= i < j < used.len() ==> used[i] != used[j]
}

proof fn lemma_am_lookup_none(m: Seq<(Seq<char>, Seq<char>)>, k: Seq<char>)
    requires
        crate::metadata::am_lookup(m, k) is None,
    ensures
        forall|i: int| 0 <= i < m.len() ==> m[i].0 != k,
    decreases m.len(),
{
    if m.len() > 0 {
        lemma_am_lookup_none(m.drop_first(), k);
        assert forall|i: int| 0 <= i < m.len() implies m[i].0 != k by {
            if i > 0 {
                assert(m.drop_first()[i - 1] == m[i]);
            }
        }
    }
}

proof fn lemma_step_plan_wf(
    m: Seq<(Seq<char>, Seq<char>)>,
    used: Seq<Seq<char>>,
    info: (Seq<char>, Seq<char>, bool, bool),
)
    requires
        plan_wf(m, used),
    ensures
        plan_wf(step_plan(m, used, info).0, step_plan(m, used, info).1),
{
    if is_candidate(info.0) && info.2 && info.3 && crate::metadata::am_lookup(m, info.1)
        is None {
        lemma_am_lookup_none(m, info.1);
        lemma_assign_name_free(used, base_of(info.1));
        let name = assign_name(used, base_of(info.1));
        let m2 = m.push((info.1, "assets/"@ + name));
        let u2 = used.push(name);
        assert forall|i: int| 0 <= i < m2.len() implies #[trigger] m2[i].1 == "assets/"@
            + u2[i] by {
            if i < m.len() {
                assert(m2[i].1 == m[i].1);
                assert(u2[i] == used[i]);
            }
        }
        assert forall|i: int, j: int| 0 <= i < j < u2.len() implies u2[i] != u2[j] by {
            if j == u2.len() - 1 {
                if u2[i] == name {
                    assert(used.contains(used[i]));
                }
            }
        }
    }
}

pub proof fn lemma_build_plan_wf(
    infos: Seq<(Seq<char>, Seq<char>, bool, bool)>,
    m: Seq<(Seq<char>, Seq<char>)>,
    used: Seq<Seq<char>>,
)
    requires
        plan_wf(m, used),
    ensures
        plan_wf(build_plan(infos, m, used).0, build_plan(infos, m, used).1),
    decreases infos.len(),
{
    if infos.len() > 0 {
        lemma_step_plan_wf(m, used, infos[0]);
        let st = step_plan(m, used, infos[0]);
        lemma_build_plan_wf(infos.drop_first(), st.0, st.1);
    }
}

/// In a well-formed plan, targets are pairwise distinct: two documents
/// referencing the same physical file share one entry, and distinct files
/// never share a target.
pub proof fn lemma_plan_targets_distinct(m: Seq<(Seq<char>, Seq<char>)>, used: Seq<Seq<char>>)
    requires
        plan_wf(m, used),
    ensures
        forall|i: int, j: int| 0 <= i < j < m.len() ==> m[i].1 != m[j].1,
{
    assert forall|i: int, j: int| 0 <= i < j < m.len() implies m[i].1 != m[j].1 by {
        assert(m[i].1 == "assets/"@ + used[i]);
        assert(m[j].1 == "assets/"@ + used[j]);
        if m[i].1 == m[j].1 {
            assert(("assets/"@ + used[i]).skip("assets/"@.len() as int) =~= used[i]);
            assert(("assets/"@ + used[j]).skip("assets/"@.len() as int) =~= used[j]);
        }
    }
}

/// The warnings of a document's occurrences, in scan order: a candidate
/// whose source is missing, or is not a file, is recorded and left as is.
pub open spec fn attach_warnings(infos: Seq<(Seq<char>, Seq<char>, bool, bool)>) -> Seq<Seq<char>>
    decreases infos.len(),
{
    if infos.len() == 0 {
        Seq::empty()
    } else {
        let w = attach_warnings(infos.drop_last());
        let info = infos.last();
        if is_candidate(info.0) && !info.2 {
            w.push("Attachment not found: "@ + info.1)
        } else if is_candidate(info.0) && info.2 && !info.3 {
            w.push("Attachment path is directory (skipped): "@ + info.1)
        } else {
            w
        }
    }
}

/// Fold one document's occurrences into the plan state and record its
/// warnings.
#[verifier::loop_isolation(false)]
pub fn process_doc_infos(
    infos: &Vec<CandInfo>,
    m: &mut Vec<(Vec<char>, Vec<char>)>,
    used: &mut Vec<Vec<char>>,
    warnings: &mut Vec<String>,
)
    ensures
        ({
            let res = build_plan(
                infos_view(*infos),
                crate::metadata::am_view(*old(m)),
                old(used)@.map_values(|s: Vec<char>| s@),
            );
            crate::metadata::am_view(*final(m)) == res.0 && final(used)@.map_values(
                |s: Vec<char>| s@,
            ) == res.1
        }),
        final(warnings)@.map_values(|s: String| s@) == old(warnings)@.map_values(|s: String| s@)
            + attach_warnings(infos_view(*infos)),
{
    let ghost iv = infos_view(*infos);
    let ghost m0 = crate::metadata::am_view(*m);
    let ghost u0 = used@.map_values(|s: Vec<char>| s@);
    let ghost w0 = warnings@.map_values(|s: String| s@);
    let mut i: usize = 0;
    assert(iv.skip(0) =~= iv);
    assert(iv.subrange(0, 0) =~= Seq::<(Seq<char>, Seq<char>, bool, bool)>::empty());
    while i < infos.len()
        invariant
            iv == infos_view(*infos),
            i <= infos@.len(),
            build_plan(iv, m0, u0) == build_plan(
                iv.skip(i as int),
                crate::metadata::am_view(*m),
                used@.map_values(|s: Vec<char>| s@),
            ),
            warnings@.map_values(|s: String| s@) == w0 + attach_warnings(iv.subrange(0, i as int)),
        decreases infos@.len() - i,
    {
        let info = &infos[i];
        let ghost mc = crate::metadata::am_view(*m);
        let ghost uc = used@.map_values(|s: Vec<char>| s@);
        assert(iv.skip(i as int)[0] == iv[i as int]);
        assert(iv[i as int] == ci_view(infos@[i as int]));
        let cand = check_candidate(&info.value);
        if cand && info.exists && info.is_file {
            match crate::metadata::am_lookup_exec(m, &info.resolved) {
                Some(_) => {},
                None => {
                    let b = basename_chars(&info.resolved);
                    let base = if b.len() == 0 {
                        chars_of("attachment")
                    } else {
                        b
                    };
                    assert(base@ == base_of(info.resolved@));
                    let name = assign_name_exec(used, &base);
                    let mut target: Vec<char> = Vec::new();
                    push_str_chars(&mut target, "assets/");
                    push_chars(&mut target, &name);
                    let ghost nv = name@;
                    m.push((info.resolved.clone(), target));
                    used.push(name);
                    proof {
                        assert(crate::metadata::am_view(*m) =~= mc.push(
                            (info.resolved@, "assets/"@ + nv),
                        ));
                        assert(used@.map_values(|s: Vec<char>| s@) =~= uc.push(nv));
                    }
                },
            }
        } else if cand && !info.exists {
            let mut w: Vec<char> = Vec::new();
            push_str_chars(&mut w, "Attachment not found: ");
            push_chars(&mut w, &info.resolved);
            let ghost wb = warnings@.map_values(|s: String| s@);
            warnings.push(crate::text::string_of(&w));
            assert(warnings@.map_values(|s: String| s@) =~= wb.push(
                "Attachment not found: "@ + info.resolved@,
            ));
        } else if cand && !info.is_file {
            let mut w: Vec<char> = Vec::new();
            push_str_chars(&mut w, "Attachment path is directory (skipped): ");
            push_chars(&mut w, &info.resolved);
            let ghost wb = warnings@.map_values(|s: String| s@);
            warnings.push(crate::text::string_of(&w));
            assert(warnings@.map_values(|s: String| s@) =~= wb.push(
                "Attachment path is directory (skipped): "@ + info.resolved@,
            ));
        }
        i = i + 1;
        proof {
            assert(iv.skip(i - 1).drop_first() =~= iv.skip(i as int));
            assert(iv.subrange(0, i as int).drop_last() =~= iv.subrange(0, i - 1));
            assert(iv.subrange(0, i as int).last() == iv[i - 1]);
            assert(warnings@.map_values(|s: String| s@) =~= w0 + attach_warnings(
                iv.subrange(0, i as int),
            ));
        }
    }
    assert(iv.skip(i as int) =~= Seq::<(Seq<char>, Seq<char>, bool, bool)>::empty());
    assert(iv.subrange(0, iv.len() as int) =~= iv);
}

// ------------------------------------------------------------------
// Reference rewriting
// ------------------------------------------------------------------

/// The replacement for one scanned value: a candidate whose recorded
/// resolution has a plan target becomes that target (with a `../` prefix
/// on pages one level deeper), spaces re-encoded; anything else stays.
pub open spec fn attach_target(
    v: Seq<char>,
    assoc: Seq<(Seq<char>, Seq<char>)>,
    m: Seq<(Seq<char>, Seq<char>)>,
    nested_child: bool,
) -> Option<Seq<char>> {
    if is_candidate(v) {
        match crate::metadata::am_lookup(assoc, v) {
            Some(r) => match crate::metadata::am_lookup(m, r) {
                Some(t) => Some(
                    encode20(
                        if nested_child {
                            "../"@ + t
                        } else {
                            t
                        },
                    ),
                ),
                None => None,
            },
            None => None,
        }
    } else {
        None
    }
}

/// A fragment with its attachment references rewritten.
pub open spec fn attach_rewrite(
    h: Seq<char>,
    assoc: Seq<(Seq<char>, Seq<char>)>,
    m: Seq<(Seq<char>, Seq<char>)>,
    nested_child: bool,
) -> Seq<char>
    decreases h.len(),
    via attach_rewrite_dec
{
    match next_attr(h, 0) {
        None => h,
        Some(t) => match find_from(h, t.1, seq!['"']) {
            None => h,
            Some(q) => h.subrange(0, t.1) + (match attach_target(
                h.subrange(t.1, q),
                assoc,
                m,
                nested_child,
            ) {
                Some(r) => r,
                None => h.subrange(t.1, q),
            }) + seq!['"'] + attach_rewrite(h.skip(q + 1), assoc, m, nested_child),
        },
    }
}

#[via_fn]
proof fn attach_rewrite_dec(
    h: Seq<char>,
    assoc: Seq<(Seq<char>, Seq<char>)>,
    m: Seq<(Seq<char>, Seq<char>)>,
    nested_child: bool,
) {
    lemma_next_attr_props(h, 0);
    match next_attr(h, 0) {
        None => {},
        Some(t) => {
            lemma_find_from_props(h, t.1, seq!['"']);
        },
    }
}

fn attach_target_exec(
    v: &Vec<char>,
    assoc: &Vec<(Vec<char>, Vec<char>)>,
    m: &Vec<(Vec<char>, Vec<char>)>,
    nested_child: bool,
) -> (r: Option<Vec<char>>)
    ensures
        match r {
            Some(t) => attach_target(
                v@,
                crate::metadata::am_view(*assoc),
                crate::metadata::am_view(*m),
                nested_child,
            ) == Some(t@),
            None => attach_target(
                v@,
                crate::metadata::am_view(*assoc),
                crate::metadata::am_view(*m),
                nested_child,
            ) is None,
        },
{
    if !check_candidate(v) {
        return None;
    }
    match crate::metadata::am_lookup_exec(assoc, v) {
        Some(resolved) => match crate::metadata::am_lookup_exec(m, &resolved) {
            Some(t) => {
                let mut path: Vec<char> = Vec::new();
                if nested_child {
                    push_str_chars(&mut path, "../");
                }
                push_chars(&mut path, &t);
                proof {
                    if nested_child {
                        assert(path@ =~= "../"@ + t@);
                    } else {
                        assert(path@ =~= t@);
                    }
                }
                Some(encode20_chars(&path))
            },
            None => None,
        },
        None => None,
    }
}

/// Rewrite the attachment references of a fragment.
#[verifier::loop_isolation(false)]
#[verifier::rlimit(100)]
pub fn attach_rewrite_html(
    h: &Vec<char>,
    assoc: &Vec<(Vec<char>, Vec<char>)>,
    m: &Vec<(Vec<char>, Vec<char>)>,
    nested_child: bool,
) -> (r: Vec<char>)
    ensures
        r@ == attach_rewrite(
            h@,
            crate::metadata::am_view(*assoc),
            crate::metadata::am_view(*m),
            nested_child,
        ),
{
    let ghost av = crate::metadata::am_view(*assoc);
    let ghost mv = crate::metadata::am_view(*m);
    let mut out: Vec<char> = Vec::new();
    let mut pos: usize = 0;
    assert(h@.skip(0) =~= h@);
    while pos < h.len()
        invariant
            pos <= h@.len(),
            av == crate::metadata::am_view(*assoc),
            mv == crate::metadata::am_view(*m),
            attach_rewrite(h@, av, mv, nested_child) == out@ + attach_rewrite(
                h@.skip(pos as int),
                av,
                mv,
                nested_child,
            ),
        decreases h@.len() - pos,
    {
        let ghost rest = h@.skip(pos as int);
        match find_attr(h, pos) {
            None => {
                proof {
                    assert forall|j: int| 0 <= j < rest.len() implies attr_at(rest, j) is None by {
                        lemma_attr_at_skip(h@, pos as int, j);
                    }
                    lemma_next_attr_none(rest, 0);
                }
                let tail = sub_chars(h, pos, h.len());
                push_chars(&mut out, &tail);
                proof {
                    assert(tail@ =~= rest);
                }
                pos = h.len();
                assert(attach_rewrite(h@.skip(pos as int), av, mv, nested_child)
                    =~= Seq::<char>::empty());
            },
            Some((p, vstart)) => {
                proof {
                    assert forall|j: int| 0 <= j < p - pos implies attr_at(rest, j) is None by {
                        lemma_attr_at_skip(h@, pos as int, j);
                    }
                    lemma_attr_at_skip(h@, pos as int, p - pos as int);
                    lemma_next_attr_is(rest, 0, p - pos as int, vstart - pos as int);
                }
                match find_char(h, vstart, '"') {
                    None => {
                        proof {
                            assert forall|j: int| j >= vstart - pos implies !matches_at(
                                rest,
                                j,
                                seq!['"'],
                            ) by {
                                if 0 <= j && j + 1 <= rest.len() {
                                    assert(rest.subrange(j, j + 1)[0] == rest[j]);
                                    assert(rest[j] == h@[pos + j]);
                                }
                            }
                            lemma_find_from_is(rest, vstart - pos as int, seq!['"'], None);
                        }
                        let tail = sub_chars(h, pos, h.len());
                        push_chars(&mut out, &tail);
                        proof {
                            assert(tail@ =~= rest);
                        }
                        pos = h.len();
                        assert(attach_rewrite(h@.skip(pos as int), av, mv, nested_child)
                            =~= Seq::<char>::empty());
                    },
                    Some(q) => {
                        proof {
                            assert forall|j: int| vstart - pos <= j < q - pos implies !matches_at(
                                rest,
                                j,
                                seq!['"'],
                            ) by {
                                assert(rest.subrange(j, j + 1)[0] == rest[j]);
                                assert(rest[j] == h@[pos + j]);
                            }
                            assert(rest[q - pos] == h@[q as int]);
                            assert(rest.subrange(q - pos, q - pos + 1) =~= seq!['"']);
                            assert(matches_at(rest, q - pos, seq!['"']));
                            lemma_find_from_is(rest, vstart - pos as int, seq!['"'], Some(q - pos));
                        }
                        let ghost out0 = out@;
                        let head = sub_chars(h, pos, vstart);
                        push_chars(&mut out, &head);
                        let val = sub_chars(h, vstart, q);
                        match attach_target_exec(&val, assoc, m, nested_child) {
                            Some(t) => {
                                push_chars(&mut out, &t);
                            },
                            None => {
                                push_chars(&mut out, &val);
                            },
                        }
                        out.push('"');
                        proof {
                            assert(head@ =~= rest.subrange(0, vstart - pos));
                            assert(val@ =~= rest.subrange(vstart - pos, q - pos));
                        }
                        let ghost oldpos = pos as int;
                        pos = q + 1;
                        proof {
                            assert(h@.skip(pos as int) =~= rest.skip(q - oldpos + 1));
                            assert(out0 + attach_rewrite(rest, av, mv, nested_child) =~= out@
                                + attach_rewrite(h@.skip(pos as int), av, mv, nested_child));
                        }
                    },
                }
            },
        }
    }
    assert(attach_rewrite(h@.skip(pos as int), av, mv, nested_child) =~= Seq::<char>::empty());
    assert(out@ =~= attach_rewrite(h@, av, mv, nested_child));
    out
}

// ------------------------------------------------------------------
// Plan ordering
// ------------------------------------------------------------------

/// Membership of a plan entry in a plan.
pub open spec fn entry_in(
    e: (Seq<char>, Seq<char>),
    mv: Seq<(Seq<char>, Seq<char>)>,
) -> bool {
    exists|j: int| 0 <= j < mv.len() && e == #[trigger] mv[j]
}

/// Lexicographic order on character sequences.
pub open spec fn lex_le(a: Seq<char>, b: Seq<char>) -> bool
    decreases a.len(),
{
    if a.len() == 0 {
        true
    } else if b.len() == 0 {
        false
    } else if a[0] != b[0] {
        (a[0] as int) < (b[0] as int)
    } else {
        lex_le(a.drop_first(), b.drop_first())
    }
}

pub proof fn lemma_lex_total(a: Seq<char>, b: Seq<char>)
    ensures
        lex_le(a, b) || lex_le(b, a),
    decreases a.len(),
{
    if a.len() > 0 && b.len() > 0 && a[0] == b[0] {
        lemma_lex_total(a.drop_first(), b.drop_first());
    }
}

#[verifier::loop_isolation(false)]
fn le_chars(a: &Vec<char>, b: &Vec<char>) -> (r: bool)
    ensures
        r == lex_le(a@, b@),
{
    let mut i: usize = 0;
    assert(a@.skip(0) =~= a@);
    assert(b@.skip(0) =~= b@);
    while i < a.len() && i < b.len()
        invariant
            i <= a@.len(),
            i <= b@.len(),
            lex_le(a@, b@) == lex_le(a@.skip(i as int), b@.skip(i as int)),
        decreases a@.len() - i,
    {
        if a[i] != b[i] {
            assert(a@.skip(i as int)[0] == a@[i as int]);
            assert(b@.skip(i as int)[0] == b@[i as int]);
            return a[i] < b[i];
        }
        proof {
            assert(a@.skip(i as int).drop_first() =~= a@.skip(i + 1));
            assert(b@.skip(i as int).drop_first() =~= b@.skip(i + 1));
        }
        i = i + 1;
    }
    proof {
        if i >= a.len() {
            assert(a@.skip(i as int).len() == 0);
        } else {
            assert(b@.skip(i as int).len() == 0);
            assert(a@.skip(i as int).len() > 0);
        }
    }
    a.len() <= b.len()
}

/// Order the copy plan by target. The result holds the same entries,
/// sorted by the lexicographic order of their targets.
#[verifier::loop_isolation(false)]
#[verifier::rlimit(100)]
pub fn sort_plan(m: Vec<(Vec<char>, Vec<char>)>) -> (r: Vec<(Vec<char>, Vec<char>)>)
    requires
        forall|i: int, j: int|
            0 <= i < j < crate::metadata::am_view(m).len() ==> crate::metadata::am_view(m)[i].0
                != crate::metadata::am_view(m)[j].0,
        forall|i: int, j: int|
            0 <= i < j < crate::metadata::am_view(m).len() ==> crate::metadata::am_view(m)[i].1
                != crate::metadata::am_view(m)[j].1,
    ensures
        ({
            let mv = crate::metadata::am_view(m);
            let rv = crate::metadata::am_view(r);
            &&& rv.len() == mv.len()
            &&& forall|i: int| 0 <= i < rv.len() ==> entry_in(#[trigger] rv[i], mv)
            &&& forall|i: int, j: int| 0 <= i < j < rv.len() ==> lex_le(rv[i].1, rv[j].1)
            &&& forall|i: int, j: int| 0 <= i < j < rv.len() ==> rv[i].0 != rv[j].0
            &&& forall|i: int, j: int| 0 <= i < j < rv.len() ==> rv[i].1 != rv[j].1
        }),
{
    let ghost mv = crate::metadata::am_view(m);
    let mut src = m;
    let mut out: Vec<(Vec<char>, Vec<char>)> = Vec::new();
    while src.len() > 0
        invariant
            crate::metadata::am_view(out).len() + crate::metadata::am_view(src).len() == mv.len(),
            forall|a: int|
                0 <= a < crate::metadata::am_view(out).len() ==> entry_in(
                    #[trigger] crate::metadata::am_view(out)[a],
                    mv,
                ),
            forall|a: int|
                0 <= a < crate::metadata::am_view(src).len() ==> entry_in(
                    #[trigger] crate::metadata::am_view(src)[a],
                    mv,
                ),
            forall|a: int, b: int|
                0 <= a < b < crate::metadata::am_view(out).len() ==> lex_le(
                    crate::metadata::am_view(out)[a].1,
                    crate::metadata::am_view(out)[b].1,
                ),
            forall|a: int, b: int|
                0 <= a < crate::metadata::am_view(out).len() && 0 <= b < crate::metadata::am_view(
                    src,
                ).len() ==> lex_le(
                    #[trigger] crate::metadata::am_view(out)[a].1,
                    #[trigger] crate::metadata::am_view(src)[b].1,
                ),
            forall|a: int, b: int|
                0 <= a < b < crate::metadata::am_view(src).len() ==> crate::metadata::am_view(
                    src,
                )[a].0 != crate::metadata::am_view(src)[b].0 && crate::metadata::am_view(src)[a].1
                    != crate::metadata::am_view(src)[b].1,
            forall|a: int, b: int|
                0 <= a < b < crate::metadata::am_view(out).len() ==> crate::metadata::am_view(
                    out,
                )[a].0 != crate::metadata::am_view(out)[b].0 && crate::metadata::am_view(out)[a].1
                    != crate::metadata::am_view(out)[b].1,
            forall|a: int, b: int|
                0 <= a < crate::metadata::am_view(out).len() && 0 <= b < crate::metadata::am_view(
                    src,
                ).len() ==> #[trigger] crate::metadata::am_view(out)[a].0 != #[trigger] crate::metadata::am_view(
                    src,
                )[b].0 && crate::metadata::am_view(out)[a].1 != crate::metadata::am_view(
                    src,
                )[b].1,
        decreases src@.len(),
    {
        let ghost ov = crate::metadata::am_view(out);
        let ghost sv = crate::metadata::am_view(src);
        // index of a minimal target
        let mut mi: usize = 0;
        let mut k: usize = 1;
        proof {
            lemma_lex_refl(sv[0].1);
        }
        while k < src.len()
            invariant
                mi < k <= src@.len() || (k <= src@.len() && mi == 0),
                mi < src@.len(),
                sv == crate::metadata::am_view(src),
                forall|a: int|
                    0 <= a < k ==> lex_le(sv[mi as int].1, #[trigger] sv[a].1),
            decreases src@.len() - k,
        {
            if le_chars(&src[k].1, &src[mi].1) {
                proof {
                    assert forall|a: int| 0 <= a < k + 1 implies lex_le(
                        sv[k as int].1,
                        #[trigger] sv[a].1,
                    ) by {
                        if a < k {
                            lemma_lex_trans(sv[k as int].1, sv[mi as int].1, sv[a].1);
                        } else {
                            lemma_lex_refl(sv[k as int].1);
                        }
                    }
                }
                mi = k;
            } else {
                proof {
                    lemma_lex_total(sv[k as int].1, sv[mi as int].1);
                }
            }
            k = k + 1;
        }
        let e = src.swap_remove(mi);
        let ghost ev = (e.0@, e.1@);
        out.push(e);
        proof {
            let ov2 = crate::metadata::am_view(out);
            let sv2 = crate::metadata::am_view(src);
            assert(ov2 =~= ov.push(ev));
            assert(ev == sv[mi as int]);
            assert forall|a: int| 0 <= a < sv2.len() implies entry_in(
                #[trigger] sv2[a],
                mv,
            ) && lex_le(ev.1, sv2[a].1) && ev.0 != sv2[a].0 && ev.1 != sv2[a].1 by {
                if a < mi {
                    assert(sv2[a] == sv[a]);
                } else {
                    assert(sv2[a] == sv[if a == mi {
                        sv.len() - 1
                    } else {
                        a
                    }]);
                }
            }
            assert forall|a: int, b: int| 0 <= a < b < sv2.len() implies sv2[a].0 != sv2[b].0
                && sv2[a].1 != sv2[b].1 by {
                let a2 = if a == mi { sv.len() - 1 } else { a };
                let b2 = if b == mi { sv.len() - 1 } else { b };
                assert(sv2[a] == sv[a2]);
                assert(sv2[b] == sv[b2]);
            }
            assert forall|a: int, b: int| 0 <= a < b < ov2.len() implies lex_le(
                ov2[a].1,
                ov2[b].1,
            ) by {
                if b < ov2.len() - 1 {
                    assert(ov2[a] == ov[a] && ov2[b] == ov[b]);
                } else {
                    assert(ov2[b] == ev);
                    if a < ov.len() {
                        assert(ov2[a] == ov[a]);
                        assert(lex_le(ov[a].1, sv[mi as int].1));
                    }
                }
            }
            assert forall|a: int, b: int| 0 <= a < ov2.len() && 0 <= b < sv2.len() implies lex_le(
                #[trigger] ov2[a].1,
                #[trigger] sv2[b].1,
            ) && ov2[a].0 != sv2[b].0 && ov2[a].1 != sv2[b].1 by {
                if a < ov.len() {
                    assert(ov2[a] == ov[a]);
                    if b < mi {
                        assert(sv2[b] == sv[b]);
                    } else if b == mi {
                        assert(sv2[b] == sv[sv.len() - 1]);
                    } else {
                        assert(sv2[b] == sv[b]);
                    }
                } else {
                    assert(ov2[a] == ev);
                    let b2 = if b == mi { sv.len() - 1 } else { b };
                    assert(sv2[b] == sv[b2]);
                }
            }
        }
    }
    assert(crate::metadata::am_view(src).len() == 0);
    out
}

pub proof fn lemma_lex_refl(a: Seq<char>)
    ensures
        lex_le(a, a),
    decreases a.len(),
{
    if a.len() > 0 {
        lemma_lex_refl(a.drop_first());
    }
}

pub proof fn lemma_lex_trans(a: Seq<char>, b: Seq<char>, c: Seq<char>)
    requires
        lex_le(a, b),
        lex_le(b, c),
    ensures
        lex_le(a, c),
    decreases a.len(),
{
    if a.len() > 0 && b.len() > 0 && c.len() > 0 {
        if a[0] == b[0] && b[0] == c[0] {
            lemma_lex_trans(a.drop_first(), b.drop_first(), c.drop_first());
        }
    }
}

} // verus!
