//! Rendering of the structured header into a displayable HTML fragment.
//!
//! Keys render in their original order, except that a reachability key
//! always renders last. The content-list and part-of keys render as
//! alias-labeled links following the layout tables; timestamp-shaped
//! values render in human-readable form; every other value renders inline,
//! with embedded `[text](target)` spans converted to anchors. All text is
//! HTML-escaped on insertion.

use vstd::prelude::*;
use crate::text::{
    matches_at, find_from, find_char, sub_chars, push_chars, push_str_chars, eq_chars, trim_spec,
    trim_chars, ends_with, check_ends_with, chars_of,
};
use crate::escape::{esc_seq, push_esc_chars, esc_chars};
use crate::meta::{
    Scalar, ScalarView, MetaValue, MetaValueView, HeaderEntries, entries_view, part_of_items,
};
use crate::links::{md_parts, extract_md_link_parts, norm_target_basename,
    normalize_target_basename, md_ext, slug_spec, slugify};
use crate::layout::{
    Layout, meta_child_href_spec, meta_child_href, meta_parent_href_spec, meta_parent_href,
    meta_nonstructural_href_spec, meta_nonstructural_href,
};
use crate::timefmt::{humanize_spec, humanize_timestamp};

verus! {

// ------------------------------------------------------------------
// Alias maps: association lists with unique keys
// ------------------------------------------------------------------

/// The value of the first pair keyed `k`, if any.
pub open spec fn am_lookup(m: Seq<(Seq<char>, Seq<char>)>, k: Seq<char>) -> Option<Seq<char>>
    decreases m.len(),
{
    if m.len() == 0 {
        None
    } else if m[0].0 == k {
        Some(m[0].1)
    } else {
        am_lookup(m.drop_first(), k)
    }
}

/// Replace the value of the first pair keyed `k`, or append the pair.
pub open spec fn am_upsert(
    m: Seq<(Seq<char>, Seq<char>)>,
    k: Seq<char>,
    v: Seq<char>,
) -> Seq<(Seq<char>, Seq<char>)>
    decreases m.len(),
{
    if m.len() == 0 {
        seq![(k, v)]
    } else if m[0].0 == k {
        seq![(k, v)] + m.drop_first()
    } else {
        seq![m[0]] + am_upsert(m.drop_first(), k, v)
    }
}

pub open spec fn am_view(m: Vec<(Vec<char>, Vec<char>)>) -> Seq<(Seq<char>, Seq<char>)> {
    m@.map_values(|p: (Vec<char>, Vec<char>)| (p.0@, p.1@))
}

#[verifier::loop_isolation(false)]
pub fn am_lookup_exec(m: &Vec<(Vec<char>, Vec<char>)>, k: &Vec<char>) -> (r: Option<Vec<char>>)
    ensures
        match r {
            Some(v) => am_lookup(am_view(*m), k@) == Some(v@),
            None => am_lookup(am_view(*m), k@) is None,
        },
{
    let ghost mv = am_view(*m);
    assert(mv.skip(0) =~= mv);
    let mut i: usize = 0;
    while i < m.len()
        invariant
            i <= m@.len(),
            am_lookup(mv, k@) == am_lookup(mv.skip(i as int), k@),
        decreases m@.len() - i,
    {
        if eq_chars(&m[i].0, k) {
            assert(mv.skip(i as int)[0].0 == k@);
            return Some(m[i].1.clone());
        }
        assert(mv.skip(i as int)[0].0 != k@);
        assert(mv.skip(i as int).drop_first() =~= mv.skip(i + 1));
        i = i + 1;
    }
    assert(mv.skip(i as int) =~= Seq::<(Seq<char>, Seq<char>)>::empty());
    None
}

#[verifier::loop_isolation(false)]
pub fn am_upsert_exec(m: &mut Vec<(Vec<char>, Vec<char>)>, k: Vec<char>, v: Vec<char>)
    ensures
        am_view(*final(m)) == am_upsert(am_view(*old(m)), k@, v@),
{
    let ghost mv = am_view(*m);
    let mut i: usize = 0;
    while i < m.len()
        invariant
            i <= m@.len(),
            mv == am_view(*m),
            forall|j: int| 0 <= j < i ==> mv[j].0 != k@,
        decreases m@.len() - i,
    {
        if eq_chars(&m[i].0, &k) {
            m[i] = (k, v);
            proof {
                lemma_am_upsert_at(mv, k@, v@, i as int);
                assert(am_view(*m) =~= am_upsert(mv, k@, v@));
            }
            return ;
        }
        i = i + 1;
    }
    m.push((k, v));
    proof {
        lemma_am_upsert_append(mv, k@, v@);
        assert(am_view(*m) =~= am_upsert(mv, k@, v@));
    }
}

proof fn lemma_am_upsert_at(m: Seq<(Seq<char>, Seq<char>)>, k: Seq<char>, v: Seq<char>, i: int)
    requires
        0 <= i < m.len(),
        m[i].0 == k,
        forall|j: int| 0 <= j < i ==> m[j].0 != k,
    ensures
        am_upsert(m, k, v) == m.update(i, (k, v)),
    decreases i,
{
    if i == 0 {
        assert(am_upsert(m, k, v) =~= m.update(0, (k, v)));
    } else {
        assert(m.drop_first()[i - 1].0 == k);
        assert(forall|j: int| 0 <= j < i - 1 ==> m.drop_first()[j].0 != k);
        lemma_am_upsert_at(m.drop_first(), k, v, i - 1);
        assert(am_upsert(m, k, v) =~= m.update(i, (k, v)));
    }
}

proof fn lemma_am_upsert_append(m: Seq<(Seq<char>, Seq<char>)>, k: Seq<char>, v: Seq<char>)
    requires
        forall|j: int| 0 <= j < m.len() ==> m[j].0 != k,
    ensures
        am_upsert(m, k, v) == m.push((k, v)),
    decreases m.len(),
{
    if m.len() == 0 {
        assert(am_upsert(m, k, v) =~= m.push((k, v)));
    } else {
        assert(forall|j: int| 0 <= j < m.drop_first().len() ==> m.drop_first()[j].0 != k);
        lemma_am_upsert_append(m.drop_first(), k, v);
        assert(am_upsert(m, k, v) =~= m.push((k, v)));
    }
}

/// The alias map derived from raw link literals: each literal with a
/// non-empty alias maps its normalized target basename to the alias; a
/// later literal for the same target wins.
pub open spec fn build_alias_map(strs: Seq<Seq<char>>) -> Seq<(Seq<char>, Seq<char>)>
    decreases strs.len(),
{
    if strs.len() == 0 {
        Seq::empty()
    } else {
        let m = build_alias_map(strs.drop_last());
        match md_parts(strs.last()) {
            Some(p) => if p.0.len() > 0 {
                am_upsert(m, norm_target_basename(p.1), p.0)
            } else {
                m
            },
            None => m,
        }
    }
}

/// Build the alias map of a list of raw link literals.
#[verifier::loop_isolation(false)]
pub fn build_alias_map_exec(strs: &Vec<Vec<char>>) -> (r: Vec<(Vec<char>, Vec<char>)>)
    ensures
        am_view(r) == build_alias_map(strs@.map_values(|x: Vec<char>| x@)),
{
    let ghost sv = strs@.map_values(|x: Vec<char>| x@);
    let mut m: Vec<(Vec<char>, Vec<char>)> = Vec::new();
    let mut i: usize = 0;
    assert(am_view(m) =~= build_alias_map(sv.subrange(0, 0)));
    while i < strs.len()
        invariant
            i <= strs@.len(),
            am_view(m) == build_alias_map(sv.subrange(0, i as int)),
        decreases strs@.len() - i,
    {
        match extract_md_link_parts(&strs[i]) {
            Some((alias, target)) => {
                if alias.len() > 0 {
                    let key = normalize_target_basename(&target);
                    am_upsert_exec(&mut m, key, alias);
                }
            },
            None => {},
        }
        i = i + 1;
        assert(sv.subrange(0, i as int).drop_last() =~= sv.subrange(0, i - 1));
        assert(sv.subrange(0, i as int).last() == sv[i - 1]);
    }
    assert(sv.subrange(0, sv.len() as int) =~= sv);
    m
}

// ------------------------------------------------------------------
// Inline value rendering
// ------------------------------------------------------------------

/// The inline text of a scalar: `null`, `true`/`false`, a number as
/// written, a string trimmed.
pub open spec fn scalar_inline(v: ScalarView) -> Seq<char> {
    match v {
        ScalarView::Null => "null"@,
        ScalarView::Bool(b) => if b {
            "true"@
        } else {
            "false"@
        },
        ScalarView::Num(s) => s,
        ScalarView::Str(s) => trim_spec(s),
    }
}

/// One-level mapping entries joined as `key=value` pairs.
pub open spec fn dict_inline(entries: Seq<(Seq<char>, ScalarView)>) -> Seq<char>
    decreases entries.len(),
{
    if entries.len() == 0 {
        Seq::empty()
    } else if entries.len() == 1 {
        entries[0].0 + "="@ + scalar_inline(entries[0].1)
    } else {
        dict_inline(entries.drop_last()) + "; "@ + entries.last().0 + "="@ + scalar_inline(
            entries.last().1,
        )
    }
}

pub open spec fn inline_items(items: Seq<ScalarView>) -> Seq<char>
    decreases items.len(),
{
    if items.len() == 0 {
        Seq::empty()
    } else if items.len() == 1 {
        scalar_inline(items[0])
    } else {
        inline_items(items.drop_last()) + ", "@ + scalar_inline(items.last())
    }
}

/// The inline text of a header value: a scalar's text, `[]` for an empty
/// list, the items' texts joined with commas, or `key=value` pairs joined
/// with semicolons (`{}` when the mapping is empty).
pub open spec fn inline_spec(v: MetaValueView) -> Seq<char> {
    match v {
        MetaValueView::Scalar(s) => scalar_inline(s),
        MetaValueView::List(items) => if items.len() == 0 {
            "[]"@
        } else {
            inline_items(items)
        },
        MetaValueView::Dict(entries) => if entries.len() == 0 {
            "{}"@
        } else {
            dict_inline(entries)
        },
    }
}

fn scalar_inline_exec(v: &Scalar) -> (r: Vec<char>)
    ensures
        r@ == scalar_inline(v@),
{
    match v {
        Scalar::Null => chars_of("null"),
        Scalar::Bool(b) => if *b {
            chars_of("true")
        } else {
            chars_of("false")
        },
        Scalar::Num(s) => s.clone(),
        Scalar::Str(s) => trim_chars(s),
    }
}

/// Render a header value as inline text.
#[verifier::loop_isolation(false)]
pub fn inline_value(v: &MetaValue) -> (r: Vec<char>)
    ensures
        r@ == inline_spec(v@),
{
    match v {
        MetaValue::Scalar(s) => scalar_inline_exec(s),
        MetaValue::List(items) => {
            if items.len() == 0 {
                return chars_of("[]");
            }
            let ghost iv = items@.map_values(|x: Scalar| x@);
            let mut out: Vec<char> = Vec::new();
            let mut i: usize = 0;
            while i < items.len()
                invariant
                    1 <= items@.len(),
                    iv == items@.map_values(|x: Scalar| x@),
                    i <= items@.len(),
                    i == 0 ==> out@.len() == 0,
                    i > 0 ==> out@ == inline_items(iv.subrange(0, i as int)),
                decreases items@.len() - i,
            {
                if i > 0 {
                    push_str_chars(&mut out, ", ");
                }
                let s = scalar_inline_exec(&items[i]);
                push_chars(&mut out, &s);
                i = i + 1;
                proof {
                    assert(iv.subrange(0, i as int).drop_last() =~= iv.subrange(0, i - 1));
                    assert(iv.subrange(0, i as int).last() == iv[i - 1]);
                    if i == 1 {
                        assert(out@ =~= inline_items(iv.subrange(0, 1)));
                    } else {
                        assert(out@ =~= inline_items(iv.subrange(0, i as int)));
                    }
                }
            }
            assert(iv.subrange(0, iv.len() as int) =~= iv);
            out
        },
        MetaValue::Dict(entries) => {
            if entries.len() == 0 {
                return chars_of("{}");
            }
            let ghost ev = entries@.map_values(|p: (Vec<char>, Scalar)| (p.0@, p.1@));
            let mut out: Vec<char> = Vec::new();
            let mut i: usize = 0;
            while i < entries.len()
                invariant
                    1 <= entries@.len(),
                    ev == entries@.map_values(|p: (Vec<char>, Scalar)| (p.0@, p.1@)),
                    ev.len() == entries@.len(),
                    i <= entries@.len(),
                    i == 0 ==> out@.len() == 0,
                    i > 0 ==> out@ == dict_inline(ev.subrange(0, i as int)),
                decreases entries@.len() - i,
            {
                if i > 0 {
                    push_str_chars(&mut out, "; ");
                }
                push_chars(&mut out, &entries[i].0);
                push_str_chars(&mut out, "=");
                let sv = scalar_inline_exec(&entries[i].1);
                push_chars(&mut out, &sv);
                i = i + 1;
                proof {
                    assert(ev.subrange(0, i as int).drop_last() =~= ev.subrange(0, i - 1));
                    assert(ev.subrange(0, i as int).last() == ev[i - 1]);
                    if i == 1 {
                        assert(out@ =~= dict_inline(ev.subrange(0, 1)));
                    } else {
                        assert(out@ =~= dict_inline(ev.subrange(0, i as int)));
                    }
                }
            }
            assert(ev.subrange(0, ev.len() as int) =~= ev);
            out
        },
    }
}

// ------------------------------------------------------------------
// Inline markdown links
// ------------------------------------------------------------------

/// The shape of an embedded link at position `p`: `[`, at least one
/// non-`]` character, `](`, at least one non-`)` character, `)`. The
/// result gives the positions of the closing bracket and parenthesis.
pub open spec fn mdlink_at(s: Seq<char>, p: int) -> Option<(int, int)> {
    if 0 <= p < s.len() && s[p] == '[' {
        match find_from(s, p + 1, seq![']']) {
            Some(cb) => if cb > p + 1 && cb + 1 < s.len() && s[cb + 1] == '(' {
                match find_from(s, cb + 2, seq![')']) {
                    Some(cp) => if cp > cb + 2 {
                        Some((cb, cp))
                    } else {
                        None
                    },
                    None => None,
                }
            } else {
                None
            },
            None => None,
        }
    } else {
        None
    }
}

/// The first embedded link at or after `i`.
pub open spec fn next_mdlink(s: Seq<char>, i: int) -> Option<(int, int, int)>
    decreases s.len() - i,
{
    if i < 0 || i >= s.len() {
        None
    } else {
        match mdlink_at(s, i) {
            Some(p) => Some((i, p.0, p.1)),
            None => next_mdlink(s, i + 1),
        }
    }
}

proof fn lemma_next_mdlink_props(s: Seq<char>, i: int)
    requires
        0 <= i,
    ensures
        match next_mdlink(s, i) {
            Some(t) => i <= t.0 && mdlink_at(s, t.0) == Some((t.1, t.2)) && forall|j: int|
                i <= j < t.0 ==> mdlink_at(s, j) is None,
            None => forall|j: int| i <= j < s.len() ==> mdlink_at(s, j) is None,
        },
    decreases s.len() - i,
{
    if 0 <= i < s.len() && mdlink_at(s, i) is None {
        lemma_next_mdlink_props(s, i + 1);
    } else if 0 <= i < s.len() {
    } else {
    }
}

/// An anchor for an embedded link: href and text are escaped separately.
pub open spec fn anchor_html(href: Seq<char>, text: Seq<char>) -> Seq<char> {
    "<a href=\""@ + esc_seq(href) + "\">"@ + esc_seq(text) + "</a>"@
}

/// Inline text with embedded links converted to anchors and everything
/// else escaped.
pub open spec fn maybe_md_spec(s: Seq<char>) -> Seq<char>
    decreases s.len(),
    via maybe_md_dec
{
    match next_mdlink(s, 0) {
        None => esc_seq(s),
        Some(t) => esc_seq(s.subrange(0, t.0)) + anchor_html(
            s.subrange(t.1 + 2, t.2),
            s.subrange(t.0 + 1, t.1),
        ) + maybe_md_spec(s.skip(t.2 + 1)),
    }
}

#[via_fn]
proof fn maybe_md_dec(s: Seq<char>) {
    lemma_next_mdlink_props(s, 0);
    match next_mdlink(s, 0) {
        None => {},
        Some(t) => {
            crate::text::lemma_find_from_props(s, t.0 + 1, seq![']']);
            crate::text::lemma_find_from_props(s, t.1 + 2, seq![')']);
        },
    }
}

/// Try to match an embedded link at position `p`.
#[verifier::loop_isolation(false)]
fn mdlink_at_exec(s: &Vec<char>, p: usize) -> (r: Option<(usize, usize)>)
    requires
        p < s@.len(),
    ensures
        match r {
            Some(t) => mdlink_at(s@, p as int) == Some((t.0 as int, t.1 as int)) && p + 1 < t.0
                && t.0 + 2 < t.1 && t.1 < s@.len(),
            None => mdlink_at(s@, p as int) is None,
        },
{
    let n = s.len();
    if s[p] != '[' {
        return None;
    }
    let cb = match find_char(s, p + 1, ']') {
        Some(cb) => {
            proof {
                assert forall|j: int| p + 1 <= j < cb implies !matches_at(s@, j, seq![']']) by {
                    if j + 1 <= s@.len() {
                        assert(s@.subrange(j, j + 1)[0] == s@[j]);
                    }
                }
                assert(s@.subrange(cb as int, cb + 1) =~= seq![']']);
                crate::text::lemma_find_from_is(s@, p + 1, seq![']'], Some(cb as int));
            }
            cb
        },
        None => {
            proof {
                assert forall|j: int| j >= p + 1 implies !matches_at(s@, j, seq![']']) by {
                    if 0 <= j && j + 1 <= s@.len() {
                        assert(s@.subrange(j, j + 1)[0] == s@[j]);
                    }
                }
                crate::text::lemma_find_from_is(s@, p + 1, seq![']'], None);
            }
            return None;
        },
    };
    if !(cb > p + 1 && cb + 1 < s.len() && s[cb + 1] == '(') {
        return None;
    }
    match find_char(s, cb + 2, ')') {
        Some(cp) => {
            proof {
                assert forall|j: int| cb + 2 <= j < cp implies !matches_at(s@, j, seq![')']) by {
                    if j + 1 <= s@.len() {
                        assert(s@.subrange(j, j + 1)[0] == s@[j]);
                    }
                }
                assert(s@.subrange(cp as int, cp + 1) =~= seq![')']);
                crate::text::lemma_find_from_is(s@, cb + 2, seq![')'], Some(cp as int));
            }
            if cp > cb + 2 {
                Some((cb, cp))
            } else {
                None
            }
        },
        None => {
            proof {
                assert forall|j: int| j >= cb + 2 implies !matches_at(s@, j, seq![')']) by {
                    if 0 <= j && j + 1 <= s@.len() {
                        assert(s@.subrange(j, j + 1)[0] == s@[j]);
                    }
                }
                crate::text::lemma_find_from_is(s@, cb + 2, seq![')'], None);
            }
            None
        },
    }
}

/// Append inline text with embedded links converted to anchors.
#[verifier::loop_isolation(false)]
#[verifier::rlimit(60)]
pub fn push_maybe_md_links(out: &mut Vec<char>, s: &Vec<char>)
    ensures
        final(out)@ == old(out)@ + maybe_md_spec(s@),
{
    let mut pos: usize = 0;
    let ghost base = out@;
    assert(s@.skip(0) =~= s@);
    while pos < s.len()
        invariant
            pos <= s@.len(),
            base + maybe_md_spec(s@) == out@ + maybe_md_spec(s@.skip(pos as int)),
        decreases s@.len() - pos,
    {
        let ghost rest = s@.skip(pos as int);
        // search for the next embedded link
        let mut p: usize = pos;
        let mut found: Option<(usize, usize)> = None;
        while p < s.len()
            invariant
                pos <= p <= s@.len(),
                forall|j: int| pos <= j < p ==> mdlink_at(s@, j) is None,
                match found {
                    Some(t) => p < s@.len() && mdlink_at(s@, p as int) == Some(
                        (t.0 as int, t.1 as int),
                    ) && p + 1 < t.0 && t.0 + 2 < t.1 && t.1 < s@.len(),
                    None => true,
                },
            decreases s@.len() - p,
        {
            match mdlink_at_exec(s, p) {
                Some(t) => {
                    found = Some(t);
                    break;
                },
                None => {
                    p = p + 1;
                },
            }
        }
        match found {
            None => {
                proof {
                    assert forall|j: int| 0 <= j < rest.len() implies mdlink_at(rest, j)
                        is None by {
                        lemma_mdlink_at_skip(s@, pos as int, j);
                    }
                    lemma_next_mdlink_none(rest, 0);
                }
                let tail = sub_chars(s, pos, s.len());
                push_esc_chars(out, &tail);
                proof {
                    assert(tail@ =~= rest);
                }
                pos = s.len();
                assert(maybe_md_spec(s@.skip(pos as int)) =~= Seq::<char>::empty()) by {
                    assert(esc_seq(Seq::<char>::empty()) =~= Seq::<char>::empty());
                }
            },
            Some((cb, cp)) => {
                proof {
                    assert forall|j: int| 0 <= j < p - pos implies mdlink_at(rest, j) is None by {
                        lemma_mdlink_at_skip(s@, pos as int, j);
                    }
                    lemma_mdlink_at_skip(s@, pos as int, p - pos as int);
                    assert(mdlink_at(rest, p - pos) == Some((cb - pos as int, cp - pos as int)));
                    lemma_next_mdlink_is(rest, 0, (p - pos) as int, (cb - pos) as int, (cp
                        - pos) as int);
                }
                let head = sub_chars(s, pos, p);
                push_esc_chars(out, &head);
                push_str_chars(out, "<a href=\"");
                let href = sub_chars(s, cb + 2, cp);
                push_esc_chars(out, &href);
                push_str_chars(out, "\">");
                let text = sub_chars(s, p + 1, cb);
                push_esc_chars(out, &text);
                push_str_chars(out, "</a>");
                proof {
                    assert(head@ =~= rest.subrange(0, p - pos));
                    assert(href@ =~= rest.subrange(cb - pos + 2, cp - pos));
                    assert(text@ =~= rest.subrange(p - pos + 1, cb - pos));
                }
                let ghost oldpos = pos as int;
                pos = cp + 1;
                proof {
                    assert(s@.skip(pos as int) =~= rest.skip(cp - oldpos + 1));
                    assert(base + maybe_md_spec(s@) =~= out@ + maybe_md_spec(
                        s@.skip(pos as int),
                    ));
                }
            },
        }
    }
    assert(maybe_md_spec(s@.skip(pos as int)) =~= Seq::<char>::empty()) by {
        assert(esc_seq(Seq::<char>::empty()) =~= Seq::<char>::empty());
        assert(s@.skip(pos as int).len() == 0);
    }
    assert(out@ =~= base + maybe_md_spec(s@));
}

proof fn lemma_mdlink_at_skip(s: Seq<char>, n: int, j: int)
    requires
        0 <= n <= s.len(),
        0 <= j,
    ensures
        mdlink_at(s.skip(n), j) == (match mdlink_at(s, n + j) {
            Some(t) => Some((t.0 - n, t.1 - n)),
            None => None::<(int, int)>,
        }),
{
    let r = s.skip(n);
    if j < r.len() && r[j] == '[' {
        assert(s[n + j] == '[');
        // closing bracket search transfers
        crate::text::lemma_find_from_props(r, j + 1, seq![']']);
        crate::text::lemma_find_from_props(s, n + j + 1, seq![']']);
        match find_from(r, j + 1, seq![']']) {
            Some(cb) => {
                assert(r.subrange(cb, cb + 1)[0] == r[cb]);
                assert(s.subrange(n + cb, n + cb + 1) =~= seq![']']);
                assert(matches_at(s, n + cb, seq![']']));
                assert forall|m: int| n + j + 1 <= m < n + cb implies !matches_at(
                    s,
                    m,
                    seq![']'],
                ) by {
                    assert(r.subrange(m - n, m - n + 1)[0] == r[m - n]);
                    assert(!matches_at(r, m - n, seq![']']));
                    if matches_at(s, m, seq![']']) {
                        assert(s.subrange(m, m + 1)[0] == s[m]);
                        assert(r[m - n] == s[m]);
                        assert(r.subrange(m - n, m - n + 1) =~= seq![']']);
                    }
                }
                crate::text::lemma_find_from_is(s, n + j + 1, seq![']'], Some(n + cb));
                if cb > j + 1 && cb + 1 < r.len() && r[cb + 1] == '(' {
                    crate::text::lemma_find_from_props(r, cb + 2, seq![')']);
                    match find_from(r, cb + 2, seq![')']) {
                        Some(cp) => {
                            assert(s.subrange(n + cp, n + cp + 1) =~= seq![')']);
                            assert(matches_at(s, n + cp, seq![')']));
                            assert forall|m: int| n + cb + 2 <= m < n + cp implies !matches_at(
                                s,
                                m,
                                seq![')'],
                            ) by {
                                assert(!matches_at(r, m - n, seq![')']));
                                if matches_at(s, m, seq![')']) {
                                    assert(s.subrange(m, m + 1)[0] == s[m]);
                                    assert(r[m - n] == s[m]);
                                    assert(r.subrange(m - n, m - n + 1) =~= seq![')']);
                                }
                            }
                            crate::text::lemma_find_from_is(s, n + cb + 2, seq![')'], Some(n + cp));
                        },
                        None => {
                            assert forall|m: int| m >= n + cb + 2 implies !matches_at(
                                s,
                                m,
                                seq![')'],
                            ) by {
                                if m + 1 <= s.len() {
                                    assert(!matches_at(r, m - n, seq![')']));
                                    if matches_at(s, m, seq![')']) {
                                        assert(s.subrange(m, m + 1)[0] == s[m]);
                                        assert(r[m - n] == s[m]);
                                        assert(r.subrange(m - n, m - n + 1) =~= seq![')']);
                                    }
                                }
                            }
                            crate::text::lemma_find_from_is(s, n + cb + 2, seq![')'], None);
                        },
                    }
                }
            },
            None => {
                assert forall|m: int| m >= n + j + 1 implies !matches_at(s, m, seq![']']) by {
                    if m + 1 <= s.len() {
                        assert(!matches_at(r, m - n, seq![']']));
                        if matches_at(s, m, seq![']']) {
                            assert(s.subrange(m, m + 1)[0] == s[m]);
                            assert(r[m - n] == s[m]);
                            assert(r.subrange(m - n, m - n + 1) =~= seq![']']);
                        }
                    }
                }
                crate::text::lemma_find_from_is(s, n + j + 1, seq![']'], None);
            },
        }
    } else {
        if 0 <= n + j < s.len() && j < r.len() {
            assert(r[j] == s[n + j]);
        }
    }
}

proof fn lemma_next_mdlink_none(s: Seq<char>, i: int)
    requires
        forall|j: int| i <= j < s.len() ==> mdlink_at(s, j) is None,
    ensures
        next_mdlink(s, i) is None,
    decreases s.len() - i,
{
    if 0 <= i < s.len() {
        lemma_next_mdlink_none(s, i + 1);
    }
}

proof fn lemma_next_mdlink_is(s: Seq<char>, i: int, p: int, cb: int, cp: int)
    requires
        i <= p < s.len(),
        0 <= i,
        mdlink_at(s, p) == Some((cb, cp)),
        forall|j: int| i <= j < p ==> mdlink_at(s, j) is None,
    ensures
        next_mdlink(s, i) == Some((p, cb, cp)),
    decreases p - i,
{
    if i < p {
        lemma_next_mdlink_is(s, i + 1, p, cb, cp);
    }
}

// ------------------------------------------------------------------
// Relationship links
// ------------------------------------------------------------------

/// An anchor whose href is generated by the layout tables (no escaping
/// needed) and whose label is escaped.
pub open spec fn link_html(href: Seq<char>, label: Seq<char>) -> Seq<char> {
    "<a href=\""@ + href + "\">"@ + esc_seq(label) + "</a>"@
}

fn push_link_html(out: &mut Vec<char>, href: &Vec<char>, label: &Vec<char>)
    ensures
        final(out)@ == old(out)@ + link_html(href@, label@),
{
    push_str_chars(out, "<a href=\"");
    push_chars(out, href);
    push_str_chars(out, "\">");
    push_esc_chars(out, label);
    push_str_chars(out, "</a>");
}

/// The label of a child link: the alias recorded for the slug, else the
/// alias recovered from the raw content entry whose target basename is
/// `slug.md`, else the slug itself.
pub open spec fn child_label_spec(
    ca: Seq<(Seq<char>, Seq<char>)>,
    am: Seq<(Seq<char>, Seq<char>)>,
    slug: Seq<char>,
) -> Seq<char> {
    match am_lookup(ca, slug) {
        Some(a) => a,
        None => match am_lookup(am, slug + md_ext()) {
            Some(a) => a,
            None => slug,
        },
    }
}

pub open spec fn child_links_spec(
    children: Seq<Seq<char>>,
    ca: Seq<(Seq<char>, Seq<char>)>,
    am: Seq<(Seq<char>, Seq<char>)>,
    layout: Layout,
    cur_root: bool,
) -> Seq<Seq<char>> {
    Seq::new(
        children.len(),
        |i: int|
            link_html(
                meta_child_href_spec(layout, cur_root, children[i]),
                child_label_spec(ca, am, children[i]),
            ),
    )
}

/// Alias precedence law: the linker's alias for a slug labels its link;
/// failing that, the alias recovered from the raw entry for `slug.md`;
/// the slug itself stands only when neither records an alias.
pub proof fn lemma_alias_precedence(
    ca: Seq<(Seq<char>, Seq<char>)>,
    am: Seq<(Seq<char>, Seq<char>)>,
    slug: Seq<char>,
)
    ensures
        am_lookup(ca, slug) matches Some(a) ==> child_label_spec(ca, am, slug) == a,
        am_lookup(ca, slug) is None ==> (am_lookup(am, slug + md_ext()) matches Some(a)
            ==> child_label_spec(ca, am, slug) == a),
        am_lookup(ca, slug) is None && am_lookup(am, slug + md_ext()) is None
            ==> child_label_spec(ca, am, slug) == slug,
{
}

pub open spec fn is_root_parent(root_slug: Option<Seq<char>>, slug: Seq<char>) -> bool {
    match root_slug {
        Some(r) => r == slug,
        None => false,
    }
}

/// The label of a structural parent link: the alias recorded for the slug,
/// else the alias from the raw part-of entry whose target basename is
/// `slug.md`, else the slug itself.
pub open spec fn parent_label_spec(
    pa: Seq<(Seq<char>, Seq<char>)>,
    rpm: Seq<(Seq<char>, Seq<char>)>,
    slug: Seq<char>,
) -> Seq<char> {
    match am_lookup(pa, slug) {
        Some(a) => a,
        None => match am_lookup(rpm, slug + md_ext()) {
            Some(a) => a,
            None => slug,
        },
    }
}

pub open spec fn parent_links_spec(
    parents: Seq<Seq<char>>,
    pa: Seq<(Seq<char>, Seq<char>)>,
    rpm: Seq<(Seq<char>, Seq<char>)>,
    layout: Layout,
    cur_root: bool,
    root_slug: Option<Seq<char>>,
) -> Seq<Seq<char>> {
    Seq::new(
        parents.len(),
        |i: int|
            link_html(
                meta_parent_href_spec(
                    layout,
                    cur_root,
                    is_root_parent(root_slug, parents[i]),
                    parents[i],
                ),
                parent_label_spec(pa, rpm, parents[i]),
            ),
    )
}

/// A raw target basename without its `.md` suffix.
pub open spec fn strip_md(norm: Seq<char>) -> Seq<char> {
    if ends_with(norm, md_ext()) {
        norm.subrange(0, norm.len() - 3)
    } else {
        norm
    }
}

/// The slugs already represented by structural parent links: the parents
/// themselves, and `index` when some parent link points at the root page.
pub open spec fn existing_init(
    parents: Seq<Seq<char>>,
    layout: Layout,
    root_slug: Option<Seq<char>>,
) -> Seq<Seq<char>> {
    if parents.len() > 0 && (layout is Single || exists|i: int|
        0 <= i < parents.len() && is_root_parent(root_slug, parents[i])) {
        parents.push("index"@)
    } else {
        parents
    }
}

/// Links for aliased part-of targets never discovered as structural
/// parents, in entry order, skipping targets already represented; each
/// emitted link's slug joins the represented set.
pub open spec fn nonstruct_links(
    m: Seq<(Seq<char>, Seq<char>)>,
    existing: Seq<Seq<char>>,
    layout: Layout,
    cur_root: bool,
) -> Seq<Seq<char>>
    decreases m.len(),
{
    if m.len() == 0 {
        Seq::empty()
    } else {
        let slug = slug_spec(strip_md(m[0].0));
        if existing.contains(slug) {
            nonstruct_links(m.drop_first(), existing, layout, cur_root)
        } else {
            seq![
                link_html(meta_nonstructural_href_spec(layout, cur_root, slug), m[0].1),
            ] + nonstruct_links(m.drop_first(), existing.push(slug), layout, cur_root)
        }
    }
}

pub fn contains_chars(v: &Vec<Vec<char>>, x: &Vec<char>) -> (r: bool)
    ensures
        r == v@.map_values(|s: Vec<char>| s@).contains(x@),
{
    let ghost vv = v@.map_values(|s: Vec<char>| s@);
    let mut i: usize = 0;
    while i < v.len()
        invariant
            vv == v@.map_values(|s: Vec<char>| s@),
            i <= v@.len(),
            forall|j: int| 0 <= j < i ==> vv[j] != x@,
        decreases v@.len() - i,
    {
        if eq_chars(&v[i], x) {
            assert(vv[i as int] == x@);
            return true;
        }
        i = i + 1;
    }
    assert(forall|j: int| 0 <= j < vv.len() ==> vv[j] != x@);
    false
}

#[verifier::loop_isolation(false)]
fn strip_md_exec(norm: &Vec<char>) -> (r: Vec<char>)
    ensures
        r@ == strip_md(norm@),
{
    let ext = {
        let mut e: Vec<char> = Vec::new();
        e.push('.');
        e.push('m');
        e.push('d');
        assert(e@ =~= md_ext());
        e
    };
    if check_ends_with(norm, &ext) {
        sub_chars(norm, 0, norm.len() - 3)
    } else {
        norm.clone()
    }
}

/// Build the non-structural part-of links.
#[verifier::loop_isolation(false)]
fn nonstruct_links_exec(
    m: &Vec<(Vec<char>, Vec<char>)>,
    existing0: Vec<Vec<char>>,
    layout: Layout,
    cur_root: bool,
) -> (r: Vec<Vec<char>>)
    ensures
        r@.map_values(|s: Vec<char>| s@) == nonstruct_links(
            am_view(*m),
            existing0@.map_values(|s: Vec<char>| s@),
            layout,
            cur_root,
        ),
{
    let ghost mv = am_view(*m);
    let mut existing = existing0;
    let mut out: Vec<Vec<char>> = Vec::new();
    let mut i: usize = 0;
    assert(mv.skip(0) =~= mv);
    while i < m.len()
        invariant
            mv == am_view(*m),
            i <= m@.len(),
            nonstruct_links(
                mv,
                existing0@.map_values(|s: Vec<char>| s@),
                layout,
                cur_root,
            ) == out@.map_values(|s: Vec<char>| s@) + nonstruct_links(
                mv.skip(i as int),
                existing@.map_values(|s: Vec<char>| s@),
                layout,
                cur_root,
            ),
        decreases m@.len() - i,
    {
        let stem = strip_md_exec(&m[i].0);
        let slug = slugify(&stem);
        assert(mv.skip(i as int)[0] == mv[i as int]);
        let ghost exv = existing@.map_values(|s: Vec<char>| s@);
        let ghost out0 = out@.map_values(|s: Vec<char>| s@);
        if contains_chars(&existing, &slug) {
            proof {
                assert(mv.skip(i as int).drop_first() =~= mv.skip(i + 1));
            }
        } else {
            let href = meta_nonstructural_href(layout, cur_root, &slug);
            let mut link: Vec<char> = Vec::new();
            push_link_html(&mut link, &href, &m[i].1);
            out.push(link);
            existing.push(slug);
            proof {
                assert(mv.skip(i as int).drop_first() =~= mv.skip(i + 1));
                assert(existing@.map_values(|s: Vec<char>| s@) =~= exv.push(
                    slug_spec(strip_md(mv[i as int].0)),
                ));
                assert(out@.map_values(|s: Vec<char>| s@) =~= out0 + seq![
                    link_html(
                        meta_nonstructural_href_spec(
                            layout,
                            cur_root,
                            slug_spec(strip_md(mv[i as int].0)),
                        ),
                        mv[i as int].1,
                    ),
                ]);
                assert(out0 + (seq![
                    link_html(
                        meta_nonstructural_href_spec(
                            layout,
                            cur_root,
                            slug_spec(strip_md(mv[i as int].0)),
                        ),
                        mv[i as int].1,
                    ),
                ] + nonstruct_links(
                    mv.skip(i + 1),
                    exv.push(slug_spec(strip_md(mv[i as int].0))),
                    layout,
                    cur_root,
                )) =~= (out0 + seq![
                    link_html(
                        meta_nonstructural_href_spec(
                            layout,
                            cur_root,
                            slug_spec(strip_md(mv[i as int].0)),
                        ),
                        mv[i as int].1,
                    ),
                ]) + nonstruct_links(
                    mv.skip(i + 1),
                    exv.push(slug_spec(strip_md(mv[i as int].0))),
                    layout,
                    cur_root,
                ));
            }
        }
        i = i + 1;
    }
    assert(nonstruct_links(
        mv.skip(i as int),
        existing@.map_values(|s: Vec<char>| s@),
        layout,
        cur_root,
    ) =~= Seq::<Seq<char>>::empty());
    assert(out@.map_values(|s: Vec<char>| s@) =~= nonstruct_links(
        mv,
        existing0@.map_values(|s: Vec<char>| s@),
        layout,
        cur_root,
    ));
    out
}

// ------------------------------------------------------------------
// Fragment assembly
// ------------------------------------------------------------------

/// Links joined with line breaks.
pub open spec fn join_br(ls: Seq<Seq<char>>) -> Seq<char>
    decreases ls.len(),
{
    if ls.len() == 0 {
        Seq::empty()
    } else if ls.len() == 1 {
        ls[0]
    } else {
        join_br(ls.drop_last()) + "<br/>"@ + ls.last()
    }
}

#[verifier::loop_isolation(false)]
fn push_join_br(out: &mut Vec<char>, ls: &Vec<Vec<char>>)
    ensures
        final(out)@ == old(out)@ + join_br(ls@.map_values(|s: Vec<char>| s@)),
{
    let ghost lv = ls@.map_values(|s: Vec<char>| s@);
    let ghost base = out@;
    let mut i: usize = 0;
    while i < ls.len()
        invariant
            lv == ls@.map_values(|s: Vec<char>| s@),
            i <= ls@.len(),
            out@ == base + join_br(lv.subrange(0, i as int)),
        decreases ls@.len() - i,
    {
        if i > 0 {
            push_str_chars(out, "<br/>");
        }
        push_chars(out, &ls[i]);
        i = i + 1;
        proof {
            assert(lv.subrange(0, i as int).drop_last() =~= lv.subrange(0, i - 1));
            assert(lv.subrange(0, i as int).last() == lv[i - 1]);
            if i == 1 {
                assert(out@ =~= base + join_br(lv.subrange(0, 1)));
            } else {
                assert(out@ =~= base + join_br(lv.subrange(0, i as int)));
            }
        }
    }
    assert(lv.subrange(0, lv.len() as int) =~= lv);
}

/// The body of one rendered entry.
pub open spec fn entry_body(
    key: Seq<char>,
    v: MetaValueView,
    cl: Seq<Seq<char>>,
    pl: Seq<Seq<char>>,
) -> Seq<char> {
    if key == "contents"@ {
        if cl.len() > 0 {
            join_br(cl)
        } else {
            maybe_md_spec(inline_spec(v))
        }
    } else if key == "part_of"@ {
        if pl.len() > 0 {
            join_br(pl)
        } else {
            maybe_md_spec(inline_spec(v))
        }
    } else if key == "created"@ || key == "updated"@ {
        match v {
            MetaValueView::Scalar(ScalarView::Str(sv)) => esc_seq(humanize_spec(sv)),
            _ => maybe_md_spec(inline_spec(v)),
        }
    } else {
        maybe_md_spec(inline_spec(v))
    }
}

/// One rendered entry: the escaped key in bold, then the body.
pub open spec fn entry_html(
    key: Seq<char>,
    v: MetaValueView,
    cl: Seq<Seq<char>>,
    pl: Seq<Seq<char>>,
) -> Seq<char> {
    "<li><strong>"@ + esc_seq(key) + ":</strong> "@ + entry_body(key, v, cl, pl) + "</li>"@
}

/// The rendered entries, concatenated in order.
pub open spec fn entries_html(
    e: Seq<(Seq<char>, MetaValueView)>,
    cl: Seq<Seq<char>>,
    pl: Seq<Seq<char>>,
) -> Seq<char>
    decreases e.len(),
{
    if e.len() == 0 {
        Seq::empty()
    } else {
        entries_html(e.drop_last(), cl, pl) + entry_html(e.last().0, e.last().1, cl, pl)
    }
}

/// The entries other than the reachability key, in order.
pub open spec fn keep_other(e: Seq<(Seq<char>, MetaValueView)>) -> Seq<(Seq<char>, MetaValueView)>
    decreases e.len(),
{
    if e.len() == 0 {
        Seq::empty()
    } else if e.last().0 == "reachable"@ {
        keep_other(e.drop_last())
    } else {
        keep_other(e.drop_last()).push(e.last())
    }
}

/// The reachability entries, in order.
pub open spec fn keep_reachable(e: Seq<(Seq<char>, MetaValueView)>) -> Seq<
    (Seq<char>, MetaValueView),
>
    decreases e.len(),
{
    if e.len() == 0 {
        Seq::empty()
    } else if e.last().0 == "reachable"@ {
        keep_reachable(e.drop_last()).push(e.last())
    } else {
        keep_reachable(e.drop_last())
    }
}

/// The raw content-list literals of the header, for alias recovery.
pub open spec fn contents_strs(e: Seq<(Seq<char>, MetaValueView)>) -> Seq<Seq<char>> {
    match crate::meta::lookup(e, "contents"@) {
        Some(MetaValueView::List(items)) => part_of_items(items),
        _ => Seq::empty(),
    }
}

/// The whole rendered metadata fragment. An empty header renders as
/// nothing; otherwise the entries render in order inside an unordered
/// list, with the reachability key moved last.
pub open spec fn metadata_html_spec(
    e: Seq<(Seq<char>, MetaValueView)>,
    is_root_index: bool,
    is_index: bool,
    layout: Layout,
    children: Seq<Seq<char>>,
    parents: Seq<Seq<char>>,
    raw_part_of: Seq<Seq<char>>,
    root_slug: Option<Seq<char>>,
    ca: Seq<(Seq<char>, Seq<char>)>,
    pa: Seq<(Seq<char>, Seq<char>)>,
) -> Seq<char> {
    if e.len() == 0 {
        Seq::empty()
    } else {
        let am = build_alias_map(if is_index { contents_strs(e) } else { Seq::empty() });
        let cl = if is_index {
            child_links_spec(children, ca, am, layout, is_root_index)
        } else {
            Seq::empty()
        };
        let rpm = build_alias_map(raw_part_of);
        let pl = parent_links_spec(parents, pa, rpm, layout, is_root_index, root_slug)
            + nonstruct_links(rpm, existing_init(parents, layout, root_slug), layout, is_root_index);
        "<ul class=\"metadata\">"@ + entries_html(keep_other(e), cl, pl) + entries_html(
            keep_reachable(e),
            cl,
            pl,
        ) + "</ul>"@
    }
}

fn collect_list_strs(entries: &HeaderEntries) -> (r: Vec<Vec<char>>)
    ensures
        r@.map_values(|x: Vec<char>| x@) == contents_strs(entries_view(*entries)),
{
    match crate::meta::find_entry(entries, "contents") {
        Some(MetaValue::List(items)) => {
            let ghost iv = items@.map_values(|x: Scalar| x@);
            let mut out: Vec<Vec<char>> = Vec::new();
            let mut i: usize = 0;
            while i < items.len()
                invariant
                    iv == items@.map_values(|x: Scalar| x@),
                    iv.len() == items@.len(),
                    i <= items@.len(),
                    out@.map_values(|x: Vec<char>| x@) == part_of_items(iv.subrange(0, i as int)),
                decreases items@.len() - i,
            {
                match &items[i] {
                    Scalar::Str(sv) => {
                        out.push(sv.clone());
                    },
                    _ => {},
                }
                i = i + 1;
                assert(iv.subrange(0, i as int).drop_last() =~= iv.subrange(0, i - 1));
                assert(out@.map_values(|x: Vec<char>| x@) =~= part_of_items(
                    iv.subrange(0, i as int),
                ));
            }
            assert(iv.subrange(0, iv.len() as int) =~= iv);
            out
        },
        _ => Vec::new(),
    }
}

#[verifier::loop_isolation(false)]
fn build_child_links(
    children: &Vec<Vec<char>>,
    ca: &Vec<(Vec<char>, Vec<char>)>,
    am: &Vec<(Vec<char>, Vec<char>)>,
    layout: Layout,
    cur_root: bool,
) -> (r: Vec<Vec<char>>)
    ensures
        r@.map_values(|s: Vec<char>| s@) == child_links_spec(
            children@.map_values(|s: Vec<char>| s@),
            am_view(*ca),
            am_view(*am),
            layout,
            cur_root,
        ),
{
    let ghost cv = children@.map_values(|s: Vec<char>| s@);
    let mut out: Vec<Vec<char>> = Vec::new();
    let mut i: usize = 0;
    while i < children.len()
        invariant
            cv == children@.map_values(|s: Vec<char>| s@),
            i <= children@.len(),
            out@.len() == i,
            forall|j: int|
                0 <= j < i ==> out@[j]@ == link_html(
                    meta_child_href_spec(layout, cur_root, cv[j]),
                    child_label_spec(am_view(*ca), am_view(*am), cv[j]),
                ),
        decreases children@.len() - i,
    {
        let slug = &children[i];
        let label: Vec<char> = match am_lookup_exec(ca, slug) {
            Some(a) => a,
            None => {
                let mut key = slug.clone();
                key.push('.');
                key.push('m');
                key.push('d');
                assert(key@ =~= cv[i as int] + md_ext());
                match am_lookup_exec(am, &key) {
                    Some(a) => a,
                    None => slug.clone(),
                }
            },
        };
        let href = meta_child_href(layout, cur_root, slug);
        let mut link: Vec<char> = Vec::new();
        push_link_html(&mut link, &href, &label);
        out.push(link);
        i = i + 1;
    }
    assert(out@.map_values(|s: Vec<char>| s@) =~= child_links_spec(
        cv,
        am_view(*ca),
        am_view(*am),
        layout,
        cur_root,
    ));
    out
}

#[verifier::loop_isolation(false)]
fn build_parent_links(
    parents: &Vec<Vec<char>>,
    pa: &Vec<(Vec<char>, Vec<char>)>,
    rpm: &Vec<(Vec<char>, Vec<char>)>,
    layout: Layout,
    cur_root: bool,
    root_slug: Option<&Vec<char>>,
) -> (r: Vec<Vec<char>>)
    ensures
        r@.map_values(|s: Vec<char>| s@) == parent_links_spec(
            parents@.map_values(|s: Vec<char>| s@),
            am_view(*pa),
            am_view(*rpm),
            layout,
            cur_root,
            match root_slug {
                Some(rs) => Some(rs@),
                None => None,
            },
        ),
{
    let ghost pv = parents@.map_values(|s: Vec<char>| s@);
    let ghost rsv: Option<Seq<char>> = match root_slug {
        Some(rs) => Some(rs@),
        None => None,
    };
    let mut out: Vec<Vec<char>> = Vec::new();
    let mut i: usize = 0;
    while i < parents.len()
        invariant
            pv == parents@.map_values(|s: Vec<char>| s@),
            rsv == (match root_slug {
                Some(rs) => Some(rs@),
                None => None::<Seq<char>>,
            }),
            i <= parents@.len(),
            out@.len() == i,
            forall|j: int|
                0 <= j < i ==> out@[j]@ == link_html(
                    meta_parent_href_spec(layout, cur_root, is_root_parent(rsv, pv[j]), pv[j]),
                    parent_label_spec(am_view(*pa), am_view(*rpm), pv[j]),
                ),
        decreases parents@.len() - i,
    {
        let slug = &parents[i];
        let label: Vec<char> = match am_lookup_exec(pa, slug) {
            Some(a) => a,
            None => {
                let mut key = slug.clone();
                key.push('.');
                key.push('m');
                key.push('d');
                assert(key@ =~= pv[i as int] + md_ext());
                match am_lookup_exec(rpm, &key) {
                    Some(a) => a,
                    None => slug.clone(),
                }
            },
        };
        let rootp = match root_slug {
            Some(rs) => eq_chars(rs, slug),
            None => false,
        };
        let href = meta_parent_href(layout, cur_root, rootp, slug);
        let mut link: Vec<char> = Vec::new();
        push_link_html(&mut link, &href, &label);
        out.push(link);
        i = i + 1;
    }
    assert(out@.map_values(|s: Vec<char>| s@) =~= parent_links_spec(
        pv,
        am_view(*pa),
        am_view(*rpm),
        layout,
        cur_root,
        rsv,
    ));
    out
}

/// Append one rendered entry.
#[verifier::loop_isolation(false)]
fn push_entry_html(
    out: &mut Vec<char>,
    key: &Vec<char>,
    v: &MetaValue,
    cl: &Vec<Vec<char>>,
    pl: &Vec<Vec<char>>,
)
    ensures
        final(out)@ == old(out)@ + entry_html(
            key@,
            v@,
            cl@.map_values(|s: Vec<char>| s@),
            pl@.map_values(|s: Vec<char>| s@),
        ),
{
    push_str_chars(out, "<li><strong>");
    push_esc_chars(out, key);
    push_str_chars(out, ":</strong> ");
    let contents_key = chars_of("contents");
    let part_of_key = chars_of("part_of");
    let created_key = chars_of("created");
    let updated_key = chars_of("updated");
    if eq_chars(key, &contents_key) {
        if cl.len() > 0 {
            push_join_br(out, cl);
        } else {
            let ivl = inline_value(v);
            push_maybe_md_links(out, &ivl);
        }
    } else if eq_chars(key, &part_of_key) {
        if pl.len() > 0 {
            push_join_br(out, pl);
        } else {
            let ivl = inline_value(v);
            push_maybe_md_links(out, &ivl);
        }
    } else if eq_chars(key, &created_key) || eq_chars(key, &updated_key) {
        match v {
            MetaValue::Scalar(Scalar::Str(sv)) => {
                let pretty = humanize_timestamp(sv);
                push_esc_chars(out, &pretty);
            },
            _ => {
                let ivl = inline_value(v);
                push_maybe_md_links(out, &ivl);
            },
        }
    } else {
        let ivl = inline_value(v);
        push_maybe_md_links(out, &ivl);
    }
    push_str_chars(out, "</li>");
    assert(out@ =~= old(out)@ + entry_html(
        key@,
        v@,
        cl@.map_values(|s: Vec<char>| s@),
        pl@.map_values(|s: Vec<char>| s@),
    ));
}

/// Append every rendered entry, the reachability key last.
#[verifier::loop_isolation(false)]
#[verifier::rlimit(100)]
fn push_entries_html(
    out: &mut Vec<char>,
    entries: &HeaderEntries,
    cl: &Vec<Vec<char>>,
    pl: &Vec<Vec<char>>,
)
    ensures
        final(out)@ == old(out)@ + entries_html(
            keep_other(entries_view(*entries)),
            cl@.map_values(|s: Vec<char>| s@),
            pl@.map_values(|s: Vec<char>| s@),
        ) + entries_html(
            keep_reachable(entries_view(*entries)),
            cl@.map_values(|s: Vec<char>| s@),
            pl@.map_values(|s: Vec<char>| s@),
        ),
{
    let ghost ev = entries_view(*entries);
    let ghost clv = cl@.map_values(|s: Vec<char>| s@);
    let ghost plv = pl@.map_values(|s: Vec<char>| s@);
    let ghost base = out@;
    let reachable_key = chars_of("reachable");
    let mut a: usize = 0;
    assert(out@ =~= base + entries_html(keep_other(ev.subrange(0, 0)), clv, plv));
    while a < entries.len()
        invariant
            ev == entries_view(*entries),
            ev.len() == entries@.len(),
            a <= entries@.len(),
            reachable_key@ == "reachable"@,
            out@ == base + entries_html(keep_other(ev.subrange(0, a as int)), clv, plv),
        decreases entries@.len() - a,
    {
        if !eq_chars(&entries[a].0, &reachable_key) {
            push_entry_html(out, &entries[a].0, &entries[a].1, cl, pl);
        }
        a = a + 1;
        proof {
            assert(ev.subrange(0, a as int).drop_last() =~= ev.subrange(0, a - 1));
            assert(ev.subrange(0, a as int).last() == ev[a - 1]);
            let k0 = keep_other(ev.subrange(0, a - 1));
            if ev[a - 1].0 == "reachable"@ {
                assert(keep_other(ev.subrange(0, a as int)) == k0);
            } else {
                assert(keep_other(ev.subrange(0, a as int)) == k0.push(ev[a - 1]));
                assert(k0.push(ev[a - 1]).drop_last() =~= k0);
                assert(out@ =~= base + entries_html(keep_other(ev.subrange(0, a as int)), clv, plv));
            }
        }
    }
    assert(ev.subrange(0, ev.len() as int) =~= ev);
    let ghost mid = out@;
    let mut b: usize = 0;
    assert(out@ =~= mid + entries_html(keep_reachable(ev.subrange(0, 0)), clv, plv));
    while b < entries.len()
        invariant
            ev == entries_view(*entries),
            ev.len() == entries@.len(),
            b <= entries@.len(),
            reachable_key@ == "reachable"@,
            out@ == mid + entries_html(keep_reachable(ev.subrange(0, b as int)), clv, plv),
        decreases entries@.len() - b,
    {
        if eq_chars(&entries[b].0, &reachable_key) {
            push_entry_html(out, &entries[b].0, &entries[b].1, cl, pl);
        }
        b = b + 1;
        proof {
            assert(ev.subrange(0, b as int).drop_last() =~= ev.subrange(0, b - 1));
            assert(ev.subrange(0, b as int).last() == ev[b - 1]);
            let k0 = keep_reachable(ev.subrange(0, b - 1));
            if ev[b - 1].0 == "reachable"@ {
                assert(keep_reachable(ev.subrange(0, b as int)) == k0.push(ev[b - 1]));
                assert(k0.push(ev[b - 1]).drop_last() =~= k0);
                assert(out@ =~= mid + entries_html(
                    keep_reachable(ev.subrange(0, b as int)),
                    clv,
                    plv,
                ));
            } else {
                assert(keep_reachable(ev.subrange(0, b as int)) == k0);
            }
        }
    }
    assert(out@ =~= base + entries_html(keep_other(ev), clv, plv) + entries_html(
        keep_reachable(ev),
        clv,
        plv,
    ));
}

/// Render the structured header as a displayable fragment.
#[verifier::loop_isolation(false)]
#[verifier::rlimit(100)]
pub fn build_metadata_html(
    entries: &HeaderEntries,
    is_root_index: bool,
    is_index: bool,
    layout: Layout,
    children: &Vec<Vec<char>>,
    parents: &Vec<Vec<char>>,
    raw_part_of: &Vec<Vec<char>>,
    root_slug: Option<&Vec<char>>,
    child_aliases: &Vec<(Vec<char>, Vec<char>)>,
    parent_aliases: &Vec<(Vec<char>, Vec<char>)>,
) -> (r: Vec<char>)
    ensures
        r@ == metadata_html_spec(
            entries_view(*entries),
            is_root_index,
            is_index,
            layout,
            children@.map_values(|s: Vec<char>| s@),
            parents@.map_values(|s: Vec<char>| s@),
            raw_part_of@.map_values(|s: Vec<char>| s@),
            match root_slug {
                Some(rs) => Some(rs@),
                None => None,
            },
            am_view(*child_aliases),
            am_view(*parent_aliases),
        ),
{
    let ghost ev = entries_view(*entries);
    if entries.len() == 0 {
        assert(ev.len() == 0);
        return Vec::new();
    }
    // alias map from the raw content entries
    let am: Vec<(Vec<char>, Vec<char>)> = if is_index {
        let strs = collect_list_strs(entries);
        build_alias_map_exec(&strs)
    } else {
        let empty: Vec<Vec<char>> = Vec::new();
        let m = build_alias_map_exec(&empty);
        proof {
            assert(empty@.map_values(|x: Vec<char>| x@) =~= Seq::<Seq<char>>::empty());
        }
        m
    };
    let cl: Vec<Vec<char>> = if is_index {
        build_child_links(children, child_aliases, &am, layout, is_root_index)
    } else {
        Vec::new()
    };
    proof {
        if !is_index {
            assert(cl@.map_values(|s: Vec<char>| s@) =~= Seq::<Seq<char>>::empty());
        }
    }
    // parent links, structural then non-structural
    let rpm = build_alias_map_exec(raw_part_of);
    let mut pl = build_parent_links(parents, parent_aliases, &rpm, layout, is_root_index, root_slug);
    let mut existing: Vec<Vec<char>> = Vec::new();
    let mut i: usize = 0;
    while i < parents.len()
        invariant
            i <= parents@.len(),
            existing@.len() == i,
            forall|j: int| 0 <= j < i ==> existing@[j]@ == parents@[j]@,
        decreases parents@.len() - i,
    {
        existing.push(parents[i].clone());
        i = i + 1;
    }
    let ghost pvv = parents@.map_values(|s: Vec<char>| s@);
    let ghost rsvv: Option<Seq<char>> = match root_slug {
        Some(rs) => Some(rs@),
        None => None,
    };
    let mut any_root = false;
    let mut k: usize = 0;
    while k < parents.len()
        invariant
            pvv == parents@.map_values(|s: Vec<char>| s@),
            rsvv == (match root_slug {
                Some(rs) => Some(rs@),
                None => None::<Seq<char>>,
            }),
            k <= parents@.len(),
            any_root == exists|j: int| 0 <= j < k && is_root_parent(rsvv, pvv[j]),
        decreases parents@.len() - k,
    {
        let rootp = match root_slug {
            Some(rs) => eq_chars(rs, &parents[k]),
            None => false,
        };
        proof {
            assert(pvv[k as int] == parents@[k as int]@);
        }
        if rootp {
            any_root = true;
            assert(is_root_parent(rsvv, pvv[k as int]));
        }
        k = k + 1;
    }
    let single = match layout {
        Layout::Single => true,
        _ => false,
    };
    if parents.len() > 0 && (single || any_root) {
        existing.push(chars_of("index"));
    }
    proof {
        assert(existing@.map_values(|s: Vec<char>| s@) =~= existing_init(
            parents@.map_values(|s: Vec<char>| s@),
            layout,
            match root_slug {
                Some(rs) => Some(rs@),
                None => None,
            },
        ));
    }
    let npl = nonstruct_links_exec(&rpm, existing, layout, is_root_index);
    let ghost pl0 = pl@.map_values(|s: Vec<char>| s@);
    let mut n: usize = 0;
    while n < npl.len()
        invariant
            n <= npl@.len(),
            pl@.len() == pl0.len() + n,
            forall|j: int| 0 <= j < pl0.len() ==> pl@[j]@ == pl0[j],
            forall|j: int| 0 <= j < n ==> pl@[pl0.len() + j]@ == npl@[j]@,
        decreases npl@.len() - n,
    {
        pl.push(npl[n].clone());
        n = n + 1;
    }
    assert(pl@.map_values(|s: Vec<char>| s@) =~= pl0 + npl@.map_values(|s: Vec<char>| s@));
    // render
    let mut out: Vec<char> = Vec::new();
    push_str_chars(&mut out, "<ul class=\"metadata\">");
    push_entries_html(&mut out, entries, &cl, &pl);
    push_str_chars(&mut out, "</ul>");
    assert(out@ =~= metadata_html_spec(
        ev,
        is_root_index,
        is_index,
        layout,
        children@.map_values(|s: Vec<char>| s@),
        parents@.map_values(|s: Vec<char>| s@),
        raw_part_of@.map_values(|s: Vec<char>| s@),
        match root_slug {
            Some(rs) => Some(rs@),
            None => None,
        },
        am_view(*child_aliases),
        am_view(*parent_aliases),
    ));
    out
}

} // verus!
