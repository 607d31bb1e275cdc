//! Rewriting of intra-site hyperlinks in rendered HTML.
//!
//! The rewriter scans for quoted `href="..."` values. A value whose part
//! before any query or fragment ends in the page extension is resolved by
//! its (percent-decoded) basename against the loaded documents; a resolved
//! value is replaced by the layout-correct relative path, keeping the query
//! or fragment verbatim; every other value, and all surrounding text, is
//! left untouched. Rewriting is idempotent: a rewritten value ends in
//! `.html`, which never resolves again.

use vstd::prelude::*;
use crate::text::{
    matches_at, find_from, lemma_find_from_props, lemma_find_from_is, find_sub, find_char,
    sub_chars, push_chars, leading_while, lemma_leading_while, lemma_leading_while_is, lower_seq,
    lower_chars, lower_char, ends_with, check_ends_with, decode20, decode20_chars,
};
use crate::links::{basename_spec, basename_chars, md_ext, slug_keep, slug_spec};
use crate::layout::{Layout, body_href_spec, body_href};

verus! {

/// One loaded document, as the rewriter needs it: the basename of its
/// source path, its slug, and whether it is the root index.
pub struct DocRef {
    pub basename: Vec<char>,
    pub slug: Vec<char>,
    pub is_root: bool,
}

/// Spec-level mirror of `DocRef`.
pub struct DocRefV {
    pub basename: Seq<char>,
    pub slug: Seq<char>,
    pub is_root: bool,
}

impl View for DocRef {
    type V = DocRefV;

    open spec fn view(&self) -> DocRefV {
        DocRefV { basename: self.basename@, slug: self.slug@, is_root: self.is_root }
    }
}

pub open spec fn table_view(t: Vec<DocRef>) -> Seq<DocRefV> {
    t@.map_values(|d: DocRef| d@)
}

/// A well-formed slug holds only lowercase letters, digits and hyphens.
pub open spec fn wf_slug(s: Seq<char>) -> bool {
    forall|i: int| 0 <= i < s.len() ==> slug_keep(s[i]) || s[i] == '-'
}

pub open spec fn wf_table(table: Seq<DocRefV>) -> bool {
    forall|i: int| 0 <= i < table.len() ==> wf_slug(table[i].slug)
}

/// The document matching a basename; when two documents share a basename
/// the one loaded later wins.
pub open spec fn lookup_doc(table: Seq<DocRefV>, name: Seq<char>) -> Option<(Seq<char>, bool)>
    decreases table.len(),
{
    if table.len() == 0 {
        None
    } else if table.last().basename == name {
        Some((table.last().slug, table.last().is_root))
    } else {
        lookup_doc(table.drop_last(), name)
    }
}

proof fn lemma_lookup_doc_wf(table: Seq<DocRefV>, name: Seq<char>)
    requires
        wf_table(table),
    ensures
        match lookup_doc(table, name) {
            Some(p) => wf_slug(p.0),
            None => true,
        },
    decreases table.len(),
{
    if table.len() > 0 && table.last().basename != name {
        assert(wf_table(table.drop_last()));
        lemma_lookup_doc_wf(table.drop_last(), name);
    }
}

#[verifier::loop_isolation(false)]
fn lookup_doc_exec(table: &Vec<DocRef>, name: &Vec<char>) -> (r: Option<(Vec<char>, bool)>)
    ensures
        match r {
            Some(p) => lookup_doc(table_view(*table), name@) == Some((p.0@, p.1)),
            None => lookup_doc(table_view(*table), name@) is None,
        },
{
    let ghost tv = table_view(*table);
    let mut best: Option<(Vec<char>, bool)> = None;
    let mut i: usize = 0;
    assert(tv.subrange(0, 0) =~= Seq::<DocRefV>::empty());
    while i < table.len()
        invariant
            tv == table_view(*table),
            tv.len() == table@.len(),
            i <= table@.len(),
            match best {
                Some(p) => lookup_doc(tv.subrange(0, i as int), name@) == Some((p.0@, p.1)),
                None => lookup_doc(tv.subrange(0, i as int), name@) is None,
            },
        decreases table@.len() - i,
    {
        if crate::text::eq_chars(&table[i].basename, name) {
            best = Some((table[i].slug.clone(), table[i].is_root));
        }
        assert(tv[i as int] == table@[i as int]@);
        i = i + 1;
        assert(tv.subrange(0, i as int).drop_last() =~= tv.subrange(0, i - 1));
        assert(tv.subrange(0, i as int).last() == tv[i - 1]);
    }
    assert(tv.subrange(0, tv.len() as int) =~= tv);
    best
}

// ------------------------------------------------------------------
// URL pieces
// ------------------------------------------------------------------

/// The length of the part of a URL before any query or fragment.
pub open spec fn url_split(u: Seq<char>) -> int {
    leading_while(u, |c: char| c != '?' && c != '#')
}

pub open spec fn url_core(u: Seq<char>) -> Seq<char> {
    u.subrange(0, url_split(u))
}

pub open spec fn url_suffix(u: Seq<char>) -> Seq<char> {
    u.skip(url_split(u))
}

/// Does the URL, before any query or fragment, end in the page extension
/// (case-insensitively)?
pub open spec fn is_md_url(u: Seq<char>) -> bool {
    ends_with(lower_seq(url_core(u)), md_ext())
}

/// The resolution key of a page URL: the basename of its core, with
/// literal `%20` decoded.
pub open spec fn url_basename_key(u: Seq<char>) -> Seq<char> {
    decode20(basename_spec(url_core(u)))
}

/// One quoted href value after rewriting: a resolved page link becomes the
/// layout-correct relative path plus the original query or fragment;
/// anything else is unchanged.
pub open spec fn rewrite_value_spec(
    u: Seq<char>,
    table: Seq<DocRefV>,
    layout: Layout,
    cur_root: bool,
) -> Seq<char> {
    if is_md_url(u) {
        match lookup_doc(table, url_basename_key(u)) {
            Some(p) => body_href_spec(layout, cur_root, p.1, p.0) + url_suffix(u),
            None => u,
        }
    } else {
        u
    }
}

#[verifier::loop_isolation(false)]
fn url_split_exec(u: &Vec<char>) -> (r: usize)
    ensures
        r as int == url_split(u@),
        r <= u@.len(),
{
    let ghost p = |c: char| c != '?' && c != '#';
    let mut i: usize = 0;
    while i < u.len() && u[i] != '?' && u[i] != '#'
        invariant
            i <= u@.len(),
            forall|j: int| 0 <= j < i ==> u@[j] != '?' && u@[j] != '#',
        decreases u@.len() - i,
    {
        i = i + 1;
    }
    proof {
        lemma_leading_while_is(u@, p, i as int);
    }
    i
}

/// Rewrite one quoted href value.
#[verifier::loop_isolation(false)]
pub fn rewrite_value(u: &Vec<char>, table: &Vec<DocRef>, layout: Layout, cur_root: bool) -> (r:
    Vec<char>)
    ensures
        r@ == rewrite_value_spec(u@, table_view(*table), layout, cur_root),
{
    let split = url_split_exec(u);
    let core = sub_chars(u, 0, split);
    let lower = lower_chars(&core);
    let ext = {
        let mut e: Vec<char> = Vec::new();
        e.push('.');
        e.push('m');
        e.push('d');
        assert(e@ =~= md_ext());
        e
    };
    if !check_ends_with(&lower, &ext) {
        return u.clone();
    }
    let base = basename_chars(&core);
    let key = decode20_chars(&base);
    match lookup_doc_exec(table, &key) {
        Some((slug, troot)) => {
            let mut out = body_href(layout, cur_root, troot, &slug);
            let suffix = sub_chars(u, split, u.len());
            assert(suffix@ =~= url_suffix(u@));
            push_chars(&mut out, &suffix);
            out
        },
        None => u.clone(),
    }
}

// ------------------------------------------------------------------
// Whole-fragment rewriting
// ------------------------------------------------------------------

/// The attribute pattern that introduces a quoted hyperlink value.
pub open spec fn href_pat() -> Seq<char> {
    seq!['h', 'r', 'e', 'f', '=', '"']
}

/// The rendered fragment after link rewriting: each `href="value"` has its
/// value rewritten; all text outside quoted href values is untouched.
pub open spec fn rewrite_all_spec(
    h: Seq<char>,
    table: Seq<DocRefV>,
    layout: Layout,
    cur_root: bool,
) -> Seq<char>
    decreases h.len(),
    via rewrite_all_dec
{
    match find_from(h, 0, href_pat()) {
        None => h,
        Some(p) => match find_from(h, p + 6, seq!['"']) {
            None => h,
            Some(q) => h.subrange(0, p + 6) + rewrite_value_spec(
                h.subrange(p + 6, q),
                table,
                layout,
                cur_root,
            ) + seq!['"'] + rewrite_all_spec(h.skip(q + 1), table, layout, cur_root),
        },
    }
}

#[via_fn]
proof fn rewrite_all_dec(h: Seq<char>, table: Seq<DocRefV>, layout: Layout, cur_root: bool) {
    lemma_find_from_props(h, 0, href_pat());
    match find_from(h, 0, href_pat()) {
        None => {},
        Some(p) => {
            lemma_find_from_props(h, p + 6, seq!['"']);
        },
    }
}

/// Rewrite every quoted href value of a rendered fragment.
#[verifier::loop_isolation(false)]
#[verifier::rlimit(100)]
#[verifier::spinoff_prover]
pub fn rewrite_html(h: &Vec<char>, table: &Vec<DocRef>, layout: Layout, cur_root: bool) -> (r:
    Vec<char>)
    ensures
        r@ == rewrite_all_spec(h@, table_view(*table), layout, cur_root),
{
    let ghost tv = table_view(*table);
    let pat = {
        let mut p: Vec<char> = Vec::new();
        p.push('h');
        p.push('r');
        p.push('e');
        p.push('f');
        p.push('=');
        p.push('"');
        assert(p@ =~= href_pat());
        p
    };
    let mut out: Vec<char> = Vec::new();
    let mut pos: usize = 0;
    assert(h@.skip(0) =~= h@);
    while pos < h.len()
        invariant
            pos <= h@.len(),
            rewrite_all_spec(h@, tv, layout, cur_root) == out@ + rewrite_all_spec(
                h@.skip(pos as int),
                tv,
                layout,
                cur_root,
            ),
        decreases h@.len() - pos,
    {
        let ghost rest = h@.skip(pos as int);
        match find_sub(h, pos, &pat) {
            None => {
                proof {
                    assert forall|j: int| j >= 0 implies !matches_at(rest, j, href_pat()) by {
                        if j + href_pat().len() <= rest.len() {
                            assert(rest.subrange(j, j + 6) =~= h@.subrange(pos + j, pos + j + 6));
                            assert(!matches_at(h@, pos + j, pat@));
                        }
                    }
                    lemma_find_from_is(rest, 0, href_pat(), None);
                }
                let tail = sub_chars(h, pos, h.len());
                push_chars(&mut out, &tail);
                proof {
                    assert(tail@ =~= rest);
                }
                pos = h.len();
                assert(rewrite_all_spec(h@.skip(pos as int), tv, layout, cur_root)
                    =~= Seq::<char>::empty());
            },
            Some(p) => {
                proof {
                    assert forall|j: int| 0 <= j < p - pos implies !matches_at(
                        rest,
                        j,
                        href_pat(),
                    ) by {
                        if j + href_pat().len() <= rest.len() {
                            assert(rest.subrange(j, j + 6) =~= h@.subrange(pos + j, pos + j + 6));
                            assert(!matches_at(h@, pos + j, pat@));
                        }
                    }
                    assert(rest.subrange(p - pos, p - pos + 6) =~= h@.subrange(
                        p as int,
                        p + 6,
                    ));
                    assert(matches_at(rest, p - pos, href_pat()));
                    lemma_find_from_is(rest, 0, href_pat(), Some(p - pos));
                }
                match find_char(h, p + 6, '"') {
                    None => {
                        proof {
                            assert forall|j: int| j >= p - pos + 6 implies !matches_at(
                                rest,
                                j,
                                seq!['"'],
                            ) by {
                                if 0 <= j && j + 1 <= rest.len() {
                                    assert(rest.subrange(j, j + 1)[0] == rest[j]);
                                    assert(rest[j] == h@[pos + j]);
                                    assert(h@[pos + j] != '"');
                                }
                            }
                            lemma_find_from_is(rest, p - pos + 6, seq!['"'], None);
                        }
                        let tail = sub_chars(h, pos, h.len());
                        push_chars(&mut out, &tail);
                        proof {
                            assert(tail@ =~= rest);
                        }
                        pos = h.len();
                        assert(rewrite_all_spec(h@.skip(pos as int), tv, layout, cur_root)
                            =~= Seq::<char>::empty());
                    },
                    Some(q) => {
                        proof {
                            assert forall|j: int| p - pos + 6 <= j < q - pos implies !matches_at(
                                rest,
                                j,
                                seq!['"'],
                            ) by {
                                assert(rest.subrange(j, j + 1)[0] == rest[j]);
                                assert(rest[j] == h@[pos + j]);
                                assert(h@[pos + j] != '"');
                            }
                            assert(rest[q - pos] == h@[q as int]);
                            assert(rest.subrange(q - pos, q - pos + 1) =~= seq!['"']);
                            assert(matches_at(rest, q - pos, seq!['"']));
                            lemma_find_from_is(rest, p - pos + 6, seq!['"'], Some(q - pos));
                        }
                        let ghost out0 = out@;
                        let head = sub_chars(h, pos, p + 6);
                        push_chars(&mut out, &head);
                        let val = sub_chars(h, p + 6, q);
                        let newval = rewrite_value(&val, table, layout, cur_root);
                        push_chars(&mut out, &newval);
                        out.push('"');
                        proof {
                            assert(head@ =~= rest.subrange(0, p - pos + 6));
                            assert(val@ =~= rest.subrange(p - pos + 6, q - pos));
                        }
                        let ghost oldpos = pos as int;
                        pos = q + 1;
                        proof {
                            assert(h@.skip(pos as int) =~= rest.skip(q - oldpos + 1));
                            assert(rewrite_all_spec(rest, tv, layout, cur_root)
                                == rest.subrange(0, p - oldpos + 6) + rewrite_value_spec(
                                rest.subrange(p - oldpos + 6, q - oldpos),
                                tv,
                                layout,
                                cur_root,
                            ) + seq!['"'] + rewrite_all_spec(
                                rest.skip(q - oldpos + 1),
                                tv,
                                layout,
                                cur_root,
                            ));
                            assert(out@ =~= out0 + head@ + newval@ + seq!['"']);
                            assert(out0 + rewrite_all_spec(rest, tv, layout, cur_root)
                                =~= out@ + rewrite_all_spec(
                                h@.skip(pos as int),
                                tv,
                                layout,
                                cur_root,
                            ));
                        }
                    },
                }
            },
        }
    }
    assert(rewrite_all_spec(h@.skip(pos as int), tv, layout, cur_root) =~= Seq::<char>::empty());
    assert(out@ =~= rewrite_all_spec(h@, tv, layout, cur_root));
    out
}

// ------------------------------------------------------------------
// Idempotence
// ------------------------------------------------------------------

proof fn lemma_collapse_chars_keep(s: Seq<char>)
    requires
        forall|i: int| 0 <= i < s.len() ==> slug_keep(s[i]) || s[i] == '-',
    ensures
        forall|i: int|
            0 <= i < crate::links::collapse_hyphens(s).len() ==> slug_keep(
                crate::links::collapse_hyphens(s)[i],
            ) || crate::links::collapse_hyphens(s)[i] == '-',
    decreases s.len(),
{
    if s.len() > 0 {
        assert(forall|i: int|
            0 <= i < s.drop_last().len() ==> slug_keep(s.drop_last()[i]) || s.drop_last()[i]
                == '-');
        lemma_collapse_chars_keep(s.drop_last());
        let c = crate::links::collapse_hyphens(s);
        let r = crate::links::collapse_hyphens(s.drop_last());
        assert forall|i: int| 0 <= i < c.len() implies slug_keep(c[i]) || c[i] == '-' by {
            if !(s.last() == '-' && r.len() > 0 && r.last() == '-') {
                if i < r.len() {
                    assert(c[i] == r[i]);
                } else {
                    assert(c[i] == s.last());
                }
            }
        }
    }
}

/// Every character of a derived slug is a lowercase letter, a digit, or a
/// hyphen.
pub proof fn lemma_slugify_wf(s: Seq<char>)
    ensures
        wf_slug(slug_spec(s)),
{
    let m = crate::links::slug_map(s);
    assert(forall|i: int| 0 <= i < m.len() ==> slug_keep(m[i]) || m[i] == '-');
    lemma_collapse_chars_keep(m);
    let c = crate::links::collapse_hyphens(m);
    let t = crate::links::trim_hyphens(c);
    crate::text::lemma_leading_while(c, |ch: char| ch == '-');
    crate::text::lemma_trailing_while(c, |ch: char| ch == '-');
    assert forall|i: int| 0 <= i < t.len() implies slug_keep(t[i]) || t[i] == '-' by {
        if crate::text::leading_while(c, |ch: char| ch == '-') < c.len() {
            assert(t[i] == c[i + crate::text::leading_while(c, |ch: char| ch == '-')]);
        }
    }
}

/// A body href is non-empty, ends in `l`, and contains no query, fragment
/// or quote character.
proof fn lemma_href_props(layout: Layout, cr: bool, tr: bool, slug: Seq<char>)
    requires
        wf_slug(slug),
    ensures
        ({
            let w = body_href_spec(layout, cr, tr, slug);
            &&& w.len() > 0
            &&& w.last() == 'l'
            &&& forall|i: int| 0 <= i < w.len() ==> w[i] != '?' && w[i] != '#' && w[i] != '"'
        }),
{
    reveal_strlit("index.html");
    reveal_strlit("../index.html");
    reveal_strlit("pages/");
    reveal_strlit(".html");
    let w = body_href_spec(layout, cr, tr, slug);
    match layout {
        Layout::NestedMulti => {
            if cr {
                if tr {
                } else {
                    assert(w =~= "pages/"@ + slug + ".html"@);
                    assert(w.last() == 'l');
                    assert forall|i: int| 0 <= i < w.len() implies w[i] != '?' && w[i] != '#'
                        && w[i] != '"' by {
                        if i < "pages/"@.len() {
                            assert(w[i] == "pages/"@[i]);
                        } else if i < "pages/"@.len() + slug.len() {
                            assert(w[i] == slug[i - "pages/"@.len()]);
                        } else {
                            assert(w[i] == ".html"@[i - "pages/"@.len() - slug.len()]);
                        }
                    }
                }
            } else {
                if tr {
                } else {
                    assert(w =~= slug + ".html"@);
                    assert(w.last() == 'l');
                    assert forall|i: int| 0 <= i < w.len() implies w[i] != '?' && w[i] != '#'
                        && w[i] != '"' by {
                        if i < slug.len() {
                            assert(w[i] == slug[i]);
                        } else {
                            assert(w[i] == ".html"@[i - slug.len()]);
                        }
                    }
                }
            }
        },
        Layout::FlatMulti => {
            if tr {
            } else {
                assert(w =~= slug + ".html"@);
                assert(w.last() == 'l');
                assert forall|i: int| 0 <= i < w.len() implies w[i] != '?' && w[i] != '#' && w[i]
                    != '"' by {
                    if i < slug.len() {
                        assert(w[i] == slug[i]);
                    } else {
                        assert(w[i] == ".html"@[i - slug.len()]);
                    }
                }
            }
        },
        Layout::Single => {},
    }
}

/// Rewriting a single href value is idempotent: a rewritten value ends in
/// `.html` before any query or fragment, which never resolves as a page
/// link again.
pub proof fn lemma_rewrite_value_idempotent(
    u: Seq<char>,
    table: Seq<DocRefV>,
    layout: Layout,
    cur_root: bool,
)
    requires
        wf_table(table),
    ensures
        rewrite_value_spec(rewrite_value_spec(u, table, layout, cur_root), table, layout, cur_root)
            == rewrite_value_spec(u, table, layout, cur_root),
{
    let w = rewrite_value_spec(u, table, layout, cur_root);
    let nq = |c: char| c != '?' && c != '#';
    if is_md_url(u) && lookup_doc(table, url_basename_key(u)) is Some {
        let p = lookup_doc(table, url_basename_key(u)).unwrap();
        lemma_lookup_doc_wf(table, url_basename_key(u));
        let href = body_href_spec(layout, cur_root, p.1, p.0);
        lemma_href_props(layout, cur_root, p.1, p.0);
        assert(w == href + url_suffix(u));
        crate::text::lemma_leading_while(u, nq);
        assert forall|j: int| 0 <= j < href.len() implies nq(w[j]) by {
            assert(w[j] == href[j]);
        }
        if href.len() < w.len() {
            assert(w[href.len() as int] == url_suffix(u)[0]);
            assert(url_suffix(u)[0] == u[url_split(u)]);
            assert(!nq(u[url_split(u)]));
        }
        crate::text::lemma_leading_while_is(w, nq, href.len() as int);
        assert(url_split(w) == href.len());
        assert(url_core(w) =~= href);
        if is_md_url(w) {
            let lw = lower_seq(url_core(w));
            assert(lw.subrange(lw.len() - 3, lw.len() as int) == md_ext());
            assert(lw.subrange(lw.len() - 3, lw.len() as int)[2] == lw[lw.len() - 1]);
            assert(lw[lw.len() - 1] == lower_char(href[href.len() - 1]));
            assert(false);
        }
    } else {
        assert(w == u);
    }
}

/// Link rewriting is idempotent: rewriting an already-rewritten fragment
/// changes nothing.
#[verifier::rlimit(100)]
pub proof fn lemma_rewrite_idempotent(
    h: Seq<char>,
    table: Seq<DocRefV>,
    layout: Layout,
    cur_root: bool,
)
    requires
        wf_table(table),
    ensures
        rewrite_all_spec(rewrite_all_spec(h, table, layout, cur_root), table, layout, cur_root)
            == rewrite_all_spec(h, table, layout, cur_root),
    decreases h.len(),
{
    lemma_find_from_props(h, 0, href_pat());
    match find_from(h, 0, href_pat()) {
        None => {},
        Some(p) => {
            lemma_find_from_props(h, p + 6, seq!['"']);
            match find_from(h, p + 6, seq!['"']) {
                None => {},
                Some(q) => {
                    let val = h.subrange(p + 6, q);
                    let val2 = rewrite_value_spec(val, table, layout, cur_root);
                    let tail = h.skip(q + 1);
                    let tail2 = rewrite_all_spec(tail, table, layout, cur_root);
                    let w = h.subrange(0, p + 6) + val2 + seq!['"'] + tail2;
                    assert(w == rewrite_all_spec(h, table, layout, cur_root));
                    // `val` holds no quote
                    assert forall|k: int| 0 <= k < val.len() implies val[k] != '"' by {
                        assert(val[k] == h[p + 6 + k]);
                        if h[p + 6 + k] == '"' {
                            assert(h.subrange(p + 6 + k, p + 6 + k + 1) =~= seq!['"']);
                            assert(matches_at(h, p + 6 + k, seq!['"']));
                        }
                    }
                    // so `val2` holds no quote either
                    assert forall|k: int| 0 <= k < val2.len() implies val2[k] != '"' by {
                        if is_md_url(val) && lookup_doc(table, url_basename_key(val)) is Some {
                            let pr = lookup_doc(table, url_basename_key(val)).unwrap();
                            lemma_lookup_doc_wf(table, url_basename_key(val));
                            let href = body_href_spec(layout, cur_root, pr.1, pr.0);
                            lemma_href_props(layout, cur_root, pr.1, pr.0);
                            assert(val2 == href + url_suffix(val));
                            if k >= href.len() {
                                crate::text::lemma_leading_while(
                                    val,
                                    |c: char| c != '?' && c != '#',
                                );
                                assert(val2[k] == url_suffix(val)[k - href.len()]);
                                assert(url_suffix(val)[k - href.len()] == val[k - href.len()
                                    + url_split(val)]);
                            }
                        } else {
                            assert(val2 == val);
                        }
                    }
                    // the first href pattern of `w` is still at `p`
                    assert(p + 6 <= q < h.len());
                    assert(w.subrange(p as int, p + 6) =~= h.subrange(p as int, p + 6));
                    assert(h.subrange(p as int, p + 6) == href_pat());
                    assert(matches_at(w, p as int, href_pat()));
                    assert forall|j: int| 0 <= j < p implies !matches_at(w, j, href_pat()) by {
                        assert(w.subrange(j, j + 6) =~= h.subrange(j, j + 6));
                        assert(!matches_at(h, j, href_pat()));
                    }
                    lemma_find_from_is(w, 0, href_pat(), Some(p as int));
                    // and its closing quote right after `val2`
                    let q2 = p + 6 + val2.len();
                    assert(w[q2] == '"');
                    assert(w.subrange(q2 as int, q2 + 1) =~= seq!['"']);
                    assert(matches_at(w, q2 as int, seq!['"']));
                    assert forall|j: int| p + 6 <= j < q2 implies !matches_at(w, j, seq!['"']) by {
                        assert(w[j] == val2[j - p - 6]);
                        if matches_at(w, j, seq!['"']) {
                            assert(w.subrange(j, j + 1)[0] == w[j]);
                        }
                    }
                    lemma_find_from_is(w, p + 6, seq!['"'], Some(q2 as int));
                    assert(w.subrange(0, p + 6) =~= h.subrange(0, p + 6));
                    assert(w.subrange(p + 6, q2 as int) =~= val2);
                    assert(w.skip(q2 + 1) =~= tail2);
                    lemma_rewrite_value_idempotent(val, table, layout, cur_root);
                    lemma_rewrite_idempotent(tail, table, layout, cur_root);
                    assert(rewrite_all_spec(w, table, layout, cur_root) == w.subrange(0, p + 6)
                        + rewrite_value_spec(val2, table, layout, cur_root) + seq!['"']
                        + rewrite_all_spec(tail2, table, layout, cur_root));
                    assert(rewrite_all_spec(w, table, layout, cur_root) =~= w);
                },
            }
        },
    }
}

} // verus!
