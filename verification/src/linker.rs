//! Parent/child relationship resolution and alias tracking.
//!
//! Every document's content and part-of entries resolve to absolute paths
//! through the file provider; an entry matching a loaded document yields
//! its index. Edge and alias derivation from those resolutions is pure:
//! content entries give deduplicated child edges and the reverse parent
//! edges, and the raw literals give alias labels for resolved targets,
//! whether or not a structural edge exists.

use vstd::prelude::*;
use crate::text::{eq_chars, string_of, chars_of};
use crate::links::{md_parts, extract_md_link_parts};
use crate::doc::Doc;
use crate::fsprovider::FileProvider;
use crate::loader::resolve_contents_link;
use crate::metadata::{am_upsert, am_view, am_upsert_exec, contains_chars};

verus! {

/// The fields the linker never touches.
pub open spec fn same_doc_core(a: Doc, b: Doc) -> bool {
    &&& a.id@ == b.id@
    &&& a.abs_path@ == b.abs_path@
    &&& a.title@ == b.title@
    &&& a.is_root_index == b.is_root_index
    &&& a.is_index == b.is_index
    &&& a.html@ == b.html@
    &&& a.contents_raw@ == b.contents_raw@
    &&& a.raw_part_of@ == b.raw_part_of@
    &&& a.visibility@ == b.visibility@
    &&& a.warnings@ == b.warnings@
    &&& a.frontmatter@ == b.frontmatter@
    &&& a.body_md@ == b.body_md@
}

/// The slugs of a document list, in order.
pub open spec fn ids_view(docs: Seq<Doc>) -> Seq<Seq<char>> {
    docs.map_values(|d: Doc| d.id@)
}

/// One resolution row: for each raw entry of a document, the index of the
/// loaded document its target resolved to, if any.
pub open spec fn rows_view(ct: Vec<Vec<Option<usize>>>) -> Seq<Seq<Option<usize>>> {
    ct@.map_values(|r: Vec<Option<usize>>| r@)
}

/// Resolutions fit a document list: one row per document, one slot per
/// entry, every index in range.
pub open spec fn rows_fit(
    rows: Seq<Seq<Option<usize>>>,
    lens: Seq<int>,
    n: int,
) -> bool {
    &&& rows.len() == lens.len()
    &&& forall|i: int| 0 <= i < rows.len() ==> (#[trigger] rows[i].len()) == lens[i]
    &&& forall|i: int, k: int|
        0 <= i < rows.len() && 0 <= k < rows[i].len() ==> (match #[trigger] rows[i][k] {
            Some(x) => x < n,
            None => true,
        })
}

pub open spec fn contents_lens(docs: Seq<Doc>) -> Seq<int> {
    docs.map_values(|d: Doc| d.contents_raw@.len() as int)
}

pub open spec fn part_of_lens(docs: Seq<Doc>) -> Seq<int> {
    docs.map_values(|d: Doc| d.raw_part_of@.len() as int)
}

/// Append a slug unless it is already present.
pub open spec fn dedup_push(s: Seq<Seq<char>>, x: Seq<char>) -> Seq<Seq<char>> {
    if s.contains(x) {
        s
    } else {
        s.push(x)
    }
}

/// The child slugs of one document: its resolved content entries' slugs in
/// entry order, each kept once.
pub open spec fn child_slugs(row: Seq<Option<usize>>, ids: Seq<Seq<char>>) -> Seq<Seq<char>>
    decreases row.len(),
{
    if row.len() == 0 {
        Seq::empty()
    } else {
        let r = child_slugs(row.drop_last(), ids);
        match row.last() {
            Some(x) => dedup_push(r, ids[x as int]),
            None => r,
        }
    }
}

/// Does a row resolve some entry to document `b`?
pub open spec fn row_hits(row: Seq<Option<usize>>, b: usize) -> bool {
    exists|k: int| 0 <= k < row.len() && #[trigger] row[k] == Some(b)
}

/// The parent slugs of document `b`: the slugs of the documents among the
/// first `upto` whose content entries resolve to it, in load order, each
/// kept once.
pub open spec fn parent_slugs(
    rows: Seq<Seq<Option<usize>>>,
    ids: Seq<Seq<char>>,
    b: usize,
    upto: int,
) -> Seq<Seq<char>>
    decreases upto,
{
    if upto <= 0 {
        Seq::empty()
    } else {
        let r = parent_slugs(rows, ids, b, upto - 1);
        if row_hits(rows[upto - 1], b) {
            dedup_push(r, ids[upto - 1])
        } else {
            r
        }
    }
}

/// The alias map of one document's raw entries: each literal with a
/// non-empty alias whose entry resolved maps the target's slug to the
/// alias; a later literal for the same slug wins.
pub open spec fn alias_map_spec(
    raws: Seq<Seq<char>>,
    row: Seq<Option<usize>>,
    ids: Seq<Seq<char>>,
) -> Seq<(Seq<char>, Seq<char>)>
    decreases raws.len(),
{
    if raws.len() == 0 || row.len() < raws.len() {
        Seq::empty()
    } else {
        let m = alias_map_spec(raws.drop_last(), row.subrange(0, raws.len() - 1), ids);
        match md_parts(raws.last()) {
            Some(p) => if p.0.len() > 0 {
                match row[raws.len() - 1] {
                    Some(x) => am_upsert(m, ids[x as int], p.0),
                    None => m,
                }
            } else {
                m
            },
            None => m,
        }
    }
}

fn doc_index_by_path(docs: &Vec<Doc>, path: &Vec<char>) -> (r: Option<usize>)
    ensures
        r matches Some(i) ==> i < docs@.len() && docs@[i as int].abs_path@ == path@,
{
    let mut i: usize = 0;
    while i < docs.len()
        invariant
            i <= docs@.len(),
        decreases docs@.len() - i,
    {
        if eq_chars(&docs[i].abs_path, path) {
            return Some(i);
        }
        i = i + 1;
    }
    None
}

/// Resolve every raw entry of one document to the index of a loaded
/// document, where possible.
#[verifier::loop_isolation(false)]
fn resolve_entries<F: FileProvider>(
    entries: &Vec<Vec<char>>,
    path: &Vec<char>,
    docs: &Vec<Doc>,
    fs: &F,
) -> (r: Vec<Option<usize>>)
    ensures
        r@.len() == entries@.len(),
        forall|k: int|
            0 <= k < r@.len() ==> (match #[trigger] r@[k] {
                Some(i) => i < docs@.len(),
                None => true,
            }),
{
    let pstr = string_of(path);
    let parent_dir = match fs.parent(pstr.as_str()) {
        Some(p) => p,
        None => String::new(),
    };
    let mut out: Vec<Option<usize>> = Vec::new();
    let mut k: usize = 0;
    while k < entries.len()
        invariant
            k <= entries@.len(),
            out@.len() == k,
            forall|m: int|
                0 <= m < out@.len() ==> (match #[trigger] out@[m] {
                    Some(i) => i < docs@.len(),
                    None => true,
                }),
        decreases entries@.len() - k,
    {
        let idx = match resolve_contents_link(&entries[k], parent_dir.as_str(), fs) {
            Some(abs) => {
                let abs_chars = chars_of(abs.as_str());
                doc_index_by_path(docs, &abs_chars)
            },
            None => None,
        };
        out.push(idx);
        k = k + 1;
    }
    out
}

#[verifier::loop_isolation(false)]
fn build_child_slugs(row: &Vec<Option<usize>>, ids: &Vec<Vec<char>>) -> (r: Vec<Vec<char>>)
    requires
        forall|k: int|
            0 <= k < row@.len() ==> (match #[trigger] row@[k] {
                Some(x) => x < ids@.len(),
                None => true,
            }),
    ensures
        r@.map_values(|s: Vec<char>| s@) == child_slugs(row@, ids@.map_values(|s: Vec<char>| s@)),
{
    let ghost idsv = ids@.map_values(|s: Vec<char>| s@);
    let mut out: Vec<Vec<char>> = Vec::new();
    let mut k: usize = 0;
    assert(out@.map_values(|s: Vec<char>| s@) =~= child_slugs(row@.subrange(0, 0), idsv));
    while k < row.len()
        invariant
            k <= row@.len(),
            out@.map_values(|s: Vec<char>| s@) == child_slugs(row@.subrange(0, k as int), idsv),
        decreases row@.len() - k,
    {
        match row[k] {
            Some(x) => {
                let slug = ids[x].clone();
                if !contains_chars(&out, &slug) {
                    let ghost o0 = out@.map_values(|s: Vec<char>| s@);
                    out.push(slug);
                    assert(out@.map_values(|s: Vec<char>| s@) =~= o0.push(idsv[x as int]));
                }
            },
            None => {},
        }
        k = k + 1;
        proof {
            assert(row@.subrange(0, k as int).drop_last() =~= row@.subrange(0, k - 1));
            assert(row@.subrange(0, k as int).last() == row@[k - 1]);
        }
    }
    assert(row@.subrange(0, row@.len() as int) =~= row@);
    out
}

#[verifier::loop_isolation(false)]
fn build_parent_slugs(ct: &Vec<Vec<Option<usize>>>, ids: &Vec<Vec<char>>, b: usize) -> (r: Vec<
    Vec<char>,
>)
    requires
        forall|i: int, k: int|
            0 <= i < ct@.len() && 0 <= k < ct@[i]@.len() ==> (match #[trigger] ct@[i]@[k] {
                Some(x) => x < ids@.len(),
                None => true,
            }),
        ct@.len() <= ids@.len(),
    ensures
        r@.map_values(|s: Vec<char>| s@) == parent_slugs(
            rows_view(*ct),
            ids@.map_values(|s: Vec<char>| s@),
            b,
            ct@.len() as int,
        ),
{
    let ghost idsv = ids@.map_values(|s: Vec<char>| s@);
    let ghost rows = rows_view(*ct);
    let mut out: Vec<Vec<char>> = Vec::new();
    let mut i: usize = 0;
    while i < ct.len()
        invariant
            i <= ct@.len(),
            out@.map_values(|s: Vec<char>| s@) == parent_slugs(rows, idsv, b, i as int),
        decreases ct@.len() - i,
    {
        let row = &ct[i];
        let mut hit = false;
        let mut k: usize = 0;
        while k < row.len()
            invariant
                k <= row@.len(),
                row@ == rows[i as int],
                hit == exists|m: int| 0 <= m < k && #[trigger] row@[m] == Some(b),
            decreases row@.len() - k,
        {
            match row[k] {
                Some(x) => {
                    if x == b {
                        hit = true;
                        assert(row@[k as int] == Some(b));
                    }
                },
                None => {},
            }
            k = k + 1;
        }
        assert(hit == row_hits(rows[i as int], b));
        if hit {
            let slug = ids[i].clone();
            if !contains_chars(&out, &slug) {
                let ghost o0 = out@.map_values(|s: Vec<char>| s@);
                out.push(slug);
                assert(out@.map_values(|s: Vec<char>| s@) =~= o0.push(idsv[i as int]));
            }
        }
        i = i + 1;
    }
    out
}

#[verifier::loop_isolation(false)]
fn build_alias_map_resolved(
    raws: &Vec<Vec<char>>,
    row: &Vec<Option<usize>>,
    ids: &Vec<Vec<char>>,
) -> (r: Vec<(Vec<char>, Vec<char>)>)
    requires
        row@.len() == raws@.len(),
        forall|k: int|
            0 <= k < row@.len() ==> (match #[trigger] row@[k] {
                Some(x) => x < ids@.len(),
                None => true,
            }),
    ensures
        am_view(r) == alias_map_spec(
            raws@.map_values(|s: Vec<char>| s@),
            row@,
            ids@.map_values(|s: Vec<char>| s@),
        ),
{
    let ghost idsv = ids@.map_values(|s: Vec<char>| s@);
    let ghost rv = raws@.map_values(|s: Vec<char>| s@);
    let mut m: Vec<(Vec<char>, Vec<char>)> = Vec::new();
    let mut k: usize = 0;
    assert(am_view(m) =~= alias_map_spec(rv.subrange(0, 0), row@.subrange(0, 0), idsv));
    while k < raws.len()
        invariant
            k <= raws@.len(),
            am_view(m) == alias_map_spec(rv.subrange(0, k as int), row@.subrange(0, k as int), idsv),
        decreases raws@.len() - k,
    {
        match extract_md_link_parts(&raws[k]) {
            Some((alias, _)) => {
                if alias.len() > 0 {
                    match row[k] {
                        Some(x) => {
                            am_upsert_exec(&mut m, ids[x].clone(), alias);
                        },
                        None => {},
                    }
                }
            },
            None => {},
        }
        k = k + 1;
        proof {
            assert(rv.subrange(0, k as int).drop_last() =~= rv.subrange(0, k - 1));
            assert(rv.subrange(0, k as int).last() == rv[k - 1]);
            assert(row@.subrange(0, k as int).subrange(0, k - 1) =~= row@.subrange(0, k - 1));
            assert(row@.subrange(0, k as int)[k - 1] == row@[k - 1]);
        }
    }
    assert(rv.subrange(0, rv.len() as int) =~= rv);
    assert(row@.subrange(0, row@.len() as int) =~= row@);
    m
}

/// Fill the relationship fields from given resolutions: children and the
/// reverse parent edges from the content rows, alias maps from the raw
/// literals of both lists.
#[verifier::loop_isolation(false)]
#[verifier::rlimit(100)]
pub fn apply_links(docs: Vec<Doc>, ct: Vec<Vec<Option<usize>>>, pt: Vec<Vec<Option<usize>>>) -> (r:
    Vec<Doc>)
    requires
        rows_fit(rows_view(ct), contents_lens(docs@), docs@.len() as int),
        rows_fit(rows_view(pt), part_of_lens(docs@), docs@.len() as int),
    ensures
        r@.len() == docs@.len(),
        forall|i: int| 0 <= i < r@.len() ==> same_doc_core(#[trigger] r@[i], docs@[i]),
        forall|i: int|
            0 <= i < r@.len() ==> (#[trigger] r@[i]).children@.map_values(|s: Vec<char>| s@)
                == child_slugs(rows_view(ct)[i], ids_view(docs@)),
        forall|i: int|
            0 <= i < r@.len() ==> (#[trigger] r@[i]).parents@.map_values(|s: Vec<char>| s@)
                == parent_slugs(rows_view(ct), ids_view(docs@), i as usize, docs@.len() as int),
        forall|i: int|
            0 <= i < r@.len() ==> am_view((#[trigger] r@[i]).child_aliases) == alias_map_spec(
                docs@[i].contents_raw@.map_values(|s: Vec<char>| s@),
                rows_view(ct)[i],
                ids_view(docs@),
            ),
        forall|i: int|
            0 <= i < r@.len() ==> am_view((#[trigger] r@[i]).parent_aliases) == alias_map_spec(
                docs@[i].raw_part_of@.map_values(|s: Vec<char>| s@),
                rows_view(pt)[i],
                ids_view(docs@),
            ),
{
    let ghost docs0 = docs@;
    let ghost rowsc = rows_view(ct);
    let ghost rowsp = rows_view(pt);
    let n = docs.len();
    // the slugs, for edge naming
    let mut ids: Vec<Vec<char>> = Vec::new();
    let mut i0: usize = 0;
    while i0 < n
        invariant
            n == docs@.len(),
            i0 <= n,
            ids@.len() == i0,
            forall|a: int| 0 <= a < i0 ==> #[trigger] ids@[a]@ == docs@[a].id@,
        decreases n - i0,
    {
        ids.push(docs[i0].id.clone());
        i0 = i0 + 1;
    }
    proof {
        assert(ids@.map_values(|s: Vec<char>| s@) =~= ids_view(docs0));
    }
    let ghost idsv = ids_view(docs0);
    // assemble
    let mut out: Vec<Doc> = Vec::new();
    let mut src = docs;
    let mut j: usize = 0;
    while src.len() > 0
        invariant
            n == docs0.len(),
            n == ids@.len(),
            idsv == ids@.map_values(|s: Vec<char>| s@),
            rowsc == rows_view(ct),
            rowsp == rows_view(pt),
            ct@.len() == n,
            pt@.len() == n,
            rows_fit(rowsc, contents_lens(docs0), n as int),
            rows_fit(rowsp, part_of_lens(docs0), n as int),
            j + src@.len() == n,
            forall|x: int| 0 <= x < src@.len() ==> #[trigger] src@[x] == docs0[j + x],
            out@.len() == j,
            forall|x: int| 0 <= x < j ==> same_doc_core(#[trigger] out@[x], docs0[x]),
            forall|x: int|
                0 <= x < j ==> (#[trigger] out@[x]).children@.map_values(|s: Vec<char>| s@)
                    == child_slugs(rowsc[x], idsv),
            forall|x: int|
                0 <= x < j ==> (#[trigger] out@[x]).parents@.map_values(|s: Vec<char>| s@)
                    == parent_slugs(rowsc, idsv, x as usize, n as int),
            forall|x: int|
                0 <= x < j ==> am_view((#[trigger] out@[x]).child_aliases) == alias_map_spec(
                    docs0[x].contents_raw@.map_values(|s: Vec<char>| s@),
                    rowsc[x],
                    idsv,
                ),
            forall|x: int|
                0 <= x < j ==> am_view((#[trigger] out@[x]).parent_aliases) == alias_map_spec(
                    docs0[x].raw_part_of@.map_values(|s: Vec<char>| s@),
                    rowsp[x],
                    idsv,
                ),
        decreases src@.len(),
    {
        let ghost src0 = src@;
        let mut d = src.remove(0);
        proof {
            assert(d == docs0[j as int]);
            assert forall|x: int| 0 <= x < src@.len() implies #[trigger] src@[x] == docs0[
                j + 1 + x
            ] by {
                assert(src@[x] == src0[x + 1]);
            }
        }
        proof {
            assert(ct@[j as int]@ == rowsc[j as int]);
            assert(pt@[j as int]@ == rowsp[j as int]);
            assert(docs0[j as int].contents_raw@.len() == rowsc[j as int].len());
            assert(docs0[j as int].raw_part_of@.len() == rowsp[j as int].len());
            assert forall|a: int, k: int|
                0 <= a < ct@.len() && 0 <= k < ct@[a]@.len() implies (match #[trigger] ct@[a]@[k] {
                Some(x) => x < ids@.len(),
                None => true,
            }) by {
                assert(rowsc[a] == ct@[a]@);
                assert(rowsc[a][k] == ct@[a]@[k]);
            }
            assert forall|k: int| 0 <= k < pt@[j as int]@.len() implies (match #[trigger] pt@[
                j as int
            ]@[k] {
                Some(x) => x < ids@.len(),
                None => true,
            }) by {
                assert(rowsp[j as int][k] == pt@[j as int]@[k]);
            }
        }
        let ch = build_child_slugs(&ct[j], &ids);
        let pa = build_parent_slugs(&ct, &ids, j);
        let ca = build_alias_map_resolved(&d.contents_raw, &ct[j], &ids);
        let pam = build_alias_map_resolved(&d.raw_part_of, &pt[j], &ids);
        d.children = ch;
        d.parents = pa;
        d.child_aliases = ca;
        d.parent_aliases = pam;
        out.push(d);
        j = j + 1;
        proof {
            assert(same_doc_core(out@[j - 1], docs0[j - 1]));
        }
    }
    out
}

/// Derive parent/child edges and alias maps from the declared link lists:
/// resolve every entry through the file provider, then apply the pure
/// edge and alias derivation to the resolutions.
#[verifier::loop_isolation(false)]
pub fn link_graph<F: FileProvider>(docs: Vec<Doc>, fs: &F) -> (r: Vec<Doc>)
    ensures
        r@.len() == docs@.len(),
        forall|i: int| 0 <= i < r@.len() ==> same_doc_core(#[trigger] r@[i], docs@[i]),
{
    let n = docs.len();
    let mut ct: Vec<Vec<Option<usize>>> = Vec::new();
    let mut pt: Vec<Vec<Option<usize>>> = Vec::new();
    let mut i: usize = 0;
    while i < n
        invariant
            n == docs@.len(),
            i <= n,
            ct@.len() == i,
            pt@.len() == i,
            forall|a: int|
                0 <= a < ct@.len() ==> (#[trigger] ct@[a]@.len()) == docs@[a].contents_raw@.len(),
            forall|a: int, k: int|
                0 <= a < ct@.len() && 0 <= k < ct@[a]@.len() ==> (match #[trigger] ct@[a]@[k] {
                    Some(x) => x < n,
                    None => true,
                }),
            forall|a: int|
                0 <= a < pt@.len() ==> (#[trigger] pt@[a]@.len()) == docs@[a].raw_part_of@.len(),
            forall|a: int, k: int|
                0 <= a < pt@.len() && 0 <= k < pt@[a]@.len() ==> (match #[trigger] pt@[a]@[k] {
                    Some(x) => x < n,
                    None => true,
                }),
        decreases n - i,
    {
        let rc = resolve_entries(&docs[i].contents_raw, &docs[i].abs_path, &docs, fs);
        let rp = resolve_entries(&docs[i].raw_part_of, &docs[i].abs_path, &docs, fs);
        ct.push(rc);
        pt.push(rp);
        i = i + 1;
    }
    proof {
        assert(rows_fit(rows_view(ct), contents_lens(docs@), docs@.len() as int));
        assert(rows_fit(rows_view(pt), part_of_lens(docs@), docs@.len() as int));
    }
    apply_links(docs, ct, pt)
}

} // verus!
