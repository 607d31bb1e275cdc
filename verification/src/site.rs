//! The build pipeline: load, link, rewrite, resolve attachments, render
//! metadata, and project the documents into output pages.

use vstd::prelude::*;
use crate::text::{chars_of, string_of, eq_chars, starts_with};
use crate::links::{basename_chars, basename_spec};
use crate::doc::Doc;
use crate::fsprovider::FileProvider;
use crate::loader::{collect_documents, doc_well_loaded, loaded_doc_ok, loaded_from, BuildError};
use crate::linker::link_graph;
use crate::layout::{Layout, layout_of, layout_spec, file_name_spec, file_name_of};
use crate::rewrite::{DocRef, DocRefV, rewrite_html, rewrite_all_spec, table_view};
use crate::attach::{
    CandInfo, scan_vals, scan_vals_exec, check_candidate, process_doc_infos, attach_rewrite_html,
    sort_plan, plan_wf, entry_in, lex_le,
};
use crate::metadata::{build_metadata_html, metadata_html_spec};
use crate::meta::{entries_view, lookup, norm_string_or_list, HeaderEntries};

verus! {

/// Build configuration.
#[derive(Debug, Clone, Copy, Default)]
pub struct CoreBuildOptions {
    /// Include documents whose visibility lacks `public`.
    pub include_nonpublic: bool,
    /// Flat multi-page output: no `pages/` level.
    pub flat: bool,
    /// Report-only here: the caller decides whether warnings fail a build.
    pub strict: bool,
    /// Rewrite intra-site page links in rendered bodies.
    pub rewrite_links: bool,
}

/// One generated page.
pub struct PageOutput {
    /// The slug.
    pub id: String,
    pub source_path: String,
    /// The recommended output file name.
    pub file_name: String,
    pub title: String,
    pub html: String,
    pub metadata_html: String,
    pub is_root_index: bool,
    pub is_index: bool,
    pub parents: Vec<String>,
    pub children: Vec<String>,
    pub frontmatter: HeaderEntries,
    pub warnings: Vec<String>,
}

/// One planned attachment copy.
pub struct AttachmentPlanEntry {
    pub source: String,
    pub target: String,
}

/// The result of a build.
pub struct BuildArtifacts {
    pub pages: Vec<PageOutput>,
    pub attachments: Vec<AttachmentPlanEntry>,
    /// Global warnings followed by each page's, in page order.
    pub warnings: Vec<String>,
    pub multi_page: bool,
    pub root_slug: Option<String>,
}

pub open spec fn strings_view(v: Seq<String>) -> Seq<Seq<char>> {
    v.map_values(|s: String| s@)
}

pub open spec fn root_slug_view(rs: Option<String>) -> Option<Seq<char>> {
    match rs {
        Some(s) => Some(s@),
        None => None,
    }
}

/// Does some page carry the root-index flag?
pub open spec fn has_root_page(pages: Seq<PageOutput>) -> bool {
    exists|i: int| 0 <= i < pages.len() && #[trigger] pages[i].is_root_index
}

/// The pages' own warning lists, concatenated in page order.
pub open spec fn pages_warnings(pages: Seq<PageOutput>) -> Seq<Seq<char>>
    decreases pages.len(),
{
    if pages.len() == 0 {
        Seq::empty()
    } else {
        pages_warnings(pages.drop_last()) + strings_view(pages.last().warnings@)
    }
}

/// The metadata fragment of a page renders its own header entries, flags,
/// children and parents under the build's layout and root slug; the raw
/// part-of literals and the alias maps are the linker's, quantified here
/// because the page does not carry them.
pub open spec fn page_metadata_ok(p: PageOutput, layout: Layout, root_slug: Option<Seq<char>>)
    -> bool {
    exists|rpo: Seq<Seq<char>>, ca: Seq<(Seq<char>, Seq<char>)>, pa: Seq<(Seq<char>, Seq<char>)>|
        p.metadata_html@ == #[trigger] metadata_html_spec(
            entries_view(p.frontmatter),
            p.is_root_index,
            p.is_index,
            layout,
            strings_view(p.children@),
            strings_view(p.parents@),
            rpo,
            root_slug,
            ca,
            pa,
        )
}

/// A page that may stand in a filtered build: the entry document, or one
/// whose header declares `public` visibility.
pub open spec fn page_public_or_entry(p: PageOutput, entry: Seq<char>) -> bool {
    p.source_path@ == entry || norm_string_or_list(
        lookup(entries_view(p.frontmatter), "visibility"@),
    ).contains("public"@)
}

/// The guaranteed shape of finished artifacts: at least one page; the
/// multi-page flag tied to the root flag and the page count; file names
/// per the layout table; pairwise distinct source paths; the root slug of
/// the first root page, exactly when a root page exists; every metadata
/// fragment rendered per its page's header and the layout; the warnings a
/// global prefix followed by the pages' warnings in order; a copy plan
/// ordered by target, targets under `assets/`, targets and sources
/// pairwise distinct.
pub open spec fn artifacts_wf(a: BuildArtifacts, flat: bool) -> bool {
    &&& a.pages@.len() >= 1
    &&& a.multi_page == (has_root_page(a.pages@) && a.pages@.len() > 1)
    &&& forall|i: int|
        0 <= i < a.pages@.len() ==> (#[trigger] a.pages@[i].file_name@) == file_name_spec(
            a.multi_page,
            a.pages@[i].is_root_index,
            a.pages@[i].id@,
        )
    &&& forall|i: int, j: int|
        0 <= i < j < a.pages@.len() ==> a.pages@[i].source_path@ != a.pages@[j].source_path@
    &&& (a.root_slug is Some <==> has_root_page(a.pages@))
    &&& match a.root_slug {
        Some(s) => exists|i: int|
            0 <= i < a.pages@.len() && (#[trigger] a.pages@[i].is_root_index) && a.pages@[i].id@
                == s@ && (forall|j: int| 0 <= j < i ==> !a.pages@[j].is_root_index),
        None => true,
    }
    &&& forall|i: int|
        0 <= i < a.pages@.len() ==> page_metadata_ok(
            #[trigger] a.pages@[i],
            layout_spec(has_root_page(a.pages@), a.pages@.len() as int, flat),
            root_slug_view(a.root_slug),
        )
    &&& exists|g: Seq<Seq<char>>|
        strings_view(a.warnings@) == #[trigger] seq_concat(g, pages_warnings(a.pages@))
    &&& forall|i: int|
        0 <= i < a.attachments@.len() ==> starts_with(
            (#[trigger] a.attachments@[i]).target@,
            "assets/"@,
        )
    &&& forall|i: int, j: int|
        0 <= i < j < a.attachments@.len() ==> lex_le(
            a.attachments@[i].target@,
            a.attachments@[j].target@,
        ) && a.attachments@[i].target@ != a.attachments@[j].target@ && a.attachments@[i].source@
            != a.attachments@[j].source@
}

/// Concatenation, named so it can carry a quantifier trigger.
pub open spec fn seq_concat(a: Seq<Seq<char>>, b: Seq<Seq<char>>) -> Seq<Seq<char>> {
    a + b
}

/// A page projected from a document, under a given page-count mode.
pub open spec fn page_matches(p: PageOutput, d: Doc, multi: bool) -> bool {
    &&& p.is_root_index == d.is_root_index
    &&& p.is_index == d.is_index
    &&& p.id@ == d.id@
    &&& p.source_path@ == d.abs_path@
    &&& p.file_name@ == file_name_spec(multi, d.is_root_index, d.id@)
    &&& p.title@ == d.title@
    &&& p.html@ == d.html@
    &&& p.frontmatter@ == d.frontmatter@
    &&& p.warnings@ == d.warnings@
    &&& strings_view(p.children@) == d.children@.map_values(|s: Vec<char>| s@)
    &&& strings_view(p.parents@) == d.parents@.map_values(|s: Vec<char>| s@)
}

/// Every field of a document carried unchanged through a stage that only
/// rewrites its rendered fragment.
pub open spec fn same_doc_except_html(a: Doc, b: Doc) -> bool {
    &&& a.id@ == b.id@
    &&& a.abs_path@ == b.abs_path@
    &&& a.title@ == b.title@
    &&& a.is_root_index == b.is_root_index
    &&& a.is_index == b.is_index
    &&& a.contents_raw@ == b.contents_raw@
    &&& a.raw_part_of@ == b.raw_part_of@
    &&& a.visibility@ == b.visibility@
    &&& a.warnings@ == b.warnings@
    &&& a.frontmatter@ == b.frontmatter@
    &&& a.body_md@ == b.body_md@
    &&& a.children@ == b.children@
    &&& a.parents@ == b.parents@
    &&& a.child_aliases@ == b.child_aliases@
    &&& a.parent_aliases@ == b.parent_aliases@
    &&& a.tags@ == b.tags@
    &&& a.aliases@ == b.aliases@
}

/// Every field carried unchanged through a stage that only appends to a
/// document's warnings.
pub open spec fn same_doc_except_warnings(a: Doc, b: Doc) -> bool {
    &&& a.id@ == b.id@
    &&& a.abs_path@ == b.abs_path@
    &&& a.title@ == b.title@
    &&& a.is_root_index == b.is_root_index
    &&& a.is_index == b.is_index
    &&& a.contents_raw@ == b.contents_raw@
    &&& a.raw_part_of@ == b.raw_part_of@
    &&& a.visibility@ == b.visibility@
    &&& a.html@ == b.html@
    &&& a.frontmatter@ == b.frontmatter@
    &&& a.body_md@ == b.body_md@
    &&& a.children@ == b.children@
    &&& a.parents@ == b.parents@
    &&& a.child_aliases@ == b.child_aliases@
    &&& a.parent_aliases@ == b.parent_aliases@
    &&& a.tags@ == b.tags@
    &&& a.aliases@ == b.aliases@
}

/// Documents with pairwise distinct source paths.
pub open spec fn distinct_paths(docs: Seq<Doc>) -> bool {
    forall|i: int, j: int| 0 <= i < j < docs.len() ==> docs[i].abs_path@ != docs[j].abs_path@
}

/// Membership of a document value in a document list.
pub open spec fn doc_in(d: Doc, docs: Seq<Doc>) -> bool {
    exists|j: int| 0 <= j < docs.len() && d == #[trigger] docs[j]
}

/// A kept document: the entry itself, or one whose visibility labels hold
/// `public`.
pub open spec fn kept_doc(d: Doc, entry: Seq<char>) -> bool {
    d.abs_path@ == entry || exists|k: int|
        0 <= k < d.visibility@.len() && (#[trigger] d.visibility@[k]@) == "public"@
}

/// The rewrite table projected from a document list: each source path's
/// basename, the slug, and the root flag.
pub open spec fn doc_table(docs: Seq<Doc>) -> Seq<DocRefV> {
    docs.map_values(
        |d: Doc| DocRefV { basename: basename_spec(d.abs_path@), slug: d.id@, is_root: d.is_root_index },
    )
}

fn strings_of(v: &Vec<Vec<char>>) -> (r: Vec<String>)
    ensures
        r@.len() == v@.len(),
        forall|i: int| 0 <= i < r@.len() ==> #[trigger] r@[i]@ == v@[i]@,
{
    let mut out: Vec<String> = Vec::new();
    let mut i: usize = 0;
    while i < v.len()
        invariant
            i <= v@.len(),
            out@.len() == i,
            forall|j: int| 0 <= j < i ==> #[trigger] out@[j]@ == v@[j]@,
        decreases v@.len() - i,
    {
        out.push(string_of(&v[i]));
        i = i + 1;
    }
    out
}

/// Keep the public documents, and the entry document in any case.
#[verifier::loop_isolation(false)]
fn filter_visibility(docs: Vec<Doc>, entry: &Vec<char>) -> (r: Vec<Doc>)
    requires
        distinct_paths(docs@),
    ensures
        distinct_paths(r@),
        forall|i: int| 0 <= i < r@.len() ==> doc_in(#[trigger] r@[i], docs@),
        forall|i: int| 0 <= i < r@.len() ==> kept_doc(#[trigger] r@[i], entry@),
{
    let ghost docs0 = docs@;
    let n = docs.len();
    let mut out: Vec<Doc> = Vec::new();
    let mut src = docs;
    let mut i: usize = 0;
    while src.len() > 0
        invariant
            docs0.len() == n,
            i + src@.len() == docs0.len(),
            forall|a: int| 0 <= a < src@.len() ==> #[trigger] src@[a] == docs0[i + a],
            distinct_paths(docs0),
            distinct_paths(out@),
            forall|a: int, j: int|
                0 <= a < out@.len() && i <= j < docs0.len() ==> #[trigger] out@[a].abs_path@
                    != #[trigger] docs0[j].abs_path@,
            forall|a: int| 0 <= a < out@.len() ==> doc_in(#[trigger] out@[a], docs0),
            forall|a: int| 0 <= a < out@.len() ==> kept_doc(#[trigger] out@[a], entry@),
        decreases src@.len(),
    {
        let ghost src0 = src@;
        let d = src.remove(0);
        proof {
            assert(d == docs0[i as int]);
            assert forall|a: int| 0 <= a < src@.len() implies #[trigger] src@[a] == docs0[
                i + 1 + a
            ] by {
                assert(src@[a] == src0[a + 1]);
            }
        }
        let keep = d.is_public() || eq_chars(&d.abs_path, entry);
        if keep {
            let ghost out0 = out@;
            proof {
                assert(doc_in(d, docs0)) by {
                    assert(d == docs0[i as int]);
                }
                assert(kept_doc(d, entry@));
            }
            out.push(d);
            proof {
                assert forall|a: int, b: int|
                    0 <= a < b < out@.len() implies out@[a].abs_path@ != out@[b].abs_path@ by {
                    if b == out@.len() - 1 {
                        assert(out@[a] == out0[a]);
                    }
                }
                assert forall|a: int| 0 <= a < out@.len() implies doc_in(
                    #[trigger] out@[a],
                    docs0,
                ) && kept_doc(out@[a], entry@) by {
                    if a < out@.len() - 1 {
                        assert(out@[a] == out0[a]);
                    }
                }
            }
        }
        i = i + 1;
    }
    out
}

/// Rewrite intra-site page links in every rendered body, against the
/// table projected from the documents themselves.
#[verifier::loop_isolation(false)]
fn rewrite_stage(docs: Vec<Doc>, layout: Layout) -> (r: Vec<Doc>)
    ensures
        r@.len() == docs@.len(),
        forall|i: int| 0 <= i < r@.len() ==> same_doc_except_html(#[trigger] r@[i], docs@[i]),
        forall|i: int|
            0 <= i < r@.len() ==> (#[trigger] r@[i]).html@ == rewrite_all_spec(
                docs@[i].html@,
                doc_table(docs@),
                layout,
                docs@[i].is_root_index,
            ),
{
    // the resolution table: basename of each source path, slug, root flag
    let mut table: Vec<DocRef> = Vec::new();
    let mut t: usize = 0;
    while t < docs.len()
        invariant
            t <= docs@.len(),
            table@.len() == t,
            forall|a: int| 0 <= a < t ==> #[trigger] table@[a]@ == doc_table(docs@)[a],
        decreases docs@.len() - t,
    {
        table.push(
            DocRef {
                basename: basename_chars(&docs[t].abs_path),
                slug: docs[t].id.clone(),
                is_root: docs[t].is_root_index,
            },
        );
        t = t + 1;
    }
    proof {
        assert(table_view(table) =~= doc_table(docs@));
    }
    let ghost docs0 = docs@;
    let n = docs.len();
    let mut out: Vec<Doc> = Vec::new();
    let mut src = docs;
    let mut i: usize = 0;
    while src.len() > 0
        invariant
            docs0.len() == n,
            table_view(table) == doc_table(docs0),
            i + src@.len() == docs0.len(),
            forall|a: int| 0 <= a < src@.len() ==> #[trigger] src@[a] == docs0[i + a],
            out@.len() == i,
            forall|a: int| 0 <= a < i ==> same_doc_except_html(#[trigger] out@[a], docs0[a]),
            forall|a: int|
                0 <= a < i ==> (#[trigger] out@[a]).html@ == rewrite_all_spec(
                    docs0[a].html@,
                    doc_table(docs0),
                    layout,
                    docs0[a].is_root_index,
                ),
        decreases src@.len(),
    {
        let ghost src0 = src@;
        let mut d = src.remove(0);
        proof {
            assert(d == docs0[i as int]);
            assert forall|a: int| 0 <= a < src@.len() implies #[trigger] src@[a] == docs0[
                i + 1 + a
            ] by {
                assert(src@[a] == src0[a + 1]);
            }
        }
        let new_html = rewrite_html(&d.html, &table, layout, d.is_root_index);
        d.html = new_html;
        out.push(d);
        i = i + 1;
    }
    out
}

/// Scan one rendered body and record how each attribute value resolves:
/// one record per scanned value, holding the value itself and what the
/// file provider said of the path its decoded core resolves to.
#[verifier::loop_isolation(false)]
fn gather_infos<F: FileProvider>(html: &Vec<char>, abs_path: &Vec<char>, fs: &F) -> (r: Vec<
    CandInfo,
>)
    ensures
        r@.len() == scan_vals(html@).len(),
        forall|k: int| 0 <= k < r@.len() ==> (#[trigger] r@[k]).value@ == scan_vals(html@)[k],
{
    let vals = scan_vals_exec(html);
    let ghost vv = scan_vals(html@);
    let pstr = string_of(abs_path);
    let parent_dir = match fs.parent(pstr.as_str()) {
        Some(p) => p,
        None => String::new(),
    };
    let mut out: Vec<CandInfo> = Vec::new();
    let mut i: usize = 0;
    while i < vals.len()
        invariant
            vals@.map_values(|s: Vec<char>| s@) == vv,
            vv.len() == vals@.len(),
            i <= vals@.len(),
            out@.len() == i,
            forall|k: int| 0 <= k < i ==> (#[trigger] out@[k]).value@ == vv[k],
        decreases vals@.len() - i,
    {
        let v = vals[i].clone();
        assert(v@ == vv[i as int]);
        if check_candidate(&v) {
            // resolve the decoded core against the document's directory
            let mut s: usize = 0;
            while s < v.len() && v[s] != '?' && v[s] != '#'
                invariant
                    s <= v@.len(),
                decreases v@.len() - s,
            {
                s = s + 1;
            }
            let core = crate::text::sub_chars(&v, 0, s);
            let decoded = crate::text::decode20_chars(&core);
            let dstr = string_of(&decoded);
            let resolved = fs.join(parent_dir.as_str(), dstr.as_str());
            let ex = fs.path_exists(resolved.as_str());
            let isf = fs.is_file(resolved.as_str());
            out.push(
                CandInfo { value: v, resolved: chars_of(resolved.as_str()), exists: ex, is_file: isf },
            );
        } else {
            out.push(CandInfo { value: v, resolved: Vec::new(), exists: false, is_file: false });
        }
        i = i + 1;
    }
    out
}

/// Project the finished documents into pages, collecting every page's
/// warnings after the global ones.
#[verifier::loop_isolation(false)]
#[verifier::rlimit(100)]
fn project_pages(
    docs: Vec<Doc>,
    multi_page: bool,
    layout: Layout,
    root_slug_chars: &Option<Vec<char>>,
    warnings_global: Vec<String>,
) -> (r: (Vec<PageOutput>, Vec<String>))
    ensures
        r.0@.len() == docs@.len(),
        forall|a: int| 0 <= a < r.0@.len() ==> page_matches(#[trigger] r.0@[a], docs@[a], multi_page),
        forall|a: int|
            0 <= a < r.0@.len() ==> page_metadata_ok(
                #[trigger] r.0@[a],
                layout,
                match root_slug_chars {
                    Some(s) => Some(s@),
                    None => None,
                },
            ),
        strings_view(r.1@) == strings_view(warnings_global@) + pages_warnings(r.0@),
{
    let ghost d6 = docs@;
    let ghost rsv: Option<Seq<char>> = match root_slug_chars {
        Some(s) => Some(s@),
        None => None,
    };
    let ghost w0v = strings_view(warnings_global@);
    let n6 = docs.len();
    let mut pages: Vec<PageOutput> = Vec::new();
    let mut aggregated = warnings_global;
    let mut src = docs;
    let mut i: usize = 0;
    assert(strings_view(aggregated@) =~= w0v + pages_warnings(pages@));
    while src.len() > 0
        invariant
            d6.len() == n6,
            rsv == (match root_slug_chars {
                Some(s) => Some(s@),
                None => None::<Seq<char>>,
            }),
            i + src@.len() == d6.len(),
            forall|a: int| 0 <= a < src@.len() ==> #[trigger] src@[a] == d6[i + a],
            pages@.len() == i,
            forall|a: int| 0 <= a < i ==> page_matches(#[trigger] pages@[a], d6[a], multi_page),
            forall|a: int| 0 <= a < i ==> page_metadata_ok(#[trigger] pages@[a], layout, rsv),
            strings_view(aggregated@) == w0v + pages_warnings(pages@),
        decreases src@.len(),
    {
        let ghost src0 = src@;
        let d = src.remove(0);
        proof {
            assert(d == d6[i as int]);
            assert forall|a: int| 0 <= a < src@.len() implies #[trigger] src@[a] == d6[
                i + 1 + a
            ] by {
                assert(src@[a] == src0[a + 1]);
            }
        }
        let ghost agg0 = strings_view(aggregated@);
        let ghost agg_len0 = aggregated@.len() as int;
        let mut w: usize = 0;
        while w < d.warnings.len()
            invariant
                w <= d.warnings@.len(),
                aggregated@.len() == agg_len0 + w,
                forall|j: int| 0 <= j < agg_len0 ==> (#[trigger] aggregated@[j])@ == agg0[j],
                forall|j: int|
                    0 <= j < w ==> (#[trigger] aggregated@[agg_len0 + j])@ == d.warnings@[j]@,
            decreases d.warnings@.len() - w,
        {
            aggregated.push(d.warnings[w].clone());
            w = w + 1;
        }
        proof {
            assert forall|j: int|
                0 <= j < aggregated@.len() implies strings_view(aggregated@)[j] == (agg0
                + strings_view(d.warnings@))[j] by {
                assert(strings_view(aggregated@)[j] == aggregated@[j]@);
                if j >= agg_len0 {
                    let k = j - agg_len0;
                    assert(aggregated@[agg_len0 + k]@ == d.warnings@[k]@);
                    assert(strings_view(d.warnings@)[k] == d.warnings@[k]@);
                }
            }
            assert(strings_view(aggregated@).len() == agg0.len() + strings_view(
                d.warnings@,
            ).len());
            assert(strings_view(aggregated@) =~= agg0 + strings_view(d.warnings@));
        }
        let file_name = file_name_of(multi_page, d.is_root_index, &d.id);
        let metadata_html = build_metadata_html(
            &d.frontmatter,
            d.is_root_index,
            d.is_index,
            layout,
            &d.children,
            &d.parents,
            &d.raw_part_of,
            root_slug_chars.as_ref(),
            &d.child_aliases,
            &d.parent_aliases,
        );
        let ghost pg0 = pages@;
        let ghost mdv = metadata_html@;
        let ghost rpo_w = d.raw_part_of@.map_values(|s: Vec<char>| s@);
        let ghost ca_w = crate::metadata::am_view(d.child_aliases);
        let ghost pa_w = crate::metadata::am_view(d.parent_aliases);
        pages.push(
            PageOutput {
                id: string_of(&d.id),
                source_path: string_of(&d.abs_path),
                file_name: string_of(&file_name),
                title: string_of(&d.title),
                html: string_of(&d.html),
                metadata_html: string_of(&metadata_html),
                is_root_index: d.is_root_index,
                is_index: d.is_index,
                parents: strings_of(&d.parents),
                children: strings_of(&d.children),
                frontmatter: d.frontmatter,
                warnings: d.warnings,
            },
        );
        proof {
            assert forall|a: int| 0 <= a < pg0.len() implies #[trigger] pages@[a] == pg0[a] by {}
            let p = pages@[i as int];
            assert(strings_view(p.children@) =~= d6[i as int].children@.map_values(
                |s: Vec<char>| s@,
            ));
            assert(strings_view(p.parents@) =~= d6[i as int].parents@.map_values(
                |s: Vec<char>| s@,
            ));
            assert(page_matches(p, d6[i as int], multi_page));
            assert(p.metadata_html@ == metadata_html_spec(
                entries_view(p.frontmatter),
                p.is_root_index,
                p.is_index,
                layout,
                strings_view(p.children@),
                strings_view(p.parents@),
                rpo_w,
                rsv,
                ca_w,
                pa_w,
            ));
            assert(page_metadata_ok(p, layout, rsv));
            assert(pages_warnings(pages@) =~= pages_warnings(pg0) + strings_view(
                p.warnings@,
            )) by {
                assert(pages@.drop_last() =~= pg0);
            }
            assert(strings_view(aggregated@) =~= w0v + pages_warnings(pages@));
        }
        i = i + 1;
    }
    (pages, aggregated)
}

/// Build the site from a single entry path.
#[verifier::loop_isolation(false)]
#[verifier::rlimit(100)]
#[verifier::spinoff_prover]
pub fn build_site<F: FileProvider>(entry: &str, opts: CoreBuildOptions, fs: &F) -> (r: Result<
    BuildArtifacts,
    BuildError,
>)
    ensures
        r matches Ok(a) ==> artifacts_wf(a, opts.flat),
        r matches Ok(a) ==> (!opts.include_nonpublic ==> forall|i: int|
            0 <= i < a.pages@.len() ==> page_public_or_entry(#[trigger] a.pages@[i], entry@)),
{
    let mut warnings_global: Vec<String> = Vec::new();
    let docs1 = match collect_documents(entry, fs, &mut warnings_global) {
        Ok(d) => d,
        Err(e) => {
            return Err(e);
        },
    };
    let ghost d1v = docs1@;
    let docs2 = link_graph(docs1, fs);
    let ghost d2v = docs2@;
    proof {
        assert forall|i: int, j: int|
            0 <= i < j < docs2@.len() implies docs2@[i].abs_path@ != docs2@[j].abs_path@ by {
            assert(crate::linker::same_doc_core(docs2@[i], d1v[i]));
            assert(crate::linker::same_doc_core(docs2@[j], d1v[j]));
        }
    }
    let entry_chars = chars_of(entry);
    // the entry must have loaded
    {
        let mut found = false;
        let mut i: usize = 0;
        while i < docs2.len()
            invariant
                i <= docs2@.len(),
            decreases docs2@.len() - i,
        {
            if eq_chars(&docs2[i].abs_path, &entry_chars) {
                found = true;
            }
            i = i + 1;
        }
        if !found {
            return Err(BuildError::EntryNotLoaded(string_of(&entry_chars)));
        }
    }
    // visibility filtering, keeping the entry
    let docs3 = if !opts.include_nonpublic {
        filter_visibility(docs2, &entry_chars)
    } else {
        docs2
    };
    if docs3.len() == 0 {
        return Err(BuildError::NoDocuments);
    }
    proof {
        assert(distinct_paths(docs3@));
        if !opts.include_nonpublic {
            assert(forall|i: int| 0 <= i < docs3@.len() ==> doc_in(#[trigger] docs3@[i], d2v));
            assert(forall|i: int|
                0 <= i < docs3@.len() ==> kept_doc(#[trigger] docs3@[i], entry@));
        }
    }
    // layout
    let ghost d3v = docs3@;
    let mut any_root = false;
    let mut root_slug_chars: Option<Vec<char>> = None;
    let ghost mut root_idx: int = -1;
    {
        let mut i: usize = 0;
        while i < docs3.len()
            invariant
                d3v == docs3@,
                i <= docs3@.len(),
                any_root == exists|j: int| 0 <= j < i && (#[trigger] d3v[j].is_root_index),
                root_slug_chars is Some <==> any_root,
                match root_slug_chars {
                    Some(s) => 0 <= root_idx < i && d3v[root_idx].is_root_index && s@
                        == d3v[root_idx].id@ && (forall|k: int|
                        0 <= k < root_idx ==> !d3v[k].is_root_index),
                    None => true,
                },
            decreases docs3@.len() - i,
        {
            if docs3[i].is_root_index && root_slug_chars.is_none() {
                root_slug_chars = Some(docs3[i].id.clone());
                proof {
                    root_idx = i as int;
                }
                any_root = true;
            }
            i = i + 1;
        }
    }
    let ghost any_root_g: bool = any_root;
    proof {
        assert(any_root == exists|j: int|
            0 <= j < d3v.len() && (#[trigger] d3v[j].is_root_index));
    }
    let multi_page = any_root && docs3.len() > 1;
    let layout = layout_of(any_root, docs3.len(), opts.flat);
    // intra-site link rewriting
    let docs4 = if opts.rewrite_links {
        rewrite_stage(docs3, layout)
    } else {
        docs3
    };
    let ghost d4 = docs4@;
    proof {
        assert(d4.len() == d3v.len());
        assert forall|a: int| 0 <= a < d4.len() implies same_doc_except_html(
            #[trigger] d4[a],
            d3v[a],
        ) by {}
    }
    // attachment discovery and reference rewriting
    let mut m: Vec<(Vec<char>, Vec<char>)> = Vec::new();
    let mut used: Vec<Vec<char>> = Vec::new();
    let mut all_infos: Vec<Vec<CandInfo>> = Vec::new();
    let mut docs5: Vec<Doc> = Vec::new();
    {
        let n4 = docs4.len();
        proof {
            assert(plan_wf(
                crate::metadata::am_view(m),
                used@.map_values(|s: Vec<char>| s@),
            ));
        }
        let mut src = docs4;
        let mut i: usize = 0;
        while src.len() > 0
            invariant
                d4.len() == n4,
                i + src@.len() == d4.len(),
                forall|a: int| 0 <= a < src@.len() ==> #[trigger] src@[a] == d4[i + a],
                docs5@.len() == i,
                all_infos@.len() == i,
                forall|a: int|
                    0 <= a < i ==> same_doc_except_warnings(#[trigger] docs5@[a], d4[a]),
                plan_wf(crate::metadata::am_view(m), used@.map_values(|s: Vec<char>| s@)),
            decreases src@.len(),
        {
            let ghost src0 = src@;
            let mut d = src.remove(0);
            proof {
                assert(d == d4[i as int]);
                assert forall|a: int| 0 <= a < src@.len() implies #[trigger] src@[a] == d4[
                    i + 1 + a
                ] by {
                    assert(src@[a] == src0[a + 1]);
                }
            }
            let infos = gather_infos(&d.html, &d.abs_path, fs);
            proof {
                crate::attach::lemma_build_plan_wf(
                    crate::attach::infos_view(infos),
                    crate::metadata::am_view(m),
                    used@.map_values(|s: Vec<char>| s@),
                );
            }
            process_doc_infos(&infos, &mut m, &mut used, &mut d.warnings);
            all_infos.push(infos);
            docs5.push(d);
            i = i + 1;
        }
    }
    // rewrite references against the final plan
    let ghost d5 = docs5@;
    let ghost mv_plan = crate::metadata::am_view(m);
    let ghost usedv = used@.map_values(|s: Vec<char>| s@);
    let mut docs6: Vec<Doc> = Vec::new();
    {
        let n5 = docs5.len();
        let mut src = docs5;
        let mut i: usize = 0;
        while src.len() > 0
            invariant
                d5.len() == n5,
                i + src@.len() == d5.len(),
                all_infos@.len() == d5.len(),
                forall|a: int| 0 <= a < src@.len() ==> #[trigger] src@[a] == d5[i + a],
                docs6@.len() == i,
                forall|a: int|
                    0 <= a < i ==> same_doc_except_html(#[trigger] docs6@[a], d5[a]),
            decreases src@.len(),
        {
            let ghost src0 = src@;
            let mut d = src.remove(0);
            proof {
                assert(d == d5[i as int]);
                assert forall|a: int| 0 <= a < src@.len() implies #[trigger] src@[a] == d5[
                    i + 1 + a
                ] by {
                    assert(src@[a] == src0[a + 1]);
                }
            }
            // the document's own recorded resolutions
            let infos = &all_infos[i];
            let mut assoc: Vec<(Vec<char>, Vec<char>)> = Vec::new();
            let mut k: usize = 0;
            while k < infos.len()
                invariant
                    k <= infos@.len(),
                decreases infos@.len() - k,
            {
                assoc.push((infos[k].value.clone(), infos[k].resolved.clone()));
                k = k + 1;
            }
            let nested_child = multi_page && !opts.flat && !d.is_root_index;
            let new_html = attach_rewrite_html(&d.html, &assoc, &m, nested_child);
            d.html = new_html;
            docs6.push(d);
            i = i + 1;
        }
    }
    // the copy plan, ordered by target
    proof {
        crate::attach::lemma_plan_targets_distinct(mv_plan, usedv);
    }
    let plan = sort_plan(m);
    let ghost pv = crate::metadata::am_view(plan);
    let mut attachments: Vec<AttachmentPlanEntry> = Vec::new();
    {
        let mut i: usize = 0;
        while i < plan.len()
            invariant
                pv == crate::metadata::am_view(plan),
                i <= plan@.len(),
                attachments@.len() == i,
                forall|a: int|
                    0 <= a < i ==> (#[trigger] attachments@[a].source@) == pv[a].0
                        && attachments@[a].target@ == pv[a].1,
            decreases plan@.len() - i,
        {
            attachments.push(
                AttachmentPlanEntry {
                    source: string_of(&plan[i].0),
                    target: string_of(&plan[i].1),
                },
            );
            i = i + 1;
        }
    }
    assert(forall|a: int|
        0 <= a < attachments@.len() ==> (#[trigger] attachments@[a].source@) == pv[a].0
            && attachments@[a].target@ == pv[a].1);
    let ghost att0 = attachments@;
    // project into pages
    let root_slug_str: Option<String> = match &root_slug_chars {
        Some(s) => Some(string_of(s)),
        None => None,
    };
    let ghost d6 = docs6@;
    let ghost wgv = strings_view(warnings_global@);
    let (pages, aggregated) = project_pages(
        docs6,
        multi_page,
        layout,
        &root_slug_chars,
        warnings_global,
    );
    proof {
        assert(pages@.len() == d3v.len());
        assert forall|a: int| 0 <= a < pages@.len() implies page_matches(
            #[trigger] pages@[a],
            d6[a],
            multi_page,
        ) && same_doc_except_html(d6[a], d5[a]) && same_doc_except_warnings(d5[a], d4[a])
            && same_doc_except_html(d4[a], d3v[a]) by {}
        // the pages' root flags mirror the retained documents'
        assert(has_root_page(pages@) == any_root_g) by {
            if any_root_g {
                let j = choose|j: int| 0 <= j < d3v.len() && (#[trigger] d3v[j].is_root_index);
                assert(pages@[j].is_root_index);
            }
            if has_root_page(pages@) {
                let j = choose|j: int|
                    0 <= j < pages@.len() && (#[trigger] pages@[j].is_root_index);
                assert(d3v[j].is_root_index);
            }
        }
        // the root slug is the first root page's id
        match root_slug_chars {
            Some(s) => {
                assert(pages@[root_idx].is_root_index && pages@[root_idx].id@ == s@);
                assert(forall|j: int| 0 <= j < root_idx ==> !pages@[j].is_root_index);
            },
            None => {},
        }
        // source paths stay pairwise distinct
        assert forall|i: int, j: int|
            0 <= i < j < pages@.len() implies pages@[i].source_path@
                != pages@[j].source_path@ by {
            assert(pages@[i].source_path@ == d3v[i].abs_path@);
            assert(pages@[j].source_path@ == d3v[j].abs_path@);
        }
        // the copy plan facts carry over from the sorted plan
        assert(attachments@ == att0);
        assert forall|i: int, j: int|
            0 <= i < j < attachments@.len() implies lex_le(
                attachments@[i].target@,
                attachments@[j].target@,
            ) && attachments@[i].target@ != attachments@[j].target@ && attachments@[i].source@
                != attachments@[j].source@ by {
            assert(attachments@[i].source@ == pv[i].0);
            assert(attachments@[i].target@ == pv[i].1);
            assert(attachments@[j].source@ == pv[j].0);
            assert(attachments@[j].target@ == pv[j].1);
        }
        // every plan target sits under assets/
        assert forall|i: int| 0 <= i < attachments@.len() implies starts_with(
            (#[trigger] attachments@[i]).target@,
            "assets/"@,
        ) by {
            assert(attachments@[i].source@ == pv[i].0);
            assert(attachments@[i].target@ == pv[i].1);
            assert(entry_in(pv[i], mv_plan));
            let j = choose|j: int| 0 <= j < mv_plan.len() && pv[i] == mv_plan[j];
            assert(mv_plan[j].1 == "assets/"@ + usedv[j]);
            assert(("assets/"@ + usedv[j]).subrange(0, "assets/"@.len() as int) =~= "assets/"@);
        }
    }
    let artifacts = BuildArtifacts {
        pages,
        attachments,
        warnings: aggregated,
        multi_page,
        root_slug: root_slug_str,
    };
    proof {
        // layout of the metadata fragments, restated over the pages
        assert(layout == layout_spec(
            has_root_page(artifacts.pages@),
            artifacts.pages@.len() as int,
            opts.flat,
        ));
        assert forall|i: int| 0 <= i < artifacts.pages@.len() implies page_metadata_ok(
            #[trigger] artifacts.pages@[i],
            layout_spec(has_root_page(artifacts.pages@), artifacts.pages@.len() as int, opts.flat),
            root_slug_view(artifacts.root_slug),
        ) by {
            assert(page_metadata_ok(artifacts.pages@[i], layout, (match root_slug_chars {
                Some(s) => Some(s@),
                None => None::<Seq<char>>,
            })));
            assert(root_slug_view(artifacts.root_slug) == (match root_slug_chars {
                Some(s) => Some(s@),
                None => None::<Seq<char>>,
            }));
        }
        // the warnings: the loader's globals first, then each page's
        assert(exists|g: Seq<Seq<char>>|
            strings_view(artifacts.warnings@) == #[trigger] seq_concat(
                g,
                pages_warnings(artifacts.pages@),
            )) by {
            assert(strings_view(artifacts.warnings@) == seq_concat(
                wgv,
                pages_warnings(artifacts.pages@),
            ));
        }
        // retained pages are the entry or declare public visibility
        if !opts.include_nonpublic {
            assert forall|a: int| 0 <= a < artifacts.pages@.len() implies page_public_or_entry(
                #[trigger] artifacts.pages@[a],
                entry@,
            ) by {
                let p = artifacts.pages@[a];
                assert(doc_in(d3v[a], d2v));
                let j = choose|j: int| 0 <= j < d2v.len() && d3v[a] == #[trigger] d2v[j];
                assert(crate::linker::same_doc_core(d2v[j], d1v[j]));
                assert(doc_well_loaded(d1v[j]));
                let raw = choose|raw: Seq<char>|
                    loaded_from(d1v[j], d1v[j].abs_path@, raw);
                let fnm = choose|fname: Option<Seq<char>>|
                    loaded_doc_ok(d1v[j], d1v[j].abs_path@, raw, fname);
                assert(d1v[j].visibility@.map_values(|s: Vec<char>| s@) == norm_string_or_list(
                    lookup(entries_view(d1v[j].frontmatter), "visibility"@),
                ));
                // the page carries the same header and source path
                assert(p.frontmatter@ == d3v[a].frontmatter@ && p.source_path@
                    == d3v[a].abs_path@);
                assert(entries_view(p.frontmatter) =~= entries_view(d1v[j].frontmatter));
                assert(kept_doc(d3v[a], entry@));
                if d3v[a].abs_path@ != entry@ {
                    let k = choose|k: int|
                        0 <= k < d3v[a].visibility@.len() && (#[trigger] d3v[a].visibility@[k]@)
                            == "public"@;
                    assert(d1v[j].visibility@.map_values(|s: Vec<char>| s@)[k] == "public"@);
                }
            }
        }
        assert(artifacts_wf(artifacts, opts.flat));
    }
    Ok(artifacts)
}

} // verus!
