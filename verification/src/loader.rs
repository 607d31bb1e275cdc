//! Breadth-first document loading with the recursion gate.
//!
//! Traversal starts at the entry path and follows declared content lists.
//! A loaded document's list is followed further only if that document is
//! itself the root index, or the entry document was. Reading problems on
//! referenced paths downgrade to warnings; an unterminated or malformed
//! header block, a body the renderer rejects, and two files sharing one
//! slug abort the build. As a machine limit, the traversal examines at
//! most a fixed number of queued references; a reference graph beyond
//! that bound is cut short with a global warning.

use vstd::prelude::*;
use crate::text::{chars_of, string_of, push_chars, push_str_chars, eq_chars};
use crate::links::{slugify, slug_spec, stem_spec, stem_chars, extract_md_link_parts, md_parts};
use crate::header::{
    split_frontmatter, parse_header, has_header_block, header_unterminated, header_malformed,
    header_entries_of, body_of, distinct_keys,
};
use crate::meta::{
    Frontmatter, HeaderEntries, MetaValueView, entries_view, lookup, str_field, bool_field, str_list_field,
    check_required, normalize_string_or_list, normalize_contents, parse_part_of,
    norm_contents_spec, part_of_spec, norm_string_or_list, required_warnings_v,
    lemma_required_warnings_agree,
};
use crate::doc::Doc;
use crate::fsprovider::FileProvider;
use crate::render::{render_markdown, html_of};
use crate::rewrite::wf_slug;

verus! {

/// A condition that aborts the whole build.
#[derive(Debug)]
pub enum BuildError {
    /// A header block opened and never closed, in the named document.
    UnterminatedHeader(String),
    /// A malformed header line or duplicate key, in the named document.
    HeaderSyntax(String),
    /// The renderer rejected a body; the path and the renderer's message.
    RenderFailed(String, String),
    /// Two distinct source files normalize to the same slug; the second
    /// path is named.
    SlugCollision(String),
    /// The entry path did not load.
    EntryNotLoaded(String),
    /// No documents remained after visibility filtering.
    NoDocuments,
}

impl BuildError {
    /// A display form of the error.
    pub fn message(&self) -> String {
        let mut m: Vec<char> = Vec::new();
        match self {
            BuildError::UnterminatedHeader(p) => {
                push_str_chars(&mut m, "Unterminated frontmatter block: ");
                push_str_chars(&mut m, p.as_str());
            },
            BuildError::HeaderSyntax(p) => {
                push_str_chars(&mut m, "Invalid header block: ");
                push_str_chars(&mut m, p.as_str());
            },
            BuildError::RenderFailed(p, e) => {
                push_str_chars(&mut m, "Render failure: ");
                push_str_chars(&mut m, p.as_str());
                push_str_chars(&mut m, ": ");
                push_str_chars(&mut m, e.as_str());
            },
            BuildError::SlugCollision(p) => {
                push_str_chars(&mut m, "Slug collision: another document shares the slug of ");
                push_str_chars(&mut m, p.as_str());
            },
            BuildError::EntryNotLoaded(p) => {
                push_str_chars(&mut m, "Entry path not loaded: ");
                push_str_chars(&mut m, p.as_str());
            },
            BuildError::NoDocuments => {
                push_str_chars(
                    &mut m,
                    "No documents after filtering. Ensure visibility includes 'public' or enable include_nonpublic.",
                );
            },
        }
        string_of(&m)
    }
}

/// The recursion gate: a loaded document's content list is followed
/// further only if that document is itself the root index, or the entry
/// document was.
pub open spec fn should_expand_spec(is_index: bool, is_root_index: bool, entry_is_root: bool)
    -> bool {
    is_index && (is_root_index || entry_is_root)
}

pub fn should_expand(is_index: bool, is_root_index: bool, entry_is_root: bool) -> (r: bool)
    ensures
        r == should_expand_spec(is_index, is_root_index, entry_is_root),
{
    is_index && (is_root_index || entry_is_root)
}

/// Recursion law: a non-root index document reached under a non-root
/// entry never has its content list followed, whatever that list holds.
pub proof fn lemma_recursion_gate(is_index: bool)
    ensures
        !should_expand_spec(is_index, false, false),
{
}

/// Resolve the target of a raw `[alias](target)` literal against the
/// referencing document's directory: the joined path as-is if it exists;
/// with the page extension appended if the target has no extension and
/// that exists; else the joined path as a best effort. `None` only for a
/// literal that is not a link.
pub fn resolve_contents_link<F: FileProvider>(raw: &Vec<char>, parent_dir: &str, fs: &F) -> (r:
    Option<String>)
    ensures
        r is Some <==> md_parts(raw@) is Some,
{
    match extract_md_link_parts(raw) {
        None => None,
        Some((_, target)) => {
            let tstr = string_of(&target);
            let first = fs.join(parent_dir, tstr.as_str());
            if fs.path_exists(first.as_str()) {
                return Some(first);
            }
            let no_ext = fs.extension_lowercase(tstr.as_str()).is_none();
            let ends_slash = target.len() > 0 && target[target.len() - 1] == '/';
            if no_ext && !ends_slash {
                let mut appended = target.clone();
                appended.push('.');
                appended.push('m');
                appended.push('d');
                let astr = string_of(&appended);
                let with_md = fs.join(parent_dir, astr.as_str());
                if fs.path_exists(with_md.as_str()) {
                    return Some(with_md);
                }
            }
            Some(first)
        },
    }
}

/// Whether the entry document is loaded and flagged as the root index.
fn entry_is_root_loaded(docs: &Vec<Doc>, entry: &Vec<char>) -> (r: bool)
    ensures
        docs@.len() > 0 && docs@[0].abs_path@ == entry@ ==> r == docs@[0].is_root_index,
{
    let mut i: usize = 0;
    while i < docs.len()
        invariant
            i <= docs@.len(),
            forall|j: int| 0 <= j < i ==> #[trigger] docs@[j].abs_path@ != entry@,
        decreases docs@.len() - i,
    {
        if eq_chars(&docs[i].abs_path, entry) {
            return docs[i].is_root_index;
        }
        i = i + 1;
    }
    false
}

fn find_doc_by_path(docs: &Vec<Doc>, path: &Vec<char>) -> (r: bool)
    ensures
        r == exists|i: int|
            0 <= i < docs@.len() && #[trigger] docs@[i].abs_path@ == path@,
{
    let mut i: usize = 0;
    while i < docs.len()
        invariant
            i <= docs@.len(),
            forall|j: int| 0 <= j < i ==> #[trigger] docs@[j].abs_path@ != path@,
        decreases docs@.len() - i,
    {
        if eq_chars(&docs[i].abs_path, path) {
            return true;
        }
        i = i + 1;
    }
    false
}

fn push_global_warning(warnings: &mut Vec<String>, prefix: &str, path: &str, suffix: &str)
{
    let mut w: Vec<char> = Vec::new();
    push_str_chars(&mut w, prefix);
    push_str_chars(&mut w, path);
    push_str_chars(&mut w, suffix);
    warnings.push(string_of(&w));
}

/// Documents loaded well-formed: distinct source paths and distinct
/// slugs, the index flag tied to the content list, relationship fields
/// empty, slugs normalized.
pub open spec fn docs_loaded_wf(docs: Seq<Doc>) -> bool {
    &&& forall|i: int, j: int|
        0 <= i < j < docs.len() ==> docs[i].abs_path@ != docs[j].abs_path@
    &&& forall|i: int, j: int| 0 <= i < j < docs.len() ==> docs[i].id@ != docs[j].id@
    &&& forall|i: int|
        0 <= i < docs.len() ==> (#[trigger] docs[i].is_index == (docs[i].contents_raw@.len() > 0))
    &&& forall|i: int| 0 <= i < docs.len() ==> (#[trigger] docs[i].children@.len()) == 0
    &&& forall|i: int| 0 <= i < docs.len() ==> (#[trigger] docs[i].parents@.len()) == 0
    &&& forall|i: int| 0 <= i < docs.len() ==> (#[trigger] docs[i].child_aliases@.len()) == 0
    &&& forall|i: int| 0 <= i < docs.len() ==> (#[trigger] docs[i].parent_aliases@.len()) == 0
    &&& forall|i: int| 0 <= i < docs.len() ==> wf_slug(#[trigger] docs[i].id@)
}

/// What loading promises of a returned document, given the text that was
/// read and the basename the file provider handed back: the header parsed
/// and fields extracted, the body rendered, the required-field warnings
/// recorded, the slug derived from the filename stem.
pub open spec fn loaded_doc_ok(
    d: Doc,
    path: Seq<char>,
    raw: Seq<char>,
    fname: Option<Seq<char>>,
) -> bool {
    let e = entries_view(d.frontmatter);
    let fb = match fname {
        Some(f) => f,
        None => path,
    };
    &&& !header_unterminated(raw)
    &&& !header_malformed(raw)
    &&& e == header_entries_of(raw)
    &&& distinct_keys(e)
    &&& d.abs_path@ == path
    &&& d.body_md@ == body_of(raw)
    &&& d.html@ == html_of(body_of(raw))
    &&& d.title@ == (match str_field(e, "title"@) {
        Some(t) => t,
        None => fb,
    })
    &&& d.id@ == slug_spec(stem_spec(fb))
    &&& d.is_root_index == (bool_field(e, "this_file_is_root_index"@) == Some(true))
    &&& d.contents_raw@.map_values(|s: Vec<char>| s@) == norm_contents_spec(
        match str_list_field(e, "contents"@) {
            Some(c) => c,
            None => Seq::empty(),
        },
    )
    &&& d.is_index == (d.contents_raw@.len() > 0)
    &&& d.raw_part_of@.map_values(|s: Vec<char>| s@) == part_of_spec(lookup(e, "part_of"@))
    &&& d.visibility@.map_values(|s: Vec<char>| s@) == norm_string_or_list(
        lookup(e, "visibility"@),
    )
    &&& d.tags@.map_values(|s: Vec<char>| s@) == (match str_list_field(e, "tags"@) {
        Some(t) => t,
        None => Seq::empty(),
    })
    &&& d.aliases@.map_values(|s: Vec<char>| s@) == (match str_list_field(e, "aliases"@) {
        Some(t) => t,
        None => Seq::empty(),
    })
    &&& d.warnings@.map_values(|s: String| s@) == required_warnings_v(e, path)
    &&& d.children@.len() == 0
    &&& d.parents@.len() == 0
    &&& d.child_aliases@.len() == 0
    &&& d.parent_aliases@.len() == 0
}

/// A document explained by the given read text, for some provider
/// basename.
pub open spec fn loaded_from(d: Doc, path: Seq<char>, raw: Seq<char>) -> bool {
    exists|fname: Option<Seq<char>>| loaded_doc_ok(d, path, raw, fname)
}

/// A document for which some read text and provider basename explain every
/// field as `loaded_doc_ok` demands.
pub open spec fn doc_well_loaded(d: Doc) -> bool {
    exists|raw: Seq<char>| loaded_from(d, d.abs_path@, raw)
}

/// Load one document from its raw text; `Err` aborts the build.
#[verifier::loop_isolation(false)]
#[verifier::rlimit(100)]
fn load_document<F: FileProvider>(path: &String, raw: &String, fs: &F) -> (r: Result<
    Doc,
    BuildError,
>)
    ensures
        r matches Ok(d) ==> d.abs_path@ == path@ && d.is_index == (d.contents_raw@.len() > 0)
            && d.children@.len() == 0 && d.parents@.len() == 0 && d.child_aliases@.len() == 0
            && d.parent_aliases@.len() == 0 && wf_slug(d.id@),
        r matches Ok(d) ==> loaded_from(d, path@, raw@),
        match r {
            Ok(_) => true,
            Err(BuildError::UnterminatedHeader(p)) => p@ == path@ && header_unterminated(raw@),
            Err(BuildError::HeaderSyntax(p)) => p@ == path@ && header_malformed(raw@),
            Err(BuildError::RenderFailed(p, _)) => p@ == path@ && !header_unterminated(raw@)
                && !header_malformed(raw@),
            Err(_) => false,
        },
        header_unterminated(raw@) || header_malformed(raw@) ==> r is Err,
{
    let raw_chars = chars_of(raw.as_str());
    let split = match split_frontmatter(&raw_chars) {
        Some(s) => s,
        None => {
            return Err(BuildError::UnterminatedHeader(path.clone()));
        },
    };
    assert(!header_unterminated(raw@));
    let entries: HeaderEntries = match split.header_lines {
        Some(lines) => match parse_header(&lines) {
            Some(e) => e,
            None => {
                assert(header_malformed(raw@));
                return Err(BuildError::HeaderSyntax(path.clone()));
            },
        },
        None => Vec::new(),
    };
    proof {
        assert(!header_malformed(raw@));
        assert(entries_view(entries) == header_entries_of(raw@)) by {
            if !has_header_block(raw@) {
                assert(entries_view(entries) =~= Seq::<(Seq<char>, MetaValueView)>::empty());
            }
        }
        assert(distinct_keys(entries_view(entries))) by {
            if !has_header_block(raw@) {
                assert(entries_view(entries) =~= Seq::<(Seq<char>, MetaValueView)>::empty());
            }
        }
    }
    let fm = Frontmatter::from_entries(&entries);
    let path_chars = chars_of(path.as_str());
    let mut doc_warnings: Vec<String> = Vec::new();
    check_required(&fm, &mut doc_warnings, &path_chars);
    proof {
        lemma_required_warnings_agree(&fm, entries_view(entries), path@);
        assert(doc_warnings@.map_values(|s: String| s@) =~= required_warnings_v(
            entries_view(entries),
            path@,
        ));
    }
    let ghost mut fnv: Option<Seq<char>> = None;
    let fname: Vec<char>;
    match fs.file_name(path.as_str()) {
        Some(f) => {
            fname = chars_of(f.as_str());
            proof {
                fnv = Some(f@);
            }
        },
        None => {
            fname = path_chars.clone();
        },
    }
    assert(fname@ == (match fnv {
        Some(f) => f,
        None => path@,
    }));
    let title: Vec<char> = match &fm.title {
        Some(t) => t.clone(),
        None => fname.clone(),
    };
    let stem = stem_chars(&fname);
    let slug = slugify(&stem);
    proof {
        crate::rewrite::lemma_slugify_wf(stem@);
    }
    let html = match render_markdown(&split.body) {
        Ok(h) => h,
        Err(e) => {
            return Err(BuildError::RenderFailed(path.clone(), e));
        },
    };
    let visibility = normalize_string_or_list(fm.visibility.as_ref());
    let contents_norm = match &fm.contents {
        Some(c) => normalize_contents(c),
        None => Vec::new(),
    };
    let raw_part_of = parse_part_of(fm.part_of.as_ref());
    let is_root = match fm.this_file_is_root_index {
        Some(b) => b,
        None => false,
    };
    let is_index = contents_norm.len() > 0;
    let d = Doc {
            id: slug,
            abs_path: path_chars,
            title,
            visibility,
            tags: match fm.tags {
                Some(t) => t,
                None => Vec::new(),
            },
            aliases: match fm.aliases {
                Some(a) => a,
                None => Vec::new(),
            },
            is_root_index: is_root,
            is_index,
            contents_raw: contents_norm,
            raw_part_of,
            children: Vec::new(),
            parents: Vec::new(),
            child_aliases: Vec::new(),
            parent_aliases: Vec::new(),
            html,
            frontmatter: entries,
        warnings: doc_warnings,
        body_md: split.body,
    };
    proof {
        assert(d.contents_raw@.map_values(|s: Vec<char>| s@) =~= norm_contents_spec(
            match str_list_field(entries_view(d.frontmatter), "contents"@) {
                Some(c) => c,
                None => Seq::empty(),
            },
        ));
        assert(d.tags@.map_values(|s: Vec<char>| s@) =~= (match str_list_field(
            entries_view(d.frontmatter),
            "tags"@,
        ) {
            Some(t) => t,
            None => Seq::empty(),
        }));
        assert(d.aliases@.map_values(|s: Vec<char>| s@) =~= (match str_list_field(
            entries_view(d.frontmatter),
            "aliases"@,
        ) {
            Some(t) => t,
            None => Seq::empty(),
        }));
        assert(loaded_doc_ok(d, path@, raw@, fnv));
        assert(loaded_from(d, path@, raw@)) by {
            assert(loaded_doc_ok(d, path@, raw@, fnv));
        }
    }
    Ok(d)
}

/// Traverse from the entry path, loading the transitive document set in
/// discovery order. The traversal examines a bounded number of queued
/// references; a reference graph beyond that bound is cut short with a
/// global warning.
#[verifier::loop_isolation(false)]
#[verifier::rlimit(100)]
#[verifier::spinoff_prover]
pub fn collect_documents<F: FileProvider>(entry: &str, fs: &F, warnings_global: &mut Vec<String>)
    -> (r: Result<Vec<Doc>, BuildError>)
    ensures
        r matches Ok(docs) ==> ({
            &&& docs_loaded_wf(docs@)
            &&& forall|i: int| 0 <= i < docs@.len() ==> doc_well_loaded(#[trigger] docs@[i])
            &&& docs@.len() > 0 ==> docs@[0].abs_path@ == entry@
            &&& docs@.len() > 0 && !docs@[0].is_root_index ==> docs@.len() == 1
        }),
{
    let mut docs: Vec<Doc> = Vec::new();
    let mut queue: Vec<String> = Vec::new();
    let entry_chars = chars_of(entry);
    queue.push(string_of(&entry_chars));
    let mut head: usize = 0;
    let mut budget: usize = 1000000;
    while head < queue.len() && budget > 0
        invariant
            docs_loaded_wf(docs@),
            forall|i: int| 0 <= i < docs@.len() ==> doc_well_loaded(#[trigger] docs@[i]),
            head <= queue@.len(),
            docs@.len() == 0 ==> head <= 1 && queue@.len() == 1 && queue@[0]@ == entry@,
            docs@.len() > 0 ==> docs@[0].abs_path@ == entry@,
            docs@.len() > 0 ==> head >= 1,
            docs@.len() > 0 && !docs@[0].is_root_index ==> docs@.len() == 1 && queue@.len() == 1,
        decreases budget,
    {
        budget = budget - 1;
        let path = queue[head].clone();
        head = head + 1;
        let path_chars = chars_of(path.as_str());
        if find_doc_by_path(&docs, &path_chars) {
            continue;
        }
        if !fs.path_exists(path.as_str()) {
            push_global_warning(warnings_global, "Entry or referenced path missing: ", path.as_str(), "");
            continue;
        }
        if !fs.is_file(path.as_str()) {
            push_global_warning(warnings_global, "Skipping non-file path: ", path.as_str(), "");
            continue;
        }
        match fs.extension_lowercase(path.as_str()) {
            Some(ext) => {
                let ev = chars_of(ext.as_str());
                let md = {
                    let mut m: Vec<char> = Vec::new();
                    m.push('m');
                    m.push('d');
                    m
                };
                if !eq_chars(&ev, &md) {
                    continue;
                }
            },
            None => {
                continue;
            },
        }
        let raw = match fs.read_to_string(path.as_str()) {
            Ok(s) => s,
            Err(e) => {
                let mut w: Vec<char> = Vec::new();
                push_str_chars(&mut w, "Failed to read ");
                push_str_chars(&mut w, path.as_str());
                push_str_chars(&mut w, ": ");
                push_str_chars(&mut w, e.as_str());
                warnings_global.push(string_of(&w));
                continue;
            },
        };
        let doc = match load_document(&path, &raw, fs) {
            Ok(d) => d,
            Err(e) => {
                return Err(e);
            },
        };
        proof {
            assert(doc_well_loaded(doc)) by {
                assert(loaded_from(doc, doc.abs_path@, raw@));
            }
        }
        // two files must never share a slug
        {
            let mut s: usize = 0;
            while s < docs.len()
                invariant
                    s <= docs@.len(),
                    forall|j: int| 0 <= j < s ==> #[trigger] docs@[j].id@ != doc.id@,
                decreases docs@.len() - s,
            {
                if eq_chars(&docs[s].id, &doc.id) {
                    return Err(BuildError::SlugCollision(path));
                }
                s = s + 1;
            }
        }
        let is_index = doc.is_index;
        let is_root_index = doc.is_root_index;
        let ghost docs0 = docs@;
        // keep the content links for expansion before the document moves
        let mut contents_links: Vec<Vec<char>> = Vec::new();
        let mut ci: usize = 0;
        while ci < doc.contents_raw.len()
            invariant
                ci <= doc.contents_raw@.len(),
            decreases doc.contents_raw@.len() - ci,
        {
            contents_links.push(doc.contents_raw[ci].clone());
            ci = ci + 1;
        }
        docs.push(doc);
        proof {
            assert forall|i: int, j: int|
                0 <= i < j < docs@.len() implies docs@[i].abs_path@ != docs@[j].abs_path@
                    && docs@[i].id@ != docs@[j].id@ by {
                if j == docs@.len() - 1 {
                    assert(docs@[i] == docs0[i]);
                }
            }
            assert forall|i: int|
                0 <= i < docs@.len() implies (#[trigger] docs@[i].children@.len()) == 0 by {
                if i < docs@.len() - 1 {
                    assert(docs@[i] == docs0[i]);
                }
            }
            assert forall|i: int|
                0 <= i < docs@.len() implies (#[trigger] docs@[i].parents@.len()) == 0 by {
                if i < docs@.len() - 1 {
                    assert(docs@[i] == docs0[i]);
                }
            }
            assert forall|i: int|
                0 <= i < docs@.len() implies (#[trigger] docs@[i].child_aliases@.len()) == 0 by {
                if i < docs@.len() - 1 {
                    assert(docs@[i] == docs0[i]);
                }
            }
            assert forall|i: int|
                0 <= i < docs@.len() implies (#[trigger] docs@[i].parent_aliases@.len()) == 0 by {
                if i < docs@.len() - 1 {
                    assert(docs@[i] == docs0[i]);
                }
            }
            assert forall|i: int|
                0 <= i < docs@.len() implies (#[trigger] docs@[i].is_index == (docs@[
                i
            ].contents_raw@.len() > 0)) && wf_slug(docs@[i].id@) by {
                if i < docs@.len() - 1 {
                    assert(docs@[i] == docs0[i]);
                }
            }
            assert forall|i: int|
                0 <= i < docs@.len() implies doc_well_loaded(#[trigger] docs@[i]) by {
                if i < docs@.len() - 1 {
                    assert(docs@[i] == docs0[i]);
                }
            }
            assert(docs_loaded_wf(docs@));
        }
        // recursion gate
        let entry_root = entry_is_root_loaded(&docs, &entry_chars);
        if should_expand(is_index, is_root_index, entry_root) {
            match fs.parent(path.as_str()) {
                Some(parent_dir) => {
                    let mut li: usize = 0;
                    while li < contents_links.len()
                        invariant
                            li <= contents_links@.len(),
                            head <= queue@.len(),
                        decreases contents_links@.len() - li,
                    {
                        match resolve_contents_link(&contents_links[li], parent_dir.as_str(), fs) {
                            Some(resolved) => {
                                if fs.path_exists(resolved.as_str()) && fs.is_file(
                                    resolved.as_str(),
                                ) {
                                    queue.push(resolved);
                                } else {
                                    let mut w: Vec<char> = Vec::new();
                                    push_str_chars(
                                        &mut w,
                                        "contents target not found or not a file: ",
                                    );
                                    push_str_chars(&mut w, resolved.as_str());
                                    push_str_chars(&mut w, " (from ");
                                    push_str_chars(&mut w, path.as_str());
                                    push_str_chars(&mut w, ")");
                                    warnings_global.push(string_of(&w));
                                }
                            },
                            None => {
                                let mut w: Vec<char> = Vec::new();
                                push_str_chars(&mut w, "Could not parse contents entry '");
                                push_chars(&mut w, &contents_links[li]);
                                push_str_chars(&mut w, "' in ");
                                push_str_chars(&mut w, path.as_str());
                                warnings_global.push(string_of(&w));
                            },
                        }
                        li = li + 1;
                    }
                },
                None => {},
            }
        }
    }
    if head < queue.len() {
        push_global_warning(
            warnings_global,
            "Traversal budget exhausted; remaining references were skipped",
            "",
            "",
        );
    }
    Ok(docs)
}

} // verus!
