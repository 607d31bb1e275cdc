//! The emission plan: where every output file goes and what it holds.
//!
//! The engine computes the full set of page writes as plain values; the
//! caller performs the directory creation, file writes and attachment
//! copies, and decides how to surface warnings.

use vstd::prelude::*;
use crate::text::{chars_of, string_of, push_chars, push_str_chars};
use crate::escape::esc_seq;
use crate::fsprovider::FileProvider;
use crate::loader::BuildError;
use crate::site::{build_site, CoreBuildOptions, PageOutput, AttachmentPlanEntry, BuildArtifacts};

verus! {

/// Build options, as the command line surfaces them.
pub struct BuildOptions {
    /// The entry document path.
    pub input: String,
    /// The output directory.
    pub output: String,
    pub include_nonpublic: bool,
    /// Also emit an intermediate data model.
    pub emit_json: bool,
    pub flat: bool,
    pub verbose: bool,
    /// Treat a build with warnings as failed, after computing artifacts.
    pub strict: bool,
    /// Skip the default stylesheet and its link tag.
    pub no_default_css: bool,
}

/// One page write: a path relative to the output directory, and the full
/// document to write there.
pub struct PlanFile {
    pub rel_path: String,
    pub content: String,
}

/// Everything the caller needs to materialize a build.
pub struct BuildPlan {
    pub files: Vec<PlanFile>,
    pub attachments: Vec<AttachmentPlanEntry>,
    pub warnings: Vec<String>,
    pub multi_page: bool,
    pub root_slug: Option<String>,
    /// Write the default stylesheet under `css/style.css`.
    pub emit_css: bool,
    pub emit_json: bool,
    /// Strict mode was on and the build produced warnings.
    pub strict_failed: bool,
    /// The page data, for the optional intermediate model.
    pub pages: Vec<PageOutput>,
}

/// The full HTML document wrapped around a rendered page: a fixed shell,
/// the escaped title, an optional stylesheet link (one level up for nested
/// non-root pages), the metadata fragment, and the body.
pub open spec fn wrap_spec(
    title: Seq<char>,
    metadata_html: Seq<char>,
    html: Seq<char>,
    multi_page: bool,
    flat: bool,
    is_root_index: bool,
    include_css: bool,
) -> Seq<char> {
    "<!doctype html><html lang=\"en\"><head><meta charset=\"utf-8\" />"@
        + "<meta name=\"viewport\" content=\"width=device-width,initial-scale=1\" />"@ + "<title>"@
        + esc_seq(title) + "</title>"@ + (if include_css {
        "<link rel=\"stylesheet\" href=\""@ + (if multi_page && !flat && !is_root_index {
            "../css/style.css"@
        } else {
            "css/style.css"@
        }) + "\" />"@
    } else {
        Seq::empty()
    }) + "</head><body>"@ + metadata_html + "<main class=\"content\">"@ + html
        + "</main></body></html>"@
}

/// Wrap one page into a full HTML document.
pub fn wrap_full_html(page: &PageOutput, multi_page: bool, flat: bool, include_css: bool) -> (r:
    String)
    ensures
        r@ == wrap_spec(
            page.title@,
            page.metadata_html@,
            page.html@,
            multi_page,
            flat,
            page.is_root_index,
            include_css,
        ),
{
    let mut out: Vec<char> = Vec::new();
    push_str_chars(&mut out, "<!doctype html><html lang=\"en\"><head><meta charset=\"utf-8\" />");
    push_str_chars(
        &mut out,
        "<meta name=\"viewport\" content=\"width=device-width,initial-scale=1\" />",
    );
    push_str_chars(&mut out, "<title>");
    let title = chars_of(page.title.as_str());
    crate::escape::push_esc_chars(&mut out, &title);
    push_str_chars(&mut out, "</title>");
    if include_css {
        push_str_chars(&mut out, "<link rel=\"stylesheet\" href=\"");
        if multi_page && !flat && !page.is_root_index {
            push_str_chars(&mut out, "../css/style.css");
        } else {
            push_str_chars(&mut out, "css/style.css");
        }
        push_str_chars(&mut out, "\" />");
    }
    push_str_chars(&mut out, "</head><body>");
    push_str_chars(&mut out, page.metadata_html.as_str());
    push_str_chars(&mut out, "<main class=\"content\">");
    push_str_chars(&mut out, page.html.as_str());
    push_str_chars(&mut out, "</main></body></html>");
    assert(out@ =~= wrap_spec(
        page.title@,
        page.metadata_html@,
        page.html@,
        multi_page,
        flat,
        page.is_root_index,
        include_css,
    ));
    string_of(&out)
}

/// The output-relative path of a page: nested non-root pages live under
/// `pages/`; everything else sits at the top level under its file name.
pub open spec fn rel_path_spec(
    multi_page: bool,
    flat: bool,
    is_root_index: bool,
    file_name: Seq<char>,
) -> Seq<char> {
    if multi_page && !flat && !is_root_index {
        "pages/"@ + file_name
    } else {
        file_name
    }
}

/// One page write projected from one page.
pub open spec fn plan_file_matches(
    f: PlanFile,
    p: PageOutput,
    multi_page: bool,
    flat: bool,
    css: bool,
) -> bool {
    &&& f.rel_path@ == rel_path_spec(multi_page, flat, p.is_root_index, p.file_name@)
    &&& f.content@ == wrap_spec(
        p.title@,
        p.metadata_html@,
        p.html@,
        multi_page,
        flat,
        p.is_root_index,
        css,
    )
}

/// Compute the full emission plan for a build.
#[verifier::loop_isolation(false)]
#[verifier::rlimit(100)]
#[verifier::spinoff_prover]
pub fn run_build<F: FileProvider>(opts: &BuildOptions, fs: &F) -> (r: Result<
    BuildPlan,
    BuildError,
>)
    ensures
        r matches Ok(p) ==> {
            &&& crate::site::artifacts_wf(
                BuildArtifacts {
                    pages: p.pages,
                    attachments: p.attachments,
                    warnings: p.warnings,
                    multi_page: p.multi_page,
                    root_slug: p.root_slug,
                },
                opts.flat,
            )
            &&& p.files@.len() == p.pages@.len()
            &&& forall|i: int|
                0 <= i < p.files@.len() ==> plan_file_matches(
                    #[trigger] p.files@[i],
                    p.pages@[i],
                    p.multi_page,
                    opts.flat,
                    !opts.no_default_css,
                )
            &&& p.emit_css == !opts.no_default_css
            &&& p.emit_json == opts.emit_json
            &&& p.strict_failed == (opts.strict && p.warnings@.len() > 0)
        },
{
    let core_opts = CoreBuildOptions {
        include_nonpublic: opts.include_nonpublic,
        flat: opts.flat,
        strict: opts.strict,
        rewrite_links: true,
    };
    let artifacts = match build_site(opts.input.as_str(), core_opts, fs) {
        Ok(a) => a,
        Err(e) => {
            return Err(e);
        },
    };
    let mut files: Vec<PlanFile> = Vec::new();
    let mut i: usize = 0;
    while i < artifacts.pages.len()
        invariant
            i <= artifacts.pages@.len(),
            files@.len() == i,
            forall|a: int|
                0 <= a < i ==> plan_file_matches(
                    #[trigger] files@[a],
                    artifacts.pages@[a],
                    artifacts.multi_page,
                    opts.flat,
                    !opts.no_default_css,
                ),
        decreases artifacts.pages@.len() - i,
    {
        let page = &artifacts.pages[i];
        let content = wrap_full_html(page, artifacts.multi_page, opts.flat, !opts.no_default_css);
        let rel_path: String = if artifacts.multi_page && !opts.flat && !page.is_root_index {
            let mut p: Vec<char> = Vec::new();
            push_str_chars(&mut p, "pages/");
            let f = chars_of(page.file_name.as_str());
            push_chars(&mut p, &f);
            string_of(&p)
        } else {
            let f = chars_of(page.file_name.as_str());
            string_of(&f)
        };
        let ghost f0 = files@;
        files.push(PlanFile { rel_path, content });
        proof {
            assert forall|a: int| 0 <= a < f0.len() implies #[trigger] files@[a] == f0[a] by {}
            assert(plan_file_matches(
                files@[i as int],
                artifacts.pages@[i as int],
                artifacts.multi_page,
                opts.flat,
                !opts.no_default_css,
            ));
        }
        i = i + 1;
    }
    let strict_failed = opts.strict && artifacts.warnings.len() > 0;
    Ok(
        BuildPlan {
            files,
            attachments: artifacts.attachments,
            warnings: artifacts.warnings,
            multi_page: artifacts.multi_page,
            root_slug: artifacts.root_slug,
            emit_css: !opts.no_default_css,
            emit_json: opts.emit_json,
            strict_failed,
            pages: artifacts.pages,
        },
    )
}

} // verus!
