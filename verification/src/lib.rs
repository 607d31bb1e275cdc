//! Diaryx site engine: loads a graph of metadata-bearing Markdown documents,
//! links parent/child relationships, rewrites intra-site hyperlinks for the
//! chosen output layout, resolves attachments, and renders metadata fragments.

pub mod text;
pub mod escape;
pub mod links;
pub mod meta;
pub mod header;
pub mod layout;
pub mod rewrite;
pub mod timefmt;
pub mod metadata;
pub mod attach;
pub mod fsprovider;
pub mod memfs;
pub mod render;
pub mod doc;
pub mod loader;
pub mod linker;
pub mod site;
pub mod plan;

pub use escape::html_esc_append;
pub use fsprovider::FileProvider;
pub use loader::BuildError;
pub use memfs::InMemoryFs;
pub use plan::{run_build, wrap_full_html, BuildOptions, BuildPlan, PlanFile};
pub use site::{build_site, AttachmentPlanEntry, BuildArtifacts, CoreBuildOptions, PageOutput};
