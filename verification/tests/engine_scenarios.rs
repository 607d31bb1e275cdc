use diaryx::{build_site, BuildError, CoreBuildOptions, InMemoryFs};

fn fs_of(map: &[(&str, &str)]) -> InMemoryFs {
    InMemoryFs::new(map.iter().map(|(k, v)| (k.to_string(), v.to_string())).collect())
}

fn opts() -> CoreBuildOptions {
    CoreBuildOptions { rewrite_links: true, ..Default::default() }
}

const FULL_META: &str = "author: A\ncreated: 2025-08-25T10:00:00Z\nupdated: 2025-08-25T10:00:00Z\nvisibility: public\nformat: plain\nreachable: here\n";

#[test]
fn missing_author_is_warned_with_the_document() {
    let fs = fs_of(&[(
        "entry.md",
        "---\ntitle: T\ncreated: 2025-08-25T10:00:00Z\nupdated: 2025-08-25T10:00:00Z\nvisibility: public\nformat: plain\nreachable: here\n---\nBody\n",
    )]);
    let artifacts = build_site("entry.md", opts(), &fs).expect("build ok");
    assert!(
        artifacts
            .warnings
            .iter()
            .any(|w| w.contains("author") && w.contains("entry.md")),
        "warnings: {:?}",
        artifacts.warnings
    );
    // present fields are not warned about
    assert!(!artifacts.warnings.iter().any(|w| w.contains("Missing required field: title")));
}

#[test]
fn non_root_entry_never_expands_contents() {
    // the entry is an index but not the root index: its list is not followed
    let fs = fs_of(&[
        (
            "entry.md",
            "---\ntitle: E\nauthor: A\ncreated: 2025-08-25T10:00:00Z\nupdated: 2025-08-25T10:00:00Z\nvisibility: public\nformat: plain\nreachable: here\ncontents:\n  - \"[Leaf](leaf.md)\"\n---\nBody\n",
        ),
        (
            "leaf.md",
            "---\ntitle: L\nauthor: A\ncreated: 2025-08-25T10:00:00Z\nupdated: 2025-08-25T10:00:00Z\nvisibility: public\nformat: plain\nreachable: here\n---\nLeaf\n",
        ),
    ]);
    let artifacts = build_site("entry.md", opts(), &fs).expect("build ok");
    assert_eq!(artifacts.pages.len(), 1);
    assert_eq!(artifacts.pages[0].id, "entry");
    assert!(!artifacts.multi_page);
}

#[test]
fn shared_attachment_gets_one_plan_entry() {
    let root = format!(
        "---\ntitle: R\n{}this_file_is_root_index: true\ncontents:\n  - \"[One](a/one.md)\"\n  - \"[Two](two.md)\"\n---\nRoot ![p](a/pic.png)\n",
        FULL_META
    );
    let one = format!("---\ntitle: One\n{}---\nOne ![p](pic.png)\n", FULL_META);
    let two = format!("---\ntitle: Two\n{}---\nTwo ![p](a/pic.png)\n", FULL_META);
    let fs = fs_of(&[
        ("root.md", root.as_str()),
        ("a/one.md", one.as_str()),
        ("two.md", two.as_str()),
        ("a/pic.png", "png-bytes"),
    ]);
    let artifacts = build_site(
        "root.md",
        CoreBuildOptions { rewrite_links: true, flat: true, ..Default::default() },
        &fs,
    )
    .expect("build ok");
    assert_eq!(artifacts.pages.len(), 3, "warnings: {:?}", artifacts.warnings);
    assert_eq!(artifacts.attachments.len(), 1);
    assert_eq!(artifacts.attachments[0].source, "a/pic.png");
    assert_eq!(artifacts.attachments[0].target, "assets/pic.png");
    for p in &artifacts.pages {
        assert!(
            p.html.contains("assets/pic.png"),
            "page {} html: {}",
            p.id,
            p.html
        );
    }
}

#[test]
fn missing_attachment_is_warned_and_left() {
    let entry = format!("---\ntitle: R\n{}---\nBody ![p](gone.png)\n", FULL_META);
    let fs = fs_of(&[("entry.md", entry.as_str())]);
    let artifacts = build_site("entry.md", opts(), &fs).expect("build ok");
    assert!(artifacts.attachments.is_empty());
    assert!(artifacts.pages[0].html.contains("gone.png"));
    assert!(
        artifacts.warnings.iter().any(|w| w.contains("Attachment not found")),
        "warnings: {:?}",
        artifacts.warnings
    );
}

#[test]
fn colliding_attachment_basenames_get_suffixes() {
    let root = format!(
        "---\ntitle: R\n{}this_file_is_root_index: true\ncontents:\n  - \"[One](a/one.md)\"\n---\nRoot ![p](pic.png)\n",
        FULL_META
    );
    let one = format!("---\ntitle: One\n{}---\nOne ![p](pic.png)\n", FULL_META);
    let fs = fs_of(&[
        ("root.md", root.as_str()),
        ("a/one.md", one.as_str()),
        ("pic.png", "x"),
        ("a/pic.png", "y"),
    ]);
    let artifacts = build_site(
        "root.md",
        CoreBuildOptions { rewrite_links: true, flat: true, ..Default::default() },
        &fs,
    )
    .expect("build ok");
    assert_eq!(artifacts.attachments.len(), 2);
    let targets: Vec<&str> = artifacts.attachments.iter().map(|a| a.target.as_str()).collect();
    assert!(targets.contains(&"assets/pic.png"), "targets: {:?}", targets);
    assert!(targets.contains(&"assets/pic-1.png"), "targets: {:?}", targets);
    // sorted by target
    assert!(artifacts.attachments[0].target <= artifacts.attachments[1].target);
}

#[test]
fn unterminated_header_aborts() {
    let fs = fs_of(&[("entry.md", "---\ntitle: T\nBody without closing\n")]);
    match build_site("entry.md", opts(), &fs) {
        Err(BuildError::UnterminatedHeader(p)) => assert_eq!(p, "entry.md"),
        other => panic!("expected an unterminated-header error, got {:?}", other.map(|a| a.pages.len())),
    }
}

#[test]
fn duplicate_header_key_aborts() {
    let fs = fs_of(&[("entry.md", "---\ntitle: T\ntitle: U\n---\nBody\n")]);
    match build_site("entry.md", opts(), &fs) {
        Err(BuildError::HeaderSyntax(p)) => assert_eq!(p, "entry.md"),
        other => panic!("expected a header-syntax error, got {:?}", other.map(|a| a.pages.len())),
    }
}

#[test]
fn colliding_slugs_abort() {
    // `My Note.md` and `my-note.md` normalize to the same slug
    let root = format!(
        "---\ntitle: R\n{}this_file_is_root_index: true\ncontents:\n  - \"[A](My Note.md)\"\n  - \"[B](my-note.md)\"\n---\nRoot\n",
        FULL_META
    );
    let a = format!("---\ntitle: A\n{}---\nA\n", FULL_META);
    let b = format!("---\ntitle: B\n{}---\nB\n", FULL_META);
    let fs = fs_of(&[
        ("root.md", root.as_str()),
        ("My Note.md", a.as_str()),
        ("my-note.md", b.as_str()),
    ]);
    match build_site("root.md", opts(), &fs) {
        Err(BuildError::SlugCollision(_)) => {}
        other => panic!("expected a slug-collision error, got {:?}", other.map(|x| x.pages.len())),
    }
}

#[test]
fn missing_entry_aborts() {
    let fs = fs_of(&[]);
    match build_site("absent.md", opts(), &fs) {
        Err(BuildError::EntryNotLoaded(p)) => assert_eq!(p, "absent.md"),
        other => panic!("expected an entry-not-loaded error, got {:?}", other.map(|a| a.pages.len())),
    }
}

#[test]
fn nonstructural_part_of_is_linked_by_alias() {
    // `other.md` is never anyone's content entry, yet the alias shows
    let entry = format!(
        "---\ntitle: E\n{}part_of: \"[Elsewhere](other.md)\"\n---\nBody\n",
        FULL_META
    );
    let fs = fs_of(&[("entry.md", entry.as_str())]);
    let artifacts = build_site("entry.md", opts(), &fs).expect("build ok");
    assert!(
        artifacts.pages[0]
            .metadata_html
            .contains(r#"<a href="index.html">Elsewhere</a>"#),
        "metadata: {}",
        artifacts.pages[0].metadata_html
    );
}

#[test]
fn reachable_renders_last_and_counts_when_blank() {
    let entry = "---\nreachable: \"  \"\ntitle: T\nauthor: A\ncreated: x\nupdated: x\nvisibility: public\nformat: plain\n---\nBody\n";
    let fs = fs_of(&[("entry.md", entry)]);
    let artifacts = build_site("entry.md", opts(), &fs).expect("build ok");
    assert!(
        artifacts.warnings.iter().any(|w| w.contains("reachable")),
        "warnings: {:?}",
        artifacts.warnings
    );
    let meta = &artifacts.pages[0].metadata_html;
    let reach_pos = meta.rfind("reachable").unwrap();
    let title_pos = meta.find("title").unwrap();
    assert!(reach_pos > title_pos, "metadata: {}", meta);
}

#[test]
fn inline_values_render_joined_and_escaped() {
    let entry = format!(
        "---\ntitle: A <b> title\n{}tags:\n  - alpha\n  - beta\nversion: 2\n---\nBody\n",
        FULL_META
    );
    let fs = fs_of(&[("entry.md", entry.as_str())]);
    let artifacts = build_site("entry.md", opts(), &fs).expect("build ok");
    let meta = &artifacts.pages[0].metadata_html;
    assert!(meta.contains("A &lt;b&gt; title"), "metadata: {}", meta);
    assert!(meta.contains("alpha, beta"), "metadata: {}", meta);
    assert!(meta.contains("<li><strong>version:</strong> 2</li>"), "metadata: {}", meta);
}

#[test]
fn flow_lists_and_nested_mappings_parse() {
    let entry = "---\ntitle: T\nauthor:\n  name: Ada\n  email: ada@example.org\ncreated: x\nupdated: x\nvisibility: [public, team]\nformat: plain\nreachable: here\n---\nBody\n";
    let fs = fs_of(&[("entry.md", entry)]);
    let artifacts = build_site("entry.md", opts(), &fs).expect("build ok");
    // the flow list counts as a visibility list holding `public`
    assert_eq!(artifacts.pages.len(), 1);
    assert!(!artifacts.warnings.iter().any(|w| w.contains("Missing required field")),
        "warnings: {:?}", artifacts.warnings);
    let meta = &artifacts.pages[0].metadata_html;
    // the nested mapping renders as key=value pairs joined by semicolons
    assert!(meta.contains("name=Ada; email=ada@example.org"), "metadata: {}", meta);
    assert!(meta.contains("public, team"), "metadata: {}", meta);
}
