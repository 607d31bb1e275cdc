use diaryx::{build_site, CoreBuildOptions, InMemoryFs};

fn fs_of(map: &[(&str, &str)]) -> InMemoryFs {
    InMemoryFs::new(map.iter().map(|(k, v)| (k.to_string(), v.to_string())).collect())
}

#[test]
fn smoke_single() {
    let fs = fs_of(&[(
        "entry.md",
        r#"---
title: Test Doc
author: Someone
created: 2025-08-25T10:00:00Z
updated: 2025-08-25T10:00:00Z
visibility: public
format: "[CommonMark](https://spec.commonmark.org/)"
---
Hello **world**.
"#,
    )]);
    let artifacts = build_site(
        "entry.md",
        CoreBuildOptions {
            rewrite_links: true,
            ..Default::default()
        },
        &fs,
    )
    .expect("build ok");
    assert_eq!(artifacts.pages.len(), 1);
    assert!(artifacts.pages[0].html.contains("<strong>world</strong>"));
    assert_eq!(artifacts.pages[0].file_name, "index.html");
    // metadata should contain the CommonMark link converted to anchor
    assert!(
        artifacts.pages[0]
            .metadata_html
            .contains(r#"<a href="https://spec.commonmark.org/">CommonMark</a>"#)
    );
}

#[test]
fn flat_alias_and_part_of_links() {
    // Flat multi-page: no pages/ prefix
    let fs = fs_of(&[
        (
            "root.md",
            r#"---
title: Root Title
author: A
created: 2025-08-25T10:00:00Z
updated: 2025-08-25T10:00:00Z
visibility: public
format: "[CommonMark](https://spec.commonmark.org/)"
this_file_is_root_index: true
contents:
  - "[First Child](child-one.md)"
  - "[Second Child](child-two)"
---
Root body
"#,
        ),
        (
            "child-one.md",
            r#"---
title: First Child
author: A
created: 2025-08-25T10:01:00Z
updated: 2025-08-25T10:01:00Z
visibility: public
format: "[CommonMark](https://spec.commonmark.org/)"
part_of:
  - "[Root Alias](root.md)"
---
Child one body referencing [Second](child-two.md) and [Root](root.md).
"#,
        ),
        (
            "child-two.md",
            r#"---
title: Second Child
author: A
created: 2025-08-25T10:02:00Z
updated: 2025-08-25T10:02:00Z
visibility: public
format: "[CommonMark](https://spec.commonmark.org/)"
part_of: "[Root Alias](root.md)"
---
Child two body referencing [First](child-one.md) and [Root](root.md).
"#,
        ),
    ]);
    let artifacts = build_site(
        "root.md",
        CoreBuildOptions {
            rewrite_links: true,
            flat: true,
            ..Default::default()
        },
        &fs,
    )
    .expect("build ok");
    assert_eq!(artifacts.pages.len(), 3);
    let root = artifacts.pages.iter().find(|p| p.is_root_index).unwrap();
    // Root metadata should show alias labels, not slugs
    assert!(
        root.metadata_html
            .contains(r#"<a href="child-one.html">First Child</a>"#),
        "Flat root should link to child-one.html with alias label: got {}",
        root.metadata_html
    );
    assert!(
        root.metadata_html
            .contains(r#"<a href="child-two.html">Second Child</a>"#),
        "Flat root should link to child-two.html with alias label: got {}",
        root.metadata_html
    );
    // Child part_of alias link
    let child_one = artifacts
        .pages
        .iter()
        .find(|p| p.title == "First Child")
        .unwrap();
    assert!(
        child_one
            .metadata_html
            .contains(r#"<a href="index.html">Root Alias</a>"#),
        "Flat child_one part_of should show alias 'Root Alias': {}",
        child_one.metadata_html
    );
    // Body link rewrite (flat)
    assert!(child_one.html.contains(r#"href="child-two.html""#));
}

#[test]
fn nested_alias_and_layout_links() {
    // Nested multi-page layout (flat=false)
    let fs = fs_of(&[
        (
            "index.md",
            r#"---
title: Root
author: P
created: 2025-08-25T10:00:00Z
updated: 2025-08-25T10:00:00Z
visibility: public
format: "[CommonMark](https://spec.commonmark.org/)"
this_file_is_root_index: true
contents:
  - "[Alpha Entry](alpha.md)"
  - "[Beta Entry](beta)"
---
Root body linking to [Alpha](alpha.md) and [Beta](beta.md).
"#,
        ),
        (
            "alpha.md",
            r#"---
title: Alpha Entry
author: P
created: 2025-08-25T10:01:00Z
updated: 2025-08-25T10:01:00Z
visibility: public
format: "[CommonMark](https://spec.commonmark.org/)"
part_of: "[Root Label](index.md)"
---
Alpha body linking back to [Root](index.md) and to [Beta](beta.md).
"#,
        ),
        (
            "beta.md",
            r#"---
title: Beta Entry
author: P
created: 2025-08-25T10:02:00Z
updated: 2025-08-25T10:02:00Z
visibility: public
format: "[CommonMark](https://spec.commonmark.org/)"
part_of:
  - "[Root Label](index.md)"
  - "[Alpha Alias](alpha.md)"
---
Beta body linking back to [Root](index.md) and to [Alpha](alpha.md).
"#,
        ),
    ]);
    let artifacts = build_site(
        "index.md",
        CoreBuildOptions {
            rewrite_links: true,
            flat: false,
            ..Default::default()
        },
        &fs,
    )
    .expect("build ok");
    assert_eq!(artifacts.pages.len(), 3);
    let root = artifacts.pages.iter().find(|p| p.is_root_index).unwrap();
    // Root metadata: pages/ prefix for children
    assert!(
        root.metadata_html
            .contains(r#"<a href="pages/alpha.html">Alpha Entry</a>"#),
        "Nested root should have pages/alpha.html alias link (slug from filename stem): {}",
        root.metadata_html
    );
    assert!(
        root.metadata_html
            .contains(r#"<a href="pages/beta.html">Beta Entry</a>"#),
        "Nested root should have pages/beta.html alias link (slug from filename stem): {}",
        root.metadata_html
    );
    // Alpha metadata: part_of root link one level up
    let alpha = artifacts
        .pages
        .iter()
        .find(|p| p.title == "Alpha Entry")
        .unwrap();
    assert!(
        alpha
            .metadata_html
            .contains(r#"<a href="../index.html">Root Label</a>"#),
        "Nested alpha part_of should use alias 'Root Label': {}",
        alpha.metadata_html
    );
    // Alpha body link to Beta sibling (nested) should be beta.html (slug from filename stem)
    assert!(alpha.html.contains(r#"href="beta.html""#));
    // Root body link to Alpha should have pages/ prefix (filename-stem slug)
    assert!(root.html.contains(r#"href="pages/alpha.html""#));
    // Beta metadata part_of includes Root Label and Alpha Alias
    let beta = artifacts
        .pages
        .iter()
        .find(|p| p.title == "Beta Entry")
        .unwrap();
    assert!(
        beta.metadata_html
            .contains(r#"<a href="../index.html">Root Label</a>"#),
        "Nested beta part_of should use alias 'Root Label': {}",
        beta.metadata_html
    );
    assert!(
        beta.metadata_html
            .contains(r#"<a href="../pages/alpha.html">Alpha Alias</a>"#),
        "Nested beta part_of should link to alpha alias with ../pages/ prefix (filename stem slug): {}",
        beta.metadata_html
    );
    // Beta body link back to Root
    assert!(beta.html.contains(r#"href="../index.html""#));
}
