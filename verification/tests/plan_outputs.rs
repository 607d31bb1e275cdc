use diaryx::{run_build, BuildOptions, InMemoryFs};

fn fs_of(map: &[(&str, &str)]) -> InMemoryFs {
    InMemoryFs::new(map.iter().map(|(k, v)| (k.to_string(), v.to_string())).collect())
}

const FULL_META: &str = "author: A\ncreated: 2025-08-25T10:00:00Z\nupdated: 2025-08-25T10:00:00Z\nvisibility: public\nformat: plain\nreachable: here\n";

fn opts(input: &str) -> BuildOptions {
    BuildOptions {
        input: input.to_string(),
        output: "site".to_string(),
        include_nonpublic: false,
        emit_json: false,
        flat: false,
        verbose: false,
        strict: false,
        no_default_css: false,
    }
}

#[test]
fn nested_plan_places_children_under_pages() {
    let root = format!(
        "---\ntitle: R\n{}this_file_is_root_index: true\ncontents:\n  - \"[Alpha](alpha.md)\"\n---\nRoot\n",
        FULL_META
    );
    let alpha = format!("---\ntitle: Alpha\n{}---\nAlpha body\n", FULL_META);
    let fs = fs_of(&[("index.md", root.as_str()), ("alpha.md", alpha.as_str())]);
    let plan = run_build(&opts("index.md"), &fs).expect("plan ok");
    assert!(plan.multi_page);
    assert!(!plan.strict_failed);
    assert!(plan.emit_css);
    let paths: Vec<&str> = plan.files.iter().map(|f| f.rel_path.as_str()).collect();
    assert!(paths.contains(&"index.html"), "paths: {:?}", paths);
    assert!(paths.contains(&"pages/alpha.html"), "paths: {:?}", paths);
    for f in &plan.files {
        assert!(f.content.starts_with("<!doctype html>"));
        assert!(f.content.contains("</body></html>"));
    }
    let child = plan.files.iter().find(|f| f.rel_path == "pages/alpha.html").unwrap();
    assert!(child.content.contains(r#"href="../css/style.css""#));
    let root_file = plan.files.iter().find(|f| f.rel_path == "index.html").unwrap();
    assert!(root_file.content.contains(r#"href="css/style.css""#));
    // the title lands escaped in the shell
    assert!(root_file.content.contains("<title>R</title>"));
}

#[test]
fn strict_plan_reports_failure_on_warnings() {
    // one required field missing produces a warning, so strict fails
    let entry = "---\ntitle: T\ncreated: x\nupdated: x\nvisibility: public\nformat: plain\nreachable: y\n---\nBody\n";
    let fs = fs_of(&[("entry.md", entry)]);
    let mut o = opts("entry.md");
    o.strict = true;
    let plan = run_build(&o, &fs).expect("plan ok");
    assert!(plan.strict_failed);
    assert!(plan.warnings.iter().any(|w| w.contains("author")));
}

#[test]
fn css_can_be_left_out() {
    let entry = format!("---\ntitle: T\n{}---\nBody\n", FULL_META);
    let fs = fs_of(&[("entry.md", entry.as_str())]);
    let mut o = opts("entry.md");
    o.no_default_css = true;
    let plan = run_build(&o, &fs).expect("plan ok");
    assert!(!plan.emit_css);
    assert!(!plan.files[0].content.contains("style.css"));
}
