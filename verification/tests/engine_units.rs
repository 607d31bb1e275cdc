use diaryx::escape::html_escape_text;
use diaryx::layout::{body_href, Layout};
use diaryx::links::{normalize_target_basename, slugify};
use diaryx::rewrite::{rewrite_html, DocRef};
use diaryx::text::string_of;
use diaryx::timefmt::humanize_timestamp;

fn chars(s: &str) -> Vec<char> {
    s.chars().collect()
}

fn s(v: &Vec<char>) -> String {
    string_of(v)
}

#[test]
fn slugify_collapses_and_trims() {
    assert_eq!(s(&slugify(&chars("Hello  World"))), "hello-world");
    assert_eq!(s(&slugify(&chars("--My_File 2!--"))), "my-file-2");
    assert_eq!(s(&slugify(&chars("???"))), "");
    assert_eq!(s(&slugify(&chars("Child-One"))), "child-one");
}

#[test]
fn target_basename_normalizes() {
    assert_eq!(s(&normalize_target_basename(&chars("dir/Child.md"))), "Child.md");
    assert_eq!(s(&normalize_target_basename(&chars("dir/child"))), "child.md");
    assert_eq!(s(&normalize_target_basename(&chars("UP.MD"))), "UP.MD");
}

#[test]
fn escape_escapes_every_special() {
    assert_eq!(html_escape_text("<a&>\"'x"), "&lt;a&amp;&gt;&quot;&#39;x");
    assert_eq!(html_escape_text("plain"), "plain");
}

#[test]
fn timestamps_render_human_readable() {
    assert_eq!(
        s(&humanize_timestamp(&chars("2025-08-25T10:00:00Z"))),
        "August 25, 2025, 10:00am (UTC)"
    );
    assert_eq!(
        s(&humanize_timestamp(&chars("2025-01-02T16:05:00+05:30"))),
        "January 02, 2025, 04:05pm (UTC+5)"
    );
    assert_eq!(
        s(&humanize_timestamp(&chars("2024-12-31T00:30:00-07:00"))),
        "December 31, 2024, 12:30am (UTC-7)"
    );
    // leap years are honored
    assert_eq!(
        s(&humanize_timestamp(&chars("2024-02-29T08:00:00Z"))),
        "February 29, 2024, 08:00am (UTC)"
    );
    // no T, not a timestamp, or an impossible calendar date: literal
    assert_eq!(s(&humanize_timestamp(&chars("yesterday"))), "yesterday");
    assert_eq!(s(&humanize_timestamp(&chars("2025-08-25Tnoon"))), "2025-08-25Tnoon");
    assert_eq!(
        s(&humanize_timestamp(&chars("2025-02-30T10:00:00Z"))),
        "2025-02-30T10:00:00Z"
    );
    assert_eq!(
        s(&humanize_timestamp(&chars("2023-02-29T08:00:00Z"))),
        "2023-02-29T08:00:00Z"
    );
}

#[test]
fn body_href_follows_the_table() {
    let slug = chars("alpha");
    assert_eq!(s(&body_href(Layout::NestedMulti, true, false, &slug)), "pages/alpha.html");
    assert_eq!(s(&body_href(Layout::NestedMulti, true, true, &slug)), "index.html");
    assert_eq!(s(&body_href(Layout::NestedMulti, false, true, &slug)), "../index.html");
    assert_eq!(s(&body_href(Layout::NestedMulti, false, false, &slug)), "alpha.html");
    assert_eq!(s(&body_href(Layout::FlatMulti, false, false, &slug)), "alpha.html");
    assert_eq!(s(&body_href(Layout::FlatMulti, true, true, &slug)), "index.html");
    assert_eq!(s(&body_href(Layout::Single, false, false, &slug)), "index.html");
}

fn table() -> Vec<DocRef> {
    vec![
        DocRef { basename: chars("index.md"), slug: chars("index"), is_root: true },
        DocRef { basename: chars("alpha.md"), slug: chars("alpha"), is_root: false },
        DocRef { basename: chars("My Note.md"), slug: chars("my-note"), is_root: false },
    ]
}

#[test]
fn rewriting_resolves_queries_and_spaces() {
    let t = table();
    let html = chars(
        r##"<a href="alpha.md?x=1#top">A</a> <a href="My%20Note.md">N</a> <a href="other.md">O</a> <a href="https://x/y.md">E</a>"##,
    );
    let out = s(&rewrite_html(&html, &t, Layout::FlatMulti, false));
    assert!(out.contains(r##"href="alpha.html?x=1#top""##), "got {}", out);
    assert!(out.contains(r#"href="my-note.html""#), "got {}", out);
    // unresolved references stay as they are
    assert!(out.contains(r#"href="other.md""#), "got {}", out);
    // an absolute URL is still only resolved through its basename, which no document carries
    assert!(out.contains(r#"href="https://x/y.md""#), "got {}", out);
}

#[test]
fn rewriting_twice_changes_nothing() {
    let t = table();
    let html = chars(
        r#"<p><a href="alpha.md">A</a> text <a href="index.md">R</a> <a href="none.md">U</a></p>"#,
    );
    let once = rewrite_html(&html, &t, Layout::NestedMulti, false);
    let twice = rewrite_html(&once, &t, Layout::NestedMulti, false);
    assert_eq!(s(&once), s(&twice));
    assert!(s(&once).contains(r#"href="alpha.html""#));
    assert!(s(&once).contains(r#"href="../index.html""#));
}
