//! Output layouts and the relative-path tables for intra-site links.
//!
//! The layout decides the shape of every generated href: a single page, a
//! flat multi-page site, or a nested one with the root at the top level and
//! every other page under `pages/`.

use vstd::prelude::*;
use crate::text::push_str_chars;
use crate::text::push_chars;

verus! {

#[derive(Clone, Copy, PartialEq, Eq, Structural)]
pub enum Layout {
    Single,
    FlatMulti,
    NestedMulti,
}

/// A build is multi-page when some document is the root index and more than
/// one document was loaded; a multi-page build is nested unless flat output
/// was requested.
pub open spec fn layout_spec(has_root: bool, n_docs: int, flat: bool) -> Layout {
    if has_root && n_docs > 1 {
        if flat {
            Layout::FlatMulti
        } else {
            Layout::NestedMulti
        }
    } else {
        Layout::Single
    }
}

pub fn layout_of(has_root: bool, n_docs: usize, flat: bool) -> (r: Layout)
    ensures
        r == layout_spec(has_root, n_docs as int, flat),
{
    if has_root && n_docs > 1 {
        if flat {
            Layout::FlatMulti
        } else {
            Layout::NestedMulti
        }
    } else {
        Layout::Single
    }
}

/// The rewrite table for hyperlinks inside rendered bodies.
///
/// | layout | current doc | target root | target non-root |
/// |--------|-------------|-------------|-----------------|
/// | nested | root        | index.html  | pages/slug.html |
/// | nested | non-root    | ../index.html | slug.html     |
/// | flat   | any         | index.html  | slug.html       |
/// | single | any         | index.html  | index.html      |
pub open spec fn body_href_spec(
    layout: Layout,
    current_is_root: bool,
    target_is_root: bool,
    slug: Seq<char>,
) -> Seq<char> {
    match layout {
        Layout::NestedMulti => if current_is_root {
            if target_is_root {
                "index.html"@
            } else {
                "pages/"@ + slug + ".html"@
            }
        } else {
            if target_is_root {
                "../index.html"@
            } else {
                slug + ".html"@
            }
        },
        Layout::FlatMulti => if target_is_root {
            "index.html"@
        } else {
            slug + ".html"@
        },
        Layout::Single => "index.html"@,
    }
}

pub fn body_href(
    layout: Layout,
    current_is_root: bool,
    target_is_root: bool,
    slug: &Vec<char>,
) -> (r: Vec<char>)
    ensures
        r@ == body_href_spec(layout, current_is_root, target_is_root, slug@),
{
    let mut out: Vec<char> = Vec::new();
    match layout {
        Layout::NestedMulti => {
            if current_is_root {
                if target_is_root {
                    push_str_chars(&mut out, "index.html");
                } else {
                    push_str_chars(&mut out, "pages/");
                    push_chars(&mut out, slug);
                    push_str_chars(&mut out, ".html");
                }
            } else {
                if target_is_root {
                    push_str_chars(&mut out, "../index.html");
                } else {
                    push_chars(&mut out, slug);
                    push_str_chars(&mut out, ".html");
                }
            }
        },
        Layout::FlatMulti => {
            if target_is_root {
                push_str_chars(&mut out, "index.html");
            } else {
                push_chars(&mut out, slug);
                push_str_chars(&mut out, ".html");
            }
        },
        Layout::Single => {
            push_str_chars(&mut out, "index.html");
        },
    }
    out
}

/// The href of a child link in a rendered metadata fragment. A child of the
/// root lives under `pages/` in the nested layout; every other case is a
/// sibling (or the single page itself).
pub open spec fn meta_child_href_spec(
    layout: Layout,
    current_is_root: bool,
    slug: Seq<char>,
) -> Seq<char> {
    match layout {
        Layout::NestedMulti => if current_is_root {
            "pages/"@ + slug + ".html"@
        } else {
            slug + ".html"@
        },
        Layout::FlatMulti => slug + ".html"@,
        Layout::Single => "index.html"@,
    }
}

pub fn meta_child_href(layout: Layout, current_is_root: bool, slug: &Vec<char>) -> (r: Vec<char>)
    ensures
        r@ == meta_child_href_spec(layout, current_is_root, slug@),
{
    let mut out: Vec<char> = Vec::new();
    match layout {
        Layout::NestedMulti => {
            if current_is_root {
                push_str_chars(&mut out, "pages/");
                push_chars(&mut out, slug);
                push_str_chars(&mut out, ".html");
            } else {
                push_chars(&mut out, slug);
                push_str_chars(&mut out, ".html");
            }
        },
        Layout::FlatMulti => {
            push_chars(&mut out, slug);
            push_str_chars(&mut out, ".html");
        },
        Layout::Single => {
            push_str_chars(&mut out, "index.html");
        },
    }
    out
}

/// The href of a structural parent link in a rendered metadata fragment.
pub open spec fn meta_parent_href_spec(
    layout: Layout,
    current_is_root: bool,
    parent_is_root: bool,
    slug: Seq<char>,
) -> Seq<char> {
    match layout {
        Layout::NestedMulti => if current_is_root {
            if parent_is_root {
                "index.html"@
            } else {
                "pages/"@ + slug + ".html"@
            }
        } else {
            if parent_is_root {
                "../index.html"@
            } else {
                "../pages/"@ + slug + ".html"@
            }
        },
        Layout::FlatMulti => if parent_is_root {
            "index.html"@
        } else {
            slug + ".html"@
        },
        Layout::Single => "index.html"@,
    }
}

pub fn meta_parent_href(
    layout: Layout,
    current_is_root: bool,
    parent_is_root: bool,
    slug: &Vec<char>,
) -> (r: Vec<char>)
    ensures
        r@ == meta_parent_href_spec(layout, current_is_root, parent_is_root, slug@),
{
    let mut out: Vec<char> = Vec::new();
    match layout {
        Layout::NestedMulti => {
            if current_is_root {
                if parent_is_root {
                    push_str_chars(&mut out, "index.html");
                } else {
                    push_str_chars(&mut out, "pages/");
                    push_chars(&mut out, slug);
                    push_str_chars(&mut out, ".html");
                }
            } else {
                if parent_is_root {
                    push_str_chars(&mut out, "../index.html");
                } else {
                    push_str_chars(&mut out, "../pages/");
                    push_chars(&mut out, slug);
                    push_str_chars(&mut out, ".html");
                }
            }
        },
        Layout::FlatMulti => {
            if parent_is_root {
                push_str_chars(&mut out, "index.html");
            } else {
                push_chars(&mut out, slug);
                push_str_chars(&mut out, ".html");
            }
        },
        Layout::Single => {
            push_str_chars(&mut out, "index.html");
        },
    }
    out
}

/// The href of a non-structural parent reference (an aliased `part_of`
/// target never discovered through any content list): treated as an
/// ordinary page of the site.
pub open spec fn meta_nonstructural_href_spec(
    layout: Layout,
    current_is_root: bool,
    slug: Seq<char>,
) -> Seq<char> {
    match layout {
        Layout::NestedMulti => if current_is_root {
            "pages/"@ + slug + ".html"@
        } else {
            "../pages/"@ + slug + ".html"@
        },
        Layout::FlatMulti => slug + ".html"@,
        Layout::Single => "index.html"@,
    }
}

pub fn meta_nonstructural_href(layout: Layout, current_is_root: bool, slug: &Vec<char>) -> (r:
    Vec<char>)
    ensures
        r@ == meta_nonstructural_href_spec(layout, current_is_root, slug@),
{
    let mut out: Vec<char> = Vec::new();
    match layout {
        Layout::NestedMulti => {
            if current_is_root {
                push_str_chars(&mut out, "pages/");
                push_chars(&mut out, slug);
                push_str_chars(&mut out, ".html");
            } else {
                push_str_chars(&mut out, "../pages/");
                push_chars(&mut out, slug);
                push_str_chars(&mut out, ".html");
            }
        },
        Layout::FlatMulti => {
            push_chars(&mut out, slug);
            push_str_chars(&mut out, ".html");
        },
        Layout::Single => {
            push_str_chars(&mut out, "index.html");
        },
    }
    out
}

/// The output file name of a page: `index.html` for the root of a
/// multi-page build and for a single-page build, `slug.html` otherwise.
pub open spec fn file_name_spec(multi_page: bool, is_root_index: bool, slug: Seq<char>) -> Seq<
    char,
> {
    if multi_page {
        if is_root_index {
            "index.html"@
        } else {
            slug + ".html"@
        }
    } else {
        "index.html"@
    }
}

pub fn file_name_of(multi_page: bool, is_root_index: bool, slug: &Vec<char>) -> (r: Vec<char>)
    ensures
        r@ == file_name_spec(multi_page, is_root_index, slug@),
{
    let mut out: Vec<char> = Vec::new();
    if multi_page && !is_root_index {
        push_chars(&mut out, slug);
        push_str_chars(&mut out, ".html");
    } else {
        push_str_chars(&mut out, "index.html");
    }
    out
}

} // verus!
