//! The structured header value model.
//!
//! A header is an ordered list of `(key, value)` entries. A value is a
//! scalar (null, boolean, number, or string) or a list of scalars; that is
//! the whole shape the document format recognizes.

use vstd::prelude::*;
use crate::text::{trim_spec, trim_chars, push_str_chars, push_chars, string_of};

verus! {

/// A scalar header value.
pub enum Scalar {
    Null,
    Bool(bool),
    /// A numeric literal, kept as written.
    Num(Vec<char>),
    Str(Vec<char>),
}

/// A header value: one scalar, a list of scalars, or a one-level mapping
/// of scalars.
pub enum MetaValue {
    Scalar(Scalar),
    List(Vec<Scalar>),
    Dict(Vec<(Vec<char>, Scalar)>),
}

/// Spec-level mirror of `Scalar`.
pub enum ScalarView {
    Null,
    Bool(bool),
    Num(Seq<char>),
    Str(Seq<char>),
}

/// Spec-level mirror of `MetaValue`.
pub enum MetaValueView {
    Scalar(ScalarView),
    List(Seq<ScalarView>),
    Dict(Seq<(Seq<char>, ScalarView)>),
}

impl View for Scalar {
    type V = ScalarView;

    open spec fn view(&self) -> ScalarView {
        match self {
            Scalar::Null => ScalarView::Null,
            Scalar::Bool(b) => ScalarView::Bool(*b),
            Scalar::Num(s) => ScalarView::Num(s@),
            Scalar::Str(s) => ScalarView::Str(s@),
        }
    }
}

impl View for MetaValue {
    type V = MetaValueView;

    open spec fn view(&self) -> MetaValueView {
        match self {
            MetaValue::Scalar(s) => MetaValueView::Scalar(s@),
            MetaValue::List(items) => MetaValueView::List(items@.map_values(|x: Scalar| x@)),
            MetaValue::Dict(entries) => MetaValueView::Dict(
                entries@.map_values(|p: (Vec<char>, Scalar)| (p.0@, p.1@)),
            ),
        }
    }
}

impl Scalar {
    /// A structural copy.
    pub fn dup(&self) -> (r: Scalar)
        ensures
            r@ == self@,
    {
        match self {
            Scalar::Null => Scalar::Null,
            Scalar::Bool(b) => Scalar::Bool(*b),
            Scalar::Num(s) => Scalar::Num(s.clone()),
            Scalar::Str(s) => Scalar::Str(s.clone()),
        }
    }
}

impl MetaValue {
    /// A structural copy.
    pub fn dup(&self) -> (r: MetaValue)
        ensures
            r@ == self@,
    {
        match self {
            MetaValue::Scalar(s) => MetaValue::Scalar(s.dup()),
            MetaValue::List(items) => {
                let mut out: Vec<Scalar> = Vec::new();
                let mut i: usize = 0;
                while i < items.len()
                    invariant
                        i <= items@.len(),
                        out@.len() == i,
                        forall|j: int| 0 <= j < i ==> out@[j]@ == items@[j]@,
                    decreases items@.len() - i,
                {
                    out.push(items[i].dup());
                    i = i + 1;
                }
                assert(out@.map_values(|x: Scalar| x@) =~= items@.map_values(|x: Scalar| x@));
                MetaValue::List(out)
            },
            MetaValue::Dict(entries) => {
                let mut out: Vec<(Vec<char>, Scalar)> = Vec::new();
                let mut i: usize = 0;
                while i < entries.len()
                    invariant
                        i <= entries@.len(),
                        out@.len() == i,
                        forall|j: int|
                            0 <= j < i ==> (#[trigger] out@[j]).0@ == entries@[j].0@
                                && out@[j].1@ == entries@[j].1@,
                    decreases entries@.len() - i,
                {
                    out.push((entries[i].0.clone(), entries[i].1.dup()));
                    i = i + 1;
                }
                assert(out@.map_values(|p: (Vec<char>, Scalar)| (p.0@, p.1@))
                    =~= entries@.map_values(|p: (Vec<char>, Scalar)| (p.0@, p.1@)));
                MetaValue::Dict(out)
            },
        }
    }
}

/// The ordered entries of a parsed header.
pub type HeaderEntries = Vec<(Vec<char>, MetaValue)>;

/// The view of header entries: ordered key/value pairs.
pub open spec fn entries_view(e: HeaderEntries) -> Seq<(Seq<char>, MetaValueView)> {
    e@.map_values(|p: (Vec<char>, MetaValue)| (p.0@, p.1@))
}

/// The value of the first entry named `name`, if any.
pub open spec fn lookup(entries: Seq<(Seq<char>, MetaValueView)>, name: Seq<char>) -> Option<
    MetaValueView,
>
    decreases entries.len(),
{
    if entries.len() == 0 {
        None
    } else if entries[0].0 == name {
        Some(entries[0].1)
    } else {
        lookup(entries.drop_first(), name)
    }
}

/// Find the first entry named `name`.
pub fn find_entry<'a>(entries: &'a HeaderEntries, name: &str) -> (r: Option<&'a MetaValue>)
    ensures
        match r {
            Some(v) => lookup(entries_view(*entries), name@) == Some(v@),
            None => lookup(entries_view(*entries), name@) is None,
        },
{
    let nv = crate::text::chars_of(name);
    let ghost ev = entries_view(*entries);
    assert(ev.skip(0) =~= ev);
    let mut i: usize = 0;
    while i < entries.len()
        invariant
            ev == entries_view(*entries),
            ev.len() == entries@.len(),
            nv@ == name@,
            i <= entries@.len(),
            lookup(ev, name@) == lookup(ev.skip(i as int), name@),
        decreases entries@.len() - i,
    {
        if crate::text::eq_chars(&entries[i].0, &nv) {
            assert(ev.skip(i as int)[0].0 == name@);
            return Some(&entries[i].1);
        }
        assert(ev.skip(i as int)[0].0 != name@);
        assert(ev.skip(i as int).drop_first() =~= ev.skip(i + 1));
        i = i + 1;
    }
    assert(ev.skip(i as int) =~= Seq::<(Seq<char>, MetaValueView)>::empty());
    None
}

/// A string-or-list value normalized to a list of trimmed strings: a string
/// scalar becomes a one-element list (even when blank); in a list, string
/// items are trimmed and blank or non-string items are dropped.
pub open spec fn norm_items(items: Seq<ScalarView>) -> Seq<Seq<char>>
    decreases items.len(),
{
    if items.len() == 0 {
        Seq::empty()
    } else {
        let r = norm_items(items.drop_last());
        match items.last() {
            ScalarView::Str(s) => if trim_spec(s).len() > 0 {
                r.push(trim_spec(s))
            } else {
                r
            },
            _ => r,
        }
    }
}

pub open spec fn norm_string_or_list(v: Option<MetaValueView>) -> Seq<Seq<char>> {
    match v {
        Some(MetaValueView::Scalar(ScalarView::Str(s))) => seq![trim_spec(s)],
        Some(MetaValueView::List(items)) => norm_items(items),
        _ => Seq::empty(),
    }
}

/// Normalize an optional string-or-list value to trimmed strings.
pub fn normalize_string_or_list(v: Option<&MetaValue>) -> (r: Vec<Vec<char>>)
    ensures
        r@.map_values(|x: Vec<char>| x@) == norm_string_or_list(
            match v {
                Some(m) => Some(m@),
                None => None,
            },
        ),
{
    let mut out: Vec<Vec<char>> = Vec::new();
    match v {
        Some(MetaValue::Scalar(Scalar::Str(s))) => {
            out.push(trim_chars(s));
            assert(out@.map_values(|x: Vec<char>| x@) =~= seq![trim_spec(s@)]);
        },
        Some(MetaValue::List(items)) => {
            let ghost iv = items@.map_values(|x: Scalar| x@);
            let mut i: usize = 0;
            while i < items.len()
                invariant
                    iv == items@.map_values(|x: Scalar| x@),
                    iv.len() == items@.len(),
                    i <= items@.len(),
                    out@.map_values(|x: Vec<char>| x@) == norm_items(iv.subrange(0, i as int)),
                decreases items@.len() - i,
            {
                match &items[i] {
                    Scalar::Str(s) => {
                        let t = trim_chars(s);
                        if t.len() > 0 {
                            out.push(t);
                        }
                    },
                    _ => {},
                }
                i = i + 1;
                assert(iv.subrange(0, i as int).drop_last() =~= iv.subrange(0, i - 1));
                assert(out@.map_values(|x: Vec<char>| x@) =~= norm_items(
                    iv.subrange(0, i as int),
                ));
            }
            assert(iv.subrange(0, iv.len() as int) =~= iv);
        },
        _ => {},
    }
    out
}

/// The raw `part_of` entries: a string scalar is a one-element list; in a
/// list, string items are kept as written and others dropped.
pub open spec fn part_of_items(items: Seq<ScalarView>) -> Seq<Seq<char>>
    decreases items.len(),
{
    if items.len() == 0 {
        Seq::empty()
    } else {
        let r = part_of_items(items.drop_last());
        match items.last() {
            ScalarView::Str(s) => r.push(s),
            _ => r,
        }
    }
}

pub open spec fn part_of_spec(v: Option<MetaValueView>) -> Seq<Seq<char>> {
    match v {
        Some(MetaValueView::Scalar(ScalarView::Str(s))) => seq![s],
        Some(MetaValueView::List(items)) => part_of_items(items),
        _ => Seq::empty(),
    }
}

/// Collect the raw `part_of` link literals.
pub fn parse_part_of(v: Option<&MetaValue>) -> (r: Vec<Vec<char>>)
    ensures
        r@.map_values(|x: Vec<char>| x@) == part_of_spec(
            match v {
                Some(m) => Some(m@),
                None => None,
            },
        ),
{
    let mut out: Vec<Vec<char>> = Vec::new();
    match v {
        Some(MetaValue::Scalar(Scalar::Str(s))) => {
            out.push(s.clone());
            assert(out@.map_values(|x: Vec<char>| x@) =~= seq![s@]);
        },
        Some(MetaValue::List(items)) => {
            let ghost iv = items@.map_values(|x: Scalar| x@);
            let mut i: usize = 0;
            while i < items.len()
                invariant
                    iv == items@.map_values(|x: Scalar| x@),
                    iv.len() == items@.len(),
                    i <= items@.len(),
                    out@.map_values(|x: Vec<char>| x@) == part_of_items(iv.subrange(0, i as int)),
                decreases items@.len() - i,
            {
                match &items[i] {
                    Scalar::Str(s) => {
                        out.push(s.clone());
                    },
                    _ => {},
                }
                i = i + 1;
                assert(iv.subrange(0, i as int).drop_last() =~= iv.subrange(0, i - 1));
                assert(out@.map_values(|x: Vec<char>| x@) =~= part_of_items(
                    iv.subrange(0, i as int),
                ));
            }
            assert(iv.subrange(0, iv.len() as int) =~= iv);
        },
        _ => {},
    }
    out
}

// ------------------------------------------------------------------
// Typed frontmatter
// ------------------------------------------------------------------

/// The recognized header fields, extracted by shape: a field whose value
/// does not have the expected shape counts as absent.
pub struct Frontmatter {
    pub title: Option<Vec<char>>,
    pub author: Option<MetaValue>,
    pub created: Option<Vec<char>>,
    pub updated: Option<Vec<char>>,
    pub visibility: Option<MetaValue>,
    pub format: Option<MetaValue>,
    pub contents: Option<Vec<Vec<char>>>,
    pub part_of: Option<MetaValue>,
    pub version: Option<Vec<char>>,
    pub copying: Option<Vec<char>>,
    pub tags: Option<Vec<Vec<char>>>,
    pub aliases: Option<Vec<Vec<char>>>,
    pub this_file_is_root_index: Option<bool>,
    pub reachable: Option<MetaValue>,
}

pub open spec fn opt_chars_view(v: Option<Vec<char>>) -> Option<Seq<char>> {
    match v {
        Some(s) => Some(s@),
        None => None,
    }
}

pub open spec fn opt_mv_view(v: Option<MetaValue>) -> Option<MetaValueView> {
    match v {
        Some(m) => Some(m@),
        None => None,
    }
}

pub open spec fn opt_strs_view(v: Option<Vec<Vec<char>>>) -> Option<Seq<Seq<char>>> {
    match v {
        Some(l) => Some(l@.map_values(|x: Vec<char>| x@)),
        None => None,
    }
}

/// A field that must be a plain string scalar.
pub open spec fn str_field(e: Seq<(Seq<char>, MetaValueView)>, name: Seq<char>) -> Option<
    Seq<char>,
> {
    match lookup(e, name) {
        Some(MetaValueView::Scalar(ScalarView::Str(s))) => Some(s),
        _ => None,
    }
}

/// A field that must be a boolean scalar.
pub open spec fn bool_field(e: Seq<(Seq<char>, MetaValueView)>, name: Seq<char>) -> Option<bool> {
    match lookup(e, name) {
        Some(MetaValueView::Scalar(ScalarView::Bool(b))) => Some(b),
        _ => None,
    }
}

pub open spec fn all_str(items: Seq<ScalarView>) -> bool {
    forall|i: int| 0 <= i < items.len() ==> items[i] is Str
}

pub open spec fn str_of(x: ScalarView) -> Seq<char> {
    match x {
        ScalarView::Str(s) => s,
        _ => Seq::empty(),
    }
}

/// A field that must be a list whose items are all strings.
pub open spec fn str_list_field(e: Seq<(Seq<char>, MetaValueView)>, name: Seq<char>) -> Option<
    Seq<Seq<char>>,
> {
    match lookup(e, name) {
        Some(MetaValueView::List(items)) => if all_str(items) {
            Some(items.map_values(|x: ScalarView| str_of(x)))
        } else {
            None
        },
        _ => None,
    }
}

fn get_str_field(entries: &HeaderEntries, name: &str) -> (r: Option<Vec<char>>)
    ensures
        opt_chars_view(r) == str_field(entries_view(*entries), name@),
{
    match find_entry(entries, name) {
        Some(MetaValue::Scalar(Scalar::Str(s))) => Some(s.clone()),
        _ => None,
    }
}

fn get_any_field(entries: &HeaderEntries, name: &str) -> (r: Option<MetaValue>)
    ensures
        opt_mv_view(r) == lookup(entries_view(*entries), name@),
{
    match find_entry(entries, name) {
        Some(v) => Some(v.dup()),
        None => None,
    }
}

fn get_bool_field(entries: &HeaderEntries, name: &str) -> (r: Option<bool>)
    ensures
        r == bool_field(entries_view(*entries), name@),
{
    match find_entry(entries, name) {
        Some(MetaValue::Scalar(Scalar::Bool(b))) => Some(*b),
        _ => None,
    }
}

#[verifier::loop_isolation(false)]
fn get_str_list_field(entries: &HeaderEntries, name: &str) -> (r: Option<Vec<Vec<char>>>)
    ensures
        opt_strs_view(r) == str_list_field(entries_view(*entries), name@),
{
    match find_entry(entries, name) {
        Some(MetaValue::List(items)) => {
            let ghost iv = items@.map_values(|x: Scalar| x@);
            let mut out: Vec<Vec<char>> = Vec::new();
            let mut i: usize = 0;
            while i < items.len()
                invariant
                    iv == items@.map_values(|x: Scalar| x@),
                    i <= items@.len(),
                    forall|j: int| 0 <= j < i ==> iv[j] is Str,
                    out@.len() == i,
                    forall|j: int| 0 <= j < i ==> out@[j]@ == str_of(iv[j]),
                decreases items@.len() - i,
            {
                match &items[i] {
                    Scalar::Str(s) => {
                        out.push(s.clone());
                        i = i + 1;
                    },
                    _ => {
                        assert(!(iv[i as int] is Str));
                        return None;
                    },
                }
            }
            assert(all_str(iv));
            assert(out@.map_values(|x: Vec<char>| x@) =~= iv.map_values(|x: ScalarView| str_of(x)));
            Some(out)
        },
        _ => None,
    }
}

impl Frontmatter {
    /// Extract the recognized fields from parsed header entries.
    pub fn from_entries(entries: &HeaderEntries) -> (r: Frontmatter)
        ensures
            ({
                let e = entries_view(*entries);
                &&& opt_chars_view(r.title) == str_field(e, "title"@)
                &&& opt_mv_view(r.author) == lookup(e, "author"@)
                &&& opt_chars_view(r.created) == str_field(e, "created"@)
                &&& opt_chars_view(r.updated) == str_field(e, "updated"@)
                &&& opt_mv_view(r.visibility) == lookup(e, "visibility"@)
                &&& opt_mv_view(r.format) == lookup(e, "format"@)
                &&& opt_strs_view(r.contents) == str_list_field(e, "contents"@)
                &&& opt_mv_view(r.part_of) == lookup(e, "part_of"@)
                &&& opt_chars_view(r.version) == str_field(e, "version"@)
                &&& opt_chars_view(r.copying) == str_field(e, "copying"@)
                &&& opt_strs_view(r.tags) == str_list_field(e, "tags"@)
                &&& opt_strs_view(r.aliases) == str_list_field(e, "aliases"@)
                &&& r.this_file_is_root_index == bool_field(e, "this_file_is_root_index"@)
                &&& opt_mv_view(r.reachable) == lookup(e, "reachable"@)
            }),
    {
        Frontmatter {
            title: get_str_field(entries, "title"),
            author: get_any_field(entries, "author"),
            created: get_str_field(entries, "created"),
            updated: get_str_field(entries, "updated"),
            visibility: get_any_field(entries, "visibility"),
            format: get_any_field(entries, "format"),
            contents: get_str_list_field(entries, "contents"),
            part_of: get_any_field(entries, "part_of"),
            version: get_str_field(entries, "version"),
            copying: get_str_field(entries, "copying"),
            tags: get_str_list_field(entries, "tags"),
            aliases: get_str_list_field(entries, "aliases"),
            this_file_is_root_index: get_bool_field(entries, "this_file_is_root_index"),
            reachable: get_any_field(entries, "reachable"),
        }
    }

    /// A frontmatter with every field absent, for documents without a
    /// header block.
    pub fn absent() -> (r: Frontmatter)
        ensures
            r.title is None,
            r.author is None,
            r.created is None,
            r.updated is None,
            r.visibility is None,
            r.format is None,
            r.contents is None,
            r.part_of is None,
            r.version is None,
            r.copying is None,
            r.tags is None,
            r.aliases is None,
            r.this_file_is_root_index is None,
            r.reachable is None,
    {
        Frontmatter {
            title: None,
            author: None,
            created: None,
            updated: None,
            visibility: None,
            format: None,
            contents: None,
            part_of: None,
            version: None,
            copying: None,
            tags: None,
            aliases: None,
            this_file_is_root_index: None,
            reachable: None,
        }
    }
}

// ------------------------------------------------------------------
// Required-field checking
// ------------------------------------------------------------------

/// The warning recorded for a missing required field.
pub open spec fn missing_field_warning(name: Seq<char>, path: Seq<char>) -> Seq<char> {
    "Missing required field: "@ + name + " ("@ + path + ")"@
}

/// The reachability field counts as missing when absent, null, a blank
/// string, or an empty list.
pub open spec fn reachable_missing(v: Option<MetaValueView>) -> bool {
    match v {
        None => true,
        Some(MetaValueView::Scalar(ScalarView::Null)) => true,
        Some(MetaValueView::Scalar(ScalarView::Str(s))) => trim_spec(s).len() == 0,
        Some(MetaValueView::List(items)) => items.len() == 0,
        _ => false,
    }
}

/// The full warning list for a frontmatter, in field order.
pub open spec fn required_warnings(fm: &Frontmatter, path: Seq<char>) -> Seq<Seq<char>> {
    let w1: Seq<Seq<char>> = if fm.title is None {
        seq![missing_field_warning("title"@, path)]
    } else {
        Seq::empty()
    };
    let w2: Seq<Seq<char>> = if fm.author is None {
        seq![missing_field_warning("author"@, path)]
    } else {
        Seq::empty()
    };
    let w3: Seq<Seq<char>> = if fm.created is None {
        seq![missing_field_warning("created"@, path)]
    } else {
        Seq::empty()
    };
    let w4: Seq<Seq<char>> = if fm.updated is None {
        seq![missing_field_warning("updated"@, path)]
    } else {
        Seq::empty()
    };
    let w5: Seq<Seq<char>> = if fm.visibility is None {
        seq![missing_field_warning("visibility"@, path)]
    } else {
        Seq::empty()
    };
    let w6: Seq<Seq<char>> = if fm.format is None {
        seq![missing_field_warning("format"@, path)]
    } else {
        Seq::empty()
    };
    let w7: Seq<Seq<char>> = if reachable_missing(opt_mv_view(fm.reachable)) {
        seq![missing_field_warning("reachable"@, path)]
    } else {
        Seq::empty()
    };
    w1 + w2 + w3 + w4 + w5 + w6 + w7
}

/// The full warning list, stated over parsed header entries rather than
/// the extracted frontmatter; field by field it coincides with
/// `required_warnings` of the extraction.
pub open spec fn required_warnings_v(
    e: Seq<(Seq<char>, MetaValueView)>,
    path: Seq<char>,
) -> Seq<Seq<char>> {
    let w1: Seq<Seq<char>> = if str_field(e, "title"@) is None {
        seq![missing_field_warning("title"@, path)]
    } else {
        Seq::empty()
    };
    let w2: Seq<Seq<char>> = if lookup(e, "author"@) is None {
        seq![missing_field_warning("author"@, path)]
    } else {
        Seq::empty()
    };
    let w3: Seq<Seq<char>> = if str_field(e, "created"@) is None {
        seq![missing_field_warning("created"@, path)]
    } else {
        Seq::empty()
    };
    let w4: Seq<Seq<char>> = if str_field(e, "updated"@) is None {
        seq![missing_field_warning("updated"@, path)]
    } else {
        Seq::empty()
    };
    let w5: Seq<Seq<char>> = if lookup(e, "visibility"@) is None {
        seq![missing_field_warning("visibility"@, path)]
    } else {
        Seq::empty()
    };
    let w6: Seq<Seq<char>> = if lookup(e, "format"@) is None {
        seq![missing_field_warning("format"@, path)]
    } else {
        Seq::empty()
    };
    let w7: Seq<Seq<char>> = if reachable_missing(lookup(e, "reachable"@)) {
        seq![missing_field_warning("reachable"@, path)]
    } else {
        Seq::empty()
    };
    w1 + w2 + w3 + w4 + w5 + w6 + w7
}

/// The two statements of the warning list agree on a frontmatter
/// extracted from the entries.
pub proof fn lemma_required_warnings_agree(
    fm: &Frontmatter,
    e: Seq<(Seq<char>, MetaValueView)>,
    path: Seq<char>,
)
    requires
        opt_chars_view(fm.title) == str_field(e, "title"@),
        opt_mv_view(fm.author) == lookup(e, "author"@),
        opt_chars_view(fm.created) == str_field(e, "created"@),
        opt_chars_view(fm.updated) == str_field(e, "updated"@),
        opt_mv_view(fm.visibility) == lookup(e, "visibility"@),
        opt_mv_view(fm.format) == lookup(e, "format"@),
        opt_mv_view(fm.reachable) == lookup(e, "reachable"@),
    ensures
        required_warnings(fm, path) == required_warnings_v(e, path),
{
    assert(fm.title is None <==> str_field(e, "title"@) is None);
    assert(fm.author is None <==> lookup(e, "author"@) is None);
    assert(fm.created is None <==> str_field(e, "created"@) is None);
    assert(fm.updated is None <==> str_field(e, "updated"@) is None);
    assert(fm.visibility is None <==> lookup(e, "visibility"@) is None);
    assert(fm.format is None <==> lookup(e, "format"@) is None);
    assert(required_warnings(fm, path) =~= required_warnings_v(e, path));
}

fn push_missing(warnings: &mut Vec<String>, name: &str, path: &Vec<char>)
    ensures
        final(warnings)@.map_values(|s: String| s@) == old(warnings)@.map_values(|s: String| s@)
            + seq![missing_field_warning(name@, path@)],
{
    let mut w: Vec<char> = Vec::new();
    push_str_chars(&mut w, "Missing required field: ");
    push_str_chars(&mut w, name);
    push_str_chars(&mut w, " (");
    push_chars(&mut w, path);
    push_str_chars(&mut w, ")");
    let ghost before = warnings@.map_values(|s: String| s@);
    warnings.push(string_of(&w));
    assert(warnings@.map_values(|s: String| s@) =~= before + seq![
        missing_field_warning(name@, path@),
    ]);
}

/// Record one warning for each missing required field, in field order:
/// title, author, created, updated, visibility, format, reachable.
#[verifier::rlimit(60)]
pub fn check_required(fm: &Frontmatter, warnings: &mut Vec<String>, path: &Vec<char>)
    ensures
        final(warnings)@.map_values(|s: String| s@) == old(warnings)@.map_values(|s: String| s@)
            + required_warnings(fm, path@),
{
    let ghost w0 = warnings@.map_values(|s: String| s@);
    if fm.title.is_none() {
        push_missing(warnings, "title", path);
    }
    if fm.author.is_none() {
        push_missing(warnings, "author", path);
    }
    if fm.created.is_none() {
        push_missing(warnings, "created", path);
    }
    if fm.updated.is_none() {
        push_missing(warnings, "updated", path);
    }
    if fm.visibility.is_none() {
        push_missing(warnings, "visibility", path);
    }
    if fm.format.is_none() {
        push_missing(warnings, "format", path);
    }
    let reach_missing = match &fm.reachable {
        None => true,
        Some(MetaValue::Scalar(Scalar::Null)) => true,
        Some(MetaValue::Scalar(Scalar::Str(s))) => {
            let t = trim_chars(s);
            t.len() == 0
        },
        Some(MetaValue::List(items)) => items.len() == 0,
        _ => false,
    };
    if reach_missing {
        assert(reachable_missing(opt_mv_view(fm.reachable)));
        push_missing(warnings, "reachable", path);
    } else {
        assert(!reachable_missing(opt_mv_view(fm.reachable)));
    }
    assert(warnings@.map_values(|s: String| s@) =~= w0 + required_warnings(fm, path@));
}

/// A warning for a missing field names both the field and the document: the
/// field name and the document path stand inside the warning text.
pub proof fn lemma_missing_warning_names_field(name: Seq<char>, path: Seq<char>)
    ensures
        ({
            let w = missing_field_warning(name, path);
            &&& w.subrange(
                "Missing required field: "@.len() as int,
                ("Missing required field: "@.len() + name.len()) as int,
            ) == name
            &&& w.subrange(
                ("Missing required field: "@.len() + name.len() + " ("@.len()) as int,
                ("Missing required field: "@.len() + name.len() + " ("@.len() + path.len()) as int,
            ) == path
        }),
{
    let w = missing_field_warning(name, path);
    assert(w.subrange(
        "Missing required field: "@.len() as int,
        ("Missing required field: "@.len() + name.len()) as int,
    ) =~= name);
    assert(w.subrange(
        ("Missing required field: "@.len() + name.len() + " ("@.len()) as int,
        ("Missing required field: "@.len() + name.len() + " ("@.len() + path.len()) as int,
    ) =~= path);
}

/// A frontmatter without an author yields a warning that names the field
/// and the document, whatever else is present or missing.
pub proof fn lemma_missing_author_warned(fm: &Frontmatter, path: Seq<char>)
    requires
        fm.author is None,
    ensures
        required_warnings(fm, path).contains(missing_field_warning("author"@, path)),
{
    let w = required_warnings(fm, path);
    let at: int = if fm.title is None {
        1
    } else {
        0
    };
    assert(w[at] == missing_field_warning("author"@, path));
}

/// Trimmed non-empty strings of a declared content list.
pub open spec fn norm_contents_spec(items: Seq<Seq<char>>) -> Seq<Seq<char>>
    decreases items.len(),
{
    if items.len() == 0 {
        Seq::empty()
    } else {
        let r = norm_contents_spec(items.drop_last());
        if trim_spec(items.last()).len() > 0 {
            r.push(trim_spec(items.last()))
        } else {
            r
        }
    }
}

/// Trim content-list entries and drop blank ones.
pub fn normalize_contents(items: &Vec<Vec<char>>) -> (r: Vec<Vec<char>>)
    ensures
        r@.map_values(|x: Vec<char>| x@) == norm_contents_spec(
            items@.map_values(|x: Vec<char>| x@),
        ),
{
    let ghost iv = items@.map_values(|x: Vec<char>| x@);
    let mut out: Vec<Vec<char>> = Vec::new();
    let mut i: usize = 0;
    while i < items.len()
        invariant
            iv == items@.map_values(|x: Vec<char>| x@),
            iv.len() == items@.len(),
            i <= items@.len(),
            out@.map_values(|x: Vec<char>| x@) == norm_contents_spec(iv.subrange(0, i as int)),
        decreases items@.len() - i,
    {
        let t = trim_chars(&items[i]);
        if t.len() > 0 {
            out.push(t);
        }
        i = i + 1;
        assert(iv.subrange(0, i as int).drop_last() =~= iv.subrange(0, i - 1));
        assert(out@.map_values(|x: Vec<char>| x@) =~= norm_contents_spec(
            iv.subrange(0, i as int),
        ));
    }
    assert(iv.subrange(0, iv.len() as int) =~= iv);
    out
}

} // verus!
