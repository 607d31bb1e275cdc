//! Splitting a document into its structured header block and body, and
//! parsing the header into ordered key/value entries.
//!
//! The header grammar is a deliberately small, fixed subset of the usual
//! front-matter style: a mapping of `key: value` lines, where a value is a
//! scalar (possibly quoted), a flow list `[a, b]` of scalars, a block list
//! of scalar items on the following lines (each introduced by `-`), or a
//! one-level mapping of scalars on the following indented lines. Blank
//! lines and `#` comment lines are skipped. Anything else — a stray list
//! item, a line without a colon, a duplicate key — is a header syntax
//! error, which callers treat as fatal.

use vstd::prelude::*;
use crate::text::{
    is_space, is_space_exec, leading_while, lemma_leading_while_is, trim_spec, trim_chars,
    sub_chars, eq_chars, chars_of, push_chars, find_char,
};
use crate::meta::{Scalar, ScalarView, MetaValue, MetaValueView, HeaderEntries, entries_view};

verus! {

// ------------------------------------------------------------------
// Lines
// ------------------------------------------------------------------

/// A line with one trailing carriage return removed.
pub open spec fn strip_cr(l: Seq<char>) -> Seq<char> {
    if l.len() > 0 && l.last() == '\r' {
        l.drop_last()
    } else {
        l
    }
}

/// The lines of a text: split at `\n`, each line stripped of one trailing
/// `\r`, with no final empty line for text ending in `\n`.
pub open spec fn lines_spec(s: Seq<char>) -> Seq<Seq<char>>
    decreases s.len(),
    via lines_spec_dec
{
    if s.len() == 0 {
        Seq::empty()
    } else {
        let n = leading_while(s, |c: char| c != '\n');
        let line = strip_cr(s.subrange(0, n));
        if n == s.len() {
            seq![line]
        } else {
            seq![line] + lines_spec(s.skip(n + 1))
        }
    }
}

#[via_fn]
proof fn lines_spec_dec(s: Seq<char>) {
    crate::text::lemma_leading_while(s, |c: char| c != '\n');
}

/// Split a text into lines.
#[verifier::loop_isolation(false)]
pub fn split_lines(v: &Vec<char>) -> (r: Vec<Vec<char>>)
    ensures
        r@.map_values(|l: Vec<char>| l@) == lines_spec(v@),
{
    let ghost nl = |c: char| c != '\n';
    let mut out: Vec<Vec<char>> = Vec::new();
    let mut pos: usize = 0;
    assert(v@.skip(0) =~= v@);
    while pos < v.len()
        invariant
            pos <= v@.len(),
            lines_spec(v@) == out@.map_values(|l: Vec<char>| l@) + lines_spec(v@.skip(pos as int)),
        decreases v@.len() - pos,
    {
        let ghost rest = v@.skip(pos as int);
        match find_char(v, pos, '\n') {
            Some(k) => {
                proof {
                    assert forall|j: int| 0 <= j < k - pos implies nl(rest[j]) by {
                        assert(rest[j] == v@[j + pos]);
                    }
                    assert(rest[k - pos] == v@[k as int]);
                    lemma_leading_while_is(rest, nl, k - pos as int);
                }
                let line_raw = if k > pos && v[k - 1] == '\r' {
                    sub_chars(v, pos, k - 1)
                } else {
                    sub_chars(v, pos, k)
                };
                proof {
                    assert(rest.subrange(0, k - pos) =~= v@.subrange(pos as int, k as int));
                    if k > pos && v@[k - 1] == '\r' {
                        assert(v@.subrange(pos as int, k as int).drop_last() =~= v@.subrange(
                            pos as int,
                            k - 1,
                        ));
                    }
                    assert(line_raw@ == strip_cr(rest.subrange(0, k - pos)));
                }
                let ghost out0 = out@.map_values(|l: Vec<char>| l@);
                let ghost lr = line_raw@;
                out.push(line_raw);
                proof {
                    assert(rest.skip(k - pos + 1) =~= v@.skip(k + 1));
                    assert(out@.map_values(|l: Vec<char>| l@) =~= out0 + seq![lr]);
                    assert(lines_spec(rest) == seq![lr] + lines_spec(v@.skip(k + 1)));
                    assert((out0 + seq![lr]) + lines_spec(v@.skip(k + 1)) =~= out0 + (seq![lr]
                        + lines_spec(v@.skip(k + 1))));
                }
                pos = k + 1;
            },
            None => {
                proof {
                    assert forall|j: int| 0 <= j < rest.len() implies nl(rest[j]) by {
                        assert(rest[j] == v@[j + pos]);
                    }
                    lemma_leading_while_is(rest, nl, rest.len() as int);
                }
                let line_raw = if v.len() > pos && v[v.len() - 1] == '\r' {
                    sub_chars(v, pos, v.len() - 1)
                } else {
                    sub_chars(v, pos, v.len())
                };
                proof {
                    assert(rest.subrange(0, rest.len() as int) =~= v@.subrange(
                        pos as int,
                        v@.len() as int,
                    ));
                    if v@.len() > pos && v@[v@.len() - 1] == '\r' {
                        assert(v@.subrange(pos as int, v@.len() as int).drop_last() =~= v@.subrange(
                            pos as int,
                            v@.len() - 1,
                        ));
                    }
                    assert(line_raw@ == strip_cr(rest));
                }
                let ghost out0 = out@.map_values(|l: Vec<char>| l@);
                let ghost lr = line_raw@;
                out.push(line_raw);
                proof {
                    assert(lines_spec(rest) == seq![lr]);
                    assert(out@.map_values(|l: Vec<char>| l@) =~= out0 + seq![lr]);
                }
                pos = v.len();
                proof {
                    assert(lines_spec(v@.skip(pos as int)) =~= Seq::<Seq<char>>::empty());
                    assert((out0 + seq![lr]) + lines_spec(v@.skip(pos as int)) =~= out0 + seq![lr]);
                }
            },
        }
    }
    assert(lines_spec(v@.skip(pos as int)) =~= Seq::<Seq<char>>::empty());
    assert(out@.map_values(|l: Vec<char>| l@) =~= lines_spec(v@));
    out
}

/// Lines joined with `\n` (no trailing newline).
pub open spec fn join_lines(ls: Seq<Seq<char>>) -> Seq<char>
    decreases ls.len(),
{
    if ls.len() == 0 {
        Seq::empty()
    } else if ls.len() == 1 {
        ls[0]
    } else {
        join_lines(ls.drop_last()) + seq!['\n'] + ls.last()
    }
}

/// Join lines with `\n`.
#[verifier::loop_isolation(false)]
pub fn join_lines_exec(ls: &Vec<Vec<char>>) -> (r: Vec<char>)
    ensures
        r@ == join_lines(ls@.map_values(|l: Vec<char>| l@)),
{
    let ghost lsv = ls@.map_values(|l: Vec<char>| l@);
    let mut out: Vec<char> = Vec::new();
    let mut i: usize = 0;
    while i < ls.len()
        invariant
            lsv == ls@.map_values(|l: Vec<char>| l@),
            lsv.len() == ls@.len(),
            i <= ls@.len(),
            out@ == join_lines(lsv.subrange(0, i as int)),
        decreases ls@.len() - i,
    {
        if i > 0 {
            out.push('\n');
        }
        push_chars(&mut out, &ls[i]);
        i = i + 1;
        proof {
            assert(lsv.subrange(0, i as int).drop_last() =~= lsv.subrange(0, i - 1));
            if i == 1 {
                assert(out@ =~= join_lines(lsv.subrange(0, 1)));
            } else {
                assert(out@ =~= join_lines(lsv.subrange(0, i as int)));
            }
        }
    }
    assert(lsv.subrange(0, lsv.len() as int) =~= lsv);
    out
}

// ------------------------------------------------------------------
// Scalars
// ------------------------------------------------------------------

pub open spec fn is_digit(c: char) -> bool {
    '0' <= c && c <= '9'
}

#[verifier::when_used_as_spec(is_digit)]
pub fn is_digit_exec(c: char) -> (r: bool)
    ensures
        r == is_digit(c),
{
    '0' <= c && c <= '9'
}

/// A numeric literal: optional minus sign, digits, optionally a dot and
/// more digits.
pub open spec fn is_num_seq(t: Seq<char>) -> bool {
    let s = if t.len() > 0 && t[0] == '-' {
        t.drop_first()
    } else {
        t
    };
    let n1 = leading_while(s, |c: char| is_digit(c));
    n1 > 0 && (n1 == s.len() || (s[n1] == '.' && s.len() > n1 + 1 && leading_while(
        s.skip(n1 + 1),
        |c: char| is_digit(c),
    ) == s.len() - n1 - 1))
}

#[verifier::loop_isolation(false)]
fn check_num_seq(t: &Vec<char>) -> (r: bool)
    ensures
        r == is_num_seq(t@),
{
    let ghost dg = |c: char| is_digit(c);
    let start: usize = if t.len() > 0 && t[0] == '-' {
        1
    } else {
        0
    };
    let ghost s = if t@.len() > 0 && t@[0] == '-' {
        t@.drop_first()
    } else {
        t@
    };
    assert(s =~= t@.skip(start as int));
    let mut i: usize = start;
    while i < t.len() && is_digit_exec(t[i])
        invariant
            start <= i <= t@.len(),
            forall|j: int| start <= j < i ==> is_digit(t@[j]),
        decreases t@.len() - i,
    {
        i = i + 1;
    }
    proof {
        assert forall|j: int| 0 <= j < i - start implies dg(s[j]) by {
            assert(s[j] == t@[j + start]);
        }
        if (i as int) < t@.len() {
            assert(s[i - start] == t@[i as int]);
        }
        lemma_leading_while_is(s, dg, i - start as int);
    }
    if i == start {
        return false;
    }
    if i == t.len() {
        return true;
    }
    if t[i] != '.' {
        return false;
    }
    if i + 1 >= t.len() {
        return false;
    }
    let mut j: usize = i + 1;
    while j < t.len() && is_digit_exec(t[j])
        invariant
            i + 1 <= j <= t@.len(),
            forall|k: int| i + 1 <= k < j ==> is_digit(t@[k]),
        decreases t@.len() - j,
    {
        j = j + 1;
    }
    proof {
        let s2 = s.skip(i - start + 1);
        assert forall|k: int| 0 <= k < j - i - 1 implies dg(s2[k]) by {
            assert(s2[k] == t@[k + i + 1]);
        }
        if (j as int) < t@.len() {
            assert(s2[j - i - 1] == t@[j as int]);
        }
        lemma_leading_while_is(s2, dg, j - i - 1 as int);
    }
    j == t.len()
}

/// Parse one trimmed scalar token: double- or single-quoted text keeps its
/// inner characters verbatim; `null`, `~` or nothing is null; `true` and
/// `false` are booleans; a numeric literal is a number; anything else is
/// plain text.
pub open spec fn parse_scalar_spec(t: Seq<char>) -> ScalarView {
    if t.len() >= 2 && t[0] == '"' && t.last() == '"' {
        ScalarView::Str(t.subrange(1, t.len() - 1))
    } else if t.len() >= 2 && t[0] == '\'' && t.last() == '\'' {
        ScalarView::Str(t.subrange(1, t.len() - 1))
    } else if t.len() == 0 || t == "null"@ || t == "~"@ {
        ScalarView::Null
    } else if t == "true"@ {
        ScalarView::Bool(true)
    } else if t == "false"@ {
        ScalarView::Bool(false)
    } else if is_num_seq(t) {
        ScalarView::Num(t)
    } else {
        ScalarView::Str(t)
    }
}

/// Parse one trimmed scalar token.
pub fn parse_scalar(t: &Vec<char>) -> (r: Scalar)
    ensures
        r@ == parse_scalar_spec(t@),
{
    if t.len() >= 2 && t[0] == '"' && t[t.len() - 1] == '"' {
        return Scalar::Str(sub_chars(t, 1, t.len() - 1));
    }
    if t.len() >= 2 && t[0] == '\'' && t[t.len() - 1] == '\'' {
        return Scalar::Str(sub_chars(t, 1, t.len() - 1));
    }
    let null_lit = chars_of("null");
    let tilde_lit = chars_of("~");
    if t.len() == 0 || eq_chars(t, &null_lit) || eq_chars(t, &tilde_lit) {
        return Scalar::Null;
    }
    let true_lit = chars_of("true");
    if eq_chars(t, &true_lit) {
        return Scalar::Bool(true);
    }
    let false_lit = chars_of("false");
    if eq_chars(t, &false_lit) {
        return Scalar::Bool(false);
    }
    if check_num_seq(t) {
        return Scalar::Num(t.clone());
    }
    Scalar::Str(t.clone())
}

/// The comma-separated pieces of a flow list's inner text, each trimmed
/// and parsed as a scalar. An empty piece parses as null.
pub open spec fn flow_items(inner: Seq<char>) -> Seq<ScalarView>
    decreases inner.len(),
    via flow_items_dec
{
    let c = leading_while(inner, |ch: char| ch != ',');
    if c == inner.len() {
        seq![parse_scalar_spec(trim_spec(inner))]
    } else {
        seq![parse_scalar_spec(trim_spec(inner.subrange(0, c)))] + flow_items(inner.skip(c + 1))
    }
}

#[via_fn]
proof fn flow_items_dec(inner: Seq<char>) {
    crate::text::lemma_leading_while(inner, |ch: char| ch != ',');
}

/// A trimmed value token: `[...]` is a flow list of scalars (empty when
/// its inside is blank); anything else is one scalar.
pub open spec fn parse_value_spec(t: Seq<char>) -> MetaValueView {
    if t.len() >= 2 && t[0] == '[' && t.last() == ']' {
        let inner = t.subrange(1, t.len() - 1);
        if trim_spec(inner).len() == 0 {
            MetaValueView::List(Seq::empty())
        } else {
            MetaValueView::List(flow_items(inner))
        }
    } else {
        MetaValueView::Scalar(parse_scalar_spec(t))
    }
}

/// Parse a trimmed value token.
#[verifier::loop_isolation(false)]
pub fn parse_value(t: &Vec<char>) -> (r: MetaValue)
    ensures
        r@ == parse_value_spec(t@),
{
    if !(t.len() >= 2 && t[0] == '[' && t[t.len() - 1] == ']') {
        return MetaValue::Scalar(parse_scalar(t));
    }
    let inner = sub_chars(t, 1, t.len() - 1);
    let trimmed = trim_chars(&inner);
    if trimmed.len() == 0 {
        let items: Vec<Scalar> = Vec::new();
        assert(items@.map_values(|x: Scalar| x@) =~= Seq::<ScalarView>::empty());
        return MetaValue::List(items);
    }
    let mut items: Vec<Scalar> = Vec::new();
    let mut pos: usize = 0;
    assert(inner@.skip(0) =~= inner@);
    loop
        invariant
            pos <= inner@.len(),
            flow_items(inner@) == items@.map_values(|x: Scalar| x@) + flow_items(
                inner@.skip(pos as int),
            ),
        decreases inner@.len() + 1 - pos,
    {
        let ghost rest = inner@.skip(pos as int);
        let ghost nc = |ch: char| ch != ',';
        match find_char(&inner, pos, ',') {
            Some(cm) => {
                proof {
                    assert forall|j: int| 0 <= j < cm - pos implies nc(rest[j]) by {
                        assert(rest[j] == inner@[j + pos]);
                    }
                    assert(rest[cm - pos] == inner@[cm as int]);
                    lemma_leading_while_is(rest, nc, cm - pos as int);
                }
                let piece = sub_chars(&inner, pos, cm);
                assert(piece@ =~= rest.subrange(0, cm - pos));
                let tp = trim_chars(&piece);
                let sc = parse_scalar(&tp);
                let ghost iv0 = items@.map_values(|x: Scalar| x@);
                items.push(sc);
                let ghost oldpos = pos as int;
                pos = cm + 1;
                proof {
                    assert(inner@.skip(pos as int) =~= rest.skip(cm - oldpos + 1));
                    assert(items@.map_values(|x: Scalar| x@) =~= iv0.push(sc@));
                    assert(iv0 + (seq![sc@] + flow_items(inner@.skip(pos as int)))
                        =~= items@.map_values(|x: Scalar| x@) + flow_items(
                        inner@.skip(pos as int),
                    ));
                }
            },
            None => {
                proof {
                    assert forall|j: int| 0 <= j < rest.len() implies nc(rest[j]) by {
                        assert(rest[j] == inner@[j + pos]);
                    }
                    lemma_leading_while_is(rest, nc, rest.len() as int);
                }
                let piece = sub_chars(&inner, pos, inner.len());
                assert(piece@ =~= rest);
                let tp = trim_chars(&piece);
                let sc = parse_scalar(&tp);
                let ghost iv0 = items@.map_values(|x: Scalar| x@);
                items.push(sc);
                proof {
                    assert(flow_items(rest) == seq![sc@]);
                    assert(items@.map_values(|x: Scalar| x@) =~= iv0 + seq![sc@]);
                }
                return MetaValue::List(items);
            },
        }
    }
}

// ------------------------------------------------------------------
// Header lines
// ------------------------------------------------------------------

pub open spec fn line_blank(l: Seq<char>) -> bool {
    trim_spec(l).len() == 0
}

pub open spec fn line_comment(l: Seq<char>) -> bool {
    trim_spec(l).len() > 0 && trim_spec(l)[0] == '#'
}

/// A block list item: after trimming, a `-` alone or followed by a space.
pub open spec fn line_item(l: Seq<char>) -> bool {
    let t = trim_spec(l);
    t.len() > 0 && t[0] == '-' && (t.len() == 1 || is_space(t[1]))
}

fn classify_blank(l: &Vec<char>) -> (r: bool)
    ensures
        r == line_blank(l@),
{
    let t = trim_chars(l);
    t.len() == 0
}

fn classify_comment(l: &Vec<char>) -> (r: bool)
    ensures
        r == line_comment(l@),
{
    let t = trim_chars(l);
    t.len() > 0 && t[0] == '#'
}

fn classify_item(l: &Vec<char>) -> (r: bool)
    ensures
        r == line_item(l@),
{
    let t = trim_chars(l);
    t.len() > 0 && t[0] == '-' && (t.len() == 1 || is_space_exec(t[1]))
}

/// The scalar value of a list-item line: everything after the `-`, trimmed.
pub open spec fn item_value(l: Seq<char>) -> ScalarView {
    parse_scalar_spec(trim_spec(trim_spec(l).drop_first()))
}

fn parse_item(l: &Vec<char>) -> (r: Scalar)
    requires
        line_item(l@),
    ensures
        r@ == item_value(l@),
{
    let t = trim_chars(l);
    let rest = sub_chars(&t, 1, t.len());
    assert(rest@ =~= trim_spec(l@).drop_first());
    let content = trim_chars(&rest);
    parse_scalar(&content)
}

/// The number of consecutive list-item lines starting at `i`.
pub open spec fn count_items(lines: Seq<Seq<char>>, i: int) -> int
    decreases lines.len() - i,
{
    if 0 <= i < lines.len() && line_item(lines[i]) {
        1 + count_items(lines, i + 1)
    } else {
        0
    }
}

proof fn lemma_count_items_is(lines: Seq<Seq<char>>, i: int, j: int)
    requires
        0 <= i <= j <= lines.len(),
        forall|k: int| i <= k < j ==> line_item(lines[k]),
        j < lines.len() ==> !line_item(lines[j]),
    ensures
        count_items(lines, i) == j - i,
    decreases j - i,
{
    if i < j {
        lemma_count_items_is(lines, i + 1, j);
    }
}

/// The parsed values of the item lines `lines[i .. i + n]`.
pub open spec fn item_values(lines: Seq<Seq<char>>, i: int, n: int) -> Seq<ScalarView> {
    Seq::new(n as nat, |k: int| item_value(lines[i + k]))
}

/// A one-level mapping entry: an indented `key: value` line that is not a
/// list item or comment.
pub open spec fn line_dict_entry(l: Seq<char>) -> bool {
    let t = trim_spec(l);
    &&& l.len() > 0 && is_space(l[0])
    &&& t.len() > 0
    &&& t[0] != '#'
    &&& !(t[0] == '-' && (t.len() == 1 || is_space(t[1])))
    &&& leading_while(t, |ch: char| ch != ':') < t.len()
    &&& trim_spec(t.subrange(0, leading_while(t, |ch: char| ch != ':'))).len() > 0
}

/// The key and scalar value of a mapping entry line.
pub open spec fn dict_entry_of(l: Seq<char>) -> (Seq<char>, ScalarView) {
    let t = trim_spec(l);
    let c = leading_while(t, |ch: char| ch != ':');
    (trim_spec(t.subrange(0, c)), parse_scalar_spec(trim_spec(t.skip(c + 1))))
}

#[verifier::loop_isolation(false)]
fn classify_dict_entry(l: &Vec<char>) -> (r: bool)
    ensures
        r == line_dict_entry(l@),
{
    if l.len() == 0 || !is_space_exec(l[0]) {
        return false;
    }
    let t = trim_chars(l);
    if t.len() == 0 || t[0] == '#' {
        return false;
    }
    if t[0] == '-' && (t.len() == 1 || is_space_exec(t[1])) {
        return false;
    }
    let ghost ncl = |ch: char| ch != ':';
    let mut c: usize = 0;
    while c < t.len() && t[c] != ':'
        invariant
            c <= t@.len(),
            forall|j: int| 0 <= j < c ==> t@[j] != ':',
        decreases t@.len() - c,
    {
        c = c + 1;
    }
    proof {
        lemma_leading_while_is(t@, ncl, c as int);
    }
    if c == t.len() {
        return false;
    }
    let key_raw = sub_chars(&t, 0, c);
    let key = trim_chars(&key_raw);
    key.len() > 0
}

/// Parse one mapping entry line.
#[verifier::loop_isolation(false)]
fn parse_dict_entry(l: &Vec<char>) -> (r: (Vec<char>, Scalar))
    requires
        line_dict_entry(l@),
    ensures
        (r.0@, r.1@) == dict_entry_of(l@),
{
    let t = trim_chars(l);
    let ghost ncl = |ch: char| ch != ':';
    let mut c: usize = 0;
    while c < t.len() && t[c] != ':'
        invariant
            c <= t@.len(),
            forall|j: int| 0 <= j < c ==> t@[j] != ':',
        decreases t@.len() - c,
    {
        c = c + 1;
    }
    proof {
        lemma_leading_while_is(t@, ncl, c as int);
    }
    let key_raw = sub_chars(&t, 0, c);
    let key = trim_chars(&key_raw);
    let rest_raw = sub_chars(&t, c + 1, t.len());
    assert(rest_raw@ =~= trim_spec(l@).skip(c + 1));
    let rest = trim_chars(&rest_raw);
    let sc = parse_scalar(&rest);
    (key, sc)
}

/// The number of consecutive mapping entry lines starting at `i`.
pub open spec fn count_dicts(lines: Seq<Seq<char>>, i: int) -> int
    decreases lines.len() - i,
{
    if 0 <= i < lines.len() && line_dict_entry(lines[i]) {
        1 + count_dicts(lines, i + 1)
    } else {
        0
    }
}

proof fn lemma_count_dicts_is(lines: Seq<Seq<char>>, i: int, j: int)
    requires
        0 <= i <= j <= lines.len(),
        forall|k: int| i <= k < j ==> line_dict_entry(lines[k]),
        j < lines.len() ==> !line_dict_entry(lines[j]),
    ensures
        count_dicts(lines, i) == j - i,
    decreases j - i,
{
    if i < j {
        lemma_count_dicts_is(lines, i + 1, j);
    }
}

proof fn lemma_count_dicts_nonneg(lines: Seq<Seq<char>>, i: int)
    ensures
        count_dicts(lines, i) >= 0,
        i <= lines.len() ==> i + count_dicts(lines, i) <= lines.len(),
    decreases lines.len() - i,
{
    if 0 <= i < lines.len() && line_dict_entry(lines[i]) {
        lemma_count_dicts_nonneg(lines, i + 1);
    }
}

/// The parsed entries of the mapping lines `lines[i .. i + n]`.
pub open spec fn dict_values(lines: Seq<Seq<char>>, i: int, n: int) -> Seq<(Seq<char>, ScalarView)> {
    Seq::new(n as nat, |k: int| dict_entry_of(lines[i + k]))
}

// ------------------------------------------------------------------
// The header parser
// ------------------------------------------------------------------

/// Parse header lines from index `i` on into ordered entries; `None` is a
/// header syntax error. Blank and comment lines are skipped. An entry line
/// must be unindented and contain a colon; a non-blank rest parses as a
/// value (a scalar, or a flow list), an empty rest takes the following
/// list items as its value, else the following indented mapping entries,
/// else null.
pub open spec fn ph(lines: Seq<Seq<char>>, i: int) -> Option<Seq<(Seq<char>, MetaValueView)>>
    decreases lines.len() - i,
    via ph_dec
{
    if i < 0 || i >= lines.len() {
        Some(Seq::empty())
    } else {
        let l = lines[i];
        if line_blank(l) || line_comment(l) {
            ph(lines, i + 1)
        } else if line_item(l) {
            None
        } else if is_space(l[0]) {
            None
        } else {
            let c = leading_while(l, |ch: char| ch != ':');
            if c == l.len() {
                None
            } else {
                let key = trim_spec(l.subrange(0, c));
                if key.len() == 0 {
                    None
                } else if trim_spec(l.skip(c + 1)).len() > 0 {
                    let val = parse_value_spec(trim_spec(l.skip(c + 1)));
                    match ph(lines, i + 1) {
                        None => None,
                        Some(tail) => Some(seq![(key, val)] + tail),
                    }
                } else {
                    let n = count_items(lines, i + 1);
                    let nd = if n == 0 {
                        count_dicts(lines, i + 1)
                    } else {
                        0
                    };
                    let val = if n > 0 {
                        MetaValueView::List(item_values(lines, i + 1, n))
                    } else if nd > 0 {
                        MetaValueView::Dict(dict_values(lines, i + 1, nd))
                    } else {
                        MetaValueView::Scalar(ScalarView::Null)
                    };
                    match ph(lines, i + 1 + n + nd) {
                        None => None,
                        Some(tail) => Some(seq![(key, val)] + tail),
                    }
                }
            }
        }
    }
}

#[via_fn]
proof fn ph_dec(lines: Seq<Seq<char>>, i: int) {
    if 0 <= i < lines.len() {
        lemma_count_items_nonneg(lines, i + 1);
        lemma_count_dicts_nonneg(lines, i + 1);
    }
}

proof fn lemma_count_items_nonneg(lines: Seq<Seq<char>>, i: int)
    ensures
        count_items(lines, i) >= 0,
        i <= lines.len() ==> i + count_items(lines, i) <= lines.len(),
    decreases lines.len() - i,
{
    if 0 <= i < lines.len() && line_item(lines[i]) {
        lemma_count_items_nonneg(lines, i + 1);
    }
}

/// No two entries share a key.
pub open spec fn distinct_keys(e: Seq<(Seq<char>, MetaValueView)>) -> bool {
    forall|i: int, j: int| 0 <= i < j < e.len() ==> e[i].0 != e[j].0
}

/// Parse the header lines into ordered entries; `None` is a header syntax
/// error (malformed line or duplicate key).
#[verifier::loop_isolation(false)]
pub fn parse_header(lines: &Vec<Vec<char>>) -> (r: Option<HeaderEntries>)
    ensures
        match r {
            Some(e) => Some(entries_view(e)) == ph(lines@.map_values(|l: Vec<char>| l@), 0)
                && distinct_keys(entries_view(e)),
            None => match ph(lines@.map_values(|l: Vec<char>| l@), 0) {
                Some(t) => !distinct_keys(t),
                None => true,
            },
        },
{
    let ghost lsv = lines@.map_values(|l: Vec<char>| l@);
    let mut acc: HeaderEntries = Vec::new();
    let mut i: usize = 0;
    while i < lines.len()
        invariant
            lsv == lines@.map_values(|l: Vec<char>| l@),
            lsv.len() == lines@.len(),
            i <= lines@.len(),
            ph(lsv, 0) == (match ph(lsv, i as int) {
                None => None::<Seq<(Seq<char>, MetaValueView)>>,
                Some(t) => Some(entries_view(acc) + t),
            }),
        decreases lines@.len() - i,
    {
        let l = &lines[i];
        assert(lsv[i as int] == l@);
        if classify_blank(l) || classify_comment(l) {
            i = i + 1;
            continue;
        }
        if classify_item(l) {
            return None;
        }
        assert(l@.len() > 0) by {
            crate::text::lemma_leading_spaces(l@);
            crate::text::lemma_trailing_spaces(l@);
        }
        if is_space_exec(l[0]) {
            return None;
        }
        // first colon
        let ghost nc = |ch: char| ch != ':';
        let mut c: usize = 0;
        while c < l.len() && l[c] != ':'
            invariant
                c <= l@.len(),
                forall|j: int| 0 <= j < c ==> l@[j] != ':',
            decreases l@.len() - c,
        {
            c = c + 1;
        }
        proof {
            lemma_leading_while_is(l@, nc, c as int);
        }
        if c == l.len() {
            return None;
        }
        let key_raw = sub_chars(l, 0, c);
        let key = trim_chars(&key_raw);
        if key.len() == 0 {
            return None;
        }
        let rest_raw = sub_chars(l, c + 1, l.len());
        assert(rest_raw@ =~= l@.skip(c + 1));
        let rest = trim_chars(&rest_raw);
        if rest.len() > 0 {
            let val = parse_value(&rest);
            let ghost kv = (key@, val@);
            proof {
                assert(ph(lsv, i as int) == (match ph(lsv, i + 1) {
                    None => None::<Seq<(Seq<char>, MetaValueView)>>,
                    Some(t) => Some(seq![kv] + t),
                }));
            }
            let ghost acc0 = entries_view(acc);
            acc.push((key, val));
            proof {
                assert(entries_view(acc) =~= acc0.push(kv));
                match ph(lsv, i + 1) {
                    None => {},
                    Some(t) => {
                        assert(acc0.push(kv) + t =~= acc0 + (seq![kv] + t));
                    },
                }
            }
            i = i + 1;
        } else {
            // gather following list items, else mapping entries
            let mut n: usize = 0;
            while i + 1 + n < lines.len() && classify_item(&lines[i + 1 + n])
                invariant
                    lsv == lines@.map_values(|l2: Vec<char>| l2@),
                    lsv.len() == lines@.len(),
                    i + 1 + n <= lines@.len(),
                    forall|k: int| i + 1 <= k < i + 1 + n ==> line_item(lsv[k]),
                decreases lines@.len() - (i + 1 + n),
            {
                n = n + 1;
            }
            proof {
                lemma_count_items_is(lsv, i + 1 as int, i + 1 + n as int);
            }
            let mut nd: usize = 0;
            if n == 0 {
                while i + 1 + nd < lines.len() && classify_dict_entry(&lines[i + 1 + nd])
                    invariant
                        lsv == lines@.map_values(|l2: Vec<char>| l2@),
                        lsv.len() == lines@.len(),
                        i + 1 + nd <= lines@.len(),
                        forall|k: int| i + 1 <= k < i + 1 + nd ==> line_dict_entry(lsv[k]),
                    decreases lines@.len() - (i + 1 + nd),
                {
                    nd = nd + 1;
                }
                proof {
                    lemma_count_dicts_is(lsv, i + 1 as int, i + 1 + nd as int);
                }
            }
            assert(nd as int == (if n == 0 {
                count_dicts(lsv, i + 1)
            } else {
                0int
            }));
            let val: MetaValue = if n > 0 {
                let mut items: Vec<Scalar> = Vec::new();
                let mut k: usize = 0;
                while k < n
                    invariant
                        lsv == lines@.map_values(|l2: Vec<char>| l2@),
                        lsv.len() == lines@.len(),
                        i + 1 + n <= lines@.len(),
                        k <= n,
                        forall|m: int| i + 1 <= m < i + 1 + n ==> line_item(lsv[m]),
                        items@.len() == k,
                        forall|m: int| 0 <= m < k ==> items@[m]@ == item_value(lsv[i + 1 + m]),
                    decreases n - k,
                {
                    assert(lines@[i + 1 + k]@ == lsv[i + 1 + k]);
                    let it = parse_item(&lines[i + 1 + k]);
                    items.push(it);
                    k = k + 1;
                }
                assert(items@.map_values(|x: Scalar| x@) =~= item_values(lsv, i + 1 as int, n as int));
                MetaValue::List(items)
            } else if nd > 0 {
                let mut entries: Vec<(Vec<char>, Scalar)> = Vec::new();
                let mut k: usize = 0;
                while k < nd
                    invariant
                        lsv == lines@.map_values(|l2: Vec<char>| l2@),
                        lsv.len() == lines@.len(),
                        i + 1 + nd <= lines@.len(),
                        k <= nd,
                        forall|m: int| i + 1 <= m < i + 1 + nd ==> line_dict_entry(lsv[m]),
                        entries@.len() == k,
                        forall|m: int|
                            0 <= m < k ==> ((#[trigger] entries@[m]).0@, entries@[m].1@)
                                == dict_entry_of(lsv[i + 1 + m]),
                    decreases nd - k,
                {
                    assert(lines@[i + 1 + k]@ == lsv[i + 1 + k]);
                    let de = parse_dict_entry(&lines[i + 1 + k]);
                    entries.push(de);
                    k = k + 1;
                }
                assert(entries@.map_values(|p: (Vec<char>, Scalar)| (p.0@, p.1@)) =~= dict_values(
                    lsv,
                    i + 1 as int,
                    nd as int,
                ));
                MetaValue::Dict(entries)
            } else {
                MetaValue::Scalar(Scalar::Null)
            };
            let ghost kv = (key@, val@);
            proof {
                assert(ph(lsv, i as int) == (match ph(lsv, i + 1 + n + nd) {
                    None => None::<Seq<(Seq<char>, MetaValueView)>>,
                    Some(t) => Some(seq![kv] + t),
                }));
            }
            let ghost acc0 = entries_view(acc);
            acc.push((key, val));
            proof {
                assert(entries_view(acc) =~= acc0.push(kv));
                match ph(lsv, i + 1 + n + nd) {
                    None => {},
                    Some(t) => {
                        assert(acc0.push(kv) + t =~= acc0 + (seq![kv] + t));
                    },
                }
            }
            i = i + 1 + n + nd;
        }
    }
    assert(ph(lsv, i as int) == Some(Seq::<(Seq<char>, MetaValueView)>::empty()));
    assert(entries_view(acc) =~= entries_view(acc) + Seq::<(Seq<char>, MetaValueView)>::empty());
    // duplicate-key check
    let mut a: usize = 0;
    while a < acc.len()
        invariant
            forall|x: int, y: int| 0 <= x < y < a ==> entries_view(acc)[x].0 != entries_view(
                acc,
            )[y].0
            // plus: every earlier key also differs from keys at or past `a`
            ,
            forall|x: int, y: int|
                0 <= x < a <= y < entries_view(acc).len() ==> entries_view(acc)[x].0
                    != entries_view(acc)[y].0,
        decreases acc@.len() - a,
    {
        let mut b: usize = a + 1;
        while b < acc.len()
            invariant
                a < acc@.len(),
                a + 1 <= b <= acc@.len(),
                forall|y: int| a < y < b ==> entries_view(acc)[a as int].0 != entries_view(
                    acc,
                )[y].0,
            decreases acc@.len() - b,
        {
            if eq_chars(&acc[a].0, &acc[b].0) {
                assert(entries_view(acc)[a as int].0 == entries_view(acc)[b as int].0);
                return None;
            }
            assert(entries_view(acc)[a as int].0 != entries_view(acc)[b as int].0);
            b = b + 1;
        }
        a = a + 1;
    }
    assert(distinct_keys(entries_view(acc)));
    Some(acc)
}

// ------------------------------------------------------------------
// Frontmatter splitting
// ------------------------------------------------------------------

/// The header delimiter line.
pub open spec fn dashes() -> Seq<char> {
    seq!['-', '-', '-']
}

/// The index of the first delimiter line at or after `i`, or the line count
/// when there is none.
pub open spec fn find_dashes(ls: Seq<Seq<char>>, i: int) -> int
    decreases ls.len() - i,
{
    if i < 0 || i >= ls.len() {
        ls.len() as int
    } else if ls[i] == dashes() {
        i
    } else {
        find_dashes(ls, i + 1)
    }
}

/// Does the text open a header block?
pub open spec fn has_header_block(raw: Seq<char>) -> bool {
    lines_spec(raw).len() > 0 && lines_spec(raw)[0] == dashes()
}

/// An opened header block with no closing delimiter: the one fatal
/// read-time condition.
pub open spec fn header_unterminated(raw: Seq<char>) -> bool {
    has_header_block(raw) && find_dashes(lines_spec(raw), 1) == lines_spec(raw).len()
}

/// The lines strictly between the two delimiter lines.
pub open spec fn header_lines_of(raw: Seq<char>) -> Seq<Seq<char>> {
    lines_spec(raw).subrange(1, find_dashes(lines_spec(raw), 1))
}

/// The body text: the whole text when no header block opens it, otherwise
/// the lines after the closing delimiter joined with newlines.
pub open spec fn body_of(raw: Seq<char>) -> Seq<char> {
    if has_header_block(raw) {
        join_lines(lines_spec(raw).skip(find_dashes(lines_spec(raw), 1) + 1))
    } else {
        raw
    }
}

/// A terminated header block whose lines do not parse, or parse with a
/// duplicate key.
pub open spec fn header_malformed(raw: Seq<char>) -> bool {
    has_header_block(raw) && !header_unterminated(raw) && (match ph(header_lines_of(raw), 0) {
        Some(e) => !distinct_keys(e),
        None => true,
    })
}

/// The parsed entries of the header block; empty when there is none.
pub open spec fn header_entries_of(raw: Seq<char>) -> Seq<(Seq<char>, MetaValueView)> {
    if has_header_block(raw) {
        match ph(header_lines_of(raw), 0) {
            Some(e) => e,
            None => Seq::empty(),
        }
    } else {
        Seq::empty()
    }
}

/// A document split into its optional header lines and its body text.
pub struct SplitDoc {
    /// The lines strictly between the two delimiter lines, when a header
    /// block is present.
    pub header_lines: Option<Vec<Vec<char>>>,
    /// The body: the whole text when no header block opens it, otherwise
    /// the lines after the closing delimiter joined with `\n`.
    pub body: Vec<char>,
}

/// Separate the structured header block from the body. The sole error is an
/// opening delimiter line with no closing delimiter: an unterminated header.
#[verifier::loop_isolation(false)]
pub fn split_frontmatter(raw: &Vec<char>) -> (r: Option<SplitDoc>)
    ensures
        ({
            let ls = lines_spec(raw@);
            let has = ls.len() > 0 && ls[0] == dashes();
            let close = find_dashes(ls, 1);
            match r {
                Some(sd) => {
                    if has == false {
                        sd.header_lines is None && sd.body@ == raw@
                    } else {
                        close < ls.len() && (match sd.header_lines {
                            Some(h) => h@.map_values(|l: Vec<char>| l@) == ls.subrange(1, close),
                            None => false,
                        }) && sd.body@ == join_lines(ls.skip(close + 1))
                    }
                },
                None => has && close == ls.len(),
            }
        }),
{
    let ls = split_lines(raw);
    let ghost lsv = lines_spec(raw@);
    let d = {
        let mut d: Vec<char> = Vec::new();
        d.push('-');
        d.push('-');
        d.push('-');
        assert(d@ =~= dashes());
        d
    };
    if ls.len() == 0 || !eq_chars(&ls[0], &d) {
        return Some(SplitDoc { header_lines: None, body: raw.clone() });
    }
    // find the closing delimiter
    let mut j: usize = 1;
    while j < ls.len() && !eq_chars(&ls[j], &d)
        invariant
            lsv == ls@.map_values(|l: Vec<char>| l@),
            lsv.len() == ls@.len(),
            1 <= j <= ls@.len(),
            forall|k: int| 1 <= k < j ==> lsv[k] != dashes(),
            find_dashes(lsv, 1) == find_dashes(lsv, j as int),
        decreases ls@.len() - j,
    {
        j = j + 1;
    }
    if j == ls.len() {
        return None;
    }
    let mut header: Vec<Vec<char>> = Vec::new();
    let mut k: usize = 1;
    while k < j
        invariant
            lsv == ls@.map_values(|l: Vec<char>| l@),
            lsv.len() == ls@.len(),
            1 <= k <= j <= ls@.len(),
            header@.map_values(|l: Vec<char>| l@) == lsv.subrange(1, k as int),
        decreases j - k,
    {
        header.push(ls[k].clone());
        k = k + 1;
        assert(header@.map_values(|l: Vec<char>| l@) =~= lsv.subrange(1, k as int));
    }
    let mut tail: Vec<Vec<char>> = Vec::new();
    let mut m: usize = j + 1;
    while m < ls.len()
        invariant
            lsv == ls@.map_values(|l: Vec<char>| l@),
            lsv.len() == ls@.len(),
            j + 1 <= m <= ls@.len(),
            tail@.map_values(|l: Vec<char>| l@) == lsv.subrange(j + 1, m as int),
        decreases ls@.len() - m,
    {
        tail.push(ls[m].clone());
        m = m + 1;
        assert(tail@.map_values(|l: Vec<char>| l@) =~= lsv.subrange(j + 1, m as int));
    }
    assert(tail@.map_values(|l: Vec<char>| l@) =~= lsv.skip(j + 1));
    let body = join_lines_exec(&tail);
    Some(SplitDoc { header_lines: Some(header), body })
}

} // verus!
