//! Character-vector utilities shared by the whole engine.
//!
//! All internal string processing works on `Vec<char>`, whose view is a
//! `Seq<char>`, the same view a `String` or `&str` has; `chars_of` and
//! `string_of` convert at the boundary.

use vstd::prelude::*;

verus! {

/// Relies on `String::from_iter` (via `Iterator::collect`): building a string
/// from a sequence of characters yields exactly those characters.
#[verifier::external_body]
pub fn string_of(v: &Vec<char>) -> (r: String)
    ensures
        r@ == v@,
{
    v.iter().collect()
}

/// The characters of a string slice, in order.
pub fn chars_of(s: &str) -> (r: Vec<char>)
    ensures
        r@ == s@,
{
    let n = s.unicode_len();
    let mut r: Vec<char> = Vec::new();
    let mut i: usize = 0;
    while i < n
        invariant
            n == s@.len(),
            i <= n,
            r@ == s@.subrange(0, i as int),
        decreases n - i,
    {
        r.push(s.get_char(i));
        i = i + 1;
        assert(r@ =~= s@.subrange(0, i as int));
    }
    assert(r@ =~= s@);
    r
}

/// Append every character of `s` to `out`.
pub fn push_chars(out: &mut Vec<char>, s: &Vec<char>)
    ensures
        final(out)@ == old(out)@ + s@,
{
    let mut i: usize = 0;
    while i < s.len()
        invariant
            i <= s@.len(),
            out@ == old(out)@ + s@.subrange(0, i as int),
        decreases s@.len() - i,
    {
        out.push(s[i]);
        i = i + 1;
        assert(out@ =~= old(out)@ + s@.subrange(0, i as int));
    }
    assert(out@ =~= old(out)@ + s@);
}

/// Append every character of the string slice `s` to `out`.
pub fn push_str_chars(out: &mut Vec<char>, s: &str)
    ensures
        final(out)@ == old(out)@ + s@,
{
    let v = chars_of(s);
    push_chars(out, &v);
}

pub fn eq_chars(a: &Vec<char>, b: &Vec<char>) -> (r: bool)
    ensures
        r == (a@ == b@),
{
    if a.len() != b.len() {
        assert(a@.len() != b@.len());
        assert(a@ != b@);
        return false;
    }
    let mut i: usize = 0;
    while i < a.len()
        invariant
            a@.len() == b@.len(),
            i <= a@.len(),
            forall|j: int| 0 <= j < i ==> a@[j] == b@[j],
        decreases a@.len() - i,
    {
        if a[i] != b[i] {
            return false;
        }
        i = i + 1;
    }
    assert(a@ =~= b@);
    true
}

/// The characters `v[from .. to]` as a fresh vector.
pub fn sub_chars(v: &Vec<char>, from: usize, to: usize) -> (r: Vec<char>)
    requires
        from <= to <= v@.len(),
    ensures
        r@ == v@.subrange(from as int, to as int),
{
    let mut r: Vec<char> = Vec::new();
    let mut i: usize = from;
    while i < to
        invariant
            from <= i <= to <= v@.len(),
            r@ == v@.subrange(from as int, i as int),
        decreases to - i,
    {
        r.push(v[i]);
        i = i + 1;
        assert(r@ =~= v@.subrange(from as int, i as int));
    }
    r
}

/// Does `pat` occur in `v` starting at index `at`?
pub open spec fn matches_at(v: Seq<char>, at: int, pat: Seq<char>) -> bool {
    0 <= at && at + pat.len() <= v.len() && v.subrange(at, at + pat.len()) == pat
}

pub fn check_match_at(v: &Vec<char>, at: usize, pat: &Vec<char>) -> (r: bool)
    ensures
        r == matches_at(v@, at as int, pat@),
{
    if at > v.len() || pat.len() > v.len() - at {
        assert(!matches_at(v@, at as int, pat@));
        return false;
    }
    let mut i: usize = 0;
    while i < pat.len()
        invariant
            at + pat@.len() <= v@.len(),
            v@.len() <= usize::MAX,
            i <= pat@.len(),
            forall|j: int| 0 <= j < i ==> v@[at + j] == pat@[j],
        decreases pat@.len() - i,
    {
        if v[at + i] != pat[i] {
            assert(v@.subrange(at as int, at + pat@.len())[i as int] != pat@[i as int]);
            return false;
        }
        i = i + 1;
    }
    assert(v@.subrange(at as int, at + pat@.len()) =~= pat@);
    true
}

/// Index of the first occurrence of `pat` at or after `from`, if any.
pub fn find_sub(v: &Vec<char>, from: usize, pat: &Vec<char>) -> (r: Option<usize>)
    requires
        pat@.len() > 0,
    ensures
        match r {
            Some(i) => from <= i && matches_at(v@, i as int, pat@) && forall|j: int|
                from <= j < i ==> !matches_at(v@, j, pat@),
            None => forall|j: int| from <= j ==> !matches_at(v@, j, pat@),
        },
{
    let mut i: usize = from;
    while i < v.len()
        invariant
            from <= i,
            forall|j: int| from <= j < i ==> !matches_at(v@, j, pat@),
        decreases v@.len() - i,
    {
        if check_match_at(v, i, pat) {
            return Some(i);
        }
        i = i + 1;
    }
    assert forall|j: int| from <= j implies !matches_at(v@, j, pat@) by {
        if j >= i {
            assert(j + pat@.len() > v@.len());
        }
    }
    return None;
}

/// Index of the first occurrence of the character `c` at or after `from`.
pub fn find_char(v: &Vec<char>, from: usize, c: char) -> (r: Option<usize>)
    ensures
        match r {
            Some(i) => from <= i < v@.len() && v@[i as int] == c && forall|j: int|
                from <= j < i ==> v@[j] != c,
            None => forall|j: int| from <= j < v@.len() ==> v@[j] != c,
        },
{
    let mut i: usize = from;
    while i < v.len()
        invariant
            from <= i,
            forall|j: int| from <= j < i ==> j < v@.len() && v@[j] != c,
        decreases v@.len() - i,
    {
        if v[i] == c {
            return Some(i);
        }
        i = i + 1;
    }
    None
}

/// The index of the first occurrence of `pat` at or after `i`, if any.
pub open spec fn find_from(h: Seq<char>, i: int, pat: Seq<char>) -> Option<int>
    decreases h.len() + 1 - i,
{
    if i > h.len() || i + pat.len() > h.len() {
        None
    } else if matches_at(h, i, pat) {
        Some(i)
    } else {
        find_from(h, i + 1, pat)
    }
}

pub proof fn lemma_find_from_props(h: Seq<char>, i: int, pat: Seq<char>)
    ensures
        match find_from(h, i, pat) {
            Some(p) => i <= p && matches_at(h, p, pat) && forall|j: int|
                i <= j < p ==> !matches_at(h, j, pat),
            None => forall|j: int| j >= i ==> !matches_at(h, j, pat),
        },
    decreases h.len() + 1 - i,
{
    if i > h.len() || i + pat.len() > h.len() {
        assert forall|j: int| j >= i implies !matches_at(h, j, pat) by {}
    } else if matches_at(h, i, pat) {
    } else {
        lemma_find_from_props(h, i + 1, pat);
    }
}

/// The first occurrence is pinned down by the two-sided property.
pub proof fn lemma_find_from_is(h: Seq<char>, i: int, pat: Seq<char>, r: Option<int>)
    requires
        match r {
            Some(p) => i <= p && matches_at(h, p, pat) && forall|j: int|
                i <= j < p ==> !matches_at(h, j, pat),
            None => forall|j: int| j >= i ==> !matches_at(h, j, pat),
        },
    ensures
        find_from(h, i, pat) == r,
{
    lemma_find_from_props(h, i, pat);
    match r {
        Some(p) => {
            match find_from(h, i, pat) {
                Some(q) => {
                    if q < p {
                        assert(!matches_at(h, q, pat));
                    }
                    if p < q {
                        assert(!matches_at(h, p, pat));
                    }
                },
                None => {
                    assert(!matches_at(h, p, pat));
                },
            }
        },
        None => {
            match find_from(h, i, pat) {
                Some(q) => {
                    assert(!matches_at(h, q, pat));
                },
                None => {},
            }
        },
    }
}

/// Decoding of literal `%20` sequences into spaces.
pub open spec fn decode20(s: Seq<char>) -> Seq<char>
    decreases s.len(),
{
    if s.len() == 0 {
        Seq::empty()
    } else if matches_at(s, 0, seq!['%', '2', '0']) {
        seq![' '] + decode20(s.skip(3))
    } else {
        seq![s[0]] + decode20(s.drop_first())
    }
}

/// Replace each literal `%20` with a space.
#[verifier::loop_isolation(false)]
pub fn decode20_chars(v: &Vec<char>) -> (r: Vec<char>)
    ensures
        r@ == decode20(v@),
{
    let mut out: Vec<char> = Vec::new();
    let mut i: usize = 0;
    let mut pct: Vec<char> = Vec::new();
    pct.push('%');
    pct.push('2');
    pct.push('0');
    assert(pct@ =~= seq!['%', '2', '0']);
    assert(v@.skip(0) =~= v@);
    while i < v.len()
        invariant
            i <= v@.len(),
            decode20(v@) == out@ + decode20(v@.skip(i as int)),
        decreases v@.len() - i,
    {
        let ghost rest = v@.skip(i as int);
        if check_match_at(v, i, &pct) {
            proof {
                assert(rest.subrange(0, 3) =~= v@.subrange(i as int, i + 3));
                assert(matches_at(rest, 0, seq!['%', '2', '0']));
                assert(rest.skip(3) =~= v@.skip(i + 3));
            }
            out.push(' ');
            i = i + 3;
        } else {
            proof {
                if matches_at(rest, 0, seq!['%', '2', '0']) {
                    assert(rest.subrange(0, 3) =~= v@.subrange(i as int, i + 3));
                }
                assert(rest.drop_first() =~= v@.skip(i + 1));
            }
            out.push(v[i]);
            i = i + 1;
        }
    }
    assert(out@ =~= decode20(v@));
    out
}

/// Encoding of spaces as literal `%20` sequences.
pub open spec fn encode20(s: Seq<char>) -> Seq<char>
    decreases s.len(),
{
    if s.len() == 0 {
        Seq::empty()
    } else {
        encode20(s.drop_last()) + (if s.last() == ' ' {
            seq!['%', '2', '0']
        } else {
            seq![s.last()]
        })
    }
}

/// Replace each space with a literal `%20`.
#[verifier::loop_isolation(false)]
pub fn encode20_chars(v: &Vec<char>) -> (r: Vec<char>)
    ensures
        r@ == encode20(v@),
{
    let mut out: Vec<char> = Vec::new();
    let mut i: usize = 0;
    while i < v.len()
        invariant
            i <= v@.len(),
            out@ == encode20(v@.subrange(0, i as int)),
        decreases v@.len() - i,
    {
        if v[i] == ' ' {
            out.push('%');
            out.push('2');
            out.push('0');
        } else {
            out.push(v[i]);
        }
        i = i + 1;
        assert(v@.subrange(0, i as int).drop_last() =~= v@.subrange(0, i - 1));
        assert(out@ =~= encode20(v@.subrange(0, i as int)));
    }
    assert(v@.subrange(0, v@.len() as int) =~= v@);
    out
}

/// ASCII lowercasing of a single character; other characters are untouched.
pub open spec fn lower_char(c: char) -> char {
    if 'A' <= c && c <= 'Z' {
        ((c as u8) + 32) as char
    } else {
        c
    }
}

#[verifier::when_used_as_spec(lower_char)]
pub fn lower_char_exec(c: char) -> (r: char)
    ensures
        r == lower_char(c),
{
    if 'A' <= c && c <= 'Z' {
        (((c as u8) + 32) as char)
    } else {
        c
    }
}

/// ASCII lowercasing of a whole sequence.
pub open spec fn lower_seq(s: Seq<char>) -> Seq<char> {
    s.map_values(|c: char| lower_char(c))
}

pub fn lower_chars(v: &Vec<char>) -> (r: Vec<char>)
    ensures
        r@ == lower_seq(v@),
{
    let mut r: Vec<char> = Vec::new();
    let mut i: usize = 0;
    while i < v.len()
        invariant
            i <= v@.len(),
            r@ == lower_seq(v@.subrange(0, i as int)),
        decreases v@.len() - i,
    {
        r.push(lower_char_exec(v[i]));
        i = i + 1;
        assert(r@ =~= lower_seq(v@.subrange(0, i as int)));
    }
    assert(r@ =~= lower_seq(v@));
    r
}

pub open spec fn is_space(c: char) -> bool {
    c == ' ' || c == '\t' || c == '\r' || c == '\n'
}

#[verifier::when_used_as_spec(is_space)]
pub fn is_space_exec(c: char) -> (r: bool)
    ensures
        r == is_space(c),
{
    c == ' ' || c == '\t' || c == '\r' || c == '\n'
}

/// Number of leading space characters of `s`.
pub open spec fn leading_spaces(s: Seq<char>) -> int
    decreases s.len(),
{
    if s.len() > 0 && is_space(s[0]) {
        1 + leading_spaces(s.drop_first())
    } else {
        0
    }
}

/// Number of trailing space characters of `s`.
pub open spec fn trailing_spaces(s: Seq<char>) -> int
    decreases s.len(),
{
    if s.len() > 0 && is_space(s.last()) {
        1 + trailing_spaces(s.drop_last())
    } else {
        0
    }
}

pub proof fn lemma_leading_spaces(s: Seq<char>)
    ensures
        0 <= leading_spaces(s) <= s.len(),
        forall|j: int| 0 <= j < leading_spaces(s) ==> is_space(s[j]),
        leading_spaces(s) < s.len() ==> !is_space(s[leading_spaces(s)]),
    decreases s.len(),
{
    if s.len() > 0 && is_space(s[0]) {
        lemma_leading_spaces(s.drop_first());
        assert forall|j: int| 0 <= j < leading_spaces(s) implies is_space(s[j]) by {
            if j > 0 {
                assert(s.drop_first()[j - 1] == s[j]);
            }
        }
        if leading_spaces(s) < s.len() {
            assert(s.drop_first()[leading_spaces(s) - 1] == s[leading_spaces(s)]);
        }
    }
}

pub proof fn lemma_trailing_spaces(s: Seq<char>)
    ensures
        0 <= trailing_spaces(s) <= s.len(),
        forall|j: int| s.len() - trailing_spaces(s) <= j < s.len() ==> is_space(s[j]),
        trailing_spaces(s) < s.len() ==> !is_space(s[s.len() - 1 - trailing_spaces(s)]),
    decreases s.len(),
{
    if s.len() > 0 && is_space(s.last()) {
        lemma_trailing_spaces(s.drop_last());
        assert forall|j: int| s.len() - trailing_spaces(s) <= j < s.len() implies is_space(
            s[j],
        ) by {
            if j < s.len() - 1 {
                assert(s.drop_last()[j] == s[j]);
            }
        }
        if trailing_spaces(s) < s.len() {
            assert(s.drop_last()[s.len() - 2 - (trailing_spaces(s) - 1)] == s[s.len() - 1
                - trailing_spaces(s)]);
        }
    }
}

/// `s` with leading and trailing spaces removed.
pub open spec fn trim_spec(s: Seq<char>) -> Seq<char> {
    if leading_spaces(s) == s.len() {
        Seq::empty()
    } else {
        s.subrange(leading_spaces(s), s.len() - trailing_spaces(s))
    }
}

pub fn trim_chars(v: &Vec<char>) -> (r: Vec<char>)
    ensures
        r@ == trim_spec(v@),
{
    proof {
        lemma_leading_spaces(v@);
        lemma_trailing_spaces(v@);
    }
    let mut a: usize = 0;
    while a < v.len() && is_space_exec(v[a])
        invariant
            a <= v@.len(),
            forall|j: int| 0 <= j < a ==> is_space(v@[j]),
        decreases v@.len() - a,
    {
        a = a + 1;
    }
    if a == v.len() {
        proof {
            if leading_spaces(v@) < v@.len() {
                assert(is_space(v@[leading_spaces(v@)]));
                assert(false);
            }
        }
        return Vec::new();
    }
    proof {
        // a is the first non-space index, so it equals leading_spaces(v@)
        if a < leading_spaces(v@) {
            assert(is_space(v@[a as int]));
        }
        if leading_spaces(v@) < a {
            assert(is_space(v@[leading_spaces(v@)]));
        }
    }
    let mut b: usize = v.len();
    while b > a && is_space_exec(v[b - 1])
        invariant
            a <= b <= v@.len(),
            !is_space(v@[a as int]),
            forall|j: int| b <= j < v@.len() ==> is_space(v@[j]),
        decreases b,
    {
        b = b - 1;
    }
    proof {
        if (v@.len() - b) < trailing_spaces(v@) {
            assert(is_space(v@[b as int - 1]) || b == a);
            if b == a {
                assert(is_space(v@[a as int]));
            }
        }
        if trailing_spaces(v@) < (v@.len() - b) {
            assert(is_space(v@[v@.len() - 1 - trailing_spaces(v@)]));
        }
    }
    sub_chars(v, a, b)
}

/// Length of the maximal prefix of `s` whose characters all satisfy `p`.
pub open spec fn leading_while(s: Seq<char>, p: spec_fn(char) -> bool) -> int
    decreases s.len(),
{
    if s.len() > 0 && p(s[0]) {
        1 + leading_while(s.drop_first(), p)
    } else {
        0
    }
}

/// Length of the maximal suffix of `s` whose characters all satisfy `p`.
pub open spec fn trailing_while(s: Seq<char>, p: spec_fn(char) -> bool) -> int
    decreases s.len(),
{
    if s.len() > 0 && p(s.last()) {
        1 + trailing_while(s.drop_last(), p)
    } else {
        0
    }
}

pub proof fn lemma_leading_while(s: Seq<char>, p: spec_fn(char) -> bool)
    ensures
        0 <= leading_while(s, p) <= s.len(),
        forall|j: int| 0 <= j < leading_while(s, p) ==> p(s[j]),
        leading_while(s, p) < s.len() ==> !p(s[leading_while(s, p)]),
    decreases s.len(),
{
    if s.len() > 0 && p(s[0]) {
        lemma_leading_while(s.drop_first(), p);
        assert forall|j: int| 0 <= j < leading_while(s, p) implies p(s[j]) by {
            if j > 0 {
                assert(s.drop_first()[j - 1] == s[j]);
            }
        }
        if leading_while(s, p) < s.len() {
            assert(s.drop_first()[leading_while(s, p) - 1] == s[leading_while(s, p)]);
        }
    }
}

pub proof fn lemma_trailing_while(s: Seq<char>, p: spec_fn(char) -> bool)
    ensures
        0 <= trailing_while(s, p) <= s.len(),
        forall|j: int| s.len() - trailing_while(s, p) <= j < s.len() ==> p(s[j]),
        trailing_while(s, p) < s.len() ==> !p(s[s.len() - 1 - trailing_while(s, p)]),
    decreases s.len(),
{
    if s.len() > 0 && p(s.last()) {
        lemma_trailing_while(s.drop_last(), p);
        assert forall|j: int| s.len() - trailing_while(s, p) <= j < s.len() implies p(s[j]) by {
            if j < s.len() - 1 {
                assert(s.drop_last()[j] == s[j]);
            }
        }
        if trailing_while(s, p) < s.len() {
            assert(s.drop_last()[s.len() - 2 - (trailing_while(s, p) - 1)] == s[s.len() - 1
                - trailing_while(s, p)]);
        }
    }
}

/// A prefix run is pinned down by any index with the two-sided property.
pub proof fn lemma_leading_while_is(s: Seq<char>, p: spec_fn(char) -> bool, k: int)
    requires
        0 <= k <= s.len(),
        forall|j: int| 0 <= j < k ==> p(s[j]),
        k < s.len() ==> !p(s[k]),
    ensures
        leading_while(s, p) == k,
{
    lemma_leading_while(s, p);
    if leading_while(s, p) < k {
        assert(p(s[leading_while(s, p)]));
    }
    if k < leading_while(s, p) {
        assert(p(s[k]));
    }
}

/// A suffix run is pinned down by any index with the two-sided property.
pub proof fn lemma_trailing_while_is(s: Seq<char>, p: spec_fn(char) -> bool, k: int)
    requires
        0 <= k <= s.len(),
        forall|j: int| s.len() - k <= j < s.len() ==> p(s[j]),
        k < s.len() ==> !p(s[s.len() - 1 - k]),
    ensures
        trailing_while(s, p) == k,
{
    lemma_trailing_while(s, p);
    if trailing_while(s, p) < k {
        assert(p(s[s.len() - 1 - trailing_while(s, p)]));
    }
    if k < trailing_while(s, p) {
        assert(p(s[s.len() - 1 - k]));
    }
}

/// Does `s` end with `suf`?
pub open spec fn ends_with(s: Seq<char>, suf: Seq<char>) -> bool {
    s.len() >= suf.len() && s.subrange(s.len() - suf.len(), s.len() as int) == suf
}

pub fn check_ends_with(v: &Vec<char>, suf: &Vec<char>) -> (r: bool)
    ensures
        r == ends_with(v@, suf@),
{
    if suf.len() > v.len() {
        return false;
    }
    check_match_at(v, v.len() - suf.len(), suf)
}

/// Does `s` start with `pre`?
pub open spec fn starts_with(s: Seq<char>, pre: Seq<char>) -> bool {
    s.len() >= pre.len() && s.subrange(0, pre.len() as int) == pre
}

pub fn check_starts_with(v: &Vec<char>, pre: &Vec<char>) -> (r: bool)
    ensures
        r == starts_with(v@, pre@),
{
    check_match_at(v, 0, pre)
}

/// Decimal digits of `n`, most significant first.
pub open spec fn dec_spec(n: nat) -> Seq<char>
    decreases n,
{
    let digit = seq![(('0' as u8) + (n % 10) as u8) as char];
    if n < 10 {
        digit
    } else {
        dec_spec(n / 10) + digit
    }
}

pub fn dec_chars(n: u32) -> (r: Vec<char>)
    ensures
        r@ == dec_spec(n as nat),
    decreases n,
{
    let digit: char = ((('0' as u8) + (n % 10) as u8) as char);
    if n < 10 {
        let mut r: Vec<char> = Vec::new();
        r.push(digit);
        assert(r@ =~= dec_spec(n as nat));
        r
    } else {
        let mut r = dec_chars(n / 10);
        r.push(digit);
        assert(r@ =~= dec_spec(n as nat));
        r
    }
}

/// Decimal digits of a `usize`, most significant first.
pub fn dec_usize_chars(n: usize) -> (r: Vec<char>)
    ensures
        r@ == dec_spec(n as nat),
    decreases n,
{
    let digit: char = ((('0' as u8) + (n % 10) as u8) as char);
    if n < 10 {
        let mut r: Vec<char> = Vec::new();
        r.push(digit);
        assert(r@ =~= dec_spec(n as nat));
        r
    } else {
        let mut r = dec_usize_chars(n / 10);
        r.push(digit);
        assert(r@ =~= dec_spec(n as nat));
        r
    }
}

/// Decimal digits of `n`, zero-padded on the left to two characters.
pub open spec fn dec2_spec(n: nat) -> Seq<char> {
    if n < 10 {
        seq!['0'] + dec_spec(n)
    } else {
        dec_spec(n)
    }
}

pub fn dec2_chars(n: u32) -> (r: Vec<char>)
    ensures
        r@ == dec2_spec(n as nat),
{
    if n < 10 {
        let mut r: Vec<char> = Vec::new();
        r.push('0');
        let d = dec_chars(n);
        push_chars(&mut r, &d);
        assert(r@ =~= dec2_spec(n as nat));
        r
    } else {
        dec_chars(n)
    }
}

} // verus!
