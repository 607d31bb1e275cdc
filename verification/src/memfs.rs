//! An in-memory file map, for embedding and for tests.

use vstd::prelude::*;
use crate::text::{chars_of, string_of, push_chars, eq_chars, sub_chars, lower_chars};
use crate::fsprovider::FileProvider;

verus! {

/// A file provider backed by an in-memory list of `(path, contents)`
/// pairs. Paths are lightly normalized: backslashes become slashes.
pub struct InMemoryFs {
    pub files: Vec<(String, String)>,
}

fn normalize_chars(path: &str) -> (r: Vec<char>)
    ensures
        r@ == path@.map_values(
            |c: char|
                if c == '\\' {
                    '/'
                } else {
                    c
                },
        ),
{
    let v = chars_of(path);
    let mut out: Vec<char> = Vec::new();
    let mut i: usize = 0;
    while i < v.len()
        invariant
            v@ == path@,
            i <= v@.len(),
            out@ == path@.subrange(0, i as int).map_values(
                |c: char|
                    if c == '\\' {
                        '/'
                    } else {
                        c
                    },
            ),
        decreases v@.len() - i,
    {
        if v[i] == '\\' {
            out.push('/');
        } else {
            out.push(v[i]);
        }
        i = i + 1;
        assert(out@ =~= path@.subrange(0, i as int).map_values(
            |c: char|
                if c == '\\' {
                    '/'
                } else {
                    c
                },
        ));
    }
    assert(path@.subrange(0, path@.len() as int) =~= path@);
    out
}

impl InMemoryFs {
    /// Wrap a list of `(path, contents)` pairs.
    pub fn new(files: Vec<(String, String)>) -> (r: InMemoryFs)
        ensures
            r.files@ == files@,
    {
        InMemoryFs { files }
    }

    fn lookup_file(&self, path: &str) -> (r: Option<&String>) {
        let p = normalize_chars(path);
        let mut i: usize = 0;
        while i < self.files.len()
            invariant
                i <= self.files@.len(),
            decreases self.files@.len() - i,
        {
            let k = chars_of(self.files[i].0.as_str());
            if eq_chars(&k, &p) {
                return Some(&self.files[i].1);
            }
            i = i + 1;
        }
        None
    }
}

impl FileProvider for InMemoryFs {
    fn read_to_string(&self, path: &str) -> Result<String, String> {
        match self.lookup_file(path) {
            Some(s) => Ok(s.clone()),
            None => {
                let mut msg: Vec<char> = Vec::new();
                crate::text::push_str_chars(&mut msg, "File not found: ");
                crate::text::push_str_chars(&mut msg, path);
                Err(string_of(&msg))
            },
        }
    }

    fn path_exists(&self, path: &str) -> bool {
        self.lookup_file(path).is_some()
    }

    fn is_file(&self, path: &str) -> bool {
        self.lookup_file(path).is_some()
    }

    fn join(&self, parent: &str, rel: &str) -> String {
        if parent.unicode_len() == 0 {
            let v = normalize_chars(rel);
            return string_of(&v);
        }
        let pv = normalize_chars(parent);
        let rv = normalize_chars(rel);
        // trim trailing slashes from the parent
        let mut b: usize = pv.len();
        while b > 0 && pv[b - 1] == '/'
            invariant
                b <= pv@.len(),
            decreases b,
        {
            b = b - 1;
        }
        // trim leading slashes from the segment
        let mut a: usize = 0;
        while a < rv.len() && rv[a] == '/'
            invariant
                a <= rv@.len(),
            decreases rv@.len() - a,
        {
            a = a + 1;
        }
        let mut out = sub_chars(&pv, 0, b);
        out.push('/');
        let tail = sub_chars(&rv, a, rv.len());
        push_chars(&mut out, &tail);
        string_of(&out)
    }

    fn extension_lowercase(&self, path: &str) -> Option<String> {
        let p = normalize_chars(path);
        let base = crate::links::basename_chars(&p);
        let mut b: usize = base.len();
        while b > 0 && base[b - 1] != '.'
            invariant
                b <= base@.len(),
            decreases b,
        {
            b = b - 1;
        }
        if b == 0 {
            return None;
        }
        let ext = sub_chars(&base, b, base.len());
        let low = lower_chars(&ext);
        Some(string_of(&low))
    }

    fn parent(&self, path: &str) -> Option<String> {
        let p = normalize_chars(path);
        let mut b: usize = p.len();
        while b > 0 && p[b - 1] != '/'
            invariant
                b <= p@.len(),
            decreases b,
        {
            b = b - 1;
        }
        if b <= 1 {
            // no separator, or only a leading one with nothing before it
            if b == 0 {
                return Some(String::new());
            }
        }
        let dir = sub_chars(&p, 0, b - 1);
        if dir.len() == 0 {
            return Some(String::new());
        }
        Some(string_of(&dir))
    }

    fn file_name(&self, path: &str) -> Option<String> {
        let p = normalize_chars(path);
        let base = crate::links::basename_chars(&p);
        Some(string_of(&base))
    }
}

} // verus!
