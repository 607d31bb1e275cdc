//! The loaded document model.

use vstd::prelude::*;
use crate::meta::HeaderEntries;

verus! {

/// One loaded document. Relationship fields start empty and are filled by
/// the linker; the rendered fragment is rewritten by later stages.
pub struct Doc {
    /// The slug: the filename stem, normalized.
    pub id: Vec<char>,
    /// The resolved source path: unique across loaded documents.
    pub abs_path: Vec<char>,
    pub title: Vec<char>,
    pub visibility: Vec<Vec<char>>,
    pub tags: Vec<Vec<char>>,
    pub aliases: Vec<Vec<char>>,
    pub is_root_index: bool,
    /// True iff the declared content list is non-empty.
    pub is_index: bool,
    pub contents_raw: Vec<Vec<char>>,
    pub raw_part_of: Vec<Vec<char>>,
    pub children: Vec<Vec<char>>,
    pub parents: Vec<Vec<char>>,
    pub child_aliases: Vec<(Vec<char>, Vec<char>)>,
    pub parent_aliases: Vec<(Vec<char>, Vec<char>)>,
    pub html: Vec<char>,
    pub frontmatter: HeaderEntries,
    pub warnings: Vec<String>,
    pub body_md: Vec<char>,
}

impl Doc {
    /// Whether the document's visibility labels include `public`.
    pub fn is_public(&self) -> (r: bool)
        ensures
            r == exists|i: int|
                0 <= i < self.visibility@.len() && #[trigger] self.visibility@[i]@ == "public"@,
    {
        let p = crate::text::chars_of("public");
        let mut i: usize = 0;
        while i < self.visibility.len()
            invariant
                p@ == "public"@,
                i <= self.visibility@.len(),
                forall|j: int| 0 <= j < i ==> #[trigger] self.visibility@[j]@ != "public"@,
            decreases self.visibility@.len() - i,
        {
            if crate::text::eq_chars(&self.visibility[i], &p) {
                return true;
            }
            i = i + 1;
        }
        false
    }
}

} // verus!
