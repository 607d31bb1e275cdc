//! The content-rendering boundary: body text to HTML.
//!
//! Rendering itself is an external collaborator; the engine names its
//! result and builds on it without restating it.

use vstd::prelude::*;
use crate::text::{chars_of, string_of};

verus! {

/// The HTML rendering of a body text. The rendering depends on the text
/// alone.
pub uninterp spec fn html_of(body: Seq<char>) -> Seq<char>;

/// Relies on `markdown::to_html_with_options` with default options: the
/// rendered HTML is a function of the input text alone; with the default
/// (non-MDX) options the parser reports an error only through the `Err`
/// variant, which carries a message.
#[verifier::external_body]
fn markdown_to_html(src: &str) -> (r: Result<String, String>)
    ensures
        r matches Ok(h) ==> h@ == html_of(src@),
{
    match markdown::to_html_with_options(src, &markdown::Options::default()) {
        Ok(h) => Ok(h),
        Err(e) => Err(e.to_string()),
    }
}

/// Render a body text to HTML; an error carries the renderer's message.
pub fn render_markdown(src: &Vec<char>) -> (r: Result<Vec<char>, String>)
    ensures
        r matches Ok(h) ==> h@ == html_of(src@),
{
    let s = string_of(src);
    match markdown_to_html(s.as_str()) {
        Ok(h) => Ok(chars_of(h.as_str())),
        Err(e) => Err(e),
    }
}

} // verus!
