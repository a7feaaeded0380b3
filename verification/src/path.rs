//! Remote folder paths: lexical cleaning and the leading-slash rule.
//!
//! A path a caller hands in is cleaned lexically (duplicate separators,
//! `.` and `..` elements) and loses its leading slash, so that walking
//! it from the root folder sees only the component names.

use vstd::prelude::*;

verus! {

/// What lexically cleaning a path yields: a pure function of the text
/// alone (duplicate slashes collapsed, `.` and `..` elements resolved,
/// the empty path turned into `"."`).
pub uninterp spec fn cleaned_of(path: Seq<char>) -> Seq<char>;

/// Relies on path_clean::clean: the lexical `cleanname` rules — a pure
/// transform of the path text under this platform's component syntax,
/// touching no filesystem — which never yields an empty path (an empty
/// input cleans to `"."`).  The cleaned path is assembled from pieces
/// of the given text and literal separators, so reading it back as
/// text always succeeds.
#[verifier::external_body]
fn clean_path(path: &str) -> (r: String)
    ensures
        r@ == cleaned_of(path@),
        r@.len() > 0,
{
    match path_clean::clean(path).to_str() {
        Some(s) => s.to_string(),
        None => String::new(),
    }
}

/// The cleaned path without a leading slash.
pub open spec fn deslashed(cleaned: Seq<char>) -> Seq<char> {
    if cleaned.len() > 0 && cleaned[0] == '/' {
        cleaned.drop_first()
    } else {
        cleaned
    }
}

/// Strips one leading slash, if any.
pub fn strip_root(path: &str) -> (r: String)
    ensures
        r@ == deslashed(path@),
{
    let n = path.unicode_len();
    if n > 0 && path.get_char(0) == '/' {
        let rest = path.substring_char(1, n);
        proof {
            assert(rest@ =~= path@.drop_first());
        }
        rest.to_owned()
    } else {
        path.to_owned()
    }
}

/// Cleans a path lexically and strips the leading slash, so `"/a/b/"`
/// becomes `"a/b"` and `"/"` becomes the empty string.
pub fn slash(path: &str) -> (r: Result<String, String>)
    ensures
        r matches Ok(s) && s@ == deslashed(cleaned_of(path@)),
{
    let cleaned = clean_path(path);
    Ok(strip_root(cleaned.as_str()))
}

} // verus!
