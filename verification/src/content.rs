//! Content classification: which category an asset's path falls in, whether
//! that category is minified, and the header tokens a response carries.

use vstd::prelude::*;

verus! {

/// Classification of an asset by its path's extension; it decides whether
/// minification applies and which `content-type` the response carries.
#[derive(Clone, Copy, PartialEq, Eq, Structural, Debug)]
pub enum ContentCategory {
    Html,
    Javascript,
    Css,
    Other,
}

/// Compression scheme applied to a response body: brotli when compression
/// succeeded, the identity (raw bytes) when it was skipped as a fallback.
#[derive(Clone, Copy, PartialEq, Eq, Structural, Debug)]
pub enum Encoding {
    Brotli,
    Identity,
}

/// True for the categories the minifier is run on.
pub open spec fn minifiable(cat: ContentCategory) -> bool {
    cat is Html || cat is Javascript || cat is Css
}

/// The path ends in `.html` (bytes 46 104 116 109 108).
pub open spec fn spec_is_html_path(s: Seq<u8>) -> bool {
    &&& s.len() >= 5
    &&& s[s.len() - 5] == 46
    &&& s[s.len() - 4] == 104
    &&& s[s.len() - 3] == 116
    &&& s[s.len() - 2] == 109
    &&& s[s.len() - 1] == 108
}

/// The path ends in `.js` (bytes 46 106 115).
pub open spec fn spec_is_js_path(s: Seq<u8>) -> bool {
    &&& s.len() >= 3
    &&& s[s.len() - 3] == 46
    &&& s[s.len() - 2] == 106
    &&& s[s.len() - 1] == 115
}

/// The path ends in `.css` (bytes 46 99 115 115).
pub open spec fn spec_is_css_path(s: Seq<u8>) -> bool {
    &&& s.len() >= 4
    &&& s[s.len() - 4] == 46
    &&& s[s.len() - 3] == 99
    &&& s[s.len() - 2] == 115
    &&& s[s.len() - 1] == 115
}

/// Category of a path key, decided by its extension.
pub open spec fn spec_category_of(s: Seq<u8>) -> ContentCategory {
    if spec_is_html_path(s) {
        ContentCategory::Html
    } else if spec_is_js_path(s) {
        ContentCategory::Javascript
    } else if spec_is_css_path(s) {
        ContentCategory::Css
    } else {
        ContentCategory::Other
    }
}

impl ContentCategory {
    /// Executable mirror of `minifiable`.
    pub fn is_minifiable(self) -> (r: bool)
        ensures
            r == minifiable(self),
    {
        match self {
            ContentCategory::Html => true,
            ContentCategory::Javascript => true,
            ContentCategory::Css => true,
            ContentCategory::Other => false,
        }
    }
}

/// Classifies a path key by its extension.
pub fn category_of(key: &Vec<u8>) -> (r: ContentCategory)
    ensures
        r == spec_category_of(key@),
{
    let n = key.len();
    if n >= 5 && key[n - 5] == 46 && key[n - 4] == 104 && key[n - 3] == 116 && key[n - 2] == 109
        && key[n - 1] == 108 {
        ContentCategory::Html
    } else if n >= 3 && key[n - 3] == 46 && key[n - 2] == 106 && key[n - 1] == 115 {
        ContentCategory::Javascript
    } else if n >= 4 && key[n - 4] == 46 && key[n - 3] == 99 && key[n - 2] == 115 && key[n - 1]
        == 115 {
        ContentCategory::Css
    } else {
        ContentCategory::Other
    }
}

/// The `content-type` header value for a category; `Other` maps to a generic
/// octet-stream type.
pub fn content_type_value(cat: ContentCategory) -> (r: &'static str)
    ensures
        cat is Html ==> r@ == "text/html"@,
        cat is Javascript ==> r@ == "text/javascript"@,
        cat is Css ==> r@ == "text/css"@,
        cat is Other ==> r@ == "application/octet-stream"@,
{
    match cat {
        ContentCategory::Html => "text/html",
        ContentCategory::Javascript => "text/javascript",
        ContentCategory::Css => "text/css",
        ContentCategory::Other => "application/octet-stream",
    }
}

/// The `content-encoding` header token for a scheme.
pub fn encoding_token(enc: Encoding) -> (r: &'static str)
    ensures
        enc is Brotli ==> r@ == "br"@,
        enc is Identity ==> r@ == "identity"@,
{
    match enc {
        Encoding::Brotli => "br",
        Encoding::Identity => "identity",
    }
}

} // verus!
