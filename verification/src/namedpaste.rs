//! Headers of a paste served under the file name it was uploaded with.

use vstd::prelude::*;

use rocket::http::ContentType;

use crate::text::{concat3, path_extension, path_extension_of};

verus! {

/// The value of the `Content-Disposition` header for a paste named `name`: `filename="{name}"`.
pub fn content_disposition(name: &str) -> (r: String)
    ensures
        r@ == "filename=\""@ + name@ + "\""@,
{
    concat3("filename=\"", name, "\"")
}

/// The media type that `rocket::http::ContentType::from_extension` gives for the extension
/// `ext`, as the type displays it.
pub uninterp spec fn content_type_for_extension(ext: Seq<char>) -> Option<Seq<char>>;

/// True when `o` holds a string whose characters are `v`, or nothing when `v` is nothing.
pub open spec fn holds(o: Option<String>, v: Option<Seq<char>>) -> bool {
    match v {
        Some(s) => o matches Some(t) && t@ == s,
        None => o is None,
    }
}

/// The media type of an extension, from `ContentType::from_extension`, displayed.
/// Trusted: the contract claims that it is what `content_type_for_extension` names.
#[verifier::external_body]
fn content_type_of(ext: &str) -> (r: Option<String>)
    ensures
        holds(r, content_type_for_extension(ext@)),
{
    ContentType::from_extension(ext).map(|ct| ct.to_string())
}

/// The media type a paste named `name` is served with: that of its extension, if it has one
/// that is known.
pub open spec fn paste_content_type(name: Seq<char>) -> Option<Seq<char>> {
    match path_extension(name) {
        Some(ext) => content_type_for_extension(ext),
        None => None,
    }
}

/// The `Content-Type` and `Content-Disposition` values for a paste uploaded under `name`;
/// neither when it has no name.
pub fn paste_headers(name: Option<&str>) -> (r: (Option<String>, Option<String>))
    ensures
        match name {
            Some(n) => holds(r.0, paste_content_type(n@)) && holds(
                r.1,
                Some("filename=\""@ + n@ + "\""@),
            ),
            None => r.0 is None && r.1 is None,
        },
{
    match name {
        None => (None, None),
        Some(n) => {
            let content_type = match path_extension_of(n) {
                Some(ext) => content_type_of(ext.as_str()),
                None => None,
            };
            (content_type, Some(content_disposition(n)))
        },
    }
}

} // verus!
