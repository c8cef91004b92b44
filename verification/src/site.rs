//! What the web pages and responses are made of: the protocol of links, the paste counter,
//! the identifier a request names, and the contents of the rendered pages.

use vstd::prelude::*;

use crate::id::{DankId, PasteId};
use crate::info::{PasteInfo, RequestInfo};
use crate::text::{
    all_base62, before_last_dot, extension_dot, has_dot, is_base62, is_last_dot, lemma_last_dot,
    split_extension, strip_last_dot,
};

verus! {

/// Name and version shown on the pages.
pub const VERSION: &'static str = "dank-paste v0.2.4";

/// The protocol of the links the site hands out: `http` when the first command-line
/// argument is exactly `http`, else `https`.
pub fn proto(first_arg: Option<&str>) -> (r: String)
    ensures
        r@ == if first_arg matches Some(a) && a@ == "http"@ {
            "http"@
        } else {
            "https"@
        },
{
    match first_arg {
        Some(s) => {
            let arg = String::from_str(s);
            let http = String::from_str("http");
            if arg == http {
                return http;
            }
            String::from_str("https")
        },
        None => String::from_str("https"),
    }
}

/// The number of names in `names` that have no extension: the pastes' contents, as opposed
/// to their descriptions and deletion markers.
pub open spec fn data_file_count(names: Seq<String>) -> nat
    decreases names.len(),
{
    if names.len() == 0 {
        0
    } else {
        data_file_count(names.drop_last()) + if extension_dot(names.last()@) is None {
            1nat
        } else {
            0nat
        }
    }
}

/// Counting data files never finds more files than there are names.
pub proof fn lemma_data_file_count_bounded(names: Seq<String>)
    ensures
        data_file_count(names) <= names.len(),
    decreases names.len(),
{
    if names.len() > 0 {
        lemma_data_file_count_bounded(names.drop_last());
    }
}

/// True for a name without extension: a paste's content.
pub open spec fn is_data_name(s: String) -> bool {
    extension_dot(s@) is None
}

/// No names count nothing, and one more name counts one more exactly when it has no extension.
pub proof fn lemma_data_file_count_push(names: Seq<String>, n: String)
    ensures
        data_file_count(Seq::<String>::empty()) == 0,
        data_file_count(names.push(n)) == data_file_count(names) + if extension_dot(n@) is None {
            1int
        } else {
            0int
        },
{
    assert(names.push(n).drop_last() =~= names);
}

/// The count is the number of names without extension among all the names.
pub proof fn lemma_data_file_count_is_filter(names: Seq<String>)
    ensures
        data_file_count(names) == names.filter(|s: String| is_data_name(s)).len(),
    decreases names.len(),
{
    reveal(Seq::filter);
    if names.len() > 0 {
        lemma_data_file_count_is_filter(names.drop_last());
    }
}

/// The number of stored items: pastes (names without extension under `upload/`) plus
/// short URLs (every entry under `shorts/`).
pub fn count_paste(upload_names: &Vec<String>, shorts_count: usize) -> (r: usize)
    requires
        upload_names@.len() + shorts_count <= usize::MAX,
    ensures
        r == data_file_count(upload_names@) + shorts_count,
{
    let n = upload_names.len();
    let mut paste: usize = 0;
    let mut i: usize = 0;
    while i < n
        invariant
            i <= n,
            n == upload_names@.len(),
            paste == data_file_count(upload_names@.subrange(0, i as int)),
            paste <= i,
        decreases n - i,
    {
        proof {
            assert(upload_names@.subrange(0, i + 1).drop_last() =~= upload_names@.subrange(
                0,
                i as int,
            ));
        }
        match split_extension(upload_names[i].as_str()) {
            Some(_) => {},
            None => {
                paste = paste + 1;
            },
        }
        i = i + 1;
    }
    proof {
        assert(upload_names@.subrange(0, n as int) =~= upload_names@);
    }
    paste + shorts_count
}

/// The identifier that a request for `id` names: `id` without what follows its last `.`,
/// so that `abc.txt` and `abc.rs` both name the paste `abc`.
pub fn requested_id(id: &str) -> (r: String)
    ensures
        r@ == before_last_dot(id@),
{
    strip_last_dot(id)
}

/// A paste whose expiry is 0 is deleted once it has been read.
pub fn burns_after_reading(info: &PasteInfo) -> (r: bool)
    ensures
        r == (info.expire == 0),
{
    info.expire == 0
}

/// How a request for a stored paste is answered.
pub enum PasteAccess {
    /// The paste was marked deleted: it is not served.
    Gone,
    /// The paste is served.
    Serve,
    /// The paste is served, and marked deleted so that it is served only this once.
    ServeAndBurn,
}

/// How a request for a stored paste is answered: not at all once it is marked deleted;
/// served and marked deleted when its expiry is 0; else served.
pub open spec fn access_spec(del_exists: bool, info: Option<PasteInfo>) -> PasteAccess {
    if del_exists {
        PasteAccess::Gone
    } else if info matches Some(i) && i.expire == 0 {
        PasteAccess::ServeAndBurn
    } else {
        PasteAccess::Serve
    }
}

/// A paste whose expiry is 0 is served once: the first request serves it and marks it
/// deleted, and every request once the marker exists is refused, whatever the description.
pub proof fn lemma_burn_after_reading_serves_once(info: PasteInfo, later: Option<PasteInfo>)
    requires
        info.expire == 0,
    ensures
        access_spec(false, Some(info)) == PasteAccess::ServeAndBurn,
        access_spec(true, later) == PasteAccess::Gone,
{
}

/// A paste with a nonzero expiry and no marker is served without being marked.
pub proof fn lemma_lasting_paste_is_served(info: PasteInfo)
    requires
        info.expire != 0,
    ensures
        access_spec(false, Some(info)) == PasteAccess::Serve,
{
}

/// How a request for a stored paste is answered, given whether its deletion marker exists and
/// its description when it has one (read only when there is no marker).
pub fn paste_access(del_exists: bool, info: Option<PasteInfo>) -> (r: PasteAccess)
    ensures
        r == access_spec(del_exists, info),
{
    if del_exists {
        return PasteAccess::Gone;
    }
    match info {
        Some(i) => {
            if burns_after_reading(&i) {
                PasteAccess::ServeAndBurn
            } else {
                PasteAccess::Serve
            }
        },
        None => PasteAccess::Serve,
    }
}

/// An identifier with an extension names the same paste as the identifier alone.
pub proof fn lemma_extension_names_same_paste(id: Seq<char>, ext: Seq<char>)
    requires
        all_base62(id),
        !has_dot(ext),
    ensures
        before_last_dot(id + seq!['.'] + ext) == id,
        before_last_dot(id) == id,
{
    let s = id + seq!['.'] + ext;
    let i = id.len() as int;
    assert(s[i] == '.');
    assert forall|k: int| i < k < s.len() implies s[k] != '.' by {
        assert(s[k] == ext[k - i - 1]);
    }
    assert(is_last_dot(s, i));
    lemma_last_dot(s);
    assert(s.subrange(0, i) =~= id);
    assert(!has_dot(id)) by {
        if has_dot(id) {
            let j = choose|j: int| 0 <= j < id.len() && id[j] == '.';
            assert(is_base62(id[j]));
        }
    }
}

/// What the highlighted page of a paste shows.
pub struct PrettyCtx {
    pub content: String,
    pub version: String,
    pub id: String,
    pub url: String,
    pub pretty: String,
}

impl PrettyCtx {
    /// The page of paste `id` with content `content`, linking to it on `host`.
    pub fn new(id: PasteId, content: String, host: RequestInfo, proto: &str) -> (r: PrettyCtx)
        ensures
            r.content == content,
            r.version@ == VERSION@,
            r.id@ == id@,
            r.url@ == proto@ + "://"@ + host.host@ + "/"@ + id@,
            r.pretty@ == proto@ + "://"@ + host.host@ + "/h/"@ + id@,
    {
        PrettyCtx {
            content: content,
            version: String::from_str(VERSION),
            id: id.id(),
            url: id.url(proto, host.host.as_str()),
            pretty: id.source_url(proto, host.host.as_str()),
        }
    }
}

/// The answer to a successful post of a paste.
pub struct UploadResponse {
    pub id: String,
    pub expire: u64,
    pub raw_url: String,
    pub source_url: String,
}

impl UploadResponse {
    /// The answer naming paste `id`, with the expiry of `info` and its links on `host`.
    pub fn new(id: PasteId, info: PasteInfo, host: &str, proto: &str) -> (r: UploadResponse)
        ensures
            r.id@ == id@,
            r.expire == info.expire,
            r.raw_url@ == proto@ + "://"@ + host@ + "/"@ + id@,
            r.source_url@ == proto@ + "://"@ + host@ + "/h/"@ + id@,
    {
        UploadResponse {
            id: id.id(),
            expire: info.expire,
            raw_url: id.url(proto, host),
            source_url: id.source_url(proto, host),
        }
    }
}

} // verus!
