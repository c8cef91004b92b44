//! Descriptions of stored items, and the request headers and bodies they are made from.

use vstd::prelude::*;
use vstd::utf8::{decode_utf8, valid_utf8};

use crate::paste_dog::{DEFAULT_AGE, MAX_AGE};
use crate::text::{parse_u64, parse_u64_spec};

verus! {

/// A stored item's description, which tells how long it lives.
pub trait DankInfo {
    /// The item's expiry, in seconds.
    spec fn expire_of(&self) -> u64;

    /// The item's expiry, in seconds.
    fn expire(&self) -> (r: u64)
        ensures
            r == self.expire_of(),
    ;
}

/// Description of a paste.
pub struct PasteInfo {
    pub expire: u64,
    pub name: Option<String>,
}

impl PasteInfo {
    /// A description with expiry `secs` and the file name the paste was sent with.
    pub fn new(secs: u64, name: Option<String>) -> (r: PasteInfo)
        ensures
            r.expire == secs,
            r.name == name,
    {
        PasteInfo { expire: secs, name: name }
    }
}

impl DankInfo for PasteInfo {
    open spec fn expire_of(&self) -> u64 {
        self.expire
    }

    fn expire(&self) -> (r: u64) {
        self.expire
    }
}

/// Description of a short URL.
pub struct UrlInfo {
    pub expire: u64,
    pub target: String,
}

impl UrlInfo {
    /// A description with expiry `expire` that redirects to `target`.
    pub fn new(expire: u64, target: String) -> (r: UrlInfo)
        ensures
            r.expire == expire,
            r.target == target,
    {
        UrlInfo { expire: expire, target: target }
    }
}

impl DankInfo for UrlInfo {
    open spec fn expire_of(&self) -> u64 {
        self.expire
    }

    fn expire(&self) -> (r: u64) {
        self.expire
    }
}

/// The expiry that a request asks for: the `expire` header when it is at most `MAX_AGE`,
/// else `DEFAULT_AGE`.
pub open spec fn requested_expire(header: Option<Seq<char>>) -> u64 {
    match header {
        Some(h) => {
            let v = parse_u64_spec(h).unwrap();
            if v > MAX_AGE {
                DEFAULT_AGE
            } else {
                v
            }
        },
        None => DEFAULT_AGE,
    }
}

/// A requested expiry of at most `MAX_AGE` is kept as asked; a longer one, or none, gives
/// `DEFAULT_AGE`.
pub proof fn lemma_requested_expire_kept_up_to_max(h: Seq<char>, v: u64)
    requires
        parse_u64_spec(h) == Some(v),
    ensures
        v <= MAX_AGE ==> requested_expire(Some(h)) == v,
        v > MAX_AGE ==> requested_expire(Some(h)) == DEFAULT_AGE,
        requested_expire(None) == DEFAULT_AGE,
{
}

/// The characters of an optional header.
pub open spec fn header_view(header: Option<&str>) -> Option<Seq<char>> {
    match header {
        Some(h) => Some(h@),
        None => None,
    }
}

/// True when an optional header is absent or holds a number that fits in 64 bits.
pub open spec fn header_number_ok(header: Option<&str>) -> bool {
    match header {
        Some(h) => parse_u64_spec(h@) is Some,
        None => true,
    }
}

/// What a post tells of itself in its headers.
pub struct RequestInfo {
    pub expire: u64,
    pub host: String,
    pub name: Option<String>,
}

impl RequestInfo {
    /// Reads the `expire`, `Host` and `filename` headers of a post.
    pub fn from_headers(expire: Option<&str>, host: &str, name: Option<&str>) -> (r: RequestInfo)
        requires
            header_number_ok(expire),
        ensures
            r.expire == requested_expire(header_view(expire)),
            r.expire <= MAX_AGE,
            expire matches Some(h) ==> (parse_u64_spec(h@).unwrap() <= MAX_AGE ==> r.expire
                == parse_u64_spec(h@).unwrap()),
            expire matches Some(h) ==> (parse_u64_spec(h@).unwrap() > MAX_AGE ==> r.expire
                == DEFAULT_AGE),
            expire is None ==> r.expire == DEFAULT_AGE,
            r.host@ == host@,
            r.name is Some <==> name is Some,
            r.name matches Some(n) ==> n@ == name.unwrap()@,
    {
        let exp = match expire {
            Some(req_expire) => {
                let parsed = parse_u64(req_expire).unwrap();
                if parsed > MAX_AGE {
                    DEFAULT_AGE
                } else {
                    parsed
                }
            },
            None => DEFAULT_AGE,
        };
        let name = match name {
            Some(n) => Some(String::from_str(n)),
            None => None,
        };
        RequestInfo { expire: exp, host: String::from_str(host), name: name }
    }
}

/// Most bytes of a body that a short URL is read from.
pub const URL_BODY_LIMIT: usize = 2048;

/// The bytes of a body that a short URL is read from.
pub open spec fn url_body_prefix(body: Seq<u8>) -> Seq<u8> {
    if body.len() > URL_BODY_LIMIT {
        body.subrange(0, URL_BODY_LIMIT as int)
    } else {
        body
    }
}

/// Decodes bytes as UTF-8 with `String::from_utf8`.
/// Trusted: the contract claims that it succeeds exactly on valid UTF-8, and then holds the
/// characters that the bytes encode.
#[verifier::external_body]
fn string_from_utf8(bytes: Vec<u8>) -> (r: Option<String>)
    ensures
        r is Some <==> valid_utf8(bytes@),
        r matches Some(s) ==> s@ == decode_utf8(bytes@),
{
    String::from_utf8(bytes).ok()
}

/// The body of a request for a short URL.
pub struct UrlShortRequest {
    pub url: String,
}

impl UrlShortRequest {
    /// The URL held in the first `URL_BODY_LIMIT` bytes of a body, or `None` when they are
    /// not valid UTF-8.
    pub fn from_body(body: Vec<u8>) -> (r: Option<UrlShortRequest>)
        ensures
            r is Some <==> valid_utf8(url_body_prefix(body@)),
            r matches Some(req) ==> req.url@ == decode_utf8(url_body_prefix(body@)),
    {
        let ghost original = body@;
        let mut bytes = body;
        bytes.truncate(URL_BODY_LIMIT);
        assert(bytes@ == url_body_prefix(original));
        match string_from_utf8(bytes) {
            Some(url) => Some(UrlShortRequest { url: url }),
            None => None,
        }
    }
}

} // verus!
