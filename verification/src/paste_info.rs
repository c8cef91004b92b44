//! Descriptions of pastes and their paths, in the form used before short URLs existed.

use vstd::prelude::*;

use crate::id::{del_suffix, id_path, json_suffix, PASTE_ROOT};
use crate::info::header_number_ok;
use crate::paste_dog::MAX_AGE;
use crate::text::{parse_u64, parse_u64_spec};

verus! {

/// Description of a paste.
pub struct PasteInfo {
    pub expire: u64,
}

/// The expiry a request asks for in its `expire` header; `MAX_AGE` when it has none.
pub open spec fn header_age(header: Option<&str>) -> u64 {
    match header {
        Some(h) => parse_u64_spec(h@).unwrap(),
        None => MAX_AGE,
    }
}

impl PasteInfo {
    /// A description with expiry `secs`.
    pub fn new(secs: u64) -> (r: PasteInfo)
        ensures
            r.expire == secs,
    {
        PasteInfo { expire: secs }
    }

    /// The description a post asks for with its `expire` header.
    pub fn from_header(expire: Option<&str>) -> (r: PasteInfo)
        requires
            header_number_ok(expire),
        ensures
            r.expire == header_age(expire),
    {
        let mut age: u64 = MAX_AGE;
        if let Some(ex) = expire {
            age = parse_u64(ex).unwrap();
        }
        PasteInfo::new(age)
    }
}

/// The paths of one paste.
pub struct PastePath(String);

impl View for PastePath {
    type V = Seq<char>;

    closed spec fn view(&self) -> Seq<char> {
        self.0@
    }
}

impl PastePath {
    /// The paths of the paste `id`.
    pub fn new(id: String) -> (r: PastePath)
        ensures
            r@ == id@,
    {
        PastePath(id)
    }

    /// Path of the paste's content: `upload/{id}`.
    pub fn data(&self) -> (r: String)
        ensures
            r@ == PASTE_ROOT@ + seq!['/'] + self@,
    {
        id_path(PASTE_ROOT, self.0.as_str())
    }

    /// Path of the paste's description: `upload/{id}.json`.
    pub fn json(&self) -> (r: String)
        ensures
            r@ == PASTE_ROOT@ + seq!['/'] + self@ + json_suffix(),
    {
        let r = id_path(PASTE_ROOT, self.0.as_str()).concat(".json");
        proof {
            reveal_strlit(".json");
        }
        r
    }

    /// Path of the marker that the paste was deleted: `upload/{id}.del`.
    pub fn del(&self) -> (r: String)
        ensures
            r@ == PASTE_ROOT@ + seq!['/'] + self@ + del_suffix(),
    {
        let r = id_path(PASTE_ROOT, self.0.as_str()).concat(".del");
        proof {
            reveal_strlit(".del");
        }
        r
    }
}

} // verus!
