//! Identifiers of pastes, in the form used before short URLs existed: every paste lives under
//! `upload/`, and its addresses hang off a base URL.

use vstd::prelude::*;

use crate::id::{
    del_suffix, generate_unused, id_length_cap, id_path, json_suffix, names_fit,
    shorter_lengths_taken, FIRST_ID_LEN, PASTE_ROOT,
};
use crate::text::{all_base62, concat3, names_contain};

pub use crate::id::generate_id;

verus! {

/// A paste, named by its identifier.
pub struct PasteId {
    id: String,
}

impl View for PasteId {
    type V = Seq<char>;

    closed spec fn view(&self) -> Seq<char> {
        self.id@
    }
}

impl PasteId {
    /// A new paste whose identifier is none of `taken` (the names found under `upload/`).
    pub fn generate(taken: &Vec<String>) -> (r: PasteId)
        requires
            names_fit(taken@),
        ensures
            !names_contain(taken@, r@),
            all_base62(r@),
            FIRST_ID_LEN <= r@.len() <= id_length_cap(taken@),
            shorter_lengths_taken(taken@, r@.len() as int),
    {
        PasteId { id: generate_unused(taken) }
    }

    /// The paste named `id`, when a file of that name exists under `upload/`.
    pub fn from_id(id: &str, exists: bool) -> (r: Option<PasteId>)
        ensures
            exists <==> r is Some,
            r matches Some(p) ==> p@ == id@,
    {
        if exists {
            Some(PasteId { id: String::from_str(id) })
        } else {
            None
        }
    }

    /// The paste's identifier.
    pub fn id(&self) -> (r: String)
        ensures
            r@ == self@,
    {
        self.id.clone()
    }

    /// Path of the paste's content: `upload/{id}`.
    pub fn filename(&self) -> (r: String)
        ensures
            r@ == PASTE_ROOT@ + seq!['/'] + self@,
    {
        id_path(PASTE_ROOT, self.id.as_str())
    }

    /// The address at which the paste is served raw: `{base}/{id}`.
    pub fn url(&self, base: &str) -> (r: String)
        ensures
            r@ == base@ + "/"@ + self@,
    {
        concat3(base, "/", self.id.as_str())
    }

    /// The address of the paste's highlighted page: `{base}/h/{id}`.
    pub fn source_url(&self, base: &str) -> (r: String)
        ensures
            r@ == base@ + "/h/"@ + self@,
    {
        concat3(base, "/h/", self.id.as_str())
    }

    /// Path of the paste's description: `upload/{id}.json`.
    pub fn json(&self) -> (r: String)
        ensures
            r@ == PASTE_ROOT@ + seq!['/'] + self@ + json_suffix(),
    {
        let r = id_path(PASTE_ROOT, self.id.as_str()).concat(".json");
        proof {
            reveal_strlit(".json");
        }
        r
    }

    /// Path of the marker that the paste was deleted: `upload/{id}.del`.
    pub fn del(&self) -> (r: String)
        ensures
            r@ == PASTE_ROOT@ + seq!['/'] + self@ + del_suffix(),
    {
        let r = id_path(PASTE_ROOT, self.id.as_str()).concat(".del");
        proof {
            reveal_strlit(".del");
        }
        r
    }
}

} // verus!
