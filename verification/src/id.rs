//! Identifiers of pastes and short URLs: random base-62 names that no stored item uses yet,
//! and the paths and URLs derived from them.

use vstd::prelude::*;

use rand::rngs::ThreadRng;
use rand::Rng;

use crate::text::{
    all_base62, base62_char, base62_digit, concat3, contains_name, is_base62, names_contain, push_char,
};

verus! {

/// Directory that holds the pastes.
pub const PASTE_ROOT: &'static str = "upload";

/// Directory that holds the short URLs.
pub const URL_ROOT: &'static str = "shorts";

/// Length of the first identifiers tried.
pub const FIRST_ID_LEN: usize = 2;

/// Number of further attempts at one length before the length grows.
pub const TRIES_PER_LEN: u32 = 6;

#[verifier::external_type_specification]
#[verifier::external_body]
pub struct ExThreadRng(ThreadRng);

/// The thread-local generator, from `rand::thread_rng`.
/// Trusted: nothing is claimed of the generator that comes back.
#[verifier::external_body]
fn thread_rng() -> ThreadRng {
    rand::thread_rng()
}

/// A random `usize`, from `Rng::gen::<usize>`.
/// Trusted: nothing is claimed of the value, which is random.
#[verifier::external_body]
fn random_usize(rng: &mut ThreadRng) -> usize {
    rng.gen::<usize>()
}

/// The identifier character for the random draw `r`: the entry `r % 62` of the table `0-9A-Za-z`.
pub fn char_of_draw(r: usize) -> (c: char)
    ensures
        c == base62_digit((r % 62) as int),
        is_base62(c),
{
    base62_char(r % 62)
}

/// The identifier spelled by the draws `draws`: one character per draw, the entry
/// `draw % 62` of the table `0-9A-Za-z`.
pub fn id_from_draws(draws: &Vec<usize>) -> (id: String)
    ensures
        id@.len() == draws@.len(),
        forall|k: int| 0 <= k < draws@.len() ==> id@[k] == base62_digit((draws@[k] % 62) as int),
        all_base62(id@),
{
    let mut id = String::new();
    let n = draws.len();
    let mut i: usize = 0;
    while i < n
        invariant
            i <= n,
            n == draws@.len(),
            id@.len() == i,
            forall|k: int| 0 <= k < i ==> id@[k] == base62_digit((draws@[k] % 62) as int),
            all_base62(id@),
        decreases n - i,
    {
        let c = char_of_draw(draws[i]);
        let ghost before = id@;
        push_char(&mut id, c);
        proof {
            assert forall|k: int| 0 <= k < id@.len() implies #[trigger] is_base62(id@[k]) by {
                if k < i {
                    assert(id@[k] == before[k]);
                }
            }
            assert forall|k: int| 0 <= k < i + 1 implies id@[k] == base62_digit(
                (draws@[k] % 62) as int,
            ) by {
                if k < i {
                    assert(id@[k] == before[k]);
                }
            }
        }
        i = i + 1;
    }
    id
}

/// Different characters of the table stand at different places in it.
pub proof fn lemma_base62_digit_injective(x: int, y: int)
    requires
        0 <= x < 62,
        0 <= y < 62,
        base62_digit(x) == base62_digit(y),
    ensures
        x == y,
{
}

/// Two sequences of draws spell the same identifier exactly when they have the same length
/// and agree, draw by draw, modulo 62.
pub proof fn lemma_draws_determine_id(a: Seq<usize>, b: Seq<usize>)
    requires
        a.len() == b.len(),
    ensures
        (forall|k: int| 0 <= k < a.len() ==> base62_digit((a[k] % 62) as int) == base62_digit(
            (b[k] % 62) as int,
        )) <==> (forall|k: int| 0 <= k < a.len() ==> #[trigger] (a[k] % 62) == b[k] % 62),
{
    if forall|k: int| 0 <= k < a.len() ==> base62_digit((a[k] % 62) as int) == base62_digit(
        (b[k] % 62) as int,
    ) {
        assert forall|k: int| 0 <= k < a.len() implies #[trigger] (a[k] % 62) == b[k] % 62 by {
            lemma_base62_digit_injective((a[k] % 62) as int, (b[k] % 62) as int);
        }
    }
}

/// A random identifier of `size` characters, each drawn from `0-9A-Za-z`: one random draw
/// per character, spelled with `id_from_draws`.
pub fn generate_id(size: usize) -> (id: String)
    ensures
        id@.len() == size,
        all_base62(id@),
{
    let mut rng = thread_rng();
    let mut draws: Vec<usize> = Vec::new();
    let mut i: usize = 0;
    while i < size
        invariant
            i <= size,
            draws@.len() == i,
        decreases size - i,
    {
        draws.push(random_usize(&mut rng));
        i = i + 1;
    }
    id_from_draws(&draws)
}

/// The length of the longest of `names` (0 when there are none).
pub open spec fn longest_name(names: Seq<String>) -> nat
    decreases names.len(),
{
    if names.len() == 0 {
        0
    } else {
        let l = names.last()@.len();
        let m = longest_name(names.drop_last());
        if l > m {
            l
        } else {
            m
        }
    }
}

/// The longest identifier that the search for an unused one can end on.
pub open spec fn id_length_cap(names: Seq<String>) -> nat {
    if longest_name(names) + 1 > 2 {
        longest_name(names) + 1
    } else {
        2
    }
}

/// A name in `names` is no longer than the longest of them.
pub proof fn lemma_longest_name(names: Seq<String>, s: Seq<char>)
    requires
        names_contain(names, s),
    ensures
        s.len() <= longest_name(names),
    decreases names.len(),
{
    let i = choose|i: int| 0 <= i < names.len() && (#[trigger] names[i])@ == s;
    if i < names.len() - 1 {
        assert(names.drop_last()[i] == names[i]);
        lemma_longest_name(names.drop_last(), s);
    }
}

/// True when some name in `names` has `l` characters.
pub open spec fn some_name_has_length(names: Seq<String>, l: int) -> bool {
    exists|i: int| 0 <= i < names.len() && (#[trigger] names[i])@.len() == l
}

/// True when every length from `FIRST_ID_LEN` up to, not including, `n` is the length of a
/// name in `names`: an identifier of length `n` is only tried once shorter ones collided.
pub open spec fn shorter_lengths_taken(names: Seq<String>, n: int) -> bool {
    forall|l: int| FIRST_ID_LEN <= l < n ==> #[trigger] some_name_has_length(names, l)
}

/// True when every name is shorter than `usize::MAX` characters.
pub open spec fn names_fit(names: Seq<String>) -> bool {
    forall|i: int| 0 <= i < names.len() ==> (#[trigger] names[i])@.len() < usize::MAX
}

/// An identifier that none of `taken` is. Identifiers of two characters are tried first;
/// after seven collisions at a length (six at longer lengths) the length grows by one.
/// The search ends at the latest once the length exceeds every taken name.
pub fn generate_unused(taken: &Vec<String>) -> (id: String)
    requires
        names_fit(taken@),
    ensures
        !names_contain(taken@, id@),
        all_base62(id@),
        FIRST_ID_LEN <= id@.len() <= id_length_cap(taken@),
        shorter_lengths_taken(taken@, id@.len() as int),
{
    let ghost bound: int = longest_name(taken@) as int;
    let mut len: usize = FIRST_ID_LEN;
    let mut tries: u32 = 0;
    let mut id = generate_id(len);
    while contains_name(taken, &id)
        invariant
            names_fit(taken@),
            bound == longest_name(taken@),
            id@.len() == len,
            all_base62(id@),
            FIRST_ID_LEN <= len <= id_length_cap(taken@),
            shorter_lengths_taken(taken@, len as int),
            tries <= TRIES_PER_LEN,
        decreases bound + 1 - len, TRIES_PER_LEN - tries,
    {
        proof {
            lemma_longest_name(taken@, id@);
            let i = choose|i: int| 0 <= i < taken@.len() && (#[trigger] taken@[i])@ == id@;
            assert(taken@[i]@.len() < usize::MAX);
            assert(some_name_has_length(taken@, len as int));
        }
        if tries >= TRIES_PER_LEN {
            len = len + 1;
            tries = 0;
        }
        id = generate_id(len);
        tries = tries + 1;
    }
    id
}

/// The path of the stored item `id` under the directory `root`.
pub fn id_path(root: &str, id: &str) -> (r: String)
    ensures
        r@ == root@ + seq!['/'] + id@,
{
    let r = concat3(root, "/", id);
    proof {
        reveal_strlit("/");
    }
    r
}

/// The file-name suffix of an item's description.
pub open spec fn json_suffix() -> Seq<char> {
    seq!['.', 'j', 's', 'o', 'n']
}

/// The file-name suffix of the marker that an item was deleted.
pub open spec fn del_suffix() -> Seq<char> {
    seq!['.', 'd', 'e', 'l']
}

/// `path` followed by `.json`.
fn with_json_suffix(path: String) -> (r: String)
    ensures
        r@ == path@ + json_suffix(),
{
    let r = path.concat(".json");
    proof {
        reveal_strlit(".json");
    }
    r
}

/// `path` followed by `.del`.
fn with_del_suffix(path: String) -> (r: String)
    ensures
        r@ == path@ + del_suffix(),
{
    let r = path.concat(".del");
    proof {
        reveal_strlit(".del");
    }
    r
}

/// The content, description and deletion marker of an item are three different files.
pub proof fn lemma_item_paths_distinct(root: Seq<char>, id: Seq<char>)
    ensures
        root + seq!['/'] + id != root + seq!['/'] + id + json_suffix(),
        root + seq!['/'] + id != root + seq!['/'] + id + del_suffix(),
        root + seq!['/'] + id + json_suffix() != root + seq!['/'] + id + del_suffix(),
{
    let base = root + seq!['/'] + id;
    assert((base + json_suffix()).len() == base.len() + 5);
    assert((base + del_suffix()).len() == base.len() + 4);
}

/// Different identifiers under one directory have different paths.
pub proof fn lemma_item_paths_injective(root: Seq<char>, a: Seq<char>, b: Seq<char>)
    requires
        root + seq!['/'] + a == root + seq!['/'] + b,
    ensures
        a == b,
{
    let pa = root + seq!['/'] + a;
    let pb = root + seq!['/'] + b;
    let n = root.len() + 1;
    assert(pa.subrange(n as int, pa.len() as int) =~= a);
    assert(pb.subrange(n as int, pb.len() as int) =~= b);
}

/// An item stored under a directory of its own and named by an identifier.
pub trait DankId: Sized {
    /// The directory that holds items of this kind.
    spec fn root() -> Seq<char>;

    /// The item's identifier.
    spec fn id_of(&self) -> Seq<char>;

    /// A new item whose identifier is none of `taken` (the names found in the directory).
    fn generate(taken: &Vec<String>) -> (r: Self)
        requires
            names_fit(taken@),
        ensures
            !names_contain(taken@, r.id_of()),
            all_base62(r.id_of()),
            FIRST_ID_LEN <= r.id_of().len() <= id_length_cap(taken@),
            shorter_lengths_taken(taken@, r.id_of().len() as int),
    ;

    /// The item named `id`, when a file of that name exists in the directory.
    fn from_id(id: &str, exists: bool) -> (r: Option<Self>)
        ensures
            exists <==> r is Some,
            r matches Some(item) ==> item.id_of() == id@,
    ;

    /// The item's identifier.
    fn id(&self) -> (r: String)
        ensures
            r@ == self.id_of(),
    ;

    /// Path of the item's content.
    fn filename(&self) -> (r: String)
        ensures
            r@ == Self::root() + seq!['/'] + self.id_of(),
    ;

    /// Path of the item's description.
    fn json(&self) -> (r: String)
        ensures
            r@ == Self::root() + seq!['/'] + self.id_of() + json_suffix(),
    ;

    /// Path of the marker that the item was deleted.
    fn del(&self) -> (r: String)
        ensures
            r@ == Self::root() + seq!['/'] + self.id_of() + del_suffix(),
    ;
}

/// A paste, named by its identifier.
pub struct PasteId {
    id: String,
}

impl View for PasteId {
    type V = Seq<char>;

    closed spec fn view(&self) -> Seq<char> {
        self.id@
    }
}

impl PasteId {
    /// The address at which the paste is served raw: `{proto}://{host}/{id}`.
    pub fn url(&self, proto: &str, host: &str) -> (r: String)
        ensures
            r@ == proto@ + "://"@ + host@ + "/"@ + self@,
    {
        concat3(concat3(proto, "://", host).as_str(), "/", self.id.as_str())
    }

    /// The address of the paste's highlighted page: `{proto}://{host}/h/{id}`.
    pub fn source_url(&self, proto: &str, host: &str) -> (r: String)
        ensures
            r@ == proto@ + "://"@ + host@ + "/h/"@ + self@,
    {
        concat3(concat3(proto, "://", host).as_str(), "/h/", self.id.as_str())
    }
}

impl DankId for PasteId {
    open spec fn root() -> Seq<char> {
        PASTE_ROOT@
    }

    open spec fn id_of(&self) -> Seq<char> {
        self@
    }

    fn generate(taken: &Vec<String>) -> (r: Self) {
        PasteId { id: generate_unused(taken) }
    }

    fn from_id(id: &str, exists: bool) -> (r: Option<Self>) {
        if exists {
            Some(PasteId { id: String::from_str(id) })
        } else {
            None
        }
    }

    fn id(&self) -> (r: String) {
        self.id.clone()
    }

    fn filename(&self) -> (r: String) {
        id_path(PASTE_ROOT, self.id.as_str())
    }

    fn json(&self) -> (r: String) {
        with_json_suffix(id_path(PASTE_ROOT, self.id.as_str()))
    }

    fn del(&self) -> (r: String) {
        with_del_suffix(id_path(PASTE_ROOT, self.id.as_str()))
    }
}

/// A short URL, named by its identifier.
pub struct UrlId {
    id: String,
}

impl View for UrlId {
    type V = Seq<char>;

    closed spec fn view(&self) -> Seq<char> {
        self.id@
    }
}

impl UrlId {
    /// The short address that redirects to the target: `{proto}://{host}/s/{id}`.
    pub fn url(&self, proto: &str, host: &str) -> (r: String)
        ensures
            r@ == proto@ + "://"@ + host@ + "/s/"@ + self@,
    {
        concat3(concat3(proto, "://", host).as_str(), "/s/", self.id.as_str())
    }
}

impl DankId for UrlId {
    open spec fn root() -> Seq<char> {
        URL_ROOT@
    }

    open spec fn id_of(&self) -> Seq<char> {
        self@
    }

    fn generate(taken: &Vec<String>) -> (r: Self) {
        UrlId { id: generate_unused(taken) }
    }

    fn from_id(id: &str, exists: bool) -> (r: Option<Self>) {
        if exists {
            Some(UrlId { id: String::from_str(id) })
        } else {
            None
        }
    }

    fn id(&self) -> (r: String) {
        self.id.clone()
    }

    fn filename(&self) -> (r: String) {
        id_path(URL_ROOT, self.id.as_str())
    }

    fn json(&self) -> (r: String) {
        with_json_suffix(id_path(URL_ROOT, self.id.as_str()))
    }

    fn del(&self) -> (r: String) {
        with_del_suffix(id_path(URL_ROOT, self.id.as_str()))
    }
}

} // verus!
