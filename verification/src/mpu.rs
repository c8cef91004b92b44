//! Uploads sent as a `multipart/form-data` form with a single field `file`.

use vstd::prelude::*;

use std::io::Cursor;
use std::io::Read;

use multipart::server::Multipart;

verus! {

/// The content of an uploaded file.
pub struct MultipartUpload {
    pub file: Vec<u8>,
}

/// One field of a form, read whole.
pub struct FormField {
    pub name: String,
    /// The field's own content type; a field that has one was sent as a file.
    pub content_type: Option<String>,
    pub data: Vec<u8>,
}

/// Why an upload form was refused.
pub enum UploadError {
    /// The body is not a readable multipart body.
    Unreadable,
    /// A field other than `file`.
    UnknownField,
    /// The field `file` is not a file.
    NotAFile,
    /// No field `file`.
    NoFile,
}

/// The parameter of a `Content-Type` header that holds the boundary.
pub open spec fn boundary_key() -> Seq<char> {
    seq!['b', 'o', 'u', 'n', 'd', 'a', 'r', 'y', '=']
}

/// True when `pat` occurs in `s` at position `i`.
pub open spec fn occurs_at(s: Seq<char>, pat: Seq<char>, i: int) -> bool {
    0 <= i && i + pat.len() <= s.len() && s.subrange(i, i + pat.len()) == pat
}

/// True when `i` is the first position at which `boundary=` occurs in `s`.
pub open spec fn is_first_boundary_key(s: Seq<char>, i: int) -> bool {
    occurs_at(s, boundary_key(), i) && forall|j: int| 0 <= j < i ==> !occurs_at(s, boundary_key(), j)
}

/// The boundary named in a `Content-Type` header: whatever follows the first `boundary=`.
pub open spec fn boundary_spec(content_type: Seq<char>) -> Option<Seq<char>> {
    if exists|i: int| is_first_boundary_key(content_type, i) {
        let i = choose|i: int| is_first_boundary_key(content_type, i);
        Some(content_type.subrange(i + 9, content_type.len() as int))
    } else {
        None
    }
}

/// The boundary named in a `Content-Type` header, or `None` when it names none.
pub fn boundary_of(content_type: &str) -> (r: Option<String>)
    ensures
        r is Some <==> boundary_spec(content_type@) is Some,
        r matches Some(b) ==> b@ == boundary_spec(content_type@).unwrap(),
{
    let n = content_type.unicode_len();
    let key = String::from_str("boundary=");
    proof {
        reveal_strlit("boundary=");
        assert(key@ =~= boundary_key());
    }
    if n < 9 {
        proof {
            assert forall|i: int| !is_first_boundary_key(content_type@, i) by {}
        }
        return None;
    }
    let mut i: usize = 0;
    while i <= n - 9
        invariant
            n == content_type@.len(),
            n >= 9,
            i <= n - 8,
            key@ == boundary_key(),
            forall|j: int| 0 <= j < i ==> !occurs_at(content_type@, boundary_key(), j),
        decreases n - i,
    {
        let window = String::from_str(content_type.substring_char(i, i + 9));
        if window == key {
            proof {
                assert(is_first_boundary_key(content_type@, i as int));
                assert forall|j: int| #[trigger] is_first_boundary_key(content_type@, j) implies j
                    == i by {
                    if j < i {
                    } else if j > i {
                        assert(!is_first_boundary_key(content_type@, j));
                    }
                }
            }
            return Some(String::from_str(content_type.substring_char(i + 9, n)));
        }
        i = i + 1;
    }
    proof {
        assert forall|j: int| !is_first_boundary_key(content_type@, j) by {
            if 0 <= j && j + 9 <= n {
                assert(j < i);
            }
        }
    }
    None
}

/// The name of the one field an upload form may have.
pub open spec fn file_key() -> Seq<char> {
    seq!['f', 'i', 'l', 'e']
}

/// The name, content type and data of a field.
pub open spec fn field_view(f: FormField) -> (Seq<char>, Option<Seq<char>>, Seq<u8>) {
    (
        f.name@,
        match f.content_type {
            Some(c) => Some(c@),
            None => None,
        },
        f.data@,
    )
}

/// The names, content types and data of a list of fields.
pub open spec fn fields_view(fields: Seq<FormField>) -> Seq<(Seq<char>, Option<Seq<char>>, Seq<u8>)> {
    fields.map_values(|f: FormField| field_view(f))
}

/// True for a field `file` sent as a file (with a content type of its own).
pub open spec fn is_file_part(p: (Seq<char>, Option<Seq<char>>, Seq<u8>)) -> bool {
    p.0 == file_key() && p.1 is Some
}

/// Why the field `p` is refused.
pub open spec fn part_error(p: (Seq<char>, Option<Seq<char>>, Seq<u8>)) -> UploadError {
    if p.0 != file_key() {
        UploadError::UnknownField
    } else {
        UploadError::NotAFile
    }
}

/// True when `parts[i]` is the first field that is refused.
pub open spec fn first_refused_part(parts: Seq<(Seq<char>, Option<Seq<char>>, Seq<u8>)>, i: int) -> bool {
    0 <= i < parts.len() && !is_file_part(parts[i]) && forall|j: int|
        0 <= j < i ==> #[trigger] is_file_part(parts[j])
}

/// What an upload form with the fields `parts` gives: the error of the first refused field;
/// else `NoFile` when there is no field; else the data of the last field.
pub open spec fn upload_outcome(parts: Seq<(Seq<char>, Option<Seq<char>>, Seq<u8>)>) -> Result<
    Seq<u8>,
    UploadError,
> {
    if exists|i: int| first_refused_part(parts, i) {
        Err(part_error(parts[choose|i: int| first_refused_part(parts, i)]))
    } else if parts.len() == 0 {
        Err(UploadError::NoFile)
    } else {
        Ok(parts.last().2)
    }
}

/// True when `r` is the upload or the error that `outcome` describes.
pub open spec fn gives(r: Result<MultipartUpload, UploadError>, outcome: Result<Seq<u8>, UploadError>) -> bool {
    match outcome {
        Ok(data) => r matches Ok(u) && u.file@ == data,
        Err(e) => r matches Err(e2) && e2 == e,
    }
}

/// A list of fields has at most one first refused field.
proof fn lemma_first_refused_unique(parts: Seq<(Seq<char>, Option<Seq<char>>, Seq<u8>)>, i: int)
    requires
        first_refused_part(parts, i),
    ensures
        (choose|k: int| first_refused_part(parts, k)) == i,
{
    let k = choose|k: int| first_refused_part(parts, k);
    assert(first_refused_part(parts, k));
    if k < i {
        assert(is_file_part(parts[k]));
    } else if i < k {
        assert(is_file_part(parts[i]));
    }
}

/// The fields that `multipart::server::Multipart` reads from `body` delimited by `boundary`,
/// one after another with `read_entry` until the end of the body: each field's name, its
/// content type and its data read whole. `None` when a read fails.
pub uninterp spec fn multipart_fields(body: Seq<u8>, boundary: Seq<char>) -> Option<
    Seq<(Seq<char>, Option<Seq<char>>, Seq<u8>)>,
>;

/// Every field of the multipart body `body` delimited by `boundary`, read with
/// `Multipart::with_body` and `Multipart::read_entry`, each field's data read to its end with
/// `Read::read_to_end`. The reader yields its fields only one at a time, so this drains it.
/// Trusted: the contract claims that the fields are those `multipart_fields` names, and that
/// `None` comes back exactly when the reader fails on this body.
#[verifier::external_body]
fn read_fields(body: Vec<u8>, boundary: &str) -> (r: Option<Vec<FormField>>)
    ensures
        r is Some <==> multipart_fields(body@, boundary@) is Some,
        r matches Some(fields) ==> fields_view(fields@) == multipart_fields(body@, boundary@).unwrap(),
{
    let mut reader = Multipart::with_body(Cursor::new(body), boundary);
    let mut fields = Vec::new();
    while let Some(mut field) = reader.read_entry().ok()? {
        let mut data = Vec::new();
        field.data.read_to_end(&mut data).ok()?;
        let name = field.headers.name.to_string();
        let content_type = field.headers.content_type.map(|m| m.to_string());
        fields.push(FormField { name: name, content_type: content_type, data: data });
    }
    Some(fields)
}

impl MultipartUpload {
    /// The upload held in the fields of a form: every field must be the file `file`, and the
    /// last one is kept; otherwise the error of the first refused field, or `NoFile`.
    pub fn from_fields(fields: Vec<FormField>) -> (r: Result<MultipartUpload, UploadError>)
        ensures
            gives(r, upload_outcome(fields_view(fields@))),
    {
        let ghost parts = fields_view(fields@);
        let n = fields.len();
        let key = String::from_str("file");
        proof {
            reveal_strlit("file");
            assert(key@ =~= file_key());
        }
        let mut i: usize = 0;
        while i < n
            invariant
                i <= n,
                n == fields@.len(),
                parts == fields_view(fields@),
                key@ == file_key(),
                forall|j: int| 0 <= j < i ==> #[trigger] is_file_part(parts[j]),
            decreases n - i,
        {
            proof {
                assert(parts[i as int] == field_view(fields@[i as int]));
            }
            if fields[i].name != key {
                proof {
                    assert(first_refused_part(parts, i as int));
                    lemma_first_refused_unique(parts, i as int);
                }
                return Err(UploadError::UnknownField);
            }
            if fields[i].content_type.is_none() {
                proof {
                    assert(first_refused_part(parts, i as int));
                    lemma_first_refused_unique(parts, i as int);
                }
                return Err(UploadError::NotAFile);
            }
            i = i + 1;
        }
        proof {
            assert(!exists|k: int| first_refused_part(parts, k)) by {
                if exists|k: int| first_refused_part(parts, k) {
                    let k = choose|k: int| first_refused_part(parts, k);
                    assert(is_file_part(parts[k]));
                }
            }
        }
        if n == 0 {
            return Err(UploadError::NoFile);
        }
        let mut fields = fields;
        let last = fields.pop().unwrap();
        proof {
            assert(parts.last() == field_view(last));
        }
        Ok(MultipartUpload { file: last.data })
    }

    /// The upload held in the multipart body `body` delimited by `boundary`: `Unreadable` when
    /// the body cannot be read as multipart, else what its fields give.
    pub fn from_body(boundary: &str, body: Vec<u8>) -> (r: Result<MultipartUpload, UploadError>)
        ensures
            match multipart_fields(body@, boundary@) {
                None => r matches Err(UploadError::Unreadable),
                Some(parts) => gives(r, upload_outcome(parts)),
            },
    {
        match read_fields(body, boundary) {
            None => Err(UploadError::Unreadable),
            Some(fields) => MultipartUpload::from_fields(fields),
        }
    }
}

} // verus!
