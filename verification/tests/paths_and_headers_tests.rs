use std::path::Path;

use dank_paste::info::PasteInfo;
use dank_paste::mpu::{MultipartUpload, UploadError};
use dank_paste::namedpaste::paste_headers;
use dank_paste::site::{paste_access, PasteAccess};
use dank_paste::text::{file_name_of, path_extension_of};

#[test]
fn file_name_and_extension_follow_path() {
    let cases = [
        "a.txt", "dir/a.txt", "dir/a.txt/", "a/.", "./a.rs", ".", "..", "a/..", "/", "", "x//y.c",
        ".hidden", "dir/.hidden", "a.b.c", "a.", "./.", "/a.md",
    ];
    for s in cases.iter() {
        let p = Path::new(s);
        let name = p.file_name().map(|n| n.to_str().unwrap().to_string());
        assert_eq!(file_name_of(s), name, "file name of {:?}", s);
        let ext = p.extension().map(|e| e.to_str().unwrap().to_string());
        assert_eq!(path_extension_of(s), ext, "extension of {:?}", s);
    }
}

#[test]
fn paste_headers_name_the_file() {
    let (ct, disposition) = paste_headers(Some("notes.txt"));
    assert!(ct.unwrap().starts_with("text/plain"));
    assert_eq!(disposition, Some("filename=\"notes.txt\"".to_string()));
    let (ct, disposition) = paste_headers(Some("noext"));
    assert!(ct.is_none());
    assert_eq!(disposition, Some("filename=\"noext\"".to_string()));
    let (ct, _) = paste_headers(Some("x.unknownextension"));
    assert!(ct.is_none());
    let (ct, disposition) = paste_headers(None);
    assert!(ct.is_none() && disposition.is_none());
}

#[test]
fn paste_access_decisions() {
    assert!(matches!(paste_access(true, Some(PasteInfo::new(0, None))), PasteAccess::Gone));
    assert!(matches!(paste_access(true, None), PasteAccess::Gone));
    assert!(matches!(paste_access(false, Some(PasteInfo::new(0, None))), PasteAccess::ServeAndBurn));
    assert!(matches!(paste_access(false, Some(PasteInfo::new(5, None))), PasteAccess::Serve));
    assert!(matches!(paste_access(false, None), PasteAccess::Serve));
}

#[test]
fn unparsable_multipart_body_is_refused() {
    let body = b"this is not multipart at all".to_vec();
    assert!(matches!(MultipartUpload::from_body("XB", body), Err(UploadError::Unreadable)));
}
