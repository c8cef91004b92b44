use dank_paste::id::{DankId, PasteId};
use dank_paste::info::{PasteInfo, RequestInfo, UrlInfo};
use dank_paste::mpu::{boundary_of, FormField, MultipartUpload, UploadError};
use dank_paste::namedpaste::content_disposition;
use dank_paste::paste_dog::{classify_upload, should_delete, SweepAction, MAX_AGE};
use dank_paste::site::{
    burns_after_reading, count_paste, proto, requested_id, PrettyCtx, UploadResponse, VERSION,
};

#[test]
fn deletion_follows_lifetime() {
    let once = PasteInfo::new(0, None);
    assert!(!should_delete(&once, MAX_AGE));
    assert!(should_delete(&once, MAX_AGE + 1));
    let short = UrlInfo::new(100, "x".to_string());
    assert!(!should_delete(&short, 100));
    assert!(should_delete(&short, 101));
}

#[test]
fn sweeper_classifies_entries() {
    assert!(matches!(classify_upload("abc.del"), SweepAction::Delete(ref id) if id == "abc"));
    assert!(matches!(classify_upload("abc.json"), SweepAction::CheckExpiry(ref id) if id == "abc"));
    assert!(matches!(classify_upload("a.b.json"), SweepAction::CheckExpiry(ref id) if id == "a.b"));
    assert!(matches!(classify_upload("abc"), SweepAction::Skip));
    assert!(matches!(classify_upload("abc.txt"), SweepAction::Skip));
    assert!(matches!(classify_upload(".del"), SweepAction::Skip));
}

#[test]
fn proto_is_http_only_when_asked() {
    assert_eq!(proto(Some("http")), "http");
    assert_eq!(proto(Some("https")), "https");
    assert_eq!(proto(Some("HTTP")), "https");
    assert_eq!(proto(None), "https");
}

#[test]
fn count_counts_data_files_and_short_urls() {
    let names: Vec<String> =
        ["a", "a.json", "b", "b.del", "c.json"].iter().map(|s| s.to_string()).collect();
    assert_eq!(count_paste(&names, 3), 5);
    assert_eq!(count_paste(&Vec::new(), 0), 0);
}

#[test]
fn requested_id_drops_extension() {
    assert_eq!(requested_id("abc.txt"), "abc");
    assert_eq!(requested_id("abc"), "abc");
    assert_eq!(requested_id("abc.tar.gz"), "abc.tar");
}

#[test]
fn expire_zero_burns_after_reading() {
    assert!(burns_after_reading(&PasteInfo::new(0, None)));
    assert!(!burns_after_reading(&PasteInfo::new(1, None)));
}

#[test]
fn pretty_page_and_upload_response() {
    let host = RequestInfo::from_headers(None, "paste.example", None);
    let id = PasteId::from_id("Ab", true).unwrap();
    let ctx = PrettyCtx::new(id, "hello".to_string(), host, "https");
    assert_eq!(ctx.content, "hello");
    assert_eq!(ctx.version, VERSION);
    assert_eq!(ctx.version, "dank-paste v0.2.4");
    assert_eq!(ctx.id, "Ab");
    assert_eq!(ctx.url, "https://paste.example/Ab");
    assert_eq!(ctx.pretty, "https://paste.example/h/Ab");
    let id = PasteId::from_id("Cd", true).unwrap();
    let resp = UploadResponse::new(id, PasteInfo::new(60, None), "p.ex", "http");
    assert_eq!(resp.id, "Cd");
    assert_eq!(resp.expire, 60);
    assert_eq!(resp.raw_url, "http://p.ex/Cd");
    assert_eq!(resp.source_url, "http://p.ex/h/Cd");
}

#[test]
fn boundary_is_read_from_content_type() {
    assert_eq!(boundary_of("multipart/form-data; boundary=XyZ"), Some("XyZ".to_string()));
    assert_eq!(boundary_of("boundary=a; boundary=b"), Some("a; boundary=b".to_string()));
    assert_eq!(boundary_of("multipart/form-data"), None);
    assert_eq!(boundary_of("short"), None);
}

fn field(name: &str, is_file: bool, data: &[u8]) -> FormField {
    let content_type = if is_file { Some("text/plain".to_string()) } else { None };
    FormField { name: name.to_string(), content_type, data: data.to_vec() }
}

#[test]
fn form_fields_select_the_last_file() {
    let u = MultipartUpload::from_fields(vec![field("file", true, b"one"), field("file", true, b"two")]);
    assert_eq!(u.ok().unwrap().file, b"two".to_vec());
    assert!(matches!(MultipartUpload::from_fields(Vec::new()), Err(UploadError::NoFile)));
    assert!(matches!(
        MultipartUpload::from_fields(vec![field("other", true, b"x")]),
        Err(UploadError::UnknownField)
    ));
    assert!(matches!(
        MultipartUpload::from_fields(vec![field("file", false, b"x"), field("other", true, b"y")]),
        Err(UploadError::NotAFile)
    ));
}

#[test]
fn multipart_body_is_parsed() {
    let body = b"--XB\r\nContent-Disposition: form-data; name=\"file\"; filename=\"a.txt\"\r\nContent-Type: text/plain\r\n\r\nhello world\r\n--XB--\r\n".to_vec();
    let u = MultipartUpload::from_body("XB", body).ok().unwrap();
    assert_eq!(u.file, b"hello world".to_vec());
    let text_only = b"--XB\r\nContent-Disposition: form-data; name=\"file\"\r\n\r\nhello\r\n--XB--\r\n".to_vec();
    assert!(matches!(MultipartUpload::from_body("XB", text_only), Err(UploadError::NotAFile)));
    let unknown = b"--XB\r\nContent-Disposition: form-data; name=\"other\"\r\n\r\nhello\r\n--XB--\r\n".to_vec();
    assert!(matches!(MultipartUpload::from_body("XB", unknown), Err(UploadError::UnknownField)));
}

#[test]
fn content_disposition_quotes_name() {
    assert_eq!(content_disposition("a.rs"), "filename=\"a.rs\"");
}
