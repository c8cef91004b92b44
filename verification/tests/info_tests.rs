use dank_paste::info::{DankInfo, PasteInfo, RequestInfo, UrlInfo, UrlShortRequest, URL_BODY_LIMIT};
use dank_paste::paste_dog::{DEFAULT_AGE, MAX_AGE};
use dank_paste::paste_info;

#[test]
fn infos_keep_their_fields() {
    let p = PasteInfo::new(30, Some("a.rs".to_string()));
    assert_eq!(p.expire, 30);
    assert_eq!(p.name, Some("a.rs".to_string()));
    assert_eq!(p.expire(), 30);
    let u = UrlInfo::new(40, "https://rust-lang.org".to_string());
    assert_eq!(u.expire, 40);
    assert_eq!(u.target, "https://rust-lang.org");
    assert_eq!(u.expire(), 40);
}

#[test]
fn request_expire_is_clamped_to_default() {
    let r = RequestInfo::from_headers(Some("100"), "example.org", Some("f.txt"));
    assert_eq!(r.expire, 100);
    assert_eq!(r.host, "example.org");
    assert_eq!(r.name, Some("f.txt".to_string()));
    assert_eq!(RequestInfo::from_headers(None, "h", None).expire, DEFAULT_AGE);
    assert_eq!(RequestInfo::from_headers(Some("259200"), "h", None).expire, MAX_AGE);
    assert_eq!(RequestInfo::from_headers(Some("259201"), "h", None).expire, DEFAULT_AGE);
    assert_eq!(RequestInfo::from_headers(Some("0"), "h", None).expire, 0);
    assert_eq!(RequestInfo::from_headers(Some("+5"), "h", None).expire, 5);
    assert!(RequestInfo::from_headers(None, "h", None).name.is_none());
}

#[test]
fn url_body_is_read_as_utf8() {
    let r = UrlShortRequest::from_body(b"https://example.org/x".to_vec()).unwrap();
    assert_eq!(r.url, "https://example.org/x");
    assert!(UrlShortRequest::from_body(vec![0xff, 0xfe]).is_none());
    assert_eq!(UrlShortRequest::from_body(Vec::new()).unwrap().url, "");
}

#[test]
fn url_body_is_cut_at_the_limit() {
    let long = vec![b'a'; 3000];
    let r = UrlShortRequest::from_body(long).unwrap();
    assert_eq!(r.url.len(), URL_BODY_LIMIT);
    // a two-byte character that straddles the limit makes the prefix invalid
    let mut straddling = vec![b'a'; URL_BODY_LIMIT - 1];
    straddling.extend_from_slice("é".as_bytes());
    assert!(UrlShortRequest::from_body(straddling).is_none());
}

#[test]
fn older_paste_info_reads_expire_header() {
    assert_eq!(paste_info::PasteInfo::from_header(None).expire, MAX_AGE);
    assert_eq!(paste_info::PasteInfo::from_header(Some("5")).expire, 5);
    assert_eq!(paste_info::PasteInfo::from_header(Some("999999")).expire, 999999);
    assert_eq!(paste_info::PasteInfo::new(7).expire, 7);
    let path = paste_info::PastePath::new("ab".to_string());
    assert_eq!(path.data(), "upload/ab");
    assert_eq!(path.json(), "upload/ab.json");
    assert_eq!(path.del(), "upload/ab.del");
}
