use dank_paste::id::{char_of_draw, generate_id, generate_unused, id_path, DankId, PasteId, UrlId};
use dank_paste::paste_id;

fn is_base62(c: char) -> bool {
    c.is_ascii_alphanumeric()
}

#[test]
fn generate_id_has_requested_length_and_alphabet() {
    for size in [0usize, 1, 2, 8, 64].iter() {
        let id = generate_id(*size);
        assert_eq!(id.chars().count(), *size);
        assert!(id.chars().all(is_base62));
    }
}

#[test]
fn generate_unused_starts_with_two_characters() {
    let id = generate_unused(&Vec::new());
    assert_eq!(id.len(), 2);
    assert!(id.chars().all(is_base62));
}

#[test]
fn generate_unused_grows_when_all_short_ids_are_taken() {
    let table: Vec<char> =
        "0123456789ABCDEFGHIJKLMNOPQRSTUVWXYZabcdefghijklmnopqrstuvwxyz".chars().collect();
    let mut taken = Vec::new();
    for a in table.iter() {
        for b in table.iter() {
            taken.push(format!("{}{}", a, b));
        }
    }
    let id = generate_unused(&taken);
    assert_eq!(id.len(), 3);
    assert!(!taken.contains(&id));
    assert!(id.chars().all(is_base62));
}

#[test]
fn generated_ids_are_fresh() {
    let taken = vec!["ab".to_string(), "cd".to_string()];
    for _ in 0..50 {
        let p = PasteId::generate(&taken);
        assert!(!taken.contains(&p.id()));
        let u = UrlId::generate(&taken);
        assert!(!taken.contains(&u.id()));
    }
}

#[test]
fn from_id_then_id_gives_the_identifier_back() {
    let p = PasteId::from_id("abc", true).unwrap();
    assert_eq!(p.id(), "abc");
    assert!(PasteId::from_id("abc", false).is_none());
    let u = UrlId::from_id("xyz", true).unwrap();
    assert_eq!(u.id(), "xyz");
    assert!(UrlId::from_id("xyz", false).is_none());
}

#[test]
fn paste_paths_and_urls() {
    let p = PasteId::from_id("abc", true).unwrap();
    assert_eq!(p.filename(), "upload/abc");
    assert_eq!(p.json(), "upload/abc.json");
    assert_eq!(p.del(), "upload/abc.del");
    assert_eq!(p.url("https", "example.org"), "https://example.org/abc");
    assert_eq!(p.source_url("http", "example.org"), "http://example.org/h/abc");
}

#[test]
fn url_paths_and_urls() {
    let u = UrlId::from_id("Zz9", true).unwrap();
    assert_eq!(u.filename(), "shorts/Zz9");
    assert_eq!(u.json(), "shorts/Zz9.json");
    assert_eq!(u.del(), "shorts/Zz9.del");
    assert_eq!(u.url("https", "h.io"), "https://h.io/s/Zz9");
}

#[test]
fn id_path_joins_with_slash() {
    assert_eq!(id_path("upload", "q1"), "upload/q1");
}

#[test]
fn older_paste_id_paths_and_urls() {
    let taken = vec!["aa".to_string()];
    let g = paste_id::PasteId::generate(&taken);
    assert!(g.id() != "aa");
    assert_eq!(paste_id::generate_id(5).len(), 5);
    let p = paste_id::PasteId::from_id("k2", true).unwrap();
    assert!(paste_id::PasteId::from_id("k2", false).is_none());
    assert_eq!(p.id(), "k2");
    assert_eq!(p.filename(), "upload/k2");
    assert_eq!(p.json(), "upload/k2.json");
    assert_eq!(p.del(), "upload/k2.del");
    assert_eq!(p.url("https://x.y"), "https://x.y/k2");
    assert_eq!(p.source_url("https://x.y"), "https://x.y/h/k2");
}

#[test]
fn char_of_draw_reduces_modulo_62() {
    assert_eq!(char_of_draw(0), '0');
    assert_eq!(char_of_draw(10), 'A');
    assert_eq!(char_of_draw(36), 'a');
    assert_eq!(char_of_draw(61), 'z');
    assert_eq!(char_of_draw(62), '0');
    assert_eq!(char_of_draw(62 * 3 + 37), 'b');
}
