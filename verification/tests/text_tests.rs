use std::path::Path;

use dank_paste::text::{
    base62_char, concat2, concat3, contains_name, find_last_dot, parse_u64, split_extension,
    strip_last_dot,
};

#[test]
fn base62_table_is_digits_then_upper_then_lower() {
    let table = "0123456789ABCDEFGHIJKLMNOPQRSTUVWXYZabcdefghijklmnopqrstuvwxyz";
    for (n, c) in table.chars().enumerate() {
        assert_eq!(base62_char(n), c);
    }
}

#[test]
fn parse_u64_accepts_what_str_parse_accepts() {
    let cases = [
        "0",
        "7",
        "+7",
        "0042",
        "259200",
        "18446744073709551615",
        "18446744073709551616",
        "99999999999999999999999",
        "",
        "+",
        "-1",
        "-0",
        " 1",
        "1 ",
        "12a",
        "++1",
        "١٢",
    ];
    for s in cases.iter() {
        assert_eq!(parse_u64(s), s.parse::<u64>().ok(), "input {:?}", s);
    }
}

#[test]
fn parse_u64_exact_values() {
    assert_eq!(parse_u64("+12"), Some(12));
    assert_eq!(parse_u64("18446744073709551615"), Some(u64::MAX));
    assert_eq!(parse_u64("18446744073709551616"), None);
    assert_eq!(parse_u64(""), None);
}

#[test]
fn split_extension_follows_path_rules() {
    let cases = ["abc.json", "abc.del", "abc", ".hidden", "a.b.c", "a.", "..", ".", "x.y"];
    for s in cases.iter() {
        let p = Path::new(s);
        let expected = p.extension().map(|e| {
            (
                p.file_stem().unwrap().to_str().unwrap().to_string(),
                e.to_str().unwrap().to_string(),
            )
        });
        assert_eq!(split_extension(s), expected, "input {:?}", s);
    }
}

#[test]
fn split_extension_examples() {
    assert_eq!(split_extension("abc.json"), Some(("abc".to_string(), "json".to_string())));
    assert_eq!(split_extension("a.b.c"), Some(("a.b".to_string(), "c".to_string())));
    assert_eq!(split_extension(".hidden"), None);
    assert_eq!(split_extension(".."), None);
    assert_eq!(split_extension("plain"), None);
}

#[test]
fn strip_last_dot_matches_rfind() {
    for s in ["abc.txt", "abc", ".x", "a.b.c", "", "."].iter() {
        let expected = match s.rfind('.') {
            Some(i) => s[..i].to_string(),
            None => s.to_string(),
        };
        assert_eq!(strip_last_dot(s), expected);
    }
}

#[test]
fn find_last_dot_positions() {
    assert_eq!(find_last_dot("a.b.c"), Some(3));
    assert_eq!(find_last_dot("abc"), None);
    assert_eq!(find_last_dot("é.x"), Some(1));
}

#[test]
fn concat_and_contains() {
    assert_eq!(concat2("ab", "cd"), "abcd");
    assert_eq!(concat3("a", "/", "b"), "a/b");
    let names = vec!["ab".to_string(), "cd".to_string()];
    assert!(contains_name(&names, &"cd".to_string()));
    assert!(!contains_name(&names, &"c".to_string()));
    assert!(!contains_name(&Vec::new(), &"c".to_string()));
}
