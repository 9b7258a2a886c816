use cage::env_map::{contains_key, insert_all, insert_or_replace};
use cage::paths::join_path;
use cage::text::{is_whitespace, parse_i32, parse_u32, trim_chars};

fn chars(s: &str) -> Vec<char> {
    s.chars().collect()
}

#[test]
fn integer_parsing_matches_std() {
    for s in ["0", "+7", "-7", "2147483647", "2147483648", "-2147483648", "-2147483649", "", "-", "+", "1a", "-+1", "+-1", " 1"] {
        assert_eq!(parse_i32(&chars(s)), s.parse::<i32>().ok(), "i32 {s:?}");
    }
    for s in ["0", "+7", "4294967295", "4294967296", "-1", "", "+", "12x"] {
        assert_eq!(parse_u32(&chars(s)), s.parse::<u32>().ok(), "u32 {s:?}");
    }
}

#[test]
fn trimming_matches_std() {
    for s in ["", "   ", " a b ", "\t\nx\r\n", "\u{2003}y\u{2003}", "z"] {
        let got: String = trim_chars(&chars(s)).into_iter().collect();
        assert_eq!(got, s.trim(), "{s:?}");
    }
}

#[test]
fn path_joining() {
    assert_eq!(join_path("/a", "b"), "/a/b");
    assert_eq!(join_path("/a/", "b"), "/a/b");
    assert_eq!(join_path("/a", "/b"), "/b");
    assert_eq!(join_path("", "b"), "b");
}

#[test]
fn pair_maps() {
    let mut v: Vec<(String, String)> = vec![];
    insert_or_replace(&mut v, "A".to_string(), "1".to_string());
    insert_or_replace(&mut v, "B".to_string(), "2".to_string());
    insert_or_replace(&mut v, "A".to_string(), "3".to_string());
    assert_eq!(v.len(), 2);
    assert!(v.contains(&("A".to_string(), "3".to_string())));
    insert_all(&mut v, &vec![("C".to_string(), "4".to_string()), ("B".to_string(), "5".to_string())]);
    assert_eq!(v.len(), 3);
    assert!(v.contains(&("B".to_string(), "5".to_string())));
    assert!(contains_key(&v, "C"));
    assert!(!contains_key(&v, "D"));
}

#[test]
fn white_space_matches_std() {
    for code in 0u32..0x3100 {
        if let Some(c) = char::from_u32(code) {
            assert_eq!(is_whitespace(c), c.is_whitespace(), "{code:#x}");
        }
    }
    for c in ['\u{feff}', '\u{10ffff}', 'a', '\u{200b}'] {
        assert_eq!(is_whitespace(c), c.is_whitespace());
    }
}
