use baza_core::container::{resolve, ContainerBuilder};
use baza_core::error::NameError;
use baza_core::text::{char_is_whitespace, chars_of, join_strings, split_chars, trim_bounds};

fn key_of(path: &str) -> String {
    resolve(path, "::").unwrap().key()
}

#[test]
fn resolve_keeps_three_segments() {
    let c = resolve("a::b::c", "::").unwrap();
    assert_eq!(c.key(), "a::b::c");
    assert_eq!(c.bundle_name(), "c");
    assert_eq!(c.boxes(), vec!["a".to_string(), "b".to_string()]);
    assert_eq!(
        c.pointer(),
        vec!["a".to_string(), "b".to_string(), "c".to_string()]
    );
}

#[test]
fn resolve_single_segment() {
    let c = resolve("c", "::").unwrap();
    assert_eq!(c.key(), "c");
    assert_eq!(c.bundle_name(), "c");
    assert!(c.boxes().is_empty());
}

#[test]
fn resolve_empty_is_error() {
    assert_eq!(resolve("", "::").unwrap_err(), NameError::EmptyPath);
    assert_eq!(resolve("  \t\n ", "::").unwrap_err(), NameError::EmptyPath);
}

#[test]
fn resolve_trims_whitespace() {
    assert_eq!(key_of("   x   "), "x");
    assert_eq!(key_of("\u{3000} work::mail \n"), "work::mail");
}

#[test]
fn resolve_round_trips_odd_paths() {
    for p in [
        "test::my.test::login.ru",
        "test::my@test::login@ru",
        "test::my/test::login/ru",
        "test::my-test::login-ru",
        "test::my_test::login_ru",
        "a:::b",
        "::",
        "a::",
        "::a",
        "a::::b",
        ":",
    ] {
        assert_eq!(key_of(p), p);
    }
}

#[test]
fn split_is_leftmost_and_exact() {
    let parts = |s: &str, d: &str| split_chars(&chars_of(s), &chars_of(d));
    assert_eq!(parts("a:::b", "::"), vec!["a", ":b"]);
    assert_eq!(parts("a::::b", "::"), vec!["a", "", "b"]);
    assert_eq!(parts("::", "::"), vec!["", ""]);
    assert_eq!(parts("a::", "::"), vec!["a", ""]);
    assert_eq!(parts("", "::"), vec![""]);
    assert_eq!(parts("a.b.c", "."), vec!["a", "b", "c"]);
    assert_eq!(parts("abc", ""), vec!["abc"]);
    for (s, d) in [("a:::b", "::"), ("x--y--", "--"), ("ééé", "é"), ("aaa", "aa")] {
        let std_parts: Vec<&str> = s.split(d).collect();
        assert_eq!(parts(s, d), std_parts);
    }
}

#[test]
fn join_puts_delimiter_between_parts() {
    let parts = vec!["a".to_string(), "b".to_string(), "c".to_string()];
    assert_eq!(join_strings(&parts, "::"), "a::b::c");
    assert_eq!(join_strings(&vec!["one".to_string()], "::"), "one");
    assert_eq!(join_strings(&Vec::new(), "::"), "");
}

#[test]
fn whitespace_agrees_with_std_for_every_char() {
    let mut c: u32 = 0;
    while c <= 0x10FFFF {
        if let Some(ch) = char::from_u32(c) {
            assert_eq!(char_is_whitespace(ch), ch.is_whitespace(), "U+{:04X}", c);
        }
        c += 1;
    }
}

#[test]
fn trim_bounds_agree_with_std() {
    for s in ["", " ", "  a b  ", "a", "\t\na\u{a0}", "\u{2003}x y\u{2003}"] {
        let chars = chars_of(s);
        let (from, to) = trim_bounds(&chars);
        let got: String = chars[from..to].iter().collect();
        assert_eq!(got, s.trim());
    }
}

#[test]
fn builder_without_a_path_builds_nothing() {
    assert_eq!(ContainerBuilder::new().build().unwrap_err(), NameError::EmptyPath);
    let c = ContainerBuilder::new()
        .create_from_str("work::email::login", "::")
        .unwrap()
        .build()
        .unwrap();
    assert_eq!(c.key(), "work::email::login");
}
