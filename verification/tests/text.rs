use slime::text::{
    ascii_lowercase_of, char_ascii_lower, char_is_whitespace, chars_of, find_char, join_path,
    same_text, split_tokens, string_of, tokens_of, trim_range,
};

#[test]
fn whitespace_is_the_unicode_property() {
    let mut c = '\0';
    loop {
        assert_eq!(char_is_whitespace(c), c.is_whitespace(), "{:?}", c);
        assert_eq!(char_ascii_lower(c), c.to_ascii_lowercase(), "{:?}", c);
        if c == char::MAX {
            break;
        }
        c = char::from_u32(c as u32 + 1).unwrap_or('\u{e000}');
    }
}

#[test]
fn chars_and_strings() {
    let v = chars_of("h\u{e9}llo");
    assert_eq!(v, vec!['h', '\u{e9}', 'l', 'l', 'o']);
    assert_eq!(string_of(&v, 1, 4), "\u{e9}ll");
    assert_eq!(string_of(&v, 2, 2), "");
    assert_eq!(find_char(&v, 0, 5, 'l'), 2);
    assert_eq!(find_char(&v, 3, 5, 'l'), 3);
    assert_eq!(find_char(&v, 0, 5, 'z'), 5);
    assert_eq!(find_char(&v, 0, 2, 'l'), 2);
    assert!(same_text("a\u{e9}", "a\u{e9}"));
    assert!(!same_text("a", "A"));
    assert!(!same_text("a", "ab"));
}

#[test]
fn trimming() {
    let v = chars_of(" \t a b \r\n");
    assert_eq!(trim_range(&v, 0, v.len()), (3, 6));
    assert_eq!(trim_range(&v, 4, 5), (5, 5));
    assert_eq!(trim_range(&v, 3, 6), (3, 6));
    for text in ["", " ", "a", " a", "a ", "\u{2003}x y\u{a0}", "\n\n"] {
        let v = chars_of(text);
        let (a, b) = trim_range(&v, 0, v.len());
        assert_eq!(string_of(&v, a, b), text.trim());
    }
}

#[test]
fn tokens_are_trimmed_and_never_empty() {
    assert_eq!(tokens_of("a: b ::c", ':'), vec!["a", "b", "c"]);
    assert_eq!(tokens_of("", ':'), Vec::<String>::new());
    assert_eq!(tokens_of(" : ", ':'), Vec::<String>::new());
    assert_eq!(tokens_of("one", ';'), vec!["one"]);
    assert_eq!(tokens_of(";x y;", ';'), vec!["x y"]);
    let v = chars_of("a,b,c");
    assert_eq!(split_tokens(&v, 2, 5, ','), vec!["b", "c"]);
    for text in ["a:b", ":a::b:", " a : b ", "", ":::"] {
        let want: Vec<String> = text
            .split(':')
            .map(str::trim)
            .filter(|t| !t.is_empty())
            .map(String::from)
            .collect();
        assert_eq!(tokens_of(text, ':'), want, "{text:?}");
    }
}

#[test]
fn lowercase_touches_ascii_letters_only() {
    assert_eq!(ascii_lowercase_of("GNOME-Classic:\u{c9}"), "gnome-classic:\u{c9}");
    assert_eq!(ascii_lowercase_of(""), "");
}

#[test]
fn join_path_is_the_join_of_paths() {
    assert_eq!(join_path("/home/u", ".config"), "/home/u/.config");
    assert_eq!(join_path("/home/u/", ".config"), "/home/u/.config");
    assert_eq!(join_path("/home/u", "/etc"), "/etc");
    assert_eq!(join_path("", "x"), "x");
    assert_eq!(join_path("a", ""), "a/");
    assert_eq!(join_path("/", "x"), "/x");
    for base in ["", "/", "a", "a/", "/a/b", "/a/b/", "rel/x"] {
        for rel in ["", "x", "x/y", "/abs", "applications/mimeapps.list", ".config"] {
            let want = std::path::Path::new(base).join(rel);
            assert_eq!(join_path(base, rel), want.to_str().unwrap(), "{base:?} {rel:?}");
        }
    }
}
