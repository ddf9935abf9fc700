use slime::parser::ini::{parse_str, Pair, Parse};
use slime::parser::UnParser;

fn pair(section: &str, key: &str, value: &str) -> Pair {
    Pair { section: section.to_string(), key: key.to_string(), value: value.to_string() }
}

fn triples(pairs: &[Pair]) -> Vec<(String, String, String)> {
    pairs.iter().map(|p| (p.section.clone(), p.key.clone(), p.value.clone())).collect()
}

#[test]
fn ini2() {
    let ini_text: &str = r#"
        [foo]
        bar=baz
        # Comments at the start of lines
        [bar]
        baz=foo
        "#;

    let mut ini = Parse::from(ini_text);
    let mut pairs = 0usize;
    while let Some(Pair { section, key, value }) = ini.next() {
        pairs += 1;
        match section.as_str() {
            "foo" => {
                assert_eq!(key, "bar");
                assert_eq!(value, "baz");
            }
            "bar" => {
                assert_eq!(key, "baz");
                assert_eq!(value, "foo");
            }
            _ => panic!("Invalid section: \"{section}\""),
        }
    }
    assert_eq!(pairs, 2);
}

#[test]
fn pair_before_any_header_has_empty_section() {
    let pairs = parse_str("a=1\n[s]\nb=2\n");
    assert_eq!(
        triples(&pairs),
        vec![
            ("".to_string(), "a".to_string(), "1".to_string()),
            ("s".to_string(), "b".to_string(), "2".to_string()),
        ]
    );
}

#[test]
fn line_is_split_at_first_equals_sign() {
    let pairs = parse_str("key=a=b=c");
    assert_eq!(triples(&pairs), vec![("".to_string(), "key".to_string(), "a=b=c".to_string())]);
}

#[test]
fn keys_and_values_are_not_trimmed_inside_the_line() {
    let pairs = parse_str("   key = value  \r\n");
    assert_eq!(triples(&pairs), vec![("".to_string(), "key ".to_string(), " value".to_string())]);
}

#[test]
fn comment_is_recognised_only_at_line_start() {
    let pairs = parse_str("# a=b\nc=d # not a comment\n  #e=f\n");
    assert_eq!(
        triples(&pairs),
        vec![("".to_string(), "c".to_string(), "d # not a comment".to_string())]
    );
}

#[test]
fn malformed_lines_are_ignored() {
    let pairs = parse_str("[open\nno equals here\n\n]\n[ok]\nx=y\n[a]b=c\n");
    assert_eq!(
        triples(&pairs),
        vec![
            ("ok".to_string(), "x".to_string(), "y".to_string()),
            ("ok".to_string(), "[a]b".to_string(), "c".to_string()),
        ]
    );
}

#[test]
fn header_wins_over_equals_sign() {
    let pairs = parse_str("[a=b]\nk=v");
    assert_eq!(triples(&pairs), vec![("a=b".to_string(), "k".to_string(), "v".to_string())]);
}

#[test]
fn empty_header_opens_the_empty_section() {
    let pairs = parse_str("[s]\na=1\n[]\nb=2");
    assert_eq!(
        triples(&pairs),
        vec![
            ("s".to_string(), "a".to_string(), "1".to_string()),
            ("".to_string(), "b".to_string(), "2".to_string()),
        ]
    );
}

#[test]
fn empty_text_has_no_pairs() {
    assert!(parse_str("").is_empty());
    assert!(parse_str("\n\n\n").is_empty());
    let mut p = Parse::from("");
    assert!(p.next().is_none());
    assert!(p.next().is_none());
}

#[test]
fn unicode_whitespace_is_trimmed() {
    let pairs = parse_str("\u{3000}k=v\u{2003}\n\u{a0}[s]\u{85}\nx=\u{e9}\n");
    assert_eq!(
        triples(&pairs),
        vec![
            ("".to_string(), "k".to_string(), "v".to_string()),
            ("s".to_string(), "x".to_string(), "\u{e9}".to_string()),
        ]
    );
}

#[test]
fn parser_is_finite_and_ordered() {
    let mut p = Parse::from("a=1\nb=2\nc=3");
    assert_eq!(p.next().unwrap().key, "a");
    assert_eq!(p.next().unwrap().key, "b");
    let rest = p.collect();
    assert_eq!(rest.len(), 1);
    assert_eq!(rest[0].key, "c");
}

#[test]
fn serialize_writes_header_when_section_changes() {
    let pairs = vec![
        pair("", "open_in_browser", "false"),
        pair("", "bind_port", "0"),
        pair("css", "fg_color", "red"),
        pair("css", "font", "'Iosevka', sans-serif"),
        pair("", "last", "x"),
    ];
    assert_eq!(
        pairs.serialize_to_string(),
        "open_in_browser=false\nbind_port=0\n[css]\nfg_color=red\nfont='Iosevka', sans-serif\n[]\nlast=x\n"
    );
}

#[test]
fn serialize_to_bytes_is_utf8_of_the_text() {
    let pairs = vec![pair("s\u{e9}", "k", "\u{1F600}")];
    let text = pairs.serialize_to_string();
    assert_eq!(text, "[s\u{e9}]\nk=\u{1F600}\n");
    assert_eq!(pairs.serialize_to_bytes(), text.as_bytes().to_vec());
}

#[test]
fn serialize_into_bytes_fits_or_fills() {
    let pairs = vec![pair("", "ab", "cd")];
    let mut exact = vec![0u8; 6];
    assert!(pairs.serialize_into_bytes(&mut exact).is_ok());
    assert_eq!(exact, b"ab=cd\n".to_vec());

    let mut long = vec![b'.'; 8];
    assert!(pairs.serialize_into_bytes(&mut long).is_ok());
    assert_eq!(long, b"ab=cd\n..".to_vec());

    let mut short = vec![0u8; 4];
    let err = pairs.serialize_into_bytes(&mut short).unwrap_err();
    assert_eq!(err.needed, 6);
    assert_eq!(short, b"ab=c".to_vec());
}

#[test]
fn round_trip_on_concrete_pairs() {
    let pairs = vec![
        pair("", "a", "1"),
        pair("Default Applications", "text/html", "firefox.desktop;"),
        pair("Default Applications", "image/png", ""),
        pair("x]y", "k e y ", " v = w"),
        pair("", "", ""),
        pair(" spaced ", "[k", "v"),
    ];
    let text = pairs.serialize_to_string();
    assert_eq!(triples(&parse_str(&text)), triples(&pairs));
}

#[test]
fn round_trip_fails_for_a_key_with_an_equals_sign() {
    let pairs = vec![pair("", "a=b", "c")];
    let back = parse_str(&pairs.serialize_to_string());
    assert_eq!(triples(&back), vec![("".to_string(), "a".to_string(), "b=c".to_string())]);
}

fn by_lines(text: &str) -> Vec<(String, String, String)> {
    let mut section = String::new();
    let mut out = Vec::new();
    for line in text.lines() {
        let line = line.trim();
        if line.starts_with('#') {
            continue;
        } else if line.starts_with('[') && line.ends_with(']') {
            section = line[1..line.len() - 1].to_string();
        } else if let Some((key, value)) = line.split_once('=') {
            out.push((section.clone(), key.to_string(), value.to_string()));
        }
    }
    out
}

#[test]
fn parser_reads_line_by_line() {
    let texts = [
        "",
        "\n",
        "a=b",
        "a=b\n",
        "a=b\r\n[s]\r\nc=d\r\n",
        "a=b\rc=d\n",
        "\r\n\r\n[x]\n\n=\n==\n[=]\n",
        "[]\n[\n]\n[[]]\nk=[v]\n[k=v]\n[k]=v\n",
        " # c\n#[s]\n# a=b\n a # = b\n",
        "[s] trailing\nx=1\n[ s ]\ny=2\n",
        "\u{feff}[bom]\na=b\n",
        "k\u{a0}=\u{a0}v\u{a0}\n\u{2028}l=m\n",
        "no newline at end [s]\n[t]\nlast=line",
        "a=1\n\n\n\n[b]\n\n\nc=2\n\n",
    ];
    for text in texts {
        assert_eq!(triples(&parse_str(text)), by_lines(text), "{text:?}");
    }
}
