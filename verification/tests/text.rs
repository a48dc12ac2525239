use witd::text::{
    ascii_token_end_from, char_is_ascii_whitespace, char_is_whitespace, chars_of, join,
    skip_whitespace_from, split_ascii_whitespace, starts_at, substitute, token_end_from,
};

fn chars(s: &str) -> Vec<char> {
    s.chars().collect()
}

#[test]
fn whitespace_is_the_unicode_property() {
    let mut count = 0;
    for u in 0..=0x10FFFFu32 {
        if let Some(c) = char::from_u32(u) {
            assert_eq!(c.is_whitespace(), char_is_whitespace(c), "U+{:04X}", u);
            if char_is_whitespace(c) {
                count += 1;
            }
        }
    }
    assert_eq!(25, count);
}

#[test]
fn ascii_whitespace_is_five_characters() {
    let mut found = vec![];
    for u in 0..=0x10FFFFu32 {
        if let Some(c) = char::from_u32(u) {
            assert_eq!(c.is_ascii_whitespace(), char_is_ascii_whitespace(c), "U+{:04X}", u);
            if char_is_ascii_whitespace(c) {
                found.push(c);
            }
        }
    }
    assert_eq!(vec!['\t', '\n', '\u{c}', '\r', ' '], found);
}

#[test]
fn chars_of_gives_the_characters_in_order() {
    assert_eq!(Vec::<char>::new(), chars_of(""));
    assert_eq!(vec!['a', 'b', 'c'], chars_of("abc"));
    assert_eq!(
        vec!['h', '\u{e9}', '\u{65e5}', '\u{1f600}', '!'],
        chars_of("h\u{e9}\u{65e5}\u{1f600}!")
    );
}

#[test]
fn starts_at_tests_one_position() {
    let s = chars("directory ./src");
    assert!(starts_at(&s, 0, &chars("directory")));
    assert!(starts_at(&s, 0, &chars("")));
    assert!(starts_at(&s, 15, &chars("")));
    assert!(!starts_at(&s, 16, &chars("")));
    assert!(starts_at(&s, 10, &chars("./src")));
    assert!(!starts_at(&s, 10, &chars("./srcs")));
    assert!(!starts_at(&s, 11, &chars("./src")));
    assert!(!starts_at(&s, 1, &chars("directory")));
    assert!(!starts_at(&s, usize::MAX, &chars("d")));
    assert!(!starts_at(&chars("ab"), 0, &chars("abc")));
}

#[test]
fn skip_whitespace_stops_at_the_first_other_character() {
    let s = chars(" \t\u{a0}x  y ");
    assert_eq!(3, skip_whitespace_from(&s, 0));
    assert_eq!(3, skip_whitespace_from(&s, 2));
    assert_eq!(3, skip_whitespace_from(&s, 3));
    assert_eq!(6, skip_whitespace_from(&s, 4));
    assert_eq!(8, skip_whitespace_from(&s, 7));
    assert_eq!(8, skip_whitespace_from(&s, 8));
    assert_eq!(9, skip_whitespace_from(&s, 9));
    assert_eq!(usize::MAX, skip_whitespace_from(&s, usize::MAX));
}

#[test]
fn token_end_stops_at_the_first_whitespace() {
    let s = chars("ab cd\u{2003}e");
    assert_eq!(2, token_end_from(&s, 0));
    assert_eq!(2, token_end_from(&s, 2));
    assert_eq!(5, token_end_from(&s, 3));
    assert_eq!(7, token_end_from(&s, 6));
    assert_eq!(7, token_end_from(&s, 7));
    assert_eq!(12, token_end_from(&s, 12));
}

#[test]
fn ascii_token_end_does_not_stop_at_other_whitespace() {
    let s = chars("ab\u{a0}cd\u{b}e f");
    assert_eq!(7, ascii_token_end_from(&s, 0));
    assert_eq!(7, ascii_token_end_from(&s, 7));
    assert_eq!(9, ascii_token_end_from(&s, 8));
}

#[test]
fn join_puts_the_separator_between_neighbours() {
    let none: Vec<String> = vec![];
    assert_eq!("", join(&none, ", "));
    assert_eq!("a", join(&vec!["a".to_string()], ", "));
    assert_eq!("a, b", join(&vec!["a".to_string(), "b".to_string()], ", "));
    assert_eq!(
        "DIR|EXT|NAME|PATH",
        join(
            &vec!["DIR".to_string(), "EXT".to_string(), "NAME".to_string(), "PATH".to_string()],
            "|"
        )
    );
    assert_eq!("||", join(&vec!["".to_string(), "".to_string(), "".to_string()], "|"));
    assert_eq!("ab", join(&vec!["a".to_string(), "b".to_string()], ""));
}

fn strings(parts: &[&str]) -> Vec<String> {
    parts.iter().map(|p| p.to_string()).collect()
}

#[test]
fn substitute_with_one_pattern_agrees_with_str_replace() {
    let texts = [
        "",
        "a",
        "aaa",
        "aaaa",
        "abcabc",
        "echo DIR",
        "DIRDIR",
        "DDIRIR",
        "xDIxRx",
        "DI",
        "h\u{e9}llo DIR \u{1f600}DIR",
    ];
    let patterns = ["a", "aa", "abc", "DIR", "D", "\u{e9}", "\u{1f600}DIR", "zzzzzzzzzzzz"];
    let values = ["", "b", "aa", "DIR", "./some/where", "\u{65e5}"];
    for text in texts {
        for pattern in patterns {
            for value in values {
                assert_eq!(
                    text.replace(pattern, value),
                    substitute(text, &strings(&[pattern]), &strings(&[value])),
                    "{:?} {:?} {:?}",
                    text,
                    pattern,
                    value
                );
            }
        }
    }
}

#[test]
fn substitute_does_not_overlap() {
    assert_eq!("ba", substitute("aaa", &strings(&["aa"]), &strings(&["b"])));
    assert_eq!("bb", substitute("aaaa", &strings(&["aa"]), &strings(&["b"])));
    assert_eq!("xbx", substitute("xababax", &strings(&["ababa"]), &strings(&["b"])));
}

#[test]
fn substitute_does_not_search_what_it_put_in() {
    assert_eq!("aaaa", substitute("aa", &strings(&["a"]), &strings(&["aa"])));
    assert_eq!("ba", substitute("ab", &strings(&["a", "b"]), &strings(&["b", "a"])));
    assert_eq!("b-a", substitute("a-b", &strings(&["a", "b"]), &strings(&["b", "a"])));
}

#[test]
fn substitute_takes_the_first_pattern_that_opens() {
    assert_eq!("12", substitute("aab", &strings(&["ab", "a"]), &strings(&["2", "1"])));
    assert_eq!("11b", substitute("aab", &strings(&["a", "ab"]), &strings(&["1", "2"])));
    assert_eq!("3", substitute("abc", &strings(&["abc", "ab", "a"]), &strings(&["3", "2", "1"])));
}

#[test]
fn substitute_never_finds_an_empty_pattern_or_one_without_value() {
    assert_eq!("abc", substitute("abc", &strings(&[""]), &strings(&["x"])));
    assert_eq!("", substitute("", &strings(&[""]), &strings(&["x"])));
    assert_eq!("xbc", substitute("abc", &strings(&["", "a"]), &strings(&["y", "x"])));
    assert_eq!("xbc", substitute("abc", &strings(&["a", "b"]), &strings(&["x"])));
    assert_eq!("abc", substitute("abc", &strings(&["a"]), &strings(&[])));
    assert_eq!("abc", substitute("abc", &strings(&[]), &strings(&["x"])));
}

#[test]
fn split_ascii_whitespace_agrees_with_str() {
    for s in [
        "",
        " ",
        "echo",
        "echo hello world",
        "  echo \t hello\n\nworld \r\n",
        "a\u{a0}b c\u{b}d",
        "\u{c}x\u{c}",
        "h\u{e9}llo \u{1f600} \u{65e5}\u{672c}",
    ] {
        let expected: Vec<String> = s.split_ascii_whitespace().map(|t| t.to_string()).collect();
        assert_eq!(expected, split_ascii_whitespace(s), "{:?}", s);
    }
}

#[test]
fn split_ascii_whitespace_gives_the_tokens() {
    assert_eq!(
        vec!["cp".to_string(), "-r".to_string(), "./a".to_string(), "./b".to_string()],
        split_ascii_whitespace(" cp  -r\t./a\n./b ")
    );
    assert_eq!(Vec::<String>::new(), split_ascii_whitespace(" \t\r\n"));
}
