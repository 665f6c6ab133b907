use mooncake_http_client::text::{
    chars_of, decimal_string, filled_text_lines, join_strings, lines, owned_strings,
    split_text, trim_text,
};

fn strings(items: &[&str]) -> Vec<String> {
    items.iter().map(|s| s.to_string()).collect()
}

#[test]
fn decimal_of_numbers() {
    assert_eq!(decimal_string(0), "0");
    assert_eq!(decimal_string(7), "7");
    assert_eq!(decimal_string(10), "10");
    assert_eq!(decimal_string(404), "404");
    assert_eq!(decimal_string(65535), "65535");
    assert_eq!(decimal_string(u64::MAX), u64::MAX.to_string());
}

#[test]
fn chars_in_order() {
    assert_eq!(chars_of("aé€"), vec!['a', 'é', '€']);
    assert_eq!(chars_of(""), Vec::<char>::new());
}

#[test]
fn split_keeps_empty_pieces() {
    assert_eq!(split_text("a,,b", ','), strings(&["a", "", "b"]));
    assert_eq!(split_text("", ','), strings(&[""]));
    assert_eq!(split_text(",", ','), strings(&["", ""]));
    assert_eq!(split_text("abc", ','), strings(&["abc"]));
}

#[test]
fn lines_as_str_lines_gives_them() {
    let text = "foo\nbar\n\r\nbaz\r";
    let expected: Vec<String> = text.lines().map(|s| s.to_string()).collect();
    assert_eq!(lines(text), expected);
    assert_eq!(lines(text), strings(&["foo", "bar", "", "baz\r"]));
    assert_eq!(lines("a\n"), strings(&["a"]));
    assert_eq!(lines(""), Vec::<String>::new());
    assert_eq!(lines("\n"), strings(&[""]));
    assert_eq!(lines("a\r\nb"), strings(&["a", "b"]));
}

#[test]
fn filled_lines_drop_empty_ones() {
    assert_eq!(filled_text_lines("k1\n\nk2\r\n\r\n"), strings(&["k1", "k2"]));
    assert_eq!(filled_text_lines("\n\n"), Vec::<String>::new());
}

#[test]
fn trim_removes_unicode_space() {
    assert_eq!(trim_text("  a b \t\r\n"), "a b");
    assert_eq!(trim_text("\u{3000}key\u{00A0}"), "key");
    assert_eq!(trim_text("   "), "");
    assert_eq!(trim_text(""), "");
    for s in ["\u{85}x\u{2009}", " \u{1680}y z\u{205F} ", "\u{200B}w"] {
        assert_eq!(trim_text(s), s.trim());
    }
}

#[test]
fn join_puts_separator_between() {
    assert_eq!(join_strings(&strings(&["a", "b", "c"]), ","), "a,b,c");
    assert_eq!(join_strings(&strings(&["only"]), ","), "only");
    assert_eq!(join_strings(&Vec::new(), ","), "");
    assert_eq!(owned_strings(&["x", "y"]), strings(&["x", "y"]));
}

#[test]
fn lines_of_joined_lines_give_them_back() {
    let items = strings(&["key1", "key two", "k3"]);
    let text = join_strings(&items, "\n");
    assert_eq!(filled_text_lines(&text), items);
    assert_eq!(filled_text_lines(""), Vec::<String>::new());
}
