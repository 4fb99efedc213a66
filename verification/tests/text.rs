use markdown_it::common::sourcemap::push_label;
use markdown_it::common::text::{
    char_width, digit_char, push_decimal, push_escaped, push_range, push_text, string_from,
    string_of, to_chars,
};

#[test]
fn widths_of_code_points() {
    assert_eq!(char_width('a'), 1);
    assert_eq!(char_width('\u{7f}'), 1);
    assert_eq!(char_width('\u{80}'), 2);
    assert_eq!(char_width('é'), 2);
    assert_eq!(char_width('\u{7ff}'), 2);
    assert_eq!(char_width('\u{800}'), 3);
    assert_eq!(char_width('€'), 3);
    assert_eq!(char_width('\u{ffff}'), 3);
    assert_eq!(char_width('\u{10000}'), 4);
    assert_eq!(char_width('𝄞'), 4);
    for c in ['a', 'é', '€', '𝄞', '\u{10ffff}'] {
        assert_eq!(char_width(c), c.len_utf8());
    }
}

#[test]
fn chars_and_strings() {
    let chars = to_chars("héllo");
    assert_eq!(chars, vec!['h', 'é', 'l', 'l', 'o']);
    assert_eq!(string_from(&chars), "héllo");
    assert_eq!(string_of(&chars, 1, 4), "éll");
    assert_eq!(string_of(&chars, 2, 2), "");
    let mut out = "x".to_string();
    push_range(&mut out, &chars, 3, 5);
    assert_eq!(out, "xlo");
    let mut buffer = vec!['>'];
    push_text(&mut buffer, "ab");
    assert_eq!(buffer, vec!['>', 'a', 'b']);
}

#[test]
fn decimal_numbers() {
    for (n, expected) in [
        (0usize, "0"),
        (7, "7"),
        (10, "10"),
        (42, "42"),
        (1000, "1000"),
        (909, "909"),
        (usize::MAX, &usize::MAX.to_string()),
    ] {
        let mut out = Vec::new();
        push_decimal(&mut out, n);
        assert_eq!(string_from(&out), expected);
    }
    assert_eq!(digit_char(0), '0');
    assert_eq!(digit_char(9), '9');
    assert_eq!(digit_char(5), '5');
}

#[test]
fn escaping() {
    let mut out = Vec::new();
    push_escaped(&mut out, "a&b<c>d\"e'f");
    assert_eq!(string_from(&out), "a&amp;b&lt;c&gt;d&quot;e'f");
    let mut out = vec!['x'];
    push_escaped(&mut out, "");
    assert_eq!(out, vec!['x']);
}

#[test]
fn labels() {
    let mut out = Vec::new();
    push_label(&mut out, ((1, 1), (2, 3)));
    assert_eq!(string_from(&out), "1:1-2:3");
    let mut out = Vec::new();
    push_label(&mut out, ((12, 345), (6789, 10)));
    assert_eq!(string_from(&out), "12:345-6789:10");
}
