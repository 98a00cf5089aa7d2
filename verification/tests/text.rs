use rtop::split::{base_of_path, name_in_path, split_fields, split_lines, split_once, split_words};
use rtop::text::{
    begins_with_str, chars_of, copy_str, earlier_str, lower_string, position_of_text,
    same_ignoring_case, same_str, string_of, stripped, trimmed, Strip,
};

fn strings(list: &[&[char]]) -> Vec<String> {
    list.iter().map(|part| string_of(part)).collect()
}

#[test]
fn characters_and_strings() {
    assert_eq!(chars_of("aé→"), vec!['a', 'é', '→']);
    assert_eq!(string_of(&['x', 'y']), "xy");
    assert_eq!(copy_str("abc"), "abc");
    assert!(same_str("abc", "abc"));
    assert!(!same_str("abc", "abd"));
}

#[test]
fn order_of_texts() {
    assert!(earlier_str("a", "b"));
    assert!(earlier_str("a", "aa"));
    assert!(!earlier_str("b", "a"));
    assert!(!earlier_str("a", "a"));
    assert!(earlier_str("Z", "a"));
    assert_eq!(earlier_str("zebra", "über"), "zebra" < "über");
}

#[test]
fn white_space_and_quotes() {
    let text = chars_of(" \t\u{3000}a b\n");
    assert_eq!(string_of(trimmed(&text)), "a b");
    let quoted = chars_of("\"'x'\"");
    assert_eq!(string_of(stripped(&quoted, Strip::Quote)), "x");
    for n in 0..0x11_0000u32 {
        if let Some(c) = char::from_u32(n) {
            assert_eq!(Strip::White.test(c), c.is_whitespace(), "{n:x}");
        }
    }
}

#[test]
fn case_of_letters() {
    assert_eq!(lower_string(&chars_of("AbCÄ")), "abcÄ");
    assert!(same_ignoring_case(&chars_of("[Desktop entry]"), &chars_of("[DESKTOP ENTRY]")));
    assert!(!same_ignoring_case(&chars_of("a"), &chars_of("b")));
}

#[test]
fn searching() {
    assert!(begins_with_str(&chars_of("Name=x"), "Name="));
    assert!(!begins_with_str(&chars_of("Nam"), "Name="));
    assert_eq!(position_of_text(&chars_of("abcabc"), &chars_of("ca")), Some(2));
    assert_eq!(position_of_text(&chars_of("abc"), &chars_of("x")), None);
    assert_eq!(position_of_text(&chars_of("abc"), &chars_of("")), Some(0));
}

#[test]
fn fields_lines_and_words() {
    assert_eq!(strings(&split_fields(&chars_of("a,,b"), ',')), vec!["a", "", "b"]);
    assert_eq!(strings(&split_fields(&chars_of(""), ',')), vec![""]);
    for text in ["", "a", "a\n", "a\r\nb", "\n\n", "a\r", "a\n\nb\n", "a\rb\n"] {
        let expected = text.lines().map(str::to_string).collect::<Vec<_>>();
        assert_eq!(strings(&split_lines(&chars_of(text))), expected, "{text:?}");
    }
    for text in ["", "  ", "a", " a  b\tc\n", "\u{2003}x\u{85}y"] {
        let expected = text.split_whitespace().map(str::to_string).collect::<Vec<_>>();
        assert_eq!(strings(&split_words(&chars_of(text))), expected, "{text:?}");
    }
}

#[test]
fn cutting_in_two() {
    let text = chars_of("a=b=c");
    let (a, b) = split_once(&text, '=').unwrap();
    assert_eq!((string_of(a), string_of(b)), ("a".to_string(), "b=c".to_string()));
    assert!(split_once(&chars_of("abc"), '=').is_none());
}

#[test]
fn names_in_paths() {
    let paths = [
        "", "/", "a", "/usr/bin/top", "a/", "a//", "a/.", "./a", ".", "..", "a/..", "/a/../b", "a/./b",
        "./", "//x",
    ];
    for path in paths {
        let expected = std::path::Path::new(path)
            .file_name()
            .and_then(|name| name.to_str())
            .map(str::to_string);
        let chars = chars_of(path);
        assert_eq!(name_in_path(&chars).map(string_of), expected, "{path:?}");
        let base = expected.unwrap_or_else(|| path.to_string());
        assert_eq!(string_of(base_of_path(&chars)), base, "{path:?}");
    }
}
