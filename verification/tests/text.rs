use phonebook::decimal::{decimal_string, parse_bounded, parse_u16, parse_u64, NumberError};
use phonebook::text::{
    chars_of, has_substring, is_free_of, join_with, same_text, split_on, string_of,
};

fn strings(list: &[&str]) -> Vec<String> {
    list.iter().map(|s| s.to_string()).collect()
}

#[test]
fn split_as_std_does() {
    for text in ["", ";", "a", "a;b", "a;;b", ";a;", "1;John;Smith;555;;;0;0", "ä;ö;;ü"] {
        let expected: Vec<String> = text.split(';').map(|s| s.to_string()).collect();
        assert_eq!(split_on(text, ';'), expected, "text {:?}", text);
    }
}

#[test]
fn split_gives_one_piece_more_than_separators() {
    assert_eq!(split_on("", ';'), strings(&[""]));
    assert_eq!(split_on(";", ';'), strings(&["", ""]));
    assert_eq!(split_on("a;b;", ';'), strings(&["a", "b", ""]));
    assert_eq!(split_on("a\nb", ';'), strings(&["a\nb"]));
    assert_eq!(split_on("a\nb", '\n'), strings(&["a", "b"]));
}

#[test]
fn join_as_std_does() {
    assert_eq!(join_with(&Vec::new(), ';'), "");
    assert_eq!(join_with(&strings(&[""]), ';'), "");
    assert_eq!(join_with(&strings(&["a"]), ';'), "a");
    assert_eq!(join_with(&strings(&["a", "b", "", "c"]), ';'), "a;b;;c");
    assert_eq!(join_with(&strings(&["", ""]), '\n'), "\n");
}

#[test]
fn split_undoes_join() {
    let parts = strings(&["1", "John", "", "ü", "0"]);
    assert_eq!(split_on(&join_with(&parts, ';'), ';'), parts);
    let text = ";a;;b;";
    assert_eq!(join_with(&split_on(text, ';'), ';'), text);
}

#[test]
fn chars_and_back() {
    let v = chars_of("héllo");
    assert_eq!(v, vec!['h', 'é', 'l', 'l', 'o']);
    assert_eq!(string_of(&v, 1, 4), "éll");
    assert_eq!(string_of(&v, 2, 2), "");
    assert_eq!(string_of(&v, 0, 5), "héllo");
    assert_eq!(chars_of(""), Vec::<char>::new());
}

#[test]
fn same_text_compares_content() {
    assert!(same_text("--", "--"));
    assert!(same_text("", ""));
    assert!(!same_text("--", "-"));
    assert!(!same_text("a", "A"));
}

#[test]
fn substring_as_std_does() {
    let cases = [
        ("John Smith", "Smith"),
        ("John Smith", "n S"),
        ("John Smith", "smith"),
        ("John Smith", ""),
        ("", ""),
        ("", "a"),
        ("abc", "abcd"),
        ("abc", "abc"),
        ("aab", "ab"),
        ("555", "5"),
        ("777", "5"),
        ("grüße", "üß"),
        ("grüße", "us"),
    ];
    for (hay, needle) in cases {
        assert_eq!(has_substring(hay, needle), hay.contains(needle), "{:?} in {:?}", needle, hay);
    }
    assert!(has_substring("John Smith", "Smith"));
    assert!(!has_substring("John Smith", "smith"));
}

#[test]
fn decimal_as_std_does() {
    for n in [0u64, 1, 9, 10, 11, 99, 100, 12345, 65535, 65536, u64::MAX - 1, u64::MAX] {
        assert_eq!(decimal_string(n), n.to_string());
    }
    assert_eq!(decimal_string(0), "0");
    assert_eq!(decimal_string(1700000000), "1700000000");
    assert_eq!(decimal_string(u64::MAX), "18446744073709551615");
}

#[test]
fn parse_u16_as_std_does() {
    let texts = [
        "", "0", "7", "007", "+7", "++7", "+", "-", "-0", "-7", "65535", "65536", "0065535",
        "+65535", "99999", "99999x", "65535x", "655350x", "6553x", "x", "1x", " 1", "1 ", "1_0",
        "١", "1.0", "+-1", "000000000000000000000000001",
    ];
    for text in texts {
        let expected = text.parse::<u16>();
        let got = parse_u16(text);
        assert_eq!(got.ok(), expected.clone().ok(), "text {:?}", text);
        assert_eq!(
            got.err().map(|e| e.message()),
            expected.err().map(|e| e.to_string()),
            "text {:?}",
            text
        );
    }
}

#[test]
fn parse_u64_as_std_does() {
    let texts = [
        "", "0", "18446744073709551615", "18446744073709551616", "+18446744073709551615",
        "184467440737095516150", "18446744073709551615x", "1844674407370955161x", "-1", "+",
        "99999999999999999999999999", "1700000000",
    ];
    for text in texts {
        let expected = text.parse::<u64>();
        let got = parse_u64(text);
        assert_eq!(got.ok(), expected.clone().ok(), "text {:?}", text);
        assert_eq!(
            got.err().map(|e| e.message()),
            expected.err().map(|e| e.to_string()),
            "text {:?}",
            text
        );
    }
}

#[test]
fn parse_each_fault() {
    assert_eq!(parse_u16(""), Err(NumberError::Empty));
    assert_eq!(parse_u16("+"), Err(NumberError::InvalidDigit));
    assert_eq!(parse_u16("12a"), Err(NumberError::InvalidDigit));
    assert_eq!(parse_u16("65536"), Err(NumberError::TooLarge));
    assert_eq!(parse_u16("65536a"), Err(NumberError::TooLarge));
    assert_eq!(parse_u16("65535a"), Err(NumberError::InvalidDigit));
    assert_eq!(parse_u16("65535"), Ok(65535));
    assert_eq!(parse_bounded("10", 9), Err(NumberError::TooLarge));
    assert_eq!(parse_bounded("9", 9), Ok(9));
    assert_eq!(parse_bounded("0", 0), Ok(0));
    assert_eq!(parse_bounded("1", 0), Err(NumberError::TooLarge));
}

#[test]
fn parse_undoes_decimal() {
    for n in [0u64, 5, 10, 65535, 1700000000, u64::MAX] {
        assert_eq!(parse_u64(&decimal_string(n)), Ok(n));
    }
    for n in [0u16, 1, 255, 65535] {
        assert_eq!(parse_u16(&decimal_string(n as u64)), Ok(n));
    }
}

#[test]
fn fault_messages() {
    assert_eq!(NumberError::Empty.message(), "cannot parse integer from empty string");
    assert_eq!(NumberError::InvalidDigit.message(), "invalid digit found in string");
    assert_eq!(NumberError::TooLarge.message(), "number too large to fit in target type");
}

#[test]
fn free_of_a_character() {
    assert!(is_free_of("", ';'));
    assert!(is_free_of("John Smith", ';'));
    assert!(!is_free_of("John;Smith", ';'));
    assert!(!is_free_of(";", ';'));
    assert!(!is_free_of("John Smith;", ';'));
    assert!(is_free_of("John;Smith", '\n'));
    assert!(!is_free_of("John\nSmith", '\n'));
    assert!(!is_free_of("grüße", 'ß'));
}
