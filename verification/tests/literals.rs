use svd_parser::element::{new_element, Element};
use svd_parser::error::{LiteralFault, SVDError};
use svd_parser::literal::{
    boolean_string, decimal_range_texts, decimal_text, digit_of, find_char, has_placeholder,
    index_list_string, join_commas, normalize_dont_care, parse_boolean, parse_boolean_chars,
    parse_index_list_chars, parse_integer, parse_integer_chars, parse_radix, split_commas,
};
use svd_parser::parse::{
    bool, dim_index, get_child_bool, get_child_elem, get_child_u32, get_text, is_dim_index,
    optional, try_dim_index, u32, u32_text, Parse,
};
use svd_parser::text::{chars_text, text_chars};
use svd_parser::types::{BoolParse, DimIndex};

fn leaf(tag: &str, text: &str) -> Element {
    new_element(tag, Some(text.to_string()))
}

fn chars(s: &str) -> Vec<char> {
    s.chars().collect()
}

fn strings(items: &[&str]) -> Vec<String> {
    items.iter().map(|s| s.to_string()).collect()
}

fn invalid(text: &str, fault: LiteralFault) -> SVDError {
    SVDError::InvalidLiteral { text: text.to_string(), fault }
}

#[test]
fn integer_in_each_notation() {
    assert_eq!(parse_integer("#01101x1"), Ok(53));
    assert_eq!(parse_integer("0xFF"), Ok(255));
    assert_eq!(parse_integer("0b101"), Ok(5));
    assert_eq!(parse_integer("42"), Ok(42));
}

#[test]
fn integer_prefix_precedence() {
    assert_eq!(parse_integer("0X1f"), Ok(31));
    assert_eq!(parse_integer("0xdeadBEEF"), Ok(0xdead_beef));
    assert_eq!(parse_integer("0"), Ok(0));
    assert_eq!(parse_integer("007"), Ok(7));
    // An upper case `B` is no binary prefix, so the text is read as decimal.
    assert_eq!(parse_integer("0B101"), Err(LiteralFault::InvalidDigit));
    assert_eq!(parse_integer("0x#1"), Err(LiteralFault::InvalidDigit));
}

#[test]
fn dont_care_bits_count_as_zero() {
    assert_eq!(parse_integer("#xxxx"), Ok(0));
    assert_eq!(parse_integer("#1X1"), Ok(5));
    assert_eq!(parse_integer("#1x1"), Ok(5));
    assert_eq!(parse_integer("0b1x1"), Ok(5));
    assert_eq!(parse_integer("0b1X"), Ok(2));
    assert_eq!(parse_integer("0bx1"), Ok(1));
    // Outside the binary forms `x` is no digit.
    assert_eq!(parse_integer("1x1"), Err(LiteralFault::InvalidDigit));
    assert_eq!(parse_integer("0x1x"), Err(LiteralFault::InvalidDigit));
}

#[test]
fn normalization_is_a_step_of_its_own() {
    assert_eq!(normalize_dont_care(&chars("01xX1")), chars("01001"));
    assert_eq!(normalize_dont_care(&chars("")), chars(""));
    assert_eq!(normalize_dont_care(&chars("x-y")), chars("0-y"));
    assert_eq!(parse_radix(&normalize_dont_care(&chars("1x0X")), 2), Ok(8));
}

#[test]
fn malformed_integers_are_errors() {
    assert_eq!(parse_integer("0xZZ"), Err(LiteralFault::InvalidDigit));
    assert_eq!(parse_integer("abc"), Err(LiteralFault::InvalidDigit));
    assert_eq!(parse_integer(""), Err(LiteralFault::Empty));
    assert_eq!(parse_integer("0x"), Err(LiteralFault::Empty));
    assert_eq!(parse_integer("#"), Err(LiteralFault::Empty));
    assert_eq!(parse_integer("0b"), Err(LiteralFault::Empty));
    assert_eq!(parse_integer("#012"), Err(LiteralFault::InvalidDigit));
    assert_eq!(parse_integer("-1"), Err(LiteralFault::InvalidDigit));
    assert_eq!(parse_integer(" 1"), Err(LiteralFault::InvalidDigit));
    assert_eq!(parse_integer("1_000"), Err(LiteralFault::InvalidDigit));
    assert_eq!(parse_integer("+"), Err(LiteralFault::InvalidDigit));
    assert_eq!(parse_integer("\u{661}"), Err(LiteralFault::InvalidDigit));
}

#[test]
fn integer_limits() {
    assert_eq!(parse_integer("4294967295"), Ok(u32::MAX));
    assert_eq!(parse_integer("4294967296"), Err(LiteralFault::Overflow));
    assert_eq!(parse_integer("0xFFFFFFFF"), Ok(u32::MAX));
    assert_eq!(parse_integer("0x100000000"), Err(LiteralFault::Overflow));
    assert_eq!(parse_integer("#11111111111111111111111111111111"), Ok(u32::MAX));
    assert_eq!(
        parse_integer("#100000000000000000000000000000000"),
        Err(LiteralFault::Overflow)
    );
    assert_eq!(parse_integer("99999999999999999999999999"), Err(LiteralFault::Overflow));
    // A character that is no digit decides, wherever it stands.
    assert_eq!(parse_integer("99999999999999999999999999z"), Err(LiteralFault::InvalidDigit));
    assert_eq!(parse_integer("0000000000000000000000001"), Ok(1));
}

#[test]
fn a_leading_plus_is_accepted() {
    assert_eq!(parse_integer("+42"), Ok(42));
    assert_eq!(parse_integer("0x+ff"), Ok(255));
    assert_eq!(parse_integer("++1"), Err(LiteralFault::InvalidDigit));
}

#[test]
fn integer_agrees_with_std() {
    for text in ["0", "1", "10", "4294967295", "4294967296", "12a", "", "+7", "-7", "00"] {
        assert_eq!(parse_radix(&chars(text), 10).ok(), text.parse::<u32>().ok(), "{}", text);
    }
    for text in ["ff", "FF", "g", "7fffffff", "100000000", "+a", ""] {
        assert_eq!(
            parse_radix(&chars(text), 16).ok(),
            u32::from_str_radix(text, 16).ok(),
            "{}",
            text
        );
    }
    for text in ["101", "102", "", "+1"] {
        assert_eq!(parse_radix(&chars(text), 2).ok(), u32::from_str_radix(text, 2).ok());
    }
}

#[test]
fn digits_of_each_radix() {
    assert_eq!(digit_of('7', 10), Some(7));
    assert_eq!(digit_of('a', 16), Some(10));
    assert_eq!(digit_of('F', 16), Some(15));
    assert_eq!(digit_of('z', 36), Some(35));
    assert_eq!(digit_of('2', 2), None);
    assert_eq!(digit_of('g', 16), None);
    assert_eq!(digit_of('/', 10), None);
    assert_eq!(digit_of(':', 10), None);
    assert_eq!(digit_of('@', 36), None);
    assert_eq!(digit_of('[', 36), None);
    assert_eq!(digit_of('`', 36), None);
    assert_eq!(digit_of('{', 36), None);
}

#[test]
fn integer_from_characters() {
    assert_eq!(parse_integer_chars(&chars("0x10")), Ok(16));
    assert_eq!(parse_integer_chars(&chars("#10")), Ok(2));
}

#[test]
fn integer_of_an_element() {
    assert_eq!(u32(&leaf("size", "0x20")), Ok(32));
    assert_eq!(u32(&leaf("size", "0xZZ")), Err(invalid("0xZZ", LiteralFault::InvalidDigit)));
    assert_eq!(u32(&leaf("size", "abc")), Err(invalid("abc", LiteralFault::InvalidDigit)));
    assert_eq!(
        u32(&new_element("size", None)),
        Err(SVDError::EmptyTag { element: "size".to_string() })
    );
    assert_eq!(<u32 as Parse>::parse(&leaf("size", "#1x")), Ok(2));
    assert_eq!(
        <u32 as Parse>::parse(&leaf("size", "")),
        Err(invalid("", LiteralFault::Empty))
    );
    assert_eq!(u32_text("17"), Ok(17));
}

#[test]
fn booleans() {
    assert_eq!(parse_boolean("0"), Some(false));
    assert_eq!(parse_boolean("1"), Some(true));
    assert_eq!(parse_boolean("true"), Some(true));
    assert_eq!(parse_boolean("false"), Some(false));
    assert_eq!(parse_boolean("maybe"), None);
    assert_eq!(parse_boolean(""), None);
    assert_eq!(parse_boolean("True"), None);
    assert_eq!(parse_boolean("true "), None);
    assert_eq!(parse_boolean("10"), None);
    assert_eq!(parse_boolean("fals"), None);
    assert_eq!(parse_boolean_chars(&chars("false")), Some(false));
}

#[test]
fn booleans_of_an_element() {
    assert_eq!(bool(&leaf("b", "1")), Some(true));
    assert_eq!(bool(&leaf("b", "maybe")), None);
    assert_eq!(bool(&new_element("b", None)), None);
    assert_eq!(BoolParse::parse(&leaf("b", "false")), Ok(false));
    assert_eq!(BoolParse::parse(&leaf("b", "0")), Ok(false));
    assert_eq!(BoolParse::parse(&leaf("b", "true")), Ok(true));
    assert_eq!(
        BoolParse::parse(&leaf("b", "maybe")),
        Err(invalid("maybe", LiteralFault::NotBoolean))
    );
    assert_eq!(
        BoolParse::parse(&new_element("b", None)),
        Err(SVDError::EmptyTag { element: "b".to_string() })
    );
}

#[test]
fn boolean_text_reads_back() {
    assert_eq!(boolean_string(true), "true");
    assert_eq!(boolean_string(false), "false");
    assert_eq!(parse_boolean(&boolean_string(true)), Some(true));
    assert_eq!(parse_boolean(&boolean_string(false)), Some(false));
}

#[test]
fn dimension_index() {
    assert_eq!(dim_index("0-3"), Ok(strings(&["0", "1", "2", "3"])));
    assert_eq!(dim_index("A,B,C"), Ok(strings(&["A", "B", "C"])));
}

#[test]
fn dimension_index_edges() {
    assert_eq!(dim_index("5-5"), Ok(strings(&["5"])));
    assert_eq!(dim_index("3-1"), Ok(strings(&[])));
    assert_eq!(dim_index("9-11"), Ok(strings(&["9", "10", "11"])));
    assert_eq!(dim_index("+1-2"), Ok(strings(&["1", "2"])));
    assert_eq!(dim_index("4294967294-4294967295"), Ok(strings(&["4294967294", "4294967295"])));
    assert_eq!(dim_index(" a, b"), Ok(strings(&[" a", " b"])));
    assert_eq!(dim_index(","), Ok(strings(&["", ""])));
    assert_eq!(dim_index("a,"), Ok(strings(&["a", ""])));
    assert_eq!(dim_index(",a,,b"), Ok(strings(&["", "a", "", "b"])));
    // A `-` decides for the range, also where commas follow.
    assert_eq!(dim_index("1-2,3"), Err(invalid("1-2,3", LiteralFault::InvalidDigit)));
    assert_eq!(dim_index("a-3"), Err(invalid("a-3", LiteralFault::InvalidDigit)));
    assert_eq!(dim_index("1-"), Err(invalid("1-", LiteralFault::Empty)));
    assert_eq!(dim_index("-1"), Err(invalid("-1", LiteralFault::Empty)));
    assert_eq!(dim_index("1-2-3"), Err(invalid("1-2-3", LiteralFault::InvalidDigit)));
    assert_eq!(dim_index("0-4294967296"), Err(invalid("0-4294967296", LiteralFault::Overflow)));
}

#[test]
fn dimension_index_of_any_text() {
    assert!(is_dim_index("0-3"));
    assert!(is_dim_index("a,b"));
    assert!(!is_dim_index("abc"));
    assert!(!is_dim_index(""));
    assert_eq!(try_dim_index("0-1"), Ok(strings(&["0", "1"])));
    assert_eq!(try_dim_index("abc"), Err(invalid("abc", LiteralFault::NotIndexList)));
    assert_eq!(try_dim_index(""), Err(invalid("", LiteralFault::NotIndexList)));
    assert_eq!(parse_index_list_chars(&chars("x,y")), Ok(strings(&["x", "y"])));
    assert_eq!(parse_index_list_chars(&chars("xy")), Err(LiteralFault::NotIndexList));
}

#[test]
fn dimension_index_of_an_element() {
    assert_eq!(DimIndex::parse(&leaf("dimIndex", "0-2")), Ok(strings(&["0", "1", "2"])));
    assert_eq!(DimIndex::parse(&leaf("dimIndex", "A,B")), Ok(strings(&["A", "B"])));
    assert_eq!(
        DimIndex::parse(&new_element("dimIndex", None)),
        Err(SVDError::EmptyTag { element: "dimIndex".to_string() })
    );
    assert_eq!(DimIndex::try_parse(&leaf("dimIndex", "0-1")), Ok(strings(&["0", "1"])));
    assert_eq!(
        DimIndex::try_parse(&leaf("dimIndex", "A")),
        Err(invalid("A", LiteralFault::NotIndexList))
    );
}

#[test]
fn splitting_and_joining() {
    assert_eq!(split_commas(&chars("a,b")), strings(&["a", "b"]));
    assert_eq!(split_commas(&chars("abc")), strings(&["abc"]));
    assert_eq!(split_commas(&chars("")), strings(&[""]));
    assert_eq!(join_commas(&strings(&["a", "b", "c"])), "a,b,c");
    assert_eq!(join_commas(&strings(&["a"])), "a");
    assert_eq!(join_commas(&strings(&[])), "");
    assert_eq!(join_commas(&strings(&["", ""])), ",");
    assert_eq!(find_char(&chars("ab-c-"), '-'), 2);
    assert_eq!(find_char(&chars("abc"), '-'), 3);
}

#[test]
fn index_suffixes_read_back() {
    for items in [
        strings(&[]),
        strings(&["5"]),
        strings(&["0"]),
        strings(&["4294967295"]),
        strings(&["A", "B", "C"]),
        strings(&["0", "1", "2", "3"]),
        strings(&["", ""]),
    ] {
        let text = index_list_string(&items);
        assert_eq!(try_dim_index(&text), Ok(items), "{}", text);
    }
    assert_eq!(index_list_string(&strings(&[])), "1-0");
    assert_eq!(index_list_string(&strings(&["7"])), "7-7");
    assert_eq!(index_list_string(&strings(&["A"])), "A");
    assert_eq!(index_list_string(&strings(&["07"])), "07");
    assert_eq!(index_list_string(&strings(&["+7"])), "+7");
    assert_eq!(index_list_string(&strings(&["x", "y"])), "x,y");
}

#[test]
fn decimal_notation() {
    assert_eq!(decimal_text(0), "0");
    assert_eq!(decimal_text(7), "7");
    assert_eq!(decimal_text(10), "10");
    assert_eq!(decimal_text(4096), "4096");
    assert_eq!(decimal_text(u32::MAX), "4294967295");
    for n in [0u32, 1, 9, 10, 99, 100, 12345, 1_000_000_000, u32::MAX] {
        assert_eq!(decimal_text(n), n.to_string());
        assert_eq!(parse_integer(&decimal_text(n)), Ok(n));
    }
    assert_eq!(decimal_range_texts(8, 11), strings(&["8", "9", "10", "11"]));
    assert_eq!(decimal_range_texts(2, 1), strings(&[]));
    assert_eq!(decimal_range_texts(u32::MAX, u32::MAX), strings(&["4294967295"]));
}

#[test]
fn placeholder() {
    assert!(has_placeholder("GPIO%s"));
    assert!(has_placeholder("%s"));
    assert!(has_placeholder("A%%s"));
    assert!(!has_placeholder("GPIO"));
    assert!(!has_placeholder("GPIO%"));
    assert!(!has_placeholder("%S"));
    assert!(!has_placeholder("% s"));
    assert!(!has_placeholder(""));
    assert!(!has_placeholder("s%"));
}

#[test]
fn text_and_characters() {
    assert_eq!(text_chars("a\u{e9}z"), vec!['a', '\u{e9}', 'z']);
    assert_eq!(text_chars(""), Vec::<char>::new());
    assert_eq!(chars_text(&['a', 'b', 'c']), "abc");
    assert_eq!(chars_text(&[]), "");
    assert_eq!(chars_text(&text_chars("gr\u{fc}n")), "gr\u{fc}n");
}

#[test]
fn accessors() {
    let mut parent = Element::new("parent");
    parent.push_child(leaf("a", "1"));
    parent.push_child(leaf("b", "true"));
    parent.push_child(new_element("c", None));
    parent.push_child(leaf("a", "2"));

    assert_eq!(get_text(&leaf("a", "x")), Ok("x"));
    assert_eq!(get_text(&leaf("a", "")), Ok(""));
    assert_eq!(get_text(&parent), Err(SVDError::EmptyTag { element: "parent".to_string() }));
    assert_eq!(get_child_elem("a", &parent), Ok(&leaf("a", "1")));
    assert_eq!(
        get_child_elem("z", &parent),
        Err(SVDError::MissingTag { element: "parent".to_string(), tag: "z".to_string() })
    );
    assert_eq!(get_child_u32("a", &parent), Ok(1));
    assert_eq!(
        get_child_u32("b", &parent),
        Err(SVDError::Nested {
            element: "parent".to_string(),
            cause: Box::new(invalid("true", LiteralFault::InvalidDigit)),
        })
    );
    assert_eq!(
        get_child_u32("c", &parent),
        Err(SVDError::Nested {
            element: "parent".to_string(),
            cause: Box::new(SVDError::EmptyTag { element: "c".to_string() }),
        })
    );
    assert_eq!(
        get_child_u32("z", &parent),
        Err(SVDError::MissingTag { element: "parent".to_string(), tag: "z".to_string() })
    );
    assert_eq!(get_child_bool("b", &parent), Ok(true));
    assert_eq!(get_child_bool("a", &parent), Ok(true));
    assert_eq!(
        get_child_bool("c", &parent),
        Err(SVDError::Nested {
            element: "parent".to_string(),
            cause: Box::new(SVDError::EmptyTag { element: "c".to_string() }),
        })
    );
}

#[test]
fn optional_children() {
    let mut parent = Element::new("parent");
    parent.push_child(leaf("a", "0x10"));
    parent.push_child(leaf("b", "nope"));

    assert_eq!(optional("a", &parent, u32), Ok(Some(16)));
    assert_eq!(optional("z", &parent, u32), Ok(None));
    // A child that is there and malformed is a failure, not an absence.
    assert_eq!(optional("b", &parent, u32), Err(invalid("nope", LiteralFault::InvalidDigit)));
    assert_eq!(optional("a", &parent, |e: &Element| Ok(e.name.clone())), Ok(Some("a".to_string())));
}

#[test]
fn optional_calls_back_on_the_first_child_of_the_tag_only() {
    let mut parent = Element::new("parent");
    parent.push_child(leaf("other", "x"));
    parent.push_child(leaf("a", "1"));
    parent.push_child(leaf("a", "2"));

    // Without a child of the tag the callback is not called.
    let absent: Result<Option<u32>, SVDError> =
        optional("z", &parent, |_: &Element| panic!("called without a child"));
    assert_eq!(absent, Ok(None));

    let calls = std::cell::Cell::new(0);
    let seen = optional("a", &parent, |e: &Element| {
        calls.set(calls.get() + 1);
        Ok(e.text.clone())
    });
    assert_eq!(seen, Ok(Some(Some("1".to_string()))));
    assert_eq!(calls.get(), 1);

    let failure = SVDError::EmptyTag { element: "made up".to_string() };
    let handed_on: Result<Option<u32>, SVDError> = optional("a", &parent, |_: &Element| {
        Err(SVDError::EmptyTag { element: "made up".to_string() })
    });
    assert_eq!(handed_on, Err(failure));
}

#[test]
fn optional_children_by_its_other_name() {
    let mut parent = Element::new("parent");
    parent.push_child(leaf("a", "7"));
    assert_eq!(svd_parser::types::parse_optional("a", &parent, u32), Ok(Some(7)));
    assert_eq!(svd_parser::types::parse_optional("b", &parent, u32), Ok(None));
}
