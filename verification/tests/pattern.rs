use caip::pattern::{is_match, CharClass};
use regex::Regex;

const SAMPLES: [&str; 30] = [
    "",
    "-",
    "a",
    "ab",
    "abc",
    "abcdefgh",
    "abcdefghi",
    "cosmos",
    "Cosmos",
    "COSMOS",
    "stargaze-3",
    "StarGaze-3",
    "cosmos:stargaze-3",
    "cosmos:stargaze-3:invalid",
    "cosmos:stargaze-1/slip44:563",
    "eip155:1/erc721:0x06012c8cf97BEaD5deAe237070F9587f8E7A266d/771769",
    "0123456789",
    "---",
    ":::",
    "///",
    "a b c",
    "abc\n",
    "\nabc",
    "abc_def",
    "abc.def",
    "ab\u{e7}de",
    "@[`{",
    "/09:AZaz",
    "0x06012c8cf97BEaD5deAe237070F9587f8E7A266d",
    "stars14x8psqx3xzhmqtdv4qw6v43uf5305sfe0nt4u4",
];

fn agrees(class: CharClass, expression: &str, bounds: &[(usize, usize)]) {
    for &(min_len, max_len) in bounds {
        let pattern = format!("^[{}]{{{},{}}}$", expression, min_len, max_len);
        let regex = Regex::new(&pattern).unwrap();
        for text in SAMPLES {
            assert_eq!(
                is_match(text, class, min_len, max_len),
                regex.is_match(text),
                "{:?} against {}",
                text,
                pattern
            );
        }
    }
}

#[test]
fn lower_alnum_agrees_with_the_regular_expression() {
    agrees(CharClass::LowerAlnum, "-a-z0-9", &[(3, 8), (0, 0), (1, 1), (0, 100)]);
}

#[test]
fn alnum_agrees_with_the_regular_expression() {
    agrees(CharClass::Alnum, "-a-zA-Z0-9", &[(1, 32), (1, 64), (0, 100)]);
}

#[test]
fn alnum_colon_agrees_with_the_regular_expression() {
    agrees(CharClass::AlnumColon, "-:a-zA-Z0-9", &[(5, 41), (5, 73), (0, 100)]);
}

#[test]
fn alnum_colon_slash_agrees_with_the_regular_expression() {
    agrees(CharClass::AlnumColonSlash, "-:/a-zA-Z0-9", &[(11, 115), (13, 148), (0, 100)]);
}

#[test]
fn class_membership_at_the_edges() {
    for (byte, lower, alnum, colon, slash) in [
        (b'0', true, true, true, true),
        (b'9', true, true, true, true),
        (b'a', true, true, true, true),
        (b'z', true, true, true, true),
        (b'-', true, true, true, true),
        (b'A', false, true, true, true),
        (b'Z', false, true, true, true),
        (b':', false, false, true, true),
        (b'/', false, false, false, true),
        (b'@', false, false, false, false),
        (b'[', false, false, false, false),
        (b'`', false, false, false, false),
        (b'{', false, false, false, false),
        (b'.', false, false, false, false),
        (b';', false, false, false, false),
        (0x80, false, false, false, false),
    ] {
        assert_eq!(CharClass::LowerAlnum.contains_byte(byte), lower);
        assert_eq!(CharClass::Alnum.contains_byte(byte), alnum);
        assert_eq!(CharClass::AlnumColon.contains_byte(byte), colon);
        assert_eq!(CharClass::AlnumColonSlash.contains_byte(byte), slash);
    }
}

#[test]
fn match_is_of_the_whole_text() {
    // A part of each of these would match; the whole does not.
    assert!(!is_match("Cosmos", CharClass::LowerAlnum, 3, 8));
    assert!(!is_match("abcdefghi", CharClass::LowerAlnum, 3, 8));
    assert!(!is_match("abc def", CharClass::LowerAlnum, 3, 8));
    assert!(is_match("abcdefgh", CharClass::LowerAlnum, 3, 8));
    assert!(!is_match("abc", CharClass::LowerAlnum, 8, 3));
}
