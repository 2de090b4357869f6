use tokad::text::{
    byte_list_text, decimal_text, entry_text, head_text, join_texts, parse_u128, push_signed,
    same_text, split_words, str_bytes,
};

#[test]
fn decimal_numbers_are_read_back() {
    assert_eq!(decimal_text(0), "0");
    assert_eq!(decimal_text(4294967295), "4294967295");
    assert_eq!(decimal_text(u128::MAX), u128::MAX.to_string());
    for n in [0, 7, 10, 99, 1_000_000, u128::MAX] {
        assert_eq!(parse_u128(&decimal_text(n)), Some(n));
    }
}

#[test]
fn numbers_are_parsed_as_the_standard_library_does() {
    for text in [
        "", "+", "-", "+17", "-0", "17", "017", " 17", "1 7", "0x11", "++1", "+0",
        "340282366920938463463374607431768211455",
        "340282366920938463463374607431768211456",
        "999999999999999999999999999999999999999999", "١",
    ] {
        assert_eq!(parse_u128(text), text.parse::<u128>().ok(), "{}", text);
    }
}

#[test]
fn negative_numbers_have_a_sign() {
    let mut s = String::from("n=");
    push_signed(&mut s, -105);
    assert_eq!(s, "n=-105");
}

#[test]
fn words_are_split_as_the_standard_library_does() {
    for text in ["", "   ", "a", " a  b\tc\n", "x\u{a0}y\u{3000}z", "\u{200b}a b", "\u{85}k\u{1680}"] {
        let expected: Vec<String> = text.split_whitespace().map(|w| w.to_string()).collect();
        assert_eq!(split_words(text), expected, "{:?}", text);
    }
}

#[test]
fn texts_are_joined() {
    assert_eq!(join_texts(&vec![], " "), "");
    assert_eq!(join_texts(&vec!["a".to_string()], " "), "a");
    assert_eq!(join_texts(&vec!["a".to_string(), "".to_string(), "b".to_string()], ", "), "a, , b");
}

#[test]
fn texts_are_compared_and_measured() {
    assert!(same_text("abc", "abc"));
    assert!(!same_text("abc", "abd"));
    assert!(!same_text("abc", "ab"));
    assert_eq!(str_bytes("aé€"), 6);
}

#[test]
fn values_are_shown_as_text_or_bytes() {
    assert_eq!(entry_text(5, "hé".as_bytes()), "5: hé");
    assert_eq!(entry_text(5, &[0xff, 1]), "5: [255, 1]");
    assert_eq!(byte_list_text(&[]), "[]");
    assert_eq!(byte_list_text(&[7, 0, 255]), format!("{:?}", [7u8, 0, 255]));
}

#[test]
fn the_head_of_a_value_is_cut() {
    assert_eq!(head_text(b"short"), "short");
    assert_eq!(head_text(b""), "");
    assert_eq!(head_text(&[b'a'; 39]), "a".repeat(39));
    assert_eq!(head_text(&[b'a'; 40]), format!("{}...", "a".repeat(40)));
    assert_eq!(head_text(&[b'a'; 100]), format!("{}...", "a".repeat(40)));
    assert_eq!(head_text(&[0xff, 0xfe]), "[unprintable]");
    let mut split = vec![b'a'; 39];
    split.extend_from_slice("é".as_bytes());
    assert_eq!(head_text(&split), "[unprintable]");
}
