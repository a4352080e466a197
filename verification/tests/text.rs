//! Numbers in text.
use proglog::text::{characters, parse_u64, push_decimal};

fn parsed(text: &str) -> Option<u64> {
    let chars = characters(text);
    parse_u64(&chars, chars.len())
}

#[test]
fn decimal_numbers() {
    for n in [0, 9, 10, 105, u64::MAX] {
        let mut text = String::from("n=");
        push_decimal(&mut text, n);
        assert_eq!(text, format!("n={}", n));
        assert_eq!(parsed(&text[2..]), Some(n));
    }
}

#[test]
fn numbers_are_parsed_like_std_does() {
    let beyond = ["18446744073709551616", "99999999999999999999"];
    let others = ["", "+", "+0", "-0", "1 ", "00", "1a", "١"];
    for text in beyond.into_iter().chain(others) {
        assert_eq!(parsed(text), text.parse::<u64>().ok(), "{}", text);
    }
}

#[test]
fn characters_of_a_text() {
    assert_eq!(characters("aé."), vec!['a', 'é', '.']);
}
