use emoji_interpreter::scanner::PeekableChars;

#[test]
fn next_walks_the_text_and_then_stays_empty() {
    let mut chars = PeekableChars::new("ab");
    assert_eq!(chars.next(), Some('a'));
    assert_eq!(chars.next(), Some('b'));
    assert_eq!(chars.next(), None);
    assert_eq!(chars.next(), None);
}

#[test]
fn peek_does_not_consume() {
    let mut chars = PeekableChars::new("xy");
    assert_eq!(chars.peek(), Some(&'x'));
    assert_eq!(chars.peek(), Some(&'x'));
    assert_eq!(chars.next(), Some('x'));
    assert_eq!(chars.peek(), Some(&'y'));
    assert_eq!(chars.next(), Some('y'));
    assert_eq!(chars.peek(), None);
    assert_eq!(chars.next(), None);
}

#[test]
fn empty_text_has_nothing_to_give() {
    let mut chars = PeekableChars::new("");
    assert_eq!(chars.peek(), None);
    assert_eq!(chars.next(), None);
}

#[test]
fn each_code_point_is_one_character() {
    // A keycap digit is three code points: the digit, a variation selector
    // and the enclosing keycap.
    let mut chars = PeekableChars::new("2\u{FE0F}\u{20E3}");
    assert_eq!(chars.next(), Some('2'));
    assert_eq!(chars.next(), Some('\u{FE0F}'));
    assert_eq!(chars.next(), Some('\u{20E3}'));
    assert_eq!(chars.next(), None);
}
