use emoji_interpreter::number::Number;
use emoji_interpreter::store::{duplicate, Functions, Variables};
use emoji_interpreter::token::EmojiToken;

fn number(x: f64) -> Number {
    Number::from_bits(x.to_bits())
}

#[test]
fn a_variable_has_the_value_set_last() {
    let mut variables = Variables::new();
    assert_eq!(variables.get('x'), None);
    variables.set('x', number(1.0));
    variables.set('y', number(2.0));
    assert_eq!(variables.get('x'), Some(number(1.0)));
    assert_eq!(variables.get('y'), Some(number(2.0)));
    variables.set('x', number(3.0));
    assert_eq!(variables.get('x'), Some(number(3.0)));
    assert_eq!(variables.get('y'), Some(number(2.0)));
    assert_eq!(variables.get('z'), None);
}

#[test]
fn any_character_names_a_variable() {
    let mut variables = Variables::new();
    variables.set('\u{0}', number(1.0));
    variables.set('\u{10FFFF}', number(2.0));
    variables.set('🦀', number(3.0));
    assert_eq!(variables.get('\u{0}'), Some(number(1.0)));
    assert_eq!(variables.get('\u{10FFFF}'), Some(number(2.0)));
    assert_eq!(variables.get('🦀'), Some(number(3.0)));
    assert_eq!(variables.get('\u{1}'), None);
}

#[test]
fn a_copy_of_the_variables_is_apart() {
    let mut variables = Variables::new();
    variables.set('x', number(1.0));
    let mut copy = variables.copy();
    copy.set('x', number(9.0));
    copy.set('y', number(2.0));
    assert_eq!(variables.get('x'), Some(number(1.0)));
    assert_eq!(variables.get('y'), None);
    assert_eq!(copy.get('x'), Some(number(9.0)));
}

#[test]
fn a_function_has_the_body_defined_last() {
    let mut functions = Functions::new();
    assert_eq!(functions.get('f'), None);
    functions.define('f', vec![EmojiToken::Add]);
    functions.define('g', vec![]);
    assert_eq!(functions.get('f'), Some(vec![EmojiToken::Add]));
    assert_eq!(functions.get('g'), Some(vec![]));
    functions.define('f', vec![EmojiToken::Times, EmojiToken::If]);
    assert_eq!(functions.get('f'), Some(vec![EmojiToken::Times, EmojiToken::If]));
    assert_eq!(functions.get('h'), None);
}

#[test]
fn a_copy_of_the_functions_is_apart() {
    let mut functions = Functions::new();
    functions.define('f', vec![EmojiToken::Add]);
    let mut copy = functions.copy();
    copy.define('f', vec![]);
    copy.define('g', vec![EmojiToken::If]);
    assert_eq!(functions.get('f'), Some(vec![EmojiToken::Add]));
    assert_eq!(functions.get('g'), None);
    assert_eq!(copy.get('f'), Some(vec![]));
}

#[test]
fn duplicate_copies_the_tokens() {
    let tokens =
        vec![EmojiToken::Number(number(1.5)), EmojiToken::Variable('x'), EmojiToken::LoopEnd];
    assert_eq!(duplicate(&tokens), tokens);
    assert_eq!(duplicate(&vec![]), vec![]);
}
