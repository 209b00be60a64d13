use emoji_interpreter::error::{EvaluationError, RangePart};
use emoji_interpreter::interpreter::EmojiInterpreter;
use emoji_interpreter::number::Number;
use emoji_interpreter::script::{evaluate, Script};
use emoji_interpreter::token::EmojiToken;

const FUEL: u64 = 1_000_000;

fn number(x: f64) -> Number {
    Number::from_bits(x.to_bits())
}

fn num(x: f64) -> EmojiToken {
    EmojiToken::Number(number(x))
}

fn range(start: f64, end: f64) -> EmojiToken {
    EmojiToken::LoopRange(number(start), number(end))
}

fn float(n: Number) -> f64 {
    f64::from_bits(n.to_bits())
}

fn value(source: &str) -> f64 {
    match evaluate(source, FUEL) {
        Ok(n) => float(n),
        Err(e) => panic!("{:?}", e),
    }
}

fn run(tokens: Vec<EmojiToken>) -> Result<f64, EvaluationError> {
    EmojiInterpreter::new(tokens).evaluate(FUEL).map(float)
}

#[test]
fn empty_program_is_zero() {
    assert_eq!(evaluate("", FUEL), Ok(Number::zero()));
    assert_eq!(evaluate("", 0), Ok(Number::zero()));
}

#[test]
fn product_of_two_literals() {
    assert_eq!(value("2😂3"), 6.0);
    assert_eq!(value("1.5😂4"), 6.0);
    assert_eq!(value("0.1😂3"), 0.1 * 3.0);
}

#[test]
fn sum_of_two_literals() {
    assert_eq!(value("2🙂3"), 5.0);
    assert_eq!(value("0.1🙂0.2"), 0.1 + 0.2);
}

#[test]
fn difference_and_quotient() {
    assert_eq!(value("2😢3"), -1.0);
    assert_eq!(value("1🤔4"), 0.25);
    assert_eq!(value("1🤔3"), 1.0 / 3.0);
}

#[test]
fn numbers_without_an_operator_are_added() {
    assert_eq!(run(vec![num(2.0), num(3.0), num(4.0)]), Ok(9.0));
}

#[test]
fn an_operator_stays_until_the_next_one() {
    assert_eq!(run(vec![num(2.0), EmojiToken::Times, num(3.0), num(4.0)]), Ok(24.0));
    assert_eq!(
        run(vec![num(2.0), EmojiToken::Times, EmojiToken::Subtract, num(3.0)]),
        Ok(-1.0)
    );
}

#[test]
fn division_by_zero_is_infinite() {
    assert_eq!(value("1🤔0"), f64::INFINITY);
    assert!(value("0🤔0").is_nan());
}

#[test]
fn keycap_digits_divide() {
    assert_eq!(value("2\u{FE0F}\u{20E3}🗨.🗨0\u{FE0F}\u{20E3}🗨🤔2\u{FE0F}\u{20E3}"), 1.0);
}

#[test]
fn keycap_digits_with_a_conditional() {
    assert_eq!(
        value(
            "2\u{FE0F}\u{20E3}🗨.🗨5\u{FE0F}\u{20E3}🗨😕😄🙂1\u{FE0F}\u{20E3}😞🙂2\u{FE0F}\u{20E3}"
        ),
        3.5
    );
}

#[test]
fn assign_glyph_alone_changes_nothing() {
    assert_eq!(value("🔤2\u{FE0F}\u{20E3}🙂2\u{FE0F}\u{20E3}"), 4.0);
    assert_eq!(value("🔤"), 0.0);
}

#[test]
fn keycap_count_with_an_empty_loop() {
    assert_eq!(value("9\u{FE0F}\u{20E3}🔁🔚"), 0.0);
}

#[test]
fn range_without_a_loop_start_is_passed_over() {
    assert_eq!(value("[0🔁8]🔚"), 0.0);
    assert_eq!(run(vec![range(3.0, 8.0), EmojiToken::LoopEnd]), Ok(0.0));
    assert_eq!(run(vec![num(7.0), range(3.0, 8.0), EmojiToken::LoopEnd]), Ok(7.0));
}

#[test]
fn function_with_keycap_digits() {
    assert_eq!(value("🏁f2\u{FE0F}\u{20E3}😂2\u{FE0F}\u{20E3}🚩📞f"), 4.0);
}

#[test]
fn then_glyph_takes_the_first_operand_either_way() {
    // Accumulator not zero: 4 + 10, and 20 is passed over.
    assert_eq!(value("4😕😄10😞20"), 14.0);
    // Accumulator zero: 0 + 10, and 20 is passed over all the same.
    assert_eq!(value("0😕😄10😞20"), 10.0);
    assert_eq!(value("😕😄10😞20"), 10.0);
}

#[test]
fn condition_chooses_without_the_then_glyph() {
    assert_eq!(value("4😕10😞20"), 14.0);
    assert_eq!(value("0😕10😞20"), 20.0);
    assert_eq!(value("😕10😞20"), 20.0);
}

#[test]
fn a_nan_condition_counts_as_true() {
    // 0 / 0 is a NaN, which differs from zero.
    assert!(value("0🤔0😕1😞2").is_nan());
    assert_eq!(
        run(vec![
            num(f64::NAN),
            EmojiToken::If,
            EmojiToken::Times,
            EmojiToken::Else,
            EmojiToken::FunctionCall('f'),
        ]),
        Err(EvaluationError::UndefinedFunction('f'))
    );
}

#[test]
fn negative_zero_is_zero_for_a_condition() {
    assert_eq!(
        run(vec![
            num(0.0),
            EmojiToken::Times,
            num(-1.0),
            EmojiToken::Add,
            EmojiToken::If,
            num(10.0),
            EmojiToken::Else,
            num(20.0),
        ]),
        Ok(20.0)
    );
}

#[test]
fn operators_are_not_passed_over_in_a_branch() {
    // The times glyph stands in the branch that is not taken and still
    // sets the operator for the 3 behind the else glyph.
    assert_eq!(
        run(vec![
            num(0.0),
            num(5.0),
            EmojiToken::Subtract,
            num(5.0),
            EmojiToken::If,
            EmojiToken::Times,
            num(7.0),
            EmojiToken::Else,
            num(3.0),
        ]),
        Ok(0.0)
    );
    assert_eq!(
        run(vec![num(2.0), EmojiToken::If, num(1.0), EmojiToken::Else, EmojiToken::Times, num(9.0), EmojiToken::EndIf, num(5.0)]),
        Ok(15.0)
    );
}

#[test]
fn else_without_if_flips_the_flags() {
    // Else alone turns both flags on; with a false condition the if flag
    // then passes operands over.
    assert_eq!(run(vec![EmojiToken::Else, num(5.0)]), Ok(0.0));
    assert_eq!(run(vec![EmojiToken::Else, EmojiToken::Else, num(5.0)]), Ok(5.0));
}

#[test]
fn end_if_clears_both_flags() {
    assert_eq!(run(vec![EmojiToken::If, num(5.0), EmojiToken::EndIf, num(7.0)]), Ok(7.0));
    assert_eq!(run(vec![EmojiToken::Else, EmojiToken::EndIf, num(7.0)]), Ok(7.0));
    assert_eq!(run(vec![EmojiToken::EndIf, num(7.0)]), Ok(7.0));
}

#[test]
fn then_without_if_turns_the_else_flag_on() {
    // The condition is false at the start, so Then switches to the else
    // branch, in which operands count while the condition is false.
    assert_eq!(run(vec![EmojiToken::Then, num(5.0)]), Ok(5.0));
}

#[test]
fn a_variable_then_a_number_is_an_assignment() {
    let mut interpreter = EmojiInterpreter::new(vec![EmojiToken::Variable('x'), num(5.0)]);
    assert_eq!(interpreter.variable('x'), None);
    assert_eq!(interpreter.evaluate(FUEL), Ok(Number::zero()));
    assert_eq!(interpreter.variable('x'), Some(number(5.0)));
    assert_eq!(interpreter.variable('y'), None);
    assert_eq!(interpreter.position(), 2);
}

#[test]
fn only_the_last_assignment_is_made() {
    let mut interpreter = EmojiInterpreter::new(vec![
        EmojiToken::Variable('x'),
        EmojiToken::Assign,
        num(5.0),
        EmojiToken::Variable('y'),
        EmojiToken::Assign,
        num(6.0),
        num(1.0),
    ]);
    assert_eq!(interpreter.evaluate(FUEL).map(float), Ok(1.0));
    assert_eq!(interpreter.variable('x'), None);
    assert_eq!(interpreter.variable('y'), Some(number(6.0)));
}

#[test]
fn an_assignment_in_a_branch_not_taken_is_not_made() {
    let mut interpreter = EmojiInterpreter::new(vec![
        EmojiToken::If,
        EmojiToken::Variable('x'),
        num(5.0),
        EmojiToken::Else,
        num(6.0),
    ]);
    // The 5 is passed over, so x is still the target when the 6 comes.
    assert_eq!(interpreter.evaluate(FUEL).map(float), Ok(0.0));
    assert_eq!(interpreter.variable('x'), Some(number(6.0)));
}

#[test]
fn a_second_variable_reads_the_first() {
    // In the function body the first x names the target and the second
    // variable, whatever its name, reads the target's value.
    assert_eq!(value("x5🏁fxy🚩📞f"), 5.0);
    assert_eq!(value("x5🏁f2😂xy🚩📞f"), 10.0);
}

#[test]
fn reading_a_variable_without_a_value_changes_nothing() {
    assert_eq!(run(vec![num(3.0), EmojiToken::Variable('x'), EmojiToken::Variable('y')]), Ok(3.0));
    // The read clears the target, so the 4 is added, not assigned.
    let mut interpreter = EmojiInterpreter::new(vec![
        num(3.0),
        EmojiToken::Variable('x'),
        EmojiToken::Variable('y'),
        num(4.0),
    ]);
    assert_eq!(interpreter.evaluate(FUEL).map(float), Ok(7.0));
    assert_eq!(interpreter.variable('x'), None);
}

#[test]
fn counted_loop_with_nothing_in_it() {
    assert_eq!(value("3🔁🔚"), 0.0);
    assert_eq!(value("0🔁🔚"), 0.0);
    // One step for the number and two for each of the four entries.
    let tokens = vec![num(3.0), EmojiToken::LoopStart, EmojiToken::LoopEnd];
    assert_eq!(EmojiInterpreter::new(tokens.clone()).evaluate(9).map(float), Ok(0.0));
    assert_eq!(
        EmojiInterpreter::new(tokens).evaluate(8),
        Err(EvaluationError::StepLimit)
    );
}

#[test]
fn counted_loop_that_adds_never_ends() {
    assert_eq!(evaluate("3🔁🙂1🔚", 10_000), Err(EvaluationError::StepLimit));
    assert_eq!(evaluate("1🔁🙂1🔚", 10_000), Err(EvaluationError::StepLimit));
    assert_eq!(evaluate("3🔁🙂1🔚", 0), Err(EvaluationError::StepLimit));
}

#[test]
fn loop_with_a_zero_count_runs_its_body_once() {
    assert_eq!(value("0🔁🙂1🔚"), 1.0);
    assert_eq!(value("🔁🙂1🔚"), 1.0);
}

#[test]
fn a_fraction_below_one_counts_as_no_repetition() {
    // 0.5 is not zero, so it is taken as the count, which is 0.
    assert_eq!(value("0.5🔁🔚"), 0.0);
    assert_eq!(evaluate("0.5🔁🔚", 3), Ok(Number::zero()));
}

#[test]
fn range_inside_a_loop_is_read_twice() {
    // Start zero: the accumulator is set to the start and stays there.
    assert_eq!(value("🔁[0🔁8]🔚"), 0.0);
    // Start not zero: the loop start takes it as a count and clears it.
    assert_eq!(value("🔁[1🔁3]🔚"), 0.0);
    let tokens = vec![EmojiToken::LoopStart, range(1.0, 3.0), EmojiToken::LoopEnd];
    assert_eq!(EmojiInterpreter::new(tokens.clone()).evaluate(6).map(float), Ok(0.0));
    assert_eq!(EmojiInterpreter::new(tokens).evaluate(5), Err(EvaluationError::StepLimit));
}

#[test]
fn range_of_one_value_from_zero_never_ends() {
    assert_eq!(evaluate("🔁[0🔁0]🔚", 10_000), Err(EvaluationError::StepLimit));
    assert_eq!(evaluate("🔁[0.5🔁3]🔚", 10_000), Err(EvaluationError::StepLimit));
}

#[test]
fn range_too_long_to_count() {
    assert_eq!(
        evaluate("🔁[0🔁100000000000000000000000000000]", FUEL),
        Err(EvaluationError::IterationOverflow)
    );
    assert_eq!(
        run(vec![EmojiToken::LoopStart, range(0.0, f64::INFINITY)]),
        Err(EvaluationError::IterationOverflow)
    );
    let mut interpreter =
        EmojiInterpreter::new(vec![EmojiToken::LoopStart, range(0.0, 1e30), num(1.0)]);
    assert_eq!(interpreter.evaluate(FUEL), Err(EvaluationError::IterationOverflow));
    assert_eq!(interpreter.position(), 2);
}

#[test]
fn loop_end_without_a_loop_changes_nothing() {
    assert_eq!(run(vec![num(2.0), EmojiToken::LoopEnd, num(3.0)]), Ok(5.0));
}

#[test]
fn function_returns_its_literal() {
    assert_eq!(value("🏁f7🚩📞f"), 7.0);
    assert_eq!(value("🏁g0.25🚩📞g"), 0.25);
}

#[test]
fn function_result_replaces_the_accumulator() {
    assert_eq!(value("100🏁f7🚩📞f"), 7.0);
    assert_eq!(value("🏁f7🚩📞f🙂100"), 7.0);
}

#[test]
fn definition_without_a_call_gives_the_accumulator() {
    let mut interpreter = EmojiInterpreter::new(vec![
        num(3.0),
        EmojiToken::FunctionStart('f'),
        num(7.0),
        EmojiToken::Add,
        EmojiToken::FunctionEnd,
        num(4.0),
    ]);
    assert_eq!(interpreter.function('f'), None);
    assert_eq!(interpreter.evaluate(FUEL).map(float), Ok(7.0));
    assert_eq!(interpreter.function('f'), Some(vec![num(7.0), EmojiToken::Add]));
    assert_eq!(interpreter.function('g'), None);
}

#[test]
fn assignment_inside_a_function_stays_inside() {
    let mut interpreter = EmojiInterpreter::new(vec![
        EmojiToken::Variable('x'),
        num(1.0),
        EmojiToken::FunctionStart('f'),
        EmojiToken::Variable('x'),
        num(99.0),
        EmojiToken::Variable('y'),
        num(98.0),
        num(7.0),
        EmojiToken::FunctionEnd,
        EmojiToken::FunctionCall('f'),
    ]);
    assert_eq!(interpreter.evaluate(FUEL).map(float), Ok(7.0));
    assert_eq!(interpreter.variable('x'), Some(number(1.0)));
    assert_eq!(interpreter.variable('y'), None);
}

#[test]
fn definition_inside_a_function_stays_inside() {
    let mut interpreter = EmojiInterpreter::new(vec![
        EmojiToken::FunctionStart('f'),
        EmojiToken::FunctionStart('g'),
        num(1.0),
        EmojiToken::FunctionEnd,
        EmojiToken::FunctionCall('f'),
    ]);
    // The second function start is a token of the body of f, which the
    // first function end closes.
    assert_eq!(interpreter.evaluate(3).map(float), Err(EvaluationError::StepLimit));
    let mut interpreter = EmojiInterpreter::new(vec![
        EmojiToken::FunctionStart('f'),
        EmojiToken::FunctionStart('g'),
        num(1.0),
        EmojiToken::FunctionEnd,
        EmojiToken::FunctionCall('f'),
    ]);
    assert_eq!(interpreter.evaluate(FUEL).map(float), Ok(0.0));
    assert_eq!(
        interpreter.function('f'),
        Some(vec![EmojiToken::FunctionStart('g'), num(1.0)])
    );
    assert_eq!(interpreter.function('g'), None);
}

#[test]
fn tokens_of_a_body_are_not_run_at_the_definition() {
    assert_eq!(
        run(vec![
            num(2.0),
            EmojiToken::FunctionStart('f'),
            EmojiToken::Times,
            num(50.0),
            EmojiToken::FunctionCall('q'),
            EmojiToken::FunctionEnd,
            num(3.0),
        ]),
        Ok(5.0)
    );
}

#[test]
fn only_the_last_call_is_made() {
    assert_eq!(value("🏁f1🚩🏁g2🚩📞f📞g"), 2.0);
    assert_eq!(value("🏁f1🚩🏁g2🚩📞g📞f"), 1.0);
}

#[test]
fn a_later_definition_replaces_an_earlier_one() {
    assert_eq!(value("🏁f1🚩🏁f2🚩📞f"), 2.0);
}

#[test]
fn a_function_may_call_another() {
    assert_eq!(value("🏁g5🚩🏁f📞g🚩📞f"), 5.0);
}

#[test]
fn a_function_that_calls_itself_runs_out_of_steps() {
    assert_eq!(evaluate("🏁f📞f🚩📞f", 10_000), Err(EvaluationError::StepLimit));
}

#[test]
fn an_unfinished_definition_defines_nothing() {
    assert_eq!(evaluate("🏁f7📞f", FUEL).map(float), Ok(0.0));
    let mut interpreter =
        EmojiInterpreter::new(vec![EmojiToken::FunctionStart('f'), num(7.0)]);
    assert_eq!(interpreter.evaluate(FUEL).map(float), Ok(0.0));
    assert_eq!(interpreter.function('f'), None);
}

#[test]
fn call_of_unknown_function_fails() {
    assert_eq!(evaluate("📞f", FUEL), Err(EvaluationError::UndefinedFunction('f')));
    assert_eq!(evaluate("🏁g1🚩📞f", FUEL), Err(EvaluationError::UndefinedFunction('f')));
    assert_eq!(evaluate("5📞f", 2), Err(EvaluationError::UndefinedFunction('f')));
}

#[test]
fn unknown_function_error_comes_after_the_assignment() {
    let mut interpreter = EmojiInterpreter::new(vec![
        EmojiToken::Variable('x'),
        num(5.0),
        EmojiToken::FunctionCall('f'),
    ]);
    assert_eq!(interpreter.evaluate(FUEL), Err(EvaluationError::UndefinedFunction('f')));
    assert_eq!(interpreter.variable('x'), Some(number(5.0)));
}

#[test]
fn unclosed_range_fails() {
    assert_eq!(
        evaluate("[1🔁3", FUEL),
        Err(EvaluationError::UnterminatedLoopRange(RangePart::Close))
    );
    assert_eq!(
        evaluate("[1🔁3🔚", FUEL),
        Err(EvaluationError::UnterminatedLoopRange(RangePart::Close))
    );
}

#[test]
fn lexer_errors_come_through() {
    assert_eq!(evaluate("1.2.3", FUEL), Err(EvaluationError::MalformedNumberLiteral));
    assert_eq!(evaluate("1🙂🏁", FUEL), Err(EvaluationError::MissingFunctionName));
    assert_eq!(
        evaluate("[🔁", FUEL),
        Err(EvaluationError::UnterminatedLoopRange(RangePart::Start))
    );
}

#[test]
fn the_budget_counts_tokens_and_calls() {
    assert_eq!(evaluate("2😂3", 3).map(float), Ok(6.0));
    assert_eq!(evaluate("2😂3", 2), Err(EvaluationError::StepLimit));
    // Four tokens and one call, then one token in the body.
    assert_eq!(evaluate("🏁f7🚩📞f", 6).map(float), Ok(7.0));
    assert_eq!(evaluate("🏁f7🚩📞f", 5), Err(EvaluationError::StepLimit));
    assert_eq!(evaluate("🏁f7🚩📞f", 4), Err(EvaluationError::StepLimit));
    assert_eq!(evaluate("🏁f7🚩📞f", 3), Err(EvaluationError::StepLimit));
}

#[test]
fn a_larger_budget_gives_the_same_result() {
    for source in ["2😂3", "4😕10😞20", "3🔁🔚", "🏁f7🚩📞f", "📞f", "🔁[1🔁3]🔚"] {
        let small = evaluate(source, 20);
        assert_ne!(small, Err(EvaluationError::StepLimit));
        assert_eq!(evaluate(source, 21), small);
        assert_eq!(evaluate(source, u64::MAX), small);
    }
}

#[test]
fn running_out_of_steps_leaves_the_position_at_the_next_token() {
    let mut interpreter = EmojiInterpreter::new(vec![num(1.0), num(2.0), num(3.0)]);
    assert_eq!(interpreter.evaluate(2), Err(EvaluationError::StepLimit));
    assert_eq!(interpreter.position(), 2);
    // A second evaluation goes on from there, with fresh registers.
    assert_eq!(interpreter.evaluate(5).map(float), Ok(3.0));
    assert_eq!(interpreter.position(), 3);
    assert_eq!(interpreter.evaluate(5).map(float), Ok(0.0));
}

#[test]
fn next_token_gives_index_and_token() {
    let mut interpreter = EmojiInterpreter::new(vec![num(1.0), EmojiToken::Add]);
    assert_eq!(interpreter.position(), 0);
    assert_eq!(interpreter.next_token(), Some((0, num(1.0))));
    assert_eq!(interpreter.next_token(), Some((1, EmojiToken::Add)));
    assert_eq!(interpreter.next_token(), None);
    assert_eq!(interpreter.position(), 2);
}

#[test]
fn script_runs_its_code() {
    let script = Script::new(String::from("2😂3"));
    assert_eq!(script.code, "2😂3");
    assert_eq!(script.run(FUEL).map(float), Ok(6.0));
    assert_eq!(Script::new(String::from("📞z")).run(FUEL), Err(EvaluationError::UndefinedFunction('z')));
}
