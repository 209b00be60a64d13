use emoji_interpreter::error::EvaluationError;
use emoji_interpreter::machine::Registers;
use emoji_interpreter::number::Number;
use emoji_interpreter::store::Variables;
use emoji_interpreter::token::{EmojiToken, Operator};

fn number(x: f64) -> Number {
    Number::from_bits(x.to_bits())
}

fn num(x: f64) -> EmojiToken {
    EmojiToken::Number(number(x))
}

fn range(start: f64, end: f64) -> EmojiToken {
    EmojiToken::LoopRange(number(start), number(end))
}

fn none() -> Variables {
    Variables::new()
}

#[test]
fn registers_start_empty() {
    let registers = Registers::new();
    assert_eq!(registers.accumulator, Number::zero());
    assert_eq!(registers.operator, Operator::Add);
    assert!(!registers.condition && !registers.if_active && !registers.else_active);
    assert_eq!(registers.target, None);
    assert_eq!(registers.assignment, None);
    assert_eq!(registers.loop_start, None);
    assert_eq!(registers.remaining, 0);
    assert!(!registers.in_loop);
    assert_eq!(registers.call, None);
    assert!(!registers.is_skipping());
}

#[test]
fn skipping_is_the_branch_not_chosen() {
    let mut registers = Registers::new();
    registers.if_active = true;
    assert!(registers.is_skipping());
    registers.condition = true;
    assert!(!registers.is_skipping());
    registers.else_active = true;
    assert!(registers.is_skipping());
    registers.if_active = false;
    assert!(registers.is_skipping());
    registers.condition = false;
    assert!(!registers.is_skipping());
}

#[test]
fn a_step_goes_to_the_next_position() {
    let mut registers = Registers::new();
    assert_eq!(registers.execute(num(2.0), 7, &none()), Ok(8));
    assert_eq!(registers.accumulator, number(2.0));
    assert_eq!(registers.execute(EmojiToken::Times, 8, &none()), Ok(9));
    assert_eq!(registers.operator, Operator::Times);
    assert_eq!(registers.execute(num(5.0), 9, &none()), Ok(10));
    assert_eq!(registers.accumulator, number(10.0));
}

#[test]
fn a_loop_start_takes_the_accumulator_as_the_count() {
    let mut registers = Registers::new();
    registers.accumulator = number(3.7);
    assert_eq!(registers.execute(EmojiToken::LoopStart, 4, &none()), Ok(5));
    assert_eq!(registers.remaining, 3);
    assert_eq!(registers.accumulator, Number::zero());
    assert_eq!(registers.loop_start, Some(4));
    assert!(registers.in_loop);
    // Read again with a zero accumulator, it leaves count and anchor alone.
    assert_eq!(registers.execute(EmojiToken::LoopStart, 9, &none()), Ok(10));
    assert_eq!(registers.remaining, 3);
    assert_eq!(registers.loop_start, Some(4));
}

#[test]
fn a_loop_end_goes_back_while_the_count_lasts() {
    let mut registers = Registers::new();
    registers.accumulator = number(2.0);
    assert_eq!(registers.execute(EmojiToken::LoopStart, 4, &none()), Ok(5));
    assert_eq!(registers.execute(EmojiToken::LoopEnd, 6, &none()), Ok(4));
    assert_eq!(registers.remaining, 1);
    assert_eq!(registers.execute(EmojiToken::LoopEnd, 6, &none()), Ok(4));
    assert_eq!(registers.remaining, 0);
    assert!(registers.in_loop);
    assert_eq!(registers.execute(EmojiToken::LoopEnd, 6, &none()), Ok(7));
    assert!(!registers.in_loop);
    assert_eq!(registers.loop_start, None);
}

#[test]
fn a_loop_end_without_an_anchor_counts_down_in_place() {
    let mut registers = Registers::new();
    registers.remaining = 2;
    assert_eq!(registers.execute(EmojiToken::LoopEnd, 6, &none()), Ok(7));
    assert_eq!(registers.remaining, 1);
}

#[test]
fn a_range_counts_one_more_than_the_whole_part_of_its_span() {
    let mut registers = Registers::new();
    assert_eq!(registers.execute(EmojiToken::LoopStart, 0, &none()), Ok(1));
    assert_eq!(registers.execute(range(2.0, 5.9), 1, &none()), Ok(2));
    assert_eq!(registers.remaining, 4);
    assert_eq!(registers.accumulator, number(2.0));
    assert_eq!(registers.loop_start, Some(0));
    assert!(registers.in_loop);
}

#[test]
fn a_range_that_runs_backwards_counts_one() {
    let mut registers = Registers::new();
    registers.in_loop = true;
    assert_eq!(registers.execute(range(5.0, 2.0), 3, &none()), Ok(4));
    assert_eq!(registers.remaining, 1);
    assert_eq!(registers.accumulator, number(5.0));
    // Without a loop start before it, the range is the anchor.
    assert_eq!(registers.loop_start, Some(3));
}

#[test]
fn a_range_read_while_a_count_lasts_ends_the_loop() {
    let mut registers = Registers::new();
    registers.accumulator = number(6.0);
    registers.in_loop = true;
    registers.remaining = 2;
    registers.loop_start = Some(0);
    assert_eq!(registers.execute(range(1.0, 3.0), 1, &none()), Ok(2));
    assert_eq!(registers.remaining, 0);
    assert_eq!(registers.loop_start, None);
    assert!(!registers.in_loop);
    assert_eq!(registers.accumulator, number(6.0));
}

#[test]
fn a_range_outside_a_loop_does_nothing() {
    let mut registers = Registers::new();
    registers.accumulator = number(6.0);
    assert_eq!(registers.execute(range(1.0, 3.0), 1, &none()), Ok(2));
    assert_eq!(registers.accumulator, number(6.0));
    assert_eq!(registers.remaining, 0);
    assert_eq!(registers.loop_start, None);
}

#[test]
fn a_range_that_cannot_be_counted_leaves_the_registers() {
    let mut registers = Registers::new();
    registers.in_loop = true;
    registers.accumulator = number(6.0);
    assert_eq!(
        registers.execute(range(0.0, 1e300), 1, &none()),
        Err(EvaluationError::IterationOverflow)
    );
    assert_eq!(registers.accumulator, number(6.0));
    assert_eq!(registers.loop_start, None);
    assert_eq!(registers.remaining, 0);
}

#[test]
fn a_second_variable_reads_the_value_of_the_target() {
    let mut variables = Variables::new();
    variables.set('x', number(5.0));
    variables.set('y', number(100.0));
    let mut registers = Registers::new();
    registers.accumulator = number(1.0);
    assert_eq!(registers.execute(EmojiToken::Variable('x'), 0, &variables), Ok(1));
    assert_eq!(registers.target, Some('x'));
    assert_eq!(registers.accumulator, number(1.0));
    assert_eq!(registers.execute(EmojiToken::Variable('y'), 1, &variables), Ok(2));
    assert_eq!(registers.target, None);
    assert_eq!(registers.accumulator, number(6.0));
}

#[test]
fn in_a_branch_not_chosen_the_target_waits() {
    let mut registers = Registers::new();
    registers.if_active = true;
    assert_eq!(registers.execute(EmojiToken::Variable('x'), 0, &none()), Ok(1));
    assert_eq!(registers.target, Some('x'));
    assert_eq!(registers.execute(num(5.0), 1, &none()), Ok(2));
    assert_eq!(registers.execute(EmojiToken::Variable('y'), 2, &none()), Ok(3));
    assert_eq!(registers.target, Some('x'));
    assert_eq!(registers.assignment, None);
    assert_eq!(registers.accumulator, Number::zero());
}

#[test]
fn markers_and_function_tokens() {
    let mut registers = Registers::new();
    registers.accumulator = number(3.0);
    assert_eq!(registers.execute(EmojiToken::Assign, 0, &none()), Ok(1));
    assert_eq!(registers.execute(EmojiToken::FunctionEnd, 1, &none()), Ok(2));
    assert_eq!(registers.execute(EmojiToken::FunctionStart('f'), 2, &none()), Ok(3));
    assert_eq!(registers.call, None);
    assert_eq!(registers.execute(EmojiToken::FunctionCall('f'), 3, &none()), Ok(4));
    assert_eq!(registers.call, Some('f'));
    assert_eq!(registers.execute(EmojiToken::FunctionCall('g'), 4, &none()), Ok(5));
    assert_eq!(registers.call, Some('g'));
    assert_eq!(registers.accumulator, number(3.0));
}

#[test]
fn a_division_by_zero_leaves_no_finite_number() {
    for dividend in [0.0, 1.0, -2.5, f64::INFINITY] {
        for zero in [0.0, -0.0] {
            let mut registers = Registers::new();
            registers.accumulator = number(dividend);
            registers.operator = Operator::Division;
            assert_eq!(registers.execute(num(zero), 0, &none()), Ok(1));
            assert!(!f64::from_bits(registers.accumulator.to_bits()).is_finite());
        }
    }
}

#[test]
fn a_division_by_a_variable_that_is_zero_leaves_no_finite_number() {
    let mut variables = Variables::new();
    variables.set('x', number(0.0));
    let mut registers = Registers::new();
    registers.accumulator = number(3.0);
    registers.operator = Operator::Division;
    assert_eq!(registers.execute(EmojiToken::Variable('x'), 0, &variables), Ok(1));
    assert_eq!(registers.execute(EmojiToken::Variable('y'), 1, &variables), Ok(2));
    assert_eq!(registers.accumulator, number(f64::INFINITY));
}
