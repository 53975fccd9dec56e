use forth::{Error, Forth};

fn run(input: &str) -> (Result<(), Error>, Vec<i32>) {
    let mut f = Forth::new();
    let r = f.eval(input);
    (r, f.stack().to_vec())
}

#[test]
fn fresh_interpreter_is_empty() {
    let f = Forth::new();
    assert!(f.stack().is_empty());
}

#[test]
fn numbers_are_pushed_in_order() {
    assert_eq!(run("1 2 3"), (Ok(()), vec![1, 2, 3]));
}

#[test]
fn signed_literals() {
    assert_eq!(run("-5 +7 -0"), (Ok(()), vec![-5, 7, 0]));
    assert_eq!(run("2147483647 -2147483648"), (Ok(()), vec![i32::MAX, i32::MIN]));
}

#[test]
fn out_of_range_literal_is_unknown() {
    assert_eq!(run("2147483648"), (Err(Error::UnknownWord), vec![]));
    assert_eq!(run("-"), (Err(Error::StackUnderflow), vec![]));
    assert_eq!(run("+-1"), (Err(Error::UnknownWord), vec![]));
}

#[test]
fn addition() {
    assert_eq!(run("1 2 +"), (Ok(()), vec![3]));
}

#[test]
fn subtraction_takes_top_from_second() {
    assert_eq!(run("3 4 -"), (Ok(()), vec![-1]));
}

#[test]
fn multiplication() {
    assert_eq!(run("2 4 *"), (Ok(()), vec![8]));
}

#[test]
fn division_truncates() {
    assert_eq!(run("12 3 /"), (Ok(()), vec![4]));
    assert_eq!(run("8 3 /"), (Ok(()), vec![2]));
    assert_eq!(run("-7 2 /"), (Ok(()), vec![-3]));
    assert_eq!(run("7 -2 /"), (Ok(()), vec![-3]));
}

#[test]
fn arithmetic_wraps_on_overflow() {
    assert_eq!(run("2147483647 1 +"), (Ok(()), vec![i32::MIN]));
    assert_eq!(run("-2147483648 1 -"), (Ok(()), vec![i32::MAX]));
    assert_eq!(run("-2147483648 -1 /"), (Ok(()), vec![i32::MIN]));
    assert_eq!(run("65536 65536 *"), (Ok(()), vec![0]));
}

#[test]
fn dup_copies_top() {
    assert_eq!(run("4 5 DUP"), (Ok(()), vec![4, 5, 5]));
}

#[test]
fn swap_exchanges_top_two() {
    assert_eq!(run("1 2 SWAP"), (Ok(()), vec![2, 1]));
}

#[test]
fn over_copies_second() {
    assert_eq!(run("1 2 OVER"), (Ok(()), vec![1, 2, 1]));
}

#[test]
fn drop_removes_top() {
    assert_eq!(run("1 2 DROP"), (Ok(()), vec![1]));
}

#[test]
fn division_by_zero() {
    assert_eq!(run("1 0 /"), (Err(Error::DivisionByZero), vec![]));
}

#[test]
fn underflow_on_short_stacks() {
    assert_eq!(run("1 +"), (Err(Error::StackUnderflow), vec![]));
    assert_eq!(run("DUP"), (Err(Error::StackUnderflow), vec![]));
    assert_eq!(run("DROP"), (Err(Error::StackUnderflow), vec![]));
    assert_eq!(run("1 SWAP"), (Err(Error::StackUnderflow), vec![]));
    assert_eq!(run("1 OVER"), (Err(Error::StackUnderflow), vec![]));
    assert_eq!(run("/"), (Err(Error::StackUnderflow), vec![]));
    assert_eq!(run("5 *"), (Err(Error::StackUnderflow), vec![]));
    assert_eq!(run("-"), (Err(Error::StackUnderflow), vec![]));
}

#[test]
fn unknown_word() {
    assert_eq!(run("foo"), (Err(Error::UnknownWord), vec![]));
}

#[test]
fn operators_ignore_case() {
    assert_eq!(run("1 2 swap 3 Dup oVeR drop"), (Ok(()), vec![2, 1, 3, 3]));
}

#[test]
fn tokens_split_on_any_whitespace() {
    assert_eq!(run("  1\t2\n\n+  "), (Ok(()), vec![3]));
    assert_eq!(run(""), (Ok(()), vec![]));
}

#[test]
fn definition_and_use() {
    assert_eq!(run(": dup-twice dup dup ; 1 dup-twice"), (Ok(()), vec![1, 1, 1]));
}

#[test]
fn word_names_ignore_case() {
    assert_eq!(run(": Foo 5 ; foo FOO"), (Ok(()), vec![5, 5]));
}

#[test]
fn definition_without_terminator() {
    assert_eq!(run(": bad 1 2"), (Err(Error::InvalidWord), vec![]));
}

#[test]
fn definition_with_empty_body() {
    assert_eq!(run(": bad ;"), (Err(Error::InvalidWord), vec![]));
}

#[test]
fn definition_with_digit_name() {
    assert_eq!(run(": 1foo dup ;"), (Err(Error::InvalidWord), vec![]));
}

#[test]
fn lone_colon_is_invalid() {
    assert_eq!(run(":"), (Err(Error::InvalidWord), vec![]));
    assert_eq!(run(": foo"), (Err(Error::InvalidWord), vec![]));
}

#[test]
fn built_in_can_be_shadowed() {
    assert_eq!(run(": swap dup ; 1 swap"), (Ok(()), vec![1, 1]));
}

#[test]
fn number_like_name_can_be_defined() {
    assert_eq!(run(": -5 7 ; -5"), (Ok(()), vec![7]));
}

#[test]
fn redefinition_keeps_earlier_callers() {
    let mut f = Forth::new();
    assert_eq!(f.eval(": foo 5 ;"), Ok(()));
    assert_eq!(f.eval(": bar foo ;"), Ok(()));
    assert_eq!(f.eval(": foo 6 ;"), Ok(()));
    assert_eq!(f.eval("bar foo"), Ok(()));
    assert_eq!(f.stack(), &[5, 6]);
}

#[test]
fn redefinition_within_one_program() {
    assert_eq!(run(": foo 5 ; : bar foo ; : foo 6 ; bar foo"), (Ok(()), vec![5, 6]));
}

#[test]
fn self_reference_is_unknown() {
    assert_eq!(run(": foo foo ; foo"), (Err(Error::UnknownWord), vec![]));
}

#[test]
fn self_reference_uses_earlier_definition() {
    assert_eq!(run(": foo 10 ; : foo foo 1 + ; foo"), (Ok(()), vec![11]));
}

#[test]
fn forward_reference_is_unknown() {
    assert_eq!(run(": a b ; : b 1 ; a"), (Err(Error::UnknownWord), vec![]));
}

#[test]
fn colon_inside_body_is_invalid() {
    assert_eq!(run(": a : ; a"), (Err(Error::InvalidWord), vec![]));
}

#[test]
fn semicolon_outside_definition_is_unknown() {
    assert_eq!(run("1 ;"), (Err(Error::UnknownWord), vec![]));
}

#[test]
fn each_call_starts_with_an_empty_stack() {
    let mut f = Forth::new();
    assert_eq!(f.eval("1 2"), Ok(()));
    assert_eq!(f.stack(), &[1, 2]);
    assert_eq!(f.eval("3"), Ok(()));
    assert_eq!(f.stack(), &[3]);
    assert_eq!(f.eval("+"), Err(Error::StackUnderflow));
}

#[test]
fn failed_call_changes_nothing() {
    let mut f = Forth::new();
    assert_eq!(f.eval("7 8"), Ok(()));
    assert_eq!(f.eval(": inc 1 + ; 1 inc foo"), Err(Error::UnknownWord));
    assert_eq!(f.stack(), &[7, 8]);
    assert_eq!(f.eval("inc"), Err(Error::UnknownWord));
    assert_eq!(f.stack(), &[7, 8]);
}

#[test]
fn definitions_persist_across_calls() {
    let mut f = Forth::new();
    assert_eq!(f.eval(": sq dup * ;"), Ok(()));
    assert_eq!(f.eval("3 sq"), Ok(()));
    assert_eq!(f.stack(), &[9]);
}

#[test]
fn error_inside_word_body_aborts() {
    assert_eq!(run(": boom 0 / ; 1 boom"), (Err(Error::DivisionByZero), vec![]));
}
