use brainwasm::bf::{Ast, Byte, Error, Op};
use brainwasm::parse::parse;

fn ops(source: &str) -> Vec<Op> {
    parse(source).unwrap().body
}

#[test]
fn zeroing_loops_become_set_constant() {
    assert_eq!(ops("[-]"), vec![Op::SetConstant(Byte(0))]);
    assert_eq!(ops("[+]"), vec![Op::SetConstant(Byte(0))]);
}

#[test]
fn adds_fold_and_cancel() {
    assert_eq!(ops("+++"), vec![Op::Add(3)]);
    assert_eq!(ops("+++---"), vec![]);
    assert_eq!(ops("+++."), vec![Op::Add(3), Op::Write]);
}

#[test]
fn moves_fold_and_cancel() {
    assert_eq!(ops(">><"), vec![Op::Go(1)]);
    assert_eq!(ops("><"), vec![]);
}

#[test]
fn comments_are_ignored() {
    assert_eq!(ops("a + b\n+ c"), vec![Op::Add(2)]);
}

#[test]
fn set_constant_absorbs_adds_and_sets() {
    assert_eq!(ops("[-]+++"), vec![Op::SetConstant(Byte(3))]);
    assert_eq!(ops("[-]-"), vec![Op::SetConstant(Byte(255))]);
    assert_eq!(ops("++[-]"), vec![Op::SetConstant(Byte(0))]);
    assert_eq!(ops("[-][+]"), vec![Op::SetConstant(Byte(0))]);
}

#[test]
fn read_overwrites_prior_writes_to_the_cell() {
    assert_eq!(ops("++,"), vec![Op::Read]);
    assert_eq!(ops("[-]+,"), vec![Op::Read]);
    assert_eq!(ops(",,"), vec![Op::Read, Op::Read]);
}

#[test]
fn loop_after_loop_is_dropped() {
    let body = Ast { body: vec![Op::Go(1)] };
    assert_eq!(ops("[>][<]"), vec![Op::Loop(body)]);
}

#[test]
fn empty_loop_is_dropped_before_next_instruction() {
    assert_eq!(ops("[]+"), vec![Op::Add(1)]);
    assert_eq!(ops("[][]+"), vec![Op::Add(1)]);
}

#[test]
fn cascading_fold_through_no_op_move() {
    assert_eq!(ops("+><+"), vec![Op::Add(2)]);
}

#[test]
fn nested_loops_keep_structure() {
    let inner = Ast { body: vec![Op::Go(1), Op::Add(1), Op::Go(-1)] };
    let outer = Ast { body: vec![Op::Loop(inner), Op::Add(-1)] };
    assert_eq!(ops("[[>+<]-]"), vec![Op::Loop(outer)]);
}

#[test]
fn balanced_input_reaches_fold_fixed_point() {
    let program = ops("+-+>><<<[-]+[->+<]..,");
    assert_eq!(
        program,
        vec![
            Op::Add(1),
            Op::Go(-1),
            Op::SetConstant(Byte(1)),
            Op::Loop(Ast { body: vec![Op::Add(-1), Op::Go(1), Op::Add(1), Op::Go(-1)] }),
            Op::Write,
            Op::Write,
            Op::Read,
        ]
    );
}

#[test]
fn unclosed_brackets_report_their_count() {
    assert_eq!(parse("[[").unwrap_err(), Error::UnbalancedLeftBrackets { depth: 2 });
    assert_eq!(parse("[[]").unwrap_err(), Error::UnbalancedLeftBrackets { depth: 1 });
    assert_eq!(parse("+[>[<]").unwrap_err(), Error::UnbalancedLeftBrackets { depth: 1 });
}

#[test]
fn stray_close_bracket_reports_its_index() {
    assert_eq!(parse("+]").unwrap_err(), Error::UnbalancedRightBracket { index: 1 });
    assert_eq!(parse("[]]").unwrap_err(), Error::UnbalancedRightBracket { index: 2 });
    assert_eq!(parse("]]").unwrap_err(), Error::UnbalancedRightBracket { index: 0 });
}

#[test]
fn error_index_counts_characters() {
    assert_eq!(parse("\u{e9}]").unwrap_err(), Error::UnbalancedRightBracket { index: 1 });
}

#[test]
fn empty_source_parses_to_empty_program() {
    assert_eq!(ops(""), vec![]);
}

#[test]
fn merge_follows_the_fold_table() {
    assert_eq!(Op::Add(2).merge(Op::Add(3)), Ok(Op::Add(5)));
    assert_eq!(Op::Go(0).merge(Op::Write), Ok(Op::Write));
    assert_eq!(Op::Write.merge(Op::Add(1)), Err((Op::Write, Op::Add(1))));
    assert_eq!(Op::SetConstant(Byte(250)).merge(Op::Add(10)), Ok(Op::SetConstant(Byte(4))));
    assert_eq!(
        Op::Add(isize::MAX).merge(Op::Add(1)),
        Err((Op::Add(isize::MAX), Op::Add(1)))
    );
}

#[test]
fn error_messages_carry_count_and_index() {
    assert_eq!(
        Error::UnbalancedLeftBrackets { depth: 12 }.message(),
        "Found 12 unclosed left brackets"
    );
    assert_eq!(
        parse("[]]").unwrap_err().message(),
        "Found unbalanced right bracket at 2"
    );
}
