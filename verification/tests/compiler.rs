use interstack::compile::{compile, Loop};
use interstack::instr::Instruction;

fn compile_str(s: &str) -> Vec<Instruction> {
    let chars: Vec<char> = s.chars().collect();
    compile(&chars)
}

#[test]
fn simple_symbols_compile_in_order() {
    assert_eq!(
        compile_str("+^@%_~*#?!.<>&"),
        vec![
            Instruction::Push,
            Instruction::Pop,
            Instruction::Peek,
            Instruction::Swap,
            Instruction::SetValue,
            Instruction::Flip,
            Instruction::Set0,
            Instruction::Set65,
            Instruction::Input,
            Instruction::Output,
            Instruction::End,
            Instruction::Decrement,
            Instruction::Increment,
            Instruction::AddTop,
        ]
    );
}

#[test]
fn non_symbol_characters_are_skipped() {
    assert_eq!(
        compile_str("x+ \n\ty!"),
        vec![Instruction::Push, Instruction::Output]
    );
}

#[test]
fn empty_source_compiles_to_empty_tape() {
    assert_eq!(compile_str(""), vec![]);
}

#[test]
fn loop_targets_point_at_each_other() {
    assert_eq!(
        compile_str("(<!)"),
        vec![
            Instruction::OpenLoop,
            Instruction::Decrement,
            Instruction::Output,
            Instruction::CloseLoop(0),
        ]
    );
}

#[test]
fn break_is_backpatched_to_the_close_position() {
    assert_eq!(
        compile_str("(;)"),
        vec![
            Instruction::OpenLoop,
            Instruction::BreakLoop(2),
            Instruction::CloseLoop(0),
        ]
    );
}

#[test]
fn nested_breaks_resolve_to_their_own_loop() {
    assert_eq!(
        compile_str("((;);)"),
        vec![
            Instruction::OpenLoop,
            Instruction::OpenLoop,
            Instruction::BreakLoop(3),
            Instruction::CloseLoop(1),
            Instruction::BreakLoop(5),
            Instruction::CloseLoop(0),
        ]
    );
}

#[test]
fn unmatched_open_leaves_inert_open_loop() {
    assert_eq!(compile_str("(+"), vec![Instruction::OpenLoop, Instruction::Push]);
}

#[test]
fn unmatched_close_is_ignored() {
    assert_eq!(compile_str("+)"), vec![Instruction::Push]);
}

#[test]
fn break_outside_any_loop_is_ignored() {
    assert_eq!(compile_str(";+"), vec![Instruction::Push]);
}

#[test]
fn break_in_unclosed_loop_stays_unresolved() {
    assert_eq!(
        compile_str("(;"),
        vec![Instruction::OpenLoop, Instruction::BreakLoop(0)]
    );
}

#[test]
fn balanced_source_emits_equal_open_and_close_counts() {
    let tape = compile_str("(a(;)b)(c)");
    let opens = tape
        .iter()
        .filter(|i| matches!(i, Instruction::OpenLoop))
        .count();
    let closes = tape
        .iter()
        .filter(|i| matches!(i, Instruction::CloseLoop(_)))
        .count();
    let breaks = tape
        .iter()
        .filter(|i| matches!(i, Instruction::BreakLoop(_)))
        .count();
    assert_eq!(opens, 3);
    assert_eq!(closes, 3);
    assert_eq!(breaks, 1);
}

#[test]
fn only_breaks_inside_an_open_loop_are_emitted() {
    let tape = compile_str(";(;);");
    let breaks = tape
        .iter()
        .filter(|i| matches!(i, Instruction::BreakLoop(_)))
        .count();
    assert_eq!(breaks, 1);
}

#[test]
fn new_frame_starts_empty() {
    let l = Loop::new(5);
    assert_eq!(l.start, 5);
    assert!(l.breaks.is_empty());
}
