use interstack::vm::{Effect, OutEvent, StopReason, Vm};

const FUEL: usize = 10_000;

fn run_source(s: &str) -> (Vec<OutEvent>, StopReason) {
    let chars: Vec<char> = s.chars().collect();
    let mut vm = Vm::from_source(&chars);
    let mut out: Vec<OutEvent> = Vec::new();
    let stop = vm.run(FUEL, &mut out);
    (out, stop)
}

#[test]
fn basic_output_prints_one() {
    let (out, stop) = run_source("+>!");
    assert_eq!(out, vec![OutEvent::Value(1)]);
    assert_eq!(stop, StopReason::Halted);
}

#[test]
fn set65_prints_capital_a_in_character_mode() {
    let (out, stop) = run_source("##!");
    assert_eq!(out, vec![OutEvent::Value(65)]);
    assert_eq!(65u8 as char, 'A');
    assert_eq!(stop, StopReason::Halted);
}

#[test]
fn do_while_loop_runs_body_once_more_than_budget() {
    // budget snapshot 3 at OpenLoop: the body runs 4 times, printing the
    // decremented value each time, the last wrapping to 255
    let (out, stop) = run_source(">>>(<!)");
    assert_eq!(
        out,
        vec![
            OutEvent::Value(2),
            OutEvent::Value(1),
            OutEvent::Value(0),
            OutEvent::Value(255),
        ]
    );
    assert_eq!(stop, StopReason::Halted);
}

#[test]
fn pop_on_empty_stack_recovers_with_zero_and_diagnostic() {
    let (out, stop) = run_source("^!");
    assert_eq!(out, vec![OutEvent::UnderflowPop, OutEvent::Value(0)]);
    assert_eq!(stop, StopReason::Halted);
}

#[test]
fn end_halts_before_any_output() {
    let (out, stop) = run_source("+>>.>>>!");
    assert_eq!(out, vec![]);
    assert_eq!(stop, StopReason::Halted);
}

#[test]
fn peek_on_empty_stack_recovers_with_zero_and_diagnostic() {
    let (out, _) = run_source("@!");
    assert_eq!(out, vec![OutEvent::UnderflowPeek, OutEvent::Value(0)]);
}

#[test]
fn swap_on_empty_stack_emits_pop_diagnostic() {
    // swap pops into a temporary (0 on empty), pushes the old value, and
    // takes the temporary
    let (out, _) = run_source(">%!^!");
    assert_eq!(
        out,
        vec![OutEvent::UnderflowPop, OutEvent::Value(0), OutEvent::Value(1)]
    );
}

#[test]
fn swap_exchanges_value_and_top() {
    let (out, _) = run_source("+>%!");
    assert_eq!(out, vec![OutEvent::Value(0)]);
}

#[test]
fn flip_reverses_the_operand_stack() {
    // stack grows to [1, 2, 3]; flipped, the next pop yields 1
    let (out, _) = run_source(">+>>+>>>+~^!");
    assert_eq!(out, vec![OutEvent::Value(1)]);
}

#[test]
fn set_value_replaces_the_top() {
    let (out, _) = run_source("+>>_^!");
    assert_eq!(out, vec![OutEvent::Value(2)]);
}

#[test]
fn set0_clears_the_value() {
    let (out, _) = run_source("##*!");
    assert_eq!(out, vec![OutEvent::Value(0)]);
}

#[test]
fn add_top_adds_value_into_the_top_defaulting_to_zero() {
    let (out, _) = run_source(">>>&^!");
    assert_eq!(out, vec![OutEvent::Value(3)]);
}

#[test]
fn add_top_wraps_modulo_256() {
    // 255 + 255 = 510, which wraps to 254
    let (out, _) = run_source("<+<&^!");
    assert_eq!(out, vec![OutEvent::Value(254)]);
}

#[test]
fn decrement_wraps_below_zero() {
    let (out, _) = run_source("<!");
    assert_eq!(out, vec![OutEvent::Value(255)]);
}

#[test]
fn loop_with_zero_budget_still_runs_once() {
    let (out, _) = run_source("(!)");
    assert_eq!(out, vec![OutEvent::Value(0)]);
}

#[test]
fn break_skips_the_rest_of_the_loop_and_its_close() {
    let (out, stop) = run_source(">>(;!)!");
    assert_eq!(out, vec![OutEvent::Value(2)]);
    assert_eq!(stop, StopReason::Halted);
}

#[test]
fn unresolved_break_spins_until_fuel_runs_out() {
    let (out, stop) = run_source("(;");
    assert_eq!(out, vec![]);
    assert_eq!(stop, StopReason::OutOfFuel);
}

#[test]
fn input_instruction_stops_the_run() {
    let (out, stop) = run_source("?!");
    assert_eq!(out, vec![]);
    assert_eq!(stop, StopReason::NeedsInput);
}

#[test]
fn fed_input_lands_in_the_value_register() {
    let chars: Vec<char> = "?!".chars().collect();
    let mut vm = Vm::from_source(&chars);
    assert_eq!(vm.step(), Effect::NeedInput);
    assert!(vm.awaiting_input());
    vm.feed_input(7);
    assert_eq!(vm.value(), 7);
    let mut out: Vec<OutEvent> = Vec::new();
    let stop = vm.run(FUEL, &mut out);
    assert_eq!(out, vec![OutEvent::Value(7)]);
    assert_eq!(stop, StopReason::Halted);
}

#[test]
fn step_reports_each_effect() {
    let chars: Vec<char> = "#!.".chars().collect();
    let mut vm = Vm::from_source(&chars);
    assert_eq!(vm.step(), Effect::Continue);
    assert_eq!(vm.step(), Effect::Output(65));
    assert_eq!(vm.step(), Effect::Halt);
    assert_eq!(vm.step(), Effect::Halt);
}

#[test]
fn empty_program_halts_immediately() {
    let (out, stop) = run_source("");
    assert_eq!(out, vec![]);
    assert_eq!(stop, StopReason::Halted);
}

#[test]
fn loop_count_stack_tracks_nesting_depth() {
    // tape: Increment, OpenLoop, OpenLoop, Output, CloseLoop, CloseLoop
    let chars: Vec<char> = ">((!))".chars().collect();
    let mut vm = Vm::from_source(&chars);
    assert_eq!(vm.active_loops(), 0);
    vm.step(); // Increment
    assert_eq!(vm.active_loops(), 0);
    vm.step(); // OpenLoop: depth 1
    assert_eq!(vm.active_loops(), 1);
    vm.step(); // OpenLoop: depth 2
    assert_eq!(vm.active_loops(), 2);
    vm.step(); // Output, still depth 2
    assert_eq!(vm.active_loops(), 2);
    let mut out: Vec<OutEvent> = Vec::new();
    assert_eq!(vm.run(FUEL, &mut out), StopReason::Halted);
    assert_eq!(vm.active_loops(), 0);
}

#[test]
fn nested_loops_multiply_body_runs() {
    // outer budget 1 (2 entries), inner budget 1 each entry (2 runs): the
    // inner body prints 4 times; value is reset to 1 before each inner loop
    let (out, _) = run_source(">(*>(*!)*>)");
    assert_eq!(
        out,
        vec![
            OutEvent::Value(0),
            OutEvent::Value(0),
            OutEvent::Value(0),
            OutEvent::Value(0),
        ]
    );
}
