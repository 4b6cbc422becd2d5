use vstd::prelude::*;

use crate::compile::{compile, tape_of};
use crate::instr::Instruction;

verus! {

// ---------------------------------------------------------------------------
// Mathematical model of the machine
// ---------------------------------------------------------------------------

/// Model of the whole runtime state: the (fixed) tape, the fetch position,
/// the byte-wide value register, the operand stack and the stack of
/// remaining loop-iteration budgets (both innermost last).
#[verifier::ext_equal]
pub ghost struct VmModel {
    pub tape: Seq<Instruction>,
    pub pos: int,
    pub value: u8,
    pub stack: Seq<u8>,
    pub counts: Seq<u8>,
}

/// What one step of the machine asks of its surroundings.
///
/// `Output` and the two underflow variants report something to emit on the
/// output stream, after which execution has already moved on; `NeedInput`
/// reports that the machine stopped *before* an `Input` instruction and
/// waits for `feed_input`; `Halt` reports that execution is over.
#[derive(Clone, Copy, PartialEq, Eq, Structural, Debug)]
pub enum Effect {
    Continue,
    Output(u8),
    UnderflowPop,
    UnderflowPeek,
    NeedInput,
    Halt,
}

/// Byte-wrapping increment.
pub open spec fn wrap_inc(v: u8) -> u8 {
    if v == 255 {
        0
    } else {
        (v + 1) as u8
    }
}

/// Byte-wrapping decrement.
pub open spec fn wrap_dec(v: u8) -> u8 {
    if v == 0 {
        255
    } else {
        (v - 1) as u8
    }
}

/// Byte-wrapping addition.
pub open spec fn wrap_add(a: u8, b: u8) -> u8 {
    ((a + b) % 256) as u8
}

/// The position after a jump to `target`: the fetch position always advances
/// by one after the jump is taken. A target at or beyond the tape end (which
/// a compiled tape never holds) simply ends the run.
pub open spec fn jump(m: VmModel, target: usize) -> int {
    if target < m.tape.len() {
        target + 1
    } else {
        m.tape.len() as int
    }
}

/// The transition function of the machine: the state and effect one step
/// produces. A step on an `Input` instruction changes nothing and yields
/// `NeedInput`; every other in-bounds step advances the position.
pub open spec fn step_spec(m: VmModel) -> (VmModel, Effect) {
    if !(0 <= m.pos < m.tape.len()) {
        (m, Effect::Halt)
    } else {
        match m.tape[m.pos] {
            Instruction::Push => (
                VmModel { stack: m.stack.push(m.value), value: 0, pos: m.pos + 1, ..m },
                Effect::Continue,
            ),
            Instruction::Pop => if m.stack.len() > 0 {
                (
                    VmModel { stack: m.stack.drop_last(), value: m.stack.last(), pos: m.pos + 1, ..m },
                    Effect::Continue,
                )
            } else {
                (VmModel { value: 0, pos: m.pos + 1, ..m }, Effect::UnderflowPop)
            },
            Instruction::Peek => if m.stack.len() > 0 {
                (VmModel { value: m.stack.last(), pos: m.pos + 1, ..m }, Effect::Continue)
            } else {
                (VmModel { value: 0, pos: m.pos + 1, ..m }, Effect::UnderflowPeek)
            },
            Instruction::Swap => if m.stack.len() > 0 {
                (
                    VmModel {
                        stack: m.stack.drop_last().push(m.value),
                        value: m.stack.last(),
                        pos: m.pos + 1,
                        ..m
                    },
                    Effect::Continue,
                )
            } else {
                (
                    VmModel { stack: m.stack.push(m.value), value: 0, pos: m.pos + 1, ..m },
                    Effect::UnderflowPop,
                )
            },
            Instruction::SetValue => (
                VmModel {
                    stack: (if m.stack.len() > 0 {
                        m.stack.drop_last()
                    } else {
                        m.stack
                    }).push(m.value),
                    value: 0,
                    pos: m.pos + 1,
                    ..m
                },
                Effect::Continue,
            ),
            Instruction::Flip => (
                VmModel { stack: m.stack.reverse(), pos: m.pos + 1, ..m },
                Effect::Continue,
            ),
            Instruction::Set0 => (VmModel { value: 0, pos: m.pos + 1, ..m }, Effect::Continue),
            Instruction::Set65 => (VmModel { value: 65, pos: m.pos + 1, ..m }, Effect::Continue),
            Instruction::Input => (m, Effect::NeedInput),
            Instruction::Output => (
                VmModel { pos: m.pos + 1, ..m },
                Effect::Output(m.value),
            ),
            Instruction::End => (
                VmModel { pos: m.tape.len() as int, ..m },
                Effect::Halt,
            ),
            Instruction::Decrement => (
                VmModel { value: wrap_dec(m.value), pos: m.pos + 1, ..m },
                Effect::Continue,
            ),
            Instruction::Increment => (
                VmModel { value: wrap_inc(m.value), pos: m.pos + 1, ..m },
                Effect::Continue,
            ),
            Instruction::AddTop => {
                let top = if m.stack.len() > 0 {
                    m.stack.last()
                } else {
                    0
                };
                let rest = if m.stack.len() > 0 {
                    m.stack.drop_last()
                } else {
                    m.stack
                };
                (
                    VmModel {
                        stack: rest.push(wrap_add(top, m.value)),
                        value: 0,
                        pos: m.pos + 1,
                        ..m
                    },
                    Effect::Continue,
                )
            },
            Instruction::OpenLoop => (
                VmModel { counts: m.counts.push(m.value), pos: m.pos + 1, ..m },
                Effect::Continue,
            ),
            Instruction::CloseLoop(target) => if m.counts.len() > 0 {
                if m.counts.last() > 0 {
                    (
                        VmModel {
                            counts: m.counts.drop_last().push((m.counts.last() - 1) as u8),
                            pos: jump(m, target),
                            ..m
                        },
                        Effect::Continue,
                    )
                } else {
                    (
                        VmModel { counts: m.counts.drop_last(), pos: m.pos + 1, ..m },
                        Effect::Continue,
                    )
                }
            } else {
                (VmModel { pos: m.pos + 1, ..m }, Effect::Continue)
            },
            Instruction::BreakLoop(target) => (
                VmModel {
                    counts: if m.counts.len() > 0 {
                        m.counts.drop_last()
                    } else {
                        m.counts
                    },
                    pos: jump(m, target),
                    ..m
                },
                Effect::Continue,
            ),
        }
    }
}

/// Why a bounded run stopped: the machine halted (an `End` instruction, or
/// the position left the tape), it waits for input, or the step budget ran
/// out first.
#[derive(Clone, Copy, PartialEq, Eq, Structural, Debug)]
pub enum StopReason {
    Halted,
    NeedsInput,
    OutOfFuel,
}

/// One entry of the emission stream, in emission order: a value the program
/// printed, or an underflow diagnostic from popping or peeking an empty
/// operand stack.
#[derive(Clone, Copy, PartialEq, Eq, Structural, Debug)]
pub enum OutEvent {
    Value(u8),
    UnderflowPop,
    UnderflowPeek,
}

/// The outcome of a bounded run: the final state, everything emitted in
/// order, and why the run stopped.
#[verifier::ext_equal]
pub ghost struct RunOutcome {
    pub m: VmModel,
    pub events: Seq<OutEvent>,
    pub stop: StopReason,
}

/// The outcome of stepping the machine at most `fuel` times, stopping early
/// at a halt or at an `Input` instruction.
pub open spec fn run_spec(m: VmModel, fuel: nat) -> RunOutcome
    decreases fuel,
{
    if fuel == 0 {
        RunOutcome { m: m, events: Seq::empty(), stop: StopReason::OutOfFuel }
    } else {
        let (m2, e) = step_spec(m);
        match e {
            Effect::Halt => RunOutcome { m: m2, events: Seq::empty(), stop: StopReason::Halted },
            Effect::NeedInput => RunOutcome {
                m: m2,
                events: Seq::empty(),
                stop: StopReason::NeedsInput,
            },
            Effect::Continue => run_spec(m2, (fuel - 1) as nat),
            Effect::Output(v) => {
                let r = run_spec(m2, (fuel - 1) as nat);
                RunOutcome { m: r.m, events: seq![OutEvent::Value(v)] + r.events, stop: r.stop }
            },
            Effect::UnderflowPop => {
                let r = run_spec(m2, (fuel - 1) as nat);
                RunOutcome { m: r.m, events: seq![OutEvent::UnderflowPop] + r.events, stop: r.stop }
            },
            Effect::UnderflowPeek => {
                let r = run_spec(m2, (fuel - 1) as nat);
                RunOutcome {
                    m: r.m,
                    events: seq![OutEvent::UnderflowPeek] + r.events,
                    stop: r.stop,
                }
            },
        }
    }
}

/// The state a machine starts in: position 0, value 0, both stacks empty.
pub open spec fn init_model(tape: Seq<Instruction>) -> VmModel {
    VmModel { tape: tape, pos: 0, value: 0, stack: Seq::empty(), counts: Seq::empty() }
}

/// The state after `feed_input` answers a pending `Input` instruction with
/// the byte `b`: the value register takes `b` and execution moves on.
pub open spec fn feed_spec(m: VmModel, b: u8) -> VmModel {
    VmModel { value: b, pos: m.pos + 1, ..m }
}

// ---------------------------------------------------------------------------
// Executable machine
// ---------------------------------------------------------------------------

/// The virtual machine: a fixed instruction tape and the mutable runtime
/// state that executing it drives.
pub struct Vm {
    tape: Vec<Instruction>,
    pos: usize,
    value: u8,
    stack: Vec<u8>,
    counts: Vec<u8>,
}

impl View for Vm {
    type V = VmModel;

    closed spec fn view(&self) -> VmModel {
        VmModel {
            tape: self.tape@,
            pos: self.pos as int,
            value: self.value,
            stack: self.stack@,
            counts: self.counts@,
        }
    }
}

/// The reversed copy of a byte vector.
fn reversed(v: &Vec<u8>) -> (r: Vec<u8>)
    ensures
        r@ == v@.reverse(),
{
    let mut r: Vec<u8> = Vec::new();
    let mut i: usize = 0;
    while i < v.len()
        invariant
            i <= v.len(),
            r@.len() == i,
            forall|j: int| 0 <= j < i ==> r@[j] == v@[v@.len() - 1 - j],
        decreases v.len() - i,
    {
        r.push(v[v.len() - 1 - i]);
        i += 1;
    }
    proof {
        assert(r@ =~= v@.reverse());
    }
    r
}

impl Vm {
    /// A machine ready to execute the given tape from position 0.
    pub fn new(tape: Vec<Instruction>) -> (vm: Vm)
        ensures
            vm@ == init_model(tape@),
    {
        let vm = Vm { tape, pos: 0, value: 0, stack: Vec::new(), counts: Vec::new() };
        proof {
            assert(vm@ =~= init_model(vm.tape@));
        }
        vm
    }

    /// Compiles the source and builds a machine for the resulting tape.
    pub fn from_source(src: &Vec<char>) -> (vm: Vm)
        ensures
            vm@ == init_model(tape_of(src@)),
    {
        Vm::new(compile(src))
    }

    /// Whether the machine has stopped before an `Input` instruction and
    /// waits for `feed_input`.
    pub fn awaiting_input(&self) -> (r: bool)
        ensures
            r == (0 <= self@.pos < self@.tape.len() && self@.tape[self@.pos] is Input),
    {
        self.pos < self.tape.len() && self.tape[self.pos] == Instruction::Input
    }

    /// The value register.
    pub fn value(&self) -> (r: u8)
        ensures
            r == self@.value,
    {
        self.value
    }

    /// How many loops are active: the length of the loop-count stack, which
    /// on a tape compiled from a balanced source equals the loop-nesting
    /// depth enclosing the fetch position (see `crate::nesting`).
    pub fn active_loops(&self) -> (r: usize)
        ensures
            r == self@.counts.len(),
    {
        self.counts.len()
    }

    /// Answers a pending `Input` instruction: the value register becomes the
    /// byte read (see `crate::input::line_checksum`) and execution moves on.
    pub fn feed_input(&mut self, b: u8)
        requires
            0 <= old(self)@.pos < old(self)@.tape.len(),
            old(self)@.tape[old(self)@.pos] is Input,
        ensures
            final(self)@ == feed_spec(old(self)@, b),
    {
        self.value = b;
        let n = self.tape.len();
        assert(self.pos < n);
        self.pos = self.pos + 1;
    }

    /// Executes one instruction and reports its effect, exactly as
    /// `step_spec` states. A position at or past the tape end yields `Halt`
    /// and changes nothing; an `Input` instruction yields `NeedInput` and
    /// changes nothing.
    pub fn step(&mut self) -> (e: Effect)
        ensures
            final(self)@ == step_spec(old(self)@).0,
            e == step_spec(old(self)@).1,
            final(self)@.tape == old(self)@.tape,
    {
        if self.pos >= self.tape.len() {
            return Effect::Halt;
        }
        let instr = self.tape[self.pos];
        match instr {
            Instruction::Push => {
                self.stack.push(self.value);
                self.value = 0;
                self.pos = self.pos + 1;
                Effect::Continue
            }
            Instruction::Pop => {
                match self.stack.pop() {
                    Some(v) => {
                        self.value = v;
                        self.pos = self.pos + 1;
                        Effect::Continue
                    }
                    None => {
                        self.value = 0;
                        self.pos = self.pos + 1;
                        Effect::UnderflowPop
                    }
                }
            }
            Instruction::Peek => {
                if self.stack.len() > 0 {
                    self.value = self.stack[self.stack.len() - 1];
                    self.pos = self.pos + 1;
                    Effect::Continue
                } else {
                    self.value = 0;
                    self.pos = self.pos + 1;
                    Effect::UnderflowPeek
                }
            }
            Instruction::Swap => {
                match self.stack.pop() {
                    Some(v) => {
                        self.stack.push(self.value);
                        self.value = v;
                        self.pos = self.pos + 1;
                        Effect::Continue
                    }
                    None => {
                        self.stack.push(self.value);
                        self.value = 0;
                        self.pos = self.pos + 1;
                        Effect::UnderflowPop
                    }
                }
            }
            Instruction::SetValue => {
                let _ = self.stack.pop();
                self.stack.push(self.value);
                self.value = 0;
                self.pos = self.pos + 1;
                Effect::Continue
            }
            Instruction::Flip => {
                self.stack = reversed(&self.stack);
                self.pos = self.pos + 1;
                Effect::Continue
            }
            Instruction::Set0 => {
                self.value = 0;
                self.pos = self.pos + 1;
                Effect::Continue
            }
            Instruction::Set65 => {
                self.value = 65;
                self.pos = self.pos + 1;
                Effect::Continue
            }
            Instruction::Input => Effect::NeedInput,
            Instruction::Output => {
                let v = self.value;
                self.pos = self.pos + 1;
                Effect::Output(v)
            }
            Instruction::End => {
                self.pos = self.tape.len();
                Effect::Halt
            }
            Instruction::Decrement => {
                self.value = if self.value == 0 {
                    255
                } else {
                    self.value - 1
                };
                self.pos = self.pos + 1;
                Effect::Continue
            }
            Instruction::Increment => {
                self.value = if self.value == 255 {
                    0
                } else {
                    self.value + 1
                };
                self.pos = self.pos + 1;
                Effect::Continue
            }
            Instruction::AddTop => {
                let top = match self.stack.pop() {
                    Some(v) => v,
                    None => 0,
                };
                let sum: u16 = top as u16 + self.value as u16;
                self.stack.push((sum % 256) as u8);
                self.value = 0;
                self.pos = self.pos + 1;
                Effect::Continue
            }
            Instruction::OpenLoop => {
                self.counts.push(self.value);
                self.pos = self.pos + 1;
                Effect::Continue
            }
            Instruction::CloseLoop(target) => {
                match self.counts.pop() {
                    Some(c) => {
                        if c > 0 {
                            self.counts.push(c - 1);
                            self.pos = if target < self.tape.len() {
                                target + 1
                            } else {
                                self.tape.len()
                            };
                        } else {
                            self.pos = self.pos + 1;
                        }
                    }
                    None => {
                        self.pos = self.pos + 1;
                    }
                }
                Effect::Continue
            }
            Instruction::BreakLoop(target) => {
                let _ = self.counts.pop();
                self.pos = if target < self.tape.len() {
                    target + 1
                } else {
                    self.tape.len()
                };
                Effect::Continue
            }
        }
    }

    /// Steps the machine at most `fuel` times, appending everything it
    /// emits to `out` in emission order, and reports why the run stopped:
    /// exactly the outcome `run_spec` states.
    pub fn run(&mut self, fuel: usize, out: &mut Vec<OutEvent>) -> (stop: StopReason)
        ensures
            final(self)@ == run_spec(old(self)@, fuel as nat).m,
            final(out)@ == old(out)@ + run_spec(old(self)@, fuel as nat).events,
            stop == run_spec(old(self)@, fuel as nat).stop,
        decreases fuel,
    {
        let ghost r = run_spec(self@, fuel as nat);
        if fuel == 0 {
            proof {
                assert(out@ =~= out@ + r.events);
            }
            return StopReason::OutOfFuel;
        }
        let e = self.step();
        match e {
            Effect::Halt => {
                proof {
                    assert(out@ =~= out@ + r.events);
                }
                StopReason::Halted
            }
            Effect::NeedInput => {
                proof {
                    assert(out@ =~= out@ + r.events);
                }
                StopReason::NeedsInput
            }
            Effect::Continue => self.run(fuel - 1, out),
            Effect::Output(v) => {
                out.push(OutEvent::Value(v));
                let stop = self.run(fuel - 1, out);
                proof {
                    assert(out@ =~= old(out)@ + r.events);
                }
                stop
            }
            Effect::UnderflowPop => {
                out.push(OutEvent::UnderflowPop);
                let stop = self.run(fuel - 1, out);
                proof {
                    assert(out@ =~= old(out)@ + r.events);
                }
                stop
            }
            Effect::UnderflowPeek => {
                out.push(OutEvent::UnderflowPeek);
                let stop = self.run(fuel - 1, out);
                proof {
                    assert(out@ =~= old(out)@ + r.events);
                }
                stop
            }
        }
    }
}

} // verus!
