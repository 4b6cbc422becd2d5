use vstd::prelude::*;

verus! {

/// One decoded operation of the instruction tape.
///
/// `CloseLoop` and `BreakLoop` carry jump targets, given as tape positions
/// (indices into the tape), not as addresses or references. A `CloseLoop`
/// target is the position of its matching `OpenLoop`; a `BreakLoop` target,
/// once resolved, is the position of the enclosing loop's `CloseLoop`.
/// A `BreakLoop` is emitted with target 0 and resolved by backpatching when
/// its loop closes; target 0 therefore marks a break whose loop never closed.
#[derive(Clone, Copy, PartialEq, Eq, Structural, Debug)]
pub enum Instruction {
    Push,
    Pop,
    Peek,
    Swap,
    SetValue,
    Flip,
    Set0,
    Set65,
    Input,
    Output,
    End,
    Decrement,
    Increment,
    AddTop,
    OpenLoop,
    CloseLoop(usize),
    BreakLoop(usize),
}

} // verus!
