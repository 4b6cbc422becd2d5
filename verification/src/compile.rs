use vstd::prelude::*;

use crate::instr::Instruction;

verus! {

// ---------------------------------------------------------------------------
// Mathematical model of compilation
// ---------------------------------------------------------------------------

/// Model of one open-loop record: the position of its `OpenLoop` instruction
/// and the positions of the `BreakLoop` placeholders still awaiting
/// resolution, in the order they were emitted.
#[verifier::ext_equal]
pub ghost struct Frame {
    pub start: usize,
    pub breaks: Seq<usize>,
}

/// Model of the whole compilation state: the tape built so far and the stack
/// of open-loop frames, innermost last.
#[verifier::ext_equal]
pub ghost struct CState {
    pub tape: Seq<Instruction>,
    pub frames: Seq<Frame>,
}

/// The instruction a plain (non-delimiter) symbol compiles to, or `None` for
/// a character that is no symbol of the language and is skipped.
pub open spec fn simple_symbol(c: char) -> Option<Instruction> {
    if c == '+' {
        Some(Instruction::Push)
    } else if c == '^' {
        Some(Instruction::Pop)
    } else if c == '@' {
        Some(Instruction::Peek)
    } else if c == '%' {
        Some(Instruction::Swap)
    } else if c == '_' {
        Some(Instruction::SetValue)
    } else if c == '~' {
        Some(Instruction::Flip)
    } else if c == '*' {
        Some(Instruction::Set0)
    } else if c == '#' {
        Some(Instruction::Set65)
    } else if c == '?' {
        Some(Instruction::Input)
    } else if c == '!' {
        Some(Instruction::Output)
    } else if c == '.' {
        Some(Instruction::End)
    } else if c == '<' {
        Some(Instruction::Decrement)
    } else if c == '>' {
        Some(Instruction::Increment)
    } else if c == '&' {
        Some(Instruction::AddTop)
    } else {
        None
    }
}

/// Rewrites the tape entries at the given positions to `BreakLoop(end)`:
/// the backpatch that resolves a closing loop's pending breaks.
pub open spec fn patch(tape: Seq<Instruction>, breaks: Seq<usize>, end: usize) -> Seq<Instruction>
    decreases breaks.len(),
{
    if breaks.len() == 0 {
        tape
    } else {
        patch(tape, breaks.drop_last(), end).update(
            breaks.last() as int,
            Instruction::BreakLoop(end),
        )
    }
}

/// One step of compilation: how a single source character transforms the
/// compilation state.
///
/// `(` opens a frame and emits `OpenLoop`; `)` pops the innermost frame,
/// backpatches its pending breaks to the closing position, and emits
/// `CloseLoop` targeting the frame's start; `;` records a `BreakLoop`
/// placeholder in the innermost frame. An unmatched `)` or a `;` outside any
/// loop is silently skipped, as is every non-symbol character.
pub open spec fn compile_step(st: CState, c: char) -> CState {
    if c == '(' {
        CState {
            tape: st.tape.push(Instruction::OpenLoop),
            frames: st.frames.push(Frame { start: st.tape.len() as usize, breaks: Seq::empty() }),
        }
    } else if c == ')' {
        if st.frames.len() > 0 {
            let f = st.frames.last();
            let end = st.tape.len() as usize;
            CState {
                tape: patch(st.tape, f.breaks, end).push(Instruction::CloseLoop(f.start)),
                frames: st.frames.drop_last(),
            }
        } else {
            st
        }
    } else if c == ';' {
        if st.frames.len() > 0 {
            let f = st.frames.last();
            let pos = st.tape.len() as usize;
            CState {
                tape: st.tape.push(Instruction::BreakLoop(0)),
                frames: st.frames.drop_last().push(
                    Frame { start: f.start, breaks: f.breaks.push(pos) },
                ),
            }
        } else {
            st
        }
    } else {
        match simple_symbol(c) {
            Some(i) => CState { tape: st.tape.push(i), frames: st.frames },
            None => st,
        }
    }
}

/// The compilation state before any character has been read.
pub open spec fn init_state() -> CState {
    CState { tape: Seq::empty(), frames: Seq::empty() }
}

/// The compilation state after reading the whole character sequence.
pub open spec fn compile_chars(s: Seq<char>) -> CState
    decreases s.len(),
{
    if s.len() == 0 {
        init_state()
    } else {
        compile_step(compile_chars(s.drop_last()), s.last())
    }
}

/// The finished instruction tape of a source: what `compile` returns.
pub open spec fn tape_of(s: Seq<char>) -> Seq<Instruction> {
    compile_chars(s).tape
}

// ---------------------------------------------------------------------------
// Executable compiler
// ---------------------------------------------------------------------------

/// Compile-time record of one open loop: the tape position of its `OpenLoop`
/// and the positions of its pending `BreakLoop` placeholders.
pub struct Loop {
    pub start: usize,
    pub breaks: Vec<usize>,
}

impl View for Loop {
    type V = Frame;

    open spec fn view(&self) -> Frame {
        Frame { start: self.start, breaks: self.breaks@ }
    }
}

impl Loop {
    /// A fresh frame for a loop whose `OpenLoop` sits at `start`, with no
    /// pending breaks yet.
    pub fn new(start: usize) -> (l: Loop)
        ensures
            l@ == (Frame { start: start, breaks: Seq::<usize>::empty() }),
    {
        Loop { start, breaks: Vec::new() }
    }
}

/// The executable frame stack matches the model frame stack entry by entry.
pub open spec fn frames_match(ls: Seq<Loop>, fs: Seq<Frame>) -> bool {
    &&& ls.len() == fs.len()
    &&& forall|j: int| 0 <= j < ls.len() ==> #[trigger] ls[j]@ == fs[j]
}

/// Every pending break position recorded in the frame stack lies within the
/// first `n` tape positions.
pub open spec fn breaks_bounded(ls: Seq<Loop>, n: int) -> bool {
    forall|j: int, k: int|
        0 <= j < ls.len() && 0 <= k < ls[j].breaks@.len() ==> #[trigger] ls[j].breaks@[k] < n
}

/// Compiles source text to an instruction tape in one left-to-right pass.
///
/// Newlines and all characters outside the symbol table are skipped.
/// Malformed nesting degrades by omission: an unmatched `)` emits nothing,
/// and a `;` outside every loop emits nothing. Compilation never fails.
pub fn compile(src: &Vec<char>) -> (tape: Vec<Instruction>)
    ensures
        tape@ == tape_of(src@),
{
    let mut loops: Vec<Loop> = Vec::new();
    let mut tape: Vec<Instruction> = Vec::new();
    let mut i: usize = 0;
    while i < src.len()
        invariant
            i <= src.len(),
            tape@ == compile_chars(src@.take(i as int)).tape,
            frames_match(loops@, compile_chars(src@.take(i as int)).frames),
            breaks_bounded(loops@, tape@.len() as int),
        decreases src.len() - i,
    {
        let ghost pre = compile_chars(src@.take(i as int));
        proof {
            assert(src@.take(i + 1).drop_last() =~= src@.take(i as int));
            assert(src@.take(i + 1).last() == src@[i as int]);
            assert(compile_chars(src@.take(i + 1)) == compile_step(pre, src@[i as int]));
        }
        let c = src[i];
        match c {
            '+' => tape.push(Instruction::Push),
            '^' => tape.push(Instruction::Pop),
            '@' => tape.push(Instruction::Peek),
            '%' => tape.push(Instruction::Swap),
            '_' => tape.push(Instruction::SetValue),
            '~' => tape.push(Instruction::Flip),
            '*' => tape.push(Instruction::Set0),
            '#' => tape.push(Instruction::Set65),
            '?' => tape.push(Instruction::Input),
            '!' => tape.push(Instruction::Output),
            '.' => tape.push(Instruction::End),
            '<' => tape.push(Instruction::Decrement),
            '>' => tape.push(Instruction::Increment),
            '&' => tape.push(Instruction::AddTop),
            '(' => {
                loops.push(Loop::new(tape.len()));
                tape.push(Instruction::OpenLoop);
            }
            ')' => {
                if loops.len() > 0 {
                    let ghost ls0 = loops@;
                    let l = loops.pop().unwrap();
                    proof {
                        assert(l@ == pre.frames.last());
                        assert(forall|k: int|
                            0 <= k < l.breaks@.len() ==> #[trigger] l.breaks@[k] < tape@.len());
                    }
                    let end = tape.len();
                    let ghost tape0 = tape@;
                    let mut k: usize = 0;
                    while k < l.breaks.len()
                        invariant
                            k <= l.breaks.len(),
                            end == tape0.len(),
                            tape@.len() == tape0.len(),
                            tape@ == patch(tape0, l.breaks@.take(k as int), end),
                            forall|k2: int|
                                0 <= k2 < l.breaks@.len()
                                    ==> #[trigger] l.breaks@[k2] < tape0.len(),
                        decreases l.breaks.len() - k,
                    {
                        let b = l.breaks[k];
                        tape[b] = Instruction::BreakLoop(end);
                        proof {
                            assert(l.breaks@.take(k + 1).drop_last() =~= l.breaks@.take(k as int));
                            assert(l.breaks@.take(k + 1).last() == l.breaks@[k as int]);
                        }
                        k += 1;
                    }
                    proof {
                        assert(l.breaks@.take(l.breaks@.len() as int) =~= l.breaks@);
                    }
                    tape.push(Instruction::CloseLoop(l.start));
                }
            }
            ';' => {
                if loops.len() > 0 {
                    let mut l = loops.pop().unwrap();
                    proof {
                        assert(l@ == pre.frames.last());
                    }
                    let b = tape.len();
                    l.breaks.push(b);
                    tape.push(Instruction::BreakLoop(0));
                    loops.push(l);
                }
            }
            _ => {}
        }
        i += 1;
    }
    proof {
        assert(src@.take(src@.len() as int) =~= src@);
    }
    tape
}

} // verus!
