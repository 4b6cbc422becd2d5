use vstd::prelude::*;

use crate::compile::{compile_chars, compile_step, patch, simple_symbol, tape_of, CState};
use crate::instr::Instruction;
use crate::vm::{feed_spec, init_model, run_spec, step_spec, VmModel};

verus! {

// ---------------------------------------------------------------------------
// Lexical nesting depth of a tape position
// ---------------------------------------------------------------------------

/// What one instruction contributes to the loop-nesting depth.
pub open spec fn instr_delta(i: Instruction) -> int {
    if i is OpenLoop {
        1
    } else if i is CloseLoop {
        -1
    } else {
        0
    }
}

/// The loop-nesting depth enclosing tape position `n`: how many `OpenLoop`
/// instructions before `n` are not yet closed before `n`.
pub open spec fn depth(t: Seq<Instruction>, n: int) -> int
    decreases n,
{
    if n <= 0 {
        0
    } else {
        depth(t, n - 1) + instr_delta(t[n - 1])
    }
}

/// A `CloseLoop` at position `i` targets its matching `OpenLoop`: one that
/// stands before it, at exactly one nesting level less, with the segment
/// between the two balanced.
pub open spec fn close_ok(t: Seq<Instruction>, i: int) -> bool {
    t[i] matches Instruction::CloseLoop(k) ==> {
        &&& (k as int) < i
        &&& t[k as int] is OpenLoop
        &&& depth(t, i) == depth(t, k as int) + 1
    }
}

/// A resolved `BreakLoop` at position `i` targets the `CloseLoop` of its
/// innermost enclosing loop: a `CloseLoop` after it whose matching
/// `OpenLoop` stands before it, at the same nesting depth as the break.
pub open spec fn break_ok(t: Seq<Instruction>, i: int) -> bool {
    t[i] matches Instruction::BreakLoop(e) ==> e != 0 ==> {
        &&& i < e < t.len()
        &&& (t[e as int] matches Instruction::CloseLoop(k) && (k as int) < i)
        &&& depth(t, e as int) == depth(t, i)
    }
}

/// Structural well-formedness of a compiled tape: nesting depth never goes
/// negative, every `CloseLoop` targets its matching `OpenLoop`, and every
/// resolved `BreakLoop` targets its enclosing loop's `CloseLoop`.
pub open spec fn tape_wf(t: Seq<Instruction>) -> bool {
    &&& forall|n: int| 0 <= n <= t.len() ==> #[trigger] depth(t, n) >= 0
    &&& forall|i: int| 0 <= i < t.len() ==> #[trigger] close_ok(t, i)
    &&& forall|i: int| 0 <= i < t.len() ==> #[trigger] break_ok(t, i)
}

/// No `BreakLoop` placeholder is left unresolved: each one's loop closed.
pub open spec fn tape_resolved(t: Seq<Instruction>) -> bool {
    forall|i: int|
        0 <= i < t.len() ==> ((#[trigger] t[i]) matches Instruction::BreakLoop(e) ==> e != 0)
}

// ---------------------------------------------------------------------------
// Depth arithmetic
// ---------------------------------------------------------------------------

/// Depth reads only the entries before `n`: two tapes whose entries
/// contribute alike there have the same depth at `n`.
proof fn lemma_depth_agree(t1: Seq<Instruction>, t2: Seq<Instruction>, n: int)
    requires
        forall|m: int| 0 <= m < n ==> instr_delta(#[trigger] t1[m]) == instr_delta(t2[m]),
    ensures
        depth(t1, n) == depth(t2, n),
    decreases n,
{
    if n > 0 {
        lemma_depth_agree(t1, t2, n - 1);
    }
}

/// Appending to a tape leaves the depth of every old position unchanged.
proof fn lemma_depth_push(t: Seq<Instruction>, x: Instruction, n: int)
    requires
        0 <= n <= t.len(),
    ensures
        depth(t.push(x), n) == depth(t, n),
{
    lemma_depth_agree(t.push(x), t, n);
}

// ---------------------------------------------------------------------------
// What backpatching does to a tape
// ---------------------------------------------------------------------------

/// The effect of `patch`: the given positions now hold `BreakLoop(end)`,
/// every other position is unchanged, and no entry changes its kind (the
/// patched ones were `BreakLoop` placeholders already).
proof fn lemma_patch_facts(t: Seq<Instruction>, brs: Seq<usize>, e: usize)
    requires
        forall|k: int|
            0 <= k < brs.len() ==> (#[trigger] brs[k]) < t.len() && t[brs[k] as int] is BreakLoop,
    ensures
        patch(t, brs, e).len() == t.len(),
        forall|k: int|
            0 <= k < brs.len() ==> patch(t, brs, e)[#[trigger] brs[k] as int]
                == Instruction::BreakLoop(e),
        forall|m: int|
            0 <= m < t.len() && !brs.contains(m as usize) ==> patch(t, brs, e)[m] == t[m],
        forall|m: int|
            0 <= m < t.len() ==> ((#[trigger] patch(t, brs, e)[m]) is BreakLoop <==> t[m]
                is BreakLoop) && (patch(t, brs, e)[m] is OpenLoop <==> t[m] is OpenLoop) && (patch(
                t,
                brs,
                e,
            )[m] is CloseLoop <==> t[m] is CloseLoop),
    decreases brs.len(),
{
    if brs.len() > 0 {
        let prev = patch(t, brs.drop_last(), e);
        lemma_patch_facts(t, brs.drop_last(), e);
        assert forall|m: int|
            0 <= m < t.len() && !brs.contains(m as usize) implies patch(t, brs, e)[m] == t[m] by {
            assert(!brs.drop_last().contains(m as usize)) by {
                if brs.drop_last().contains(m as usize) {
                    let k = choose|k: int|
                        0 <= k < brs.drop_last().len() && brs.drop_last()[k] == m as usize;
                    assert(brs[k] == m as usize);
                }
            }
            assert(brs.last() != m as usize) by {
                if brs.last() == m as usize {
                    assert(brs[brs.len() - 1] == m as usize);
                }
            }
        }
        assert forall|k: int|
            0 <= k < brs.len() implies patch(t, brs, e)[#[trigger] brs[k] as int]
            == Instruction::BreakLoop(e) by {
            if k < brs.len() - 1 {
                assert(brs.drop_last()[k] == brs[k]);
                assert(prev[brs[k] as int] == Instruction::BreakLoop(e));
            }
        }
    }
}

/// Backpatching never changes the depth of any position.
proof fn lemma_patch_depth(t: Seq<Instruction>, brs: Seq<usize>, e: usize, n: int)
    requires
        forall|k: int|
            0 <= k < brs.len() ==> (#[trigger] brs[k]) < t.len() && t[brs[k] as int] is BreakLoop,
        0 <= n <= t.len(),
    ensures
        depth(patch(t, brs, e), n) == depth(t, n),
{
    lemma_patch_facts(t, brs, e);
    assert forall|m: int|
        0 <= m < n implies instr_delta(#[trigger] patch(t, brs, e)[m]) == instr_delta(t[m]) by {
        assert(patch(t, brs, e)[m] is OpenLoop <==> t[m] is OpenLoop);
        assert(patch(t, brs, e)[m] is CloseLoop <==> t[m] is CloseLoop);
    }
    lemma_depth_agree(patch(t, brs, e), t, n);
}

// ---------------------------------------------------------------------------
// The compilation invariant
// ---------------------------------------------------------------------------

/// One pending break of frame `j`: its placeholder sits after the frame's
/// `OpenLoop`, still holds target 0, and lies at nesting depth `j + 1`.
pub open spec fn break_pending_ok(st: CState, j: int, k: int) -> bool {
    let f = st.frames[j];
    let b = f.breaks[k];
    &&& (f.start as int) < (b as int) < st.tape.len()
    &&& st.tape[b as int] == Instruction::BreakLoop(0)
    &&& depth(st.tape, b as int) == j + 1
}

/// Frame `j` of the compilation state records a real `OpenLoop` that was
/// emitted at nesting depth `j`, and only well-placed pending breaks.
pub open spec fn frame_ok(st: CState, j: int) -> bool {
    let f = st.frames[j];
    &&& (f.start as int) < st.tape.len()
    &&& st.tape[f.start as int] is OpenLoop
    &&& depth(st.tape, f.start as int) == j
    &&& forall|k: int| 0 <= k < f.breaks.len() ==> #[trigger] break_pending_ok(st, j, k)
}

/// An unresolved `BreakLoop` placeholder at tape position `i` is recorded as
/// pending in some open frame.
pub open spec fn pending(st: CState, i: int) -> bool {
    exists|j: int, k: int|
        0 <= j < st.frames.len() && 0 <= k < st.frames[j].breaks.len()
            && (#[trigger] st.frames[j].breaks[k]) as int == i
}

/// The invariant that every compilation state reached from an empty state
/// satisfies: the tape built so far is well formed, the nesting depth at the
/// tape's end equals the number of open frames, each open frame is sound,
/// and every unresolved break placeholder is pending in an open frame.
pub open spec fn cinv(st: CState) -> bool {
    &&& forall|n: int| 0 <= n <= st.tape.len() ==> #[trigger] depth(st.tape, n) >= 0
    &&& depth(st.tape, st.tape.len() as int) == st.frames.len()
    &&& forall|j: int| 0 <= j < st.frames.len() ==> #[trigger] frame_ok(st, j)
    &&& forall|i: int| 0 <= i < st.tape.len() ==> #[trigger] close_ok(st.tape, i)
    &&& forall|i: int| 0 <= i < st.tape.len() ==> #[trigger] break_ok(st.tape, i)
    &&& forall|i: int|
        0 <= i < st.tape.len() && (#[trigger] st.tape[i]) == Instruction::BreakLoop(0) ==> pending(
            st,
            i,
        )
}

/// Appending an instruction keeps the old positions' tape clauses.
proof fn lemma_push_tape_clauses(t: Seq<Instruction>, x: Instruction)
    requires
        forall|n: int| 0 <= n <= t.len() ==> #[trigger] depth(t, n) >= 0,
        forall|i: int| 0 <= i < t.len() ==> #[trigger] close_ok(t, i),
        forall|i: int| 0 <= i < t.len() ==> #[trigger] break_ok(t, i),
    ensures
        forall|n: int| 0 <= n <= t.len() ==> #[trigger] depth(t.push(x), n) >= 0,
        forall|i: int| 0 <= i < t.len() ==> #[trigger] close_ok(t.push(x), i),
        forall|i: int| 0 <= i < t.len() ==> #[trigger] break_ok(t.push(x), i),
        forall|n: int| 0 <= n <= t.len() ==> #[trigger] depth(t.push(x), n) == depth(t, n),
{
    let t2 = t.push(x);
    assert forall|n: int| 0 <= n <= t.len() implies #[trigger] depth(t2, n) == depth(t, n) by {
        lemma_depth_push(t, x, n);
    }
    assert forall|i: int| 0 <= i < t.len() implies #[trigger] close_ok(t2, i) by {
        assert(close_ok(t, i));
        assert(t2[i] == t[i]);
        if t[i] is CloseLoop {
            let k = t[i]->CloseLoop_0;
            assert(t2[k as int] == t[k as int]);
        }
    }
    assert forall|i: int| 0 <= i < t.len() implies #[trigger] break_ok(t2, i) by {
        assert(break_ok(t, i));
        assert(t2[i] == t[i]);
        if t[i] is BreakLoop {
            let e = t[i]->BreakLoop_0;
            if e != 0 {
                assert(t2[e as int] == t[e as int]);
            }
        }
    }
}

/// One compilation step preserves the invariant, and grows the tape by at
/// most one entry.
#[verifier::rlimit(60)]
proof fn lemma_compile_step_cinv(st: CState, c: char)
    requires
        cinv(st),
        st.tape.len() <= usize::MAX,
    ensures
        cinv(compile_step(st, c)),
        compile_step(st, c).tape.len() <= st.tape.len() + 1,
{
    let t = st.tape;
    let fs = st.frames;
    let st2 = compile_step(st, c);
    if c == '(' {
        let x = Instruction::OpenLoop;
        lemma_push_tape_clauses(t, x);
        assert(t.push(x)[t.len() as int] == x);
        assert(depth(t.push(x), t.len() as int) == depth(t, t.len() as int));
        assert(depth(t.push(x), t.len() as int + 1) == depth(t.push(x), t.len() as int)
            + instr_delta(t.push(x)[t.len() as int]));
        assert(depth(t.push(x), t.len() as int + 1) == depth(t, t.len() as int) + 1);
        assert forall|j: int| 0 <= j < st2.frames.len() implies #[trigger] frame_ok(st2, j) by {
            if j < fs.len() {
                assert(frame_ok(st, j));
                assert forall|k: int|
                    0 <= k < st2.frames[j].breaks.len() implies #[trigger] break_pending_ok(
                    st2,
                    j,
                    k,
                ) by {
                    assert(break_pending_ok(st, j, k));
                }
            } else {
                assert(st2.frames[j].breaks.len() == 0);
            }
        }
        assert forall|i: int|
            0 <= i < st2.tape.len() && (#[trigger] st2.tape[i]) == Instruction::BreakLoop(0)
            implies pending(st2, i) by {
            assert(st2.tape[i] == t[i]);
            assert(pending(st, i));
            let (j0, k0) = choose|j0: int, k0: int|
                0 <= j0 < st.frames.len() && 0 <= k0 < st.frames[j0].breaks.len()
                    && (#[trigger] st.frames[j0].breaks[k0]) as int == i;
            assert(st2.frames[j0].breaks[k0] as int == i);
        }
    } else if c == ')' {
        if fs.len() > 0 {
            lemma_close_step_cinv(st);
        }
    } else if c == ';' {
        if fs.len() > 0 {
            let j = fs.len() - 1;
            let f = fs.last();
            let b: usize = t.len() as usize;
            let x = Instruction::BreakLoop(0);
            let t2 = t.push(x);
            lemma_push_tape_clauses(t, x);
            assert(t2[t.len() as int] == x);
            assert(depth(t2, t.len() as int) == depth(t, t.len() as int));
            assert(depth(t2, t.len() as int + 1) == depth(t2, t.len() as int) + instr_delta(
                t2[t.len() as int],
            ));
            assert(depth(t2, t.len() as int + 1) == depth(t, t.len() as int));
            assert forall|j2: int| 0 <= j2 < st2.frames.len() implies #[trigger] frame_ok(
                st2,
                j2,
            ) by {
                assert(frame_ok(st, j2));
                if j2 < j {
                    assert(st2.frames[j2] == fs[j2]);
                    assert forall|k: int|
                        0 <= k < st2.frames[j2].breaks.len() implies #[trigger] break_pending_ok(
                        st2,
                        j2,
                        k,
                    ) by {
                        assert(break_pending_ok(st, j2, k));
                    }
                } else {
                    assert forall|k: int|
                        0 <= k < st2.frames[j2].breaks.len() implies #[trigger] break_pending_ok(
                        st2,
                        j2,
                        k,
                    ) by {
                        if k < f.breaks.len() {
                            assert(break_pending_ok(st, j, k));
                            assert(st2.frames[j2].breaks[k] == f.breaks[k]);
                        } else {
                            assert(st2.frames[j2].breaks[k] == b);
                            assert(depth(t2, b as int) == fs.len());
                        }
                    }
                }
            }
            assert forall|i: int|
                0 <= i < st2.tape.len() && (#[trigger] st2.tape[i]) == Instruction::BreakLoop(0)
                implies pending(st2, i) by {
                if i < t.len() {
                    assert(st2.tape[i] == t[i]);
                    assert(pending(st, i));
                    let (j0, k0) = choose|j0: int, k0: int|
                        0 <= j0 < st.frames.len() && 0 <= k0 < st.frames[j0].breaks.len()
                            && (#[trigger] st.frames[j0].breaks[k0]) as int == i;
                    if j0 < j {
                        assert(st2.frames[j0].breaks[k0] as int == i);
                    } else {
                        assert(st2.frames[j].breaks[k0] as int == i);
                    }
                } else {
                    assert(st2.frames[j].breaks[f.breaks.len() as int] as int == i);
                }
            }
        }
    } else {
        match simple_symbol(c) {
            Some(x) => {
                lemma_push_tape_clauses(t, x);
                assert(instr_delta(x) == 0);
                assert(t.push(x)[t.len() as int] == x);
                assert(depth(t.push(x), t.len() as int) == depth(t, t.len() as int));
                assert(depth(t.push(x), t.len() as int + 1) == depth(t.push(x), t.len() as int)
                    + instr_delta(t.push(x)[t.len() as int]));
                assert(depth(t.push(x), t.len() as int + 1) == depth(t, t.len() as int));
                assert forall|j: int| 0 <= j < st2.frames.len() implies #[trigger] frame_ok(
                    st2,
                    j,
                ) by {
                    assert(frame_ok(st, j));
                    assert forall|k: int|
                        0 <= k < st2.frames[j].breaks.len() implies #[trigger] break_pending_ok(
                        st2,
                        j,
                        k,
                    ) by {
                        assert(break_pending_ok(st, j, k));
                    }
                }
                assert forall|i: int|
                    0 <= i < st2.tape.len() && (#[trigger] st2.tape[i]) == Instruction::BreakLoop(0)
                    implies pending(st2, i) by {
                    assert(st2.tape[i] == t[i]);
                    assert(pending(st, i));
                    let (j0, k0) = choose|j0: int, k0: int|
                        0 <= j0 < st.frames.len() && 0 <= k0 < st.frames[j0].breaks.len()
                            && (#[trigger] st.frames[j0].breaks[k0]) as int == i;
                    assert(st2.frames[j0].breaks[k0] as int == i);
                }
            }
            None => {}
        }
    }
}

/// The closing-delimiter step: backpatching the innermost frame's pending
/// breaks and emitting `CloseLoop` preserves the invariant.
#[verifier::rlimit(100)]
proof fn lemma_close_step_cinv(st: CState)
    requires
        cinv(st),
        st.tape.len() <= usize::MAX,
        st.frames.len() > 0,
    ensures
        cinv(compile_step(st, ')')),
        compile_step(st, ')').tape.len() <= st.tape.len() + 1,
{
    let t = st.tape;
    let fs = st.frames;
    let j = fs.len() - 1;
    let f = fs.last();
    let end: usize = t.len() as usize;
    let t2 = patch(t, f.breaks, end);
    let x = Instruction::CloseLoop(f.start);
    let t3 = t2.push(x);
    let st2 = compile_step(st, ')');
    assert(st2.tape == t3);
    assert(st2.frames == fs.drop_last());
    assert(frame_ok(st, j));
    assert forall|k: int|
        0 <= k < f.breaks.len() implies (#[trigger] f.breaks[k]) < t.len() && t[f.breaks[k] as int]
        is BreakLoop by {
        assert(break_pending_ok(st, j, k));
    }
    lemma_patch_facts(t, f.breaks, end);
    assert forall|n: int| 0 <= n <= t.len() implies #[trigger] depth(t2, n) == depth(t, n) by {
        lemma_patch_depth(t, f.breaks, end, n);
    }
    assert forall|n: int| 0 <= n <= t2.len() implies #[trigger] depth(t3, n) == depth(t2, n) by {
        lemma_depth_push(t2, x, n);
    }
    // positions that hold no pending placeholder of the closing frame are untouched
    assert forall|m: int|
        0 <= m < t.len() && t[m] != Instruction::BreakLoop(0) implies #[trigger] t2[m] == t[m] by {
        if f.breaks.contains(m as usize) {
            let k = choose|k: int| 0 <= k < f.breaks.len() && f.breaks[k] == m as usize;
            assert(break_pending_ok(st, j, k));
        }
    }
    // pending placeholders of the other (outer) frames are untouched too
    assert forall|j2: int, k2: int|
        0 <= j2 < j && 0 <= k2 < fs[j2].breaks.len() implies #[trigger] t2[fs[j2].breaks[k2] as int]
        == Instruction::BreakLoop(0) by {
        assert(frame_ok(st, j2));
        assert(break_pending_ok(st, j2, k2));
        let b = fs[j2].breaks[k2];
        if f.breaks.contains(b) {
            let k = choose|k: int| 0 <= k < f.breaks.len() && f.breaks[k] == b;
            assert(break_pending_ok(st, j, k));
            assert(depth(t, b as int) == j + 1);
            assert(depth(t, b as int) == j2 + 1);
        }
    }
    // depth stays non-negative
    assert forall|n: int| 0 <= n <= t3.len() implies #[trigger] depth(t3, n) >= 0 by {
        if n <= t.len() {
            assert(depth(t, n) >= 0);
        } else {
            assert(t2.len() == t.len());
            assert(t3[t.len() as int] == x);
            assert(depth(t3, t.len() as int) == depth(t2, t.len() as int));
            assert(depth(t3, t.len() as int + 1) == depth(t3, t.len() as int) + instr_delta(
                t3[t.len() as int],
            ));
            assert(depth(t3, t.len() as int + 1) == depth(t2, t.len() as int) + instr_delta(x));
        }
    }
    assert(t3[t.len() as int] == x);
    assert(depth(t3, t.len() as int) == depth(t2, t.len() as int));
    assert(depth(t3, t.len() as int + 1) == depth(t3, t.len() as int) + instr_delta(
        t3[t.len() as int],
    ));
    assert(depth(t3, t3.len() as int) == st2.frames.len());
    // every CloseLoop still targets its matching OpenLoop
    assert forall|i: int| 0 <= i < t3.len() implies #[trigger] close_ok(t3, i) by {
        if i < t.len() {
            assert(close_ok(t, i));
            if t3[i] is CloseLoop {
                assert(t2[i] is CloseLoop);
                assert(t[i] is CloseLoop);
                assert(t2[i] == t[i]);
                let k = t[i]->CloseLoop_0;
                assert(t[k as int] is OpenLoop);
                assert(t2[k as int] == t[k as int]);
                assert(t3[k as int] == t[k as int]);
            }
        } else {
            assert(t3[i] == x);
            assert(t[f.start as int] is OpenLoop);
            assert(t2[f.start as int] == t[f.start as int]);
            assert(t3[f.start as int] is OpenLoop);
            assert(depth(t3, i) == depth(t, t.len() as int));
            assert(depth(t3, f.start as int) == depth(t, f.start as int));
        }
    }
    // every resolved BreakLoop still targets its enclosing CloseLoop
    assert forall|i: int| 0 <= i < t3.len() implies #[trigger] break_ok(t3, i) by {
        if i < t.len() {
            if t3[i] is BreakLoop {
                assert(t2[i] is BreakLoop);
                assert(t[i] is BreakLoop);
                if f.breaks.contains(i as usize) {
                    // freshly patched: it now targets the CloseLoop just emitted
                    let k = choose|k: int| 0 <= k < f.breaks.len() && f.breaks[k] == i as usize;
                    assert(break_pending_ok(st, j, k));
                    assert(t2[i] == Instruction::BreakLoop(end));
                    assert(end as int == t.len());
                    assert(t3[end as int] == x);
                    assert((f.start as int) < i);
                    assert(depth(t3, end as int) == depth(t, t.len() as int));
                    assert(depth(t, t.len() as int) == j + 1);
                    assert(depth(t3, i) == depth(t, i));
                    assert(depth(t, i) == j + 1);
                } else {
                    assert(t2[i] == t[i]);
                    assert(break_ok(t, i));
                    let e = t[i]->BreakLoop_0;
                    if e != 0 {
                        assert(t[e as int] is CloseLoop);
                        assert(t2[e as int] == t[e as int]);
                        assert(t3[e as int] == t[e as int]);
                        assert(depth(t3, e as int) == depth(t, e as int));
                        assert(depth(t3, i) == depth(t, i));
                    }
                }
            }
        }
    }
    // the surviving frames are unchanged and still sound
    assert forall|j2: int| 0 <= j2 < st2.frames.len() implies #[trigger] frame_ok(st2, j2) by {
        assert(frame_ok(st, j2));
        assert(st2.frames[j2] == fs[j2]);
        let f2 = fs[j2];
        assert(t[f2.start as int] is OpenLoop);
        assert(t2[f2.start as int] == t[f2.start as int]);
        assert(t3[f2.start as int] == t[f2.start as int]);
        assert(depth(t3, f2.start as int) == depth(t, f2.start as int));
        assert forall|k: int|
            0 <= k < st2.frames[j2].breaks.len() implies #[trigger] break_pending_ok(
            st2,
            j2,
            k,
        ) by {
            assert(break_pending_ok(st, j2, k));
            let b = f2.breaks[k];
            assert(t2[b as int] == Instruction::BreakLoop(0));
            assert(t3[b as int] == t2[b as int]);
            assert(depth(t3, b as int) == depth(t, b as int));
        }
    }
    // every placeholder still unresolved is pending in a surviving frame
    assert forall|i: int|
        0 <= i < st2.tape.len() && (#[trigger] st2.tape[i]) == Instruction::BreakLoop(0)
        implies pending(st2, i) by {
        assert(i < t.len());
        if f.breaks.contains(i as usize) {
            let k = choose|k: int| 0 <= k < f.breaks.len() && f.breaks[k] == i as usize;
            assert(t2[i] == Instruction::BreakLoop(end));
            assert(break_pending_ok(st, j, k));
            assert(end as int == t.len());
            assert(false);
        } else {
            assert(t2[i] == t[i]);
            assert(pending(st, i));
            let (j0, k0) = choose|j0: int, k0: int|
                0 <= j0 < st.frames.len() && 0 <= k0 < st.frames[j0].breaks.len()
                    && (#[trigger] st.frames[j0].breaks[k0]) as int == i;
            if j0 == j {
                assert(f.breaks[k0] as int == i);
                assert(f.breaks.contains(i as usize));
            } else {
                assert(st2.frames[j0].breaks[k0] as int == i);
            }
        }
    }
}

/// Every compilation state reached from a source of machine-representable
/// length satisfies the invariant, and the tape is no longer than the source.
proof fn lemma_compile_cinv(s: Seq<char>)
    requires
        s.len() <= usize::MAX,
    ensures
        cinv(compile_chars(s)),
        compile_chars(s).tape.len() <= s.len(),
    decreases s.len(),
{
    if s.len() == 0 {
        let st = compile_chars(s);
        assert(st.tape.len() == 0);
        assert(depth(st.tape, 0) == 0);
        assert forall|n: int| 0 <= n <= st.tape.len() implies #[trigger] depth(st.tape, n)
            >= 0 by {}
    } else {
        lemma_compile_cinv(s.drop_last());
        lemma_compile_step_cinv(compile_chars(s.drop_last()), s.last());
    }
}

// ---------------------------------------------------------------------------
// Laws of compilation
// ---------------------------------------------------------------------------

/// Law: every compiled tape is well formed — its nesting depth never goes
/// negative, every `CloseLoop` targets its matching `OpenLoop` at one
/// nesting level less, and every resolved `BreakLoop` targets the
/// `CloseLoop` of its innermost enclosing loop.
pub proof fn lemma_compile_wf(s: Seq<char>)
    requires
        s.len() <= usize::MAX,
    ensures
        tape_wf(tape_of(s)),
{
    lemma_compile_cinv(s);
}

/// Law: after compilation, every resolved `BreakLoop` targets the tape
/// position of its enclosing loop's `CloseLoop`: a `CloseLoop` after the
/// break, at the break's own nesting depth, whose matching `OpenLoop` opens
/// before the break.
pub proof fn lemma_break_targets(s: Seq<char>, i: int)
    requires
        s.len() <= usize::MAX,
        0 <= i < tape_of(s).len(),
    ensures
        break_ok(tape_of(s), i),
{
    lemma_compile_wf(s);
}

/// Every jump target on the tape lies within the tape.
pub open spec fn targets_in_bounds(t: Seq<Instruction>) -> bool {
    forall|i: int|
        0 <= i < t.len() ==> (((#[trigger] t[i]) matches Instruction::CloseLoop(k) ==> (k as int)
            < t.len()) && (t[i] matches Instruction::BreakLoop(e) ==> (e as int) < t.len()))
}

/// Law: a compiled tape never holds a jump target at or beyond its end, so
/// the machine's guard against such a target is never taken on one.
pub proof fn lemma_compile_targets(s: Seq<char>)
    requires
        s.len() <= usize::MAX,
    ensures
        targets_in_bounds(tape_of(s)),
{
    lemma_compile_wf(s);
    let t = tape_of(s);
    assert forall|i: int|
        0 <= i < t.len() implies (((#[trigger] t[i]) matches Instruction::CloseLoop(k) ==> (
        k as int) < t.len()) && (t[i] matches Instruction::BreakLoop(e) ==> (e as int)
        < t.len())) by {
        assert(close_ok(t, i));
        assert(break_ok(t, i));
    }
}

// ---------------------------------------------------------------------------
// Balanced sources
// ---------------------------------------------------------------------------

/// What one source character contributes to the delimiter depth.
pub open spec fn char_delta(c: char) -> int {
    if c == '(' {
        1
    } else if c == ')' {
        -1
    } else {
        0
    }
}

/// The delimiter depth after the first `n` source characters: opening
/// delimiters seen minus closing delimiters seen.
pub open spec fn paren_depth(s: Seq<char>, n: int) -> int
    decreases n,
{
    if n <= 0 {
        0
    } else {
        paren_depth(s, n - 1) + char_delta(s[n - 1])
    }
}

/// A source whose `(` and `)` are balanced: no prefix closes more loops
/// than it opened, and the whole source closes every loop it opens.
pub open spec fn balanced(s: Seq<char>) -> bool {
    &&& forall|n: int| 0 <= n <= s.len() ==> #[trigger] paren_depth(s, n) >= 0
    &&& paren_depth(s, s.len() as int) == 0
}

/// Delimiter depth reads only the characters before `n`.
proof fn lemma_paren_agree(s1: Seq<char>, s2: Seq<char>, n: int)
    requires
        forall|m: int| 0 <= m < n ==> s1[m] == s2[m],
    ensures
        paren_depth(s1, n) == paren_depth(s2, n),
    decreases n,
{
    if n > 0 {
        lemma_paren_agree(s1, s2, n - 1);
    }
}

/// While no prefix has closed more loops than it opened, the number of open
/// frames equals the delimiter depth.
proof fn lemma_frames_paren(s: Seq<char>)
    requires
        forall|n: int| 0 <= n <= s.len() ==> #[trigger] paren_depth(s, n) >= 0,
    ensures
        compile_chars(s).frames.len() == paren_depth(s, s.len() as int),
    decreases s.len(),
{
    if s.len() > 0 {
        let s0 = s.drop_last();
        assert forall|n: int| 0 <= n <= s0.len() implies #[trigger] paren_depth(s0, n) >= 0 by {
            lemma_paren_agree(s0, s, n);
        }
        lemma_frames_paren(s0);
        lemma_paren_agree(s0, s, s0.len() as int);
        assert(paren_depth(s, s.len() as int) == paren_depth(s, s.len() as int - 1) + char_delta(
            s[s.len() as int - 1],
        ));
        assert(paren_depth(s, s.len() as int) >= 0);
    }
}

/// Law: compiling a balanced source resolves every `BreakLoop`, yields a
/// well-formed tape, and closes every loop: the nesting depth at the tape's
/// end is zero.
pub proof fn lemma_balanced_resolved(s: Seq<char>)
    requires
        s.len() <= usize::MAX,
        balanced(s),
    ensures
        tape_wf(tape_of(s)),
        tape_resolved(tape_of(s)),
        depth(tape_of(s), tape_of(s).len() as int) == 0,
{
    lemma_compile_cinv(s);
    lemma_frames_paren(s);
    let st = compile_chars(s);
    assert(st.frames.len() == 0);
    assert forall|i: int|
        0 <= i < st.tape.len() implies ((#[trigger] st.tape[i]) matches Instruction::BreakLoop(e)
        ==> e != 0) by {
        if st.tape[i] == Instruction::BreakLoop(0) {
            assert(pending(st, i));
        }
    }
}

// ---------------------------------------------------------------------------
// The runtime nesting invariant
// ---------------------------------------------------------------------------

/// The nesting invariant of a running machine: the loop-count stack holds
/// exactly one entry per loop lexically enclosing the fetch position.
pub open spec fn nesting_inv(m: VmModel) -> bool {
    &&& 0 <= m.pos <= m.tape.len()
    &&& m.counts.len() == depth(m.tape, m.pos)
}

/// A machine starting on any tape satisfies the nesting invariant.
pub proof fn lemma_init_nesting(tape: Seq<Instruction>)
    ensures
        nesting_inv(init_model(tape)),
{
    assert(depth(tape, 0) == 0);
}

/// Law: on a well-formed, fully resolved tape (as compiling a balanced
/// source yields), every step of execution preserves the nesting invariant:
/// as long as the machine has not halted, the length of the loop-count
/// stack equals the loop-nesting depth enclosing the fetch position.
pub proof fn lemma_step_nesting(m: VmModel)
    requires
        tape_wf(m.tape),
        tape_resolved(m.tape),
        nesting_inv(m),
    ensures
        step_spec(m).1 is Halt || (step_spec(m).0.tape == m.tape && nesting_inv(step_spec(m).0)),
{
    let t = m.tape;
    if 0 <= m.pos < t.len() {
        assert(close_ok(t, m.pos));
        assert(break_ok(t, m.pos));
        assert(depth(t, m.pos + 1) == depth(t, m.pos) + instr_delta(t[m.pos]));
        match t[m.pos] {
            Instruction::CloseLoop(k) => {
                assert((k as int) < m.pos);
                assert(depth(t, k as int) >= 0);
                assert(m.counts.len() >= 1);
                assert(depth(t, k as int + 1) == depth(t, k as int) + instr_delta(t[k as int]));
            }
            Instruction::BreakLoop(e) => {
                assert(e != 0);
                assert(close_ok(t, e as int));
                let k2 = t[e as int]->CloseLoop_0;
                assert(depth(t, k2 as int) >= 0);
                assert(m.counts.len() >= 1);
                assert(depth(t, e as int + 1) == depth(t, e as int) + instr_delta(t[e as int]));
            }
            _ => {}
        }
    }
}

/// Law: answering a pending `Input` instruction preserves the nesting
/// invariant.
pub proof fn lemma_feed_nesting(m: VmModel, b: u8)
    requires
        0 <= m.pos < m.tape.len(),
        m.tape[m.pos] is Input,
        nesting_inv(m),
    ensures
        nesting_inv(feed_spec(m, b)),
{
    assert(depth(m.tape, m.pos + 1) == depth(m.tape, m.pos) + instr_delta(m.tape[m.pos]));
}

/// Law: on a well-formed, fully resolved tape the nesting invariant holds
/// through a whole bounded run: wherever the run stops short of halting,
/// the loop-count stack still holds one entry per loop enclosing the fetch
/// position, and the tape is unchanged.
pub proof fn lemma_run_nesting(m: VmModel, fuel: nat)
    requires
        tape_wf(m.tape),
        tape_resolved(m.tape),
        nesting_inv(m),
    ensures
        run_spec(m, fuel).m.tape == m.tape,
        run_spec(m, fuel).stop is Halted || nesting_inv(run_spec(m, fuel).m),
    decreases fuel,
{
    if fuel > 0 {
        let (m2, e) = step_spec(m);
        lemma_step_nesting(m);
        if !(e is Halt) && !(e is NeedInput) {
            lemma_run_nesting(m2, (fuel - 1) as nat);
        }
    }
}

// ---------------------------------------------------------------------------
// Emission counts
// ---------------------------------------------------------------------------

/// How many `OpenLoop` instructions a tape holds.
pub open spec fn count_open(t: Seq<Instruction>) -> int
    decreases t.len(),
{
    if t.len() == 0 {
        0
    } else {
        count_open(t.drop_last()) + if t.last() is OpenLoop {
            1int
        } else {
            0int
        }
    }
}

/// How many `CloseLoop` instructions a tape holds.
pub open spec fn count_close(t: Seq<Instruction>) -> int
    decreases t.len(),
{
    if t.len() == 0 {
        0
    } else {
        count_close(t.drop_last()) + if t.last() is CloseLoop {
            1int
        } else {
            0int
        }
    }
}

/// How many `BreakLoop` instructions a tape holds.
pub open spec fn count_break(t: Seq<Instruction>) -> int
    decreases t.len(),
{
    if t.len() == 0 {
        0
    } else {
        count_break(t.drop_last()) + if t.last() is BreakLoop {
            1int
        } else {
            0int
        }
    }
}

/// How many times the character `c` occurs in the source.
pub open spec fn count_char(s: Seq<char>, c: char) -> int
    decreases s.len(),
{
    if s.len() == 0 {
        0
    } else {
        count_char(s.drop_last(), c) + if s.last() == c {
            1int
        } else {
            0int
        }
    }
}

/// How many `)` found an open loop to close: the closing delimiters
/// encountered while at least one frame was open, which are exactly the `(`
/// that found a later matching `)`.
pub open spec fn matched_close_count(s: Seq<char>) -> int
    decreases s.len(),
{
    if s.len() == 0 {
        0
    } else {
        matched_close_count(s.drop_last()) + if s.last() == ')' && compile_chars(
            s.drop_last(),
        ).frames.len() > 0 {
            1int
        } else {
            0int
        }
    }
}

/// How many `;` were encountered while at least one loop frame was open.
pub open spec fn open_break_count(s: Seq<char>) -> int
    decreases s.len(),
{
    if s.len() == 0 {
        0
    } else {
        open_break_count(s.drop_last()) + if s.last() == ';' && compile_chars(
            s.drop_last(),
        ).frames.len() > 0 {
            1int
        } else {
            0int
        }
    }
}

/// Appending one instruction raises exactly the matching count by one.
proof fn lemma_count_push(t: Seq<Instruction>, x: Instruction)
    ensures
        count_open(t.push(x)) == count_open(t) + if x is OpenLoop {
            1int
        } else {
            0int
        },
        count_close(t.push(x)) == count_close(t) + if x is CloseLoop {
            1int
        } else {
            0int
        },
        count_break(t.push(x)) == count_break(t) + if x is BreakLoop {
            1int
        } else {
            0int
        },
{
    assert(t.push(x).drop_last() =~= t);
    assert(t.push(x).last() == x);
}

/// Two tapes whose entries have the same kinds position by position hold
/// the same counts.
proof fn lemma_count_agree(t1: Seq<Instruction>, t2: Seq<Instruction>)
    requires
        t1.len() == t2.len(),
        forall|m: int|
            0 <= m < t1.len() ==> ((#[trigger] t1[m]) is OpenLoop <==> t2[m] is OpenLoop) && (t1[m]
                is CloseLoop <==> t2[m] is CloseLoop) && (t1[m] is BreakLoop <==> t2[m]
                is BreakLoop),
    ensures
        count_open(t1) == count_open(t2),
        count_close(t1) == count_close(t2),
        count_break(t1) == count_break(t2),
    decreases t1.len(),
{
    if t1.len() > 0 {
        lemma_count_agree(t1.drop_last(), t2.drop_last());
        assert(t1.last() == t1[t1.len() - 1]);
        assert(t2.last() == t2[t2.len() - 1]);
    }
}

/// Law: the tape of any source holds one `OpenLoop` per `(`, one
/// `CloseLoop` per `)` that found an open loop to close (equivalently, per
/// `(` that found a later matching `)`), and one `BreakLoop` per `;`
/// encountered while at least one loop was open.
pub proof fn lemma_emission_counts(s: Seq<char>)
    requires
        s.len() <= usize::MAX,
    ensures
        count_open(tape_of(s)) == count_char(s, '('),
        count_close(tape_of(s)) == matched_close_count(s),
        count_break(tape_of(s)) == open_break_count(s),
    decreases s.len(),
{
    if s.len() > 0 {
        let s0 = s.drop_last();
        let c = s.last();
        lemma_emission_counts(s0);
        lemma_compile_cinv(s0);
        let st = compile_chars(s0);
        let t = st.tape;
        if c == '(' {
            lemma_count_push(t, Instruction::OpenLoop);
        } else if c == ')' {
            if st.frames.len() > 0 {
                let j = st.frames.len() - 1;
                let f = st.frames.last();
                let end: usize = t.len() as usize;
                assert(frame_ok(st, j));
                assert forall|k: int|
                    0 <= k < f.breaks.len() implies (#[trigger] f.breaks[k]) < t.len() && t[f.breaks[k] as int]
                    is BreakLoop by {
                    assert(break_pending_ok(st, j, k));
                }
                lemma_patch_facts(t, f.breaks, end);
                lemma_count_agree(patch(t, f.breaks, end), t);
                lemma_count_push(patch(t, f.breaks, end), Instruction::CloseLoop(f.start));
            }
        } else if c == ';' {
            if st.frames.len() > 0 {
                lemma_count_push(t, Instruction::BreakLoop(0));
            }
        } else {
            match simple_symbol(c) {
                Some(x) => {
                    lemma_count_push(t, x);
                }
                None => {},
            }
        }
    }
}

/// The delimiter depth of a whole source is its `(` count minus its `)`
/// count.
proof fn lemma_paren_depth_counts(s: Seq<char>)
    ensures
        paren_depth(s, s.len() as int) == count_char(s, '(') - count_char(s, ')'),
    decreases s.len(),
{
    if s.len() > 0 {
        let s0 = s.drop_last();
        lemma_paren_depth_counts(s0);
        assert forall|n: int| 0 <= n <= s0.len() implies paren_depth(s0, n) == paren_depth(
            s,
            n,
        ) by {
            lemma_paren_agree(s0, s, n);
        }
        assert(paren_depth(s, s.len() as int) == paren_depth(s, s.len() as int - 1) + char_delta(
            s[s.len() as int - 1],
        ));
    }
}

/// On a balanced source every `)` closes a loop.
proof fn lemma_matched_all(s: Seq<char>)
    requires
        forall|n: int| 0 <= n <= s.len() ==> #[trigger] paren_depth(s, n) >= 0,
    ensures
        matched_close_count(s) == count_char(s, ')'),
    decreases s.len(),
{
    if s.len() > 0 {
        let s0 = s.drop_last();
        assert forall|n: int| 0 <= n <= s0.len() implies #[trigger] paren_depth(s0, n) >= 0 by {
            lemma_paren_agree(s0, s, n);
        }
        lemma_matched_all(s0);
        if s.last() == ')' {
            lemma_frames_paren(s0);
            lemma_paren_agree(s0, s, s0.len() as int);
            assert(paren_depth(s, s.len() as int) == paren_depth(s, s.len() as int - 1)
                + char_delta(s[s.len() as int - 1]));
            assert(paren_depth(s, s.len() as int) >= 0);
        }
    }
}

/// Law: on a balanced source, `OpenLoop`, `CloseLoop`, `(` and `)` counts
/// all agree.
pub proof fn lemma_emission_counts_balanced(s: Seq<char>)
    requires
        s.len() <= usize::MAX,
        balanced(s),
    ensures
        count_open(tape_of(s)) == count_char(s, '('),
        count_close(tape_of(s)) == count_char(s, '('),
        count_char(s, '(') == count_char(s, ')'),
        count_break(tape_of(s)) == open_break_count(s),
{
    lemma_emission_counts(s);
    lemma_matched_all(s);
    lemma_paren_depth_counts(s);
}

} // verus!
