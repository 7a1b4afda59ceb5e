use vstd::prelude::*;
use crate::error::TranslateError;
use crate::machine::{eq_flag, initial_slots, run, wrap_add, ExecError, Op};
use crate::{call_result, translated_from, translates, CompiledFunction, TranslatedModule};
use crate::decoder::decode_spec;
use crate::translator::{patch_all, start, step, steps, translate_spec, Instr, TranslatorModel};

verus! {

/// What translating `body` as a function of two parameters and one result,
/// then running it on `a` and `b`, yields; `None` when it does not translate.
pub open spec fn body_result(body: Seq<Instr>, a: usize, b: usize) -> Option<Result<usize, ExecError>> {
    match translate_spec(body, 2, 1) {
        Ok((code, size)) => Some(run(code, initial_slots(size, a, b), 0, 2)),
        Err(_) => None,
    }
}

/// Translating one more instruction of `s` after its first `k`.
proof fn lemma_steps_next(t: TranslatorModel, s: Seq<Instr>, k: int, u: TranslatorModel)
    requires
        0 <= k < s.len(),
        steps(t, s.take(k)) == Ok::<TranslatorModel, TranslateError>(u),
    ensures
        steps(t, s.take(k + 1)) == step(u, s[k]),
{
    assert(s.take(k + 1).drop_last() =~= s.take(k));
}

/// No instruction translated yet, and all of them.
proof fn lemma_steps_ends(t: TranslatorModel, s: Seq<Instr>)
    ensures
        steps(t, s.take(0)) == Ok::<TranslatorModel, TranslateError>(t),
        s.take(s.len() as int) == s,
{
    assert(s.take(0) =~= seq![]);
    assert(s.take(s.len() as int) =~= s);
}

pub open spec fn add_body() -> Seq<Instr> {
    seq![Instr::LocalGet(0), Instr::LocalGet(1), Instr::I32Add, Instr::End]
}

/// The sum of the two parameters wraps at the width of a machine word.
pub proof fn add_wraps(a: usize, b: usize)
    ensures
        body_result(add_body(), a, b) == Some(Ok::<usize, ExecError>(wrap_add(a, b))),
{
    let s = add_body();
    let t0 = start(2, 1);
    lemma_steps_ends(t0, s);
    let t1 = step(t0, Instr::LocalGet(0))->Ok_0;
    let t2 = step(t1, Instr::LocalGet(1))->Ok_0;
    let t3 = step(t2, Instr::I32Add)->Ok_0;
    let t4 = step(t3, Instr::End)->Ok_0;
    lemma_steps_next(t0, s, 0, t0);
    lemma_steps_next(t0, s, 1, t1);
    lemma_steps_next(t0, s, 2, t2);
    lemma_steps_next(t0, s, 3, t3);
    assert(t4.finished);
    let code = t4.code;
    assert(code =~= seq![Op::Copy { dst: 2, src: 0 }, Op::Copy { dst: 3, src: 1 }, Op::Add { dst: 2, lhs: 2, rhs: 3 }]);
    let size = t4.locals + t4.max_height + 1;
    assert(size == 5);
    let s0 = initial_slots(5, a, b);
    let s1 = s0.update(2, a);
    let s2 = s1.update(3, b);
    let s3 = s2.update(2, wrap_add(a, b));
    assert(run(code, s0, 0, 2) == run(code, s1, 1, 2));
    assert(run(code, s1, 1, 2) == run(code, s2, 2, 2));
    assert(run(code, s2, 2, 2) == run(code, s3, 3, 2));
}

pub open spec fn eq_body() -> Seq<Instr> {
    seq![Instr::LocalGet(0), Instr::LocalGet(1), Instr::I32Eq, Instr::End]
}

/// Comparing the two parameters yields 1 exactly when they are equal, else 0.
pub proof fn eq_compares(a: usize, b: usize)
    ensures
        body_result(eq_body(), a, b) == Some(Ok::<usize, ExecError>(eq_flag(a, b))),
        eq_flag(a, b) == 1 <==> a == b,
        eq_flag(a, b) == 0 <==> a != b,
{
    let s = eq_body();
    let t0 = start(2, 1);
    lemma_steps_ends(t0, s);
    let t1 = step(t0, Instr::LocalGet(0))->Ok_0;
    let t2 = step(t1, Instr::LocalGet(1))->Ok_0;
    let t3 = step(t2, Instr::I32Eq)->Ok_0;
    let t4 = step(t3, Instr::End)->Ok_0;
    lemma_steps_next(t0, s, 0, t0);
    lemma_steps_next(t0, s, 1, t1);
    lemma_steps_next(t0, s, 2, t2);
    lemma_steps_next(t0, s, 3, t3);
    assert(t4.finished);
    let code = t4.code;
    assert(code =~= seq![Op::Copy { dst: 2, src: 0 }, Op::Copy { dst: 3, src: 1 }, Op::Eq { dst: 2, lhs: 2, rhs: 3 }]);
    let s0 = initial_slots(5, a, b);
    let s1 = s0.update(2, a);
    let s2 = s1.update(3, b);
    let s3 = s2.update(2, eq_flag(a, b));
    assert(run(code, s0, 0, 2) == run(code, s1, 1, 2));
    assert(run(code, s1, 1, 2) == run(code, s2, 2, 2));
    assert(run(code, s2, 2, 2) == run(code, s3, 3, 2));
}

pub open spec fn select_body() -> Seq<Instr> {
    seq![
        Instr::LocalGet(0), Instr::LocalGet(1), Instr::I32Eq, Instr::If(1), Instr::LocalGet(0), Instr::Else,
        Instr::LocalGet(1), Instr::End, Instr::End,
    ]
}

/// `if a == b then a else b` yields `a` when the parameters are equal and
/// `b` otherwise.
#[verifier::rlimit(60)]
pub proof fn if_else_selects(a: usize, b: usize)
    ensures
        body_result(select_body(), a, b) == Some(Ok::<usize, ExecError>(if a == b { a } else { b })),
{
    let s = select_body();
    let t0 = start(2, 1);
    lemma_steps_ends(t0, s);
    let t1 = step(t0, Instr::LocalGet(0))->Ok_0;
    lemma_steps_next(t0, s, 0, t0);
    let t2 = step(t1, Instr::LocalGet(1))->Ok_0;
    lemma_steps_next(t0, s, 1, t1);
    let t3 = step(t2, Instr::I32Eq)->Ok_0;
    lemma_steps_next(t0, s, 2, t2);
    let t4 = step(t3, Instr::If(1))->Ok_0;
    lemma_steps_next(t0, s, 3, t3);
    let t5 = step(t4, Instr::LocalGet(0))->Ok_0;
    lemma_steps_next(t0, s, 4, t4);
    let t6 = step(t5, Instr::Else)->Ok_0;
    lemma_steps_next(t0, s, 5, t5);
    let t7 = step(t6, Instr::LocalGet(1))->Ok_0;
    lemma_steps_next(t0, s, 6, t6);
    assert(t6.code =~= seq![
        Op::Copy { dst: 2, src: 0 }, Op::Copy { dst: 3, src: 1 }, Op::Eq { dst: 2, lhs: 2, rhs: 3 },
        Op::JumpIfZero { cond: 2, target: 6 }, Op::Copy { dst: 2, src: 0 }, Op::Jump { target: 0 },
    ]);
    assert(t7.code =~= t6.code.push(Op::Copy { dst: 2, src: 1 }));
    assert(t7.frames.last().exits =~= seq![5usize]);
    assert(patch_all(t7.code, seq![], 7) == t7.code);
    assert(t7.frames.last().exits.drop_last() =~= seq![]);
    let t8 = step(t7, Instr::End)->Ok_0;
    lemma_steps_next(t0, s, 7, t7);
    let t9 = step(t8, Instr::End)->Ok_0;
    lemma_steps_next(t0, s, 8, t8);
    assert(t9.finished);
    let code = t9.code;
    assert(code =~= seq![
        Op::Copy { dst: 2, src: 0 }, Op::Copy { dst: 3, src: 1 }, Op::Eq { dst: 2, lhs: 2, rhs: 3 },
        Op::JumpIfZero { cond: 2, target: 6 }, Op::Copy { dst: 2, src: 0 }, Op::Jump { target: 7 },
        Op::Copy { dst: 2, src: 1 },
    ]);
    let s0 = initial_slots(5, a, b);
    let s1 = s0.update(2, a);
    let s2 = s1.update(3, b);
    let s3 = s2.update(2, eq_flag(a, b));
    assert(run(code, s0, 0, 2) == run(code, s1, 1, 2));
    assert(run(code, s1, 1, 2) == run(code, s2, 2, 2));
    assert(run(code, s2, 2, 2) == run(code, s3, 3, 2));
    if a == b {
        let s4 = s3.update(2, a);
        assert(run(code, s3, 3, 2) == run(code, s3, 4, 2));
        assert(run(code, s3, 4, 2) == run(code, s4, 5, 2));
        assert(run(code, s4, 5, 2) == run(code, s4, 7, 2));
    } else {
        let s4 = s3.update(2, b);
        assert(run(code, s3, 3, 2) == run(code, s3, 6, 2));
        assert(run(code, s3, 6, 2) == run(code, s4, 7, 2));
    }
}

pub open spec fn block_body() -> Seq<Instr> {
    seq![
        Instr::Block(1), Instr::LocalGet(0), Instr::End, Instr::End,
    ]
}

/// A block whose body loads parameter 0 and yields one value passes that
/// parameter through; parameter 1 is left alone.
pub proof fn block_passes_through(a: usize, b: usize)
    ensures
        body_result(block_body(), a, b) == Some(Ok::<usize, ExecError>(a)),
{
    let s = block_body();
    let t0 = start(2, 1);
    lemma_steps_ends(t0, s);
    let t1 = step(t0, Instr::Block(1))->Ok_0;
    lemma_steps_next(t0, s, 0, t0);
    let t2 = step(t1, Instr::LocalGet(0))->Ok_0;
    lemma_steps_next(t0, s, 1, t1);
    let t3 = step(t2, Instr::End)->Ok_0;
    lemma_steps_next(t0, s, 2, t2);
    let t4 = step(t3, Instr::End)->Ok_0;
    lemma_steps_next(t0, s, 3, t3);
    assert(t4.finished);
    let code = t4.code;
    assert(code =~= seq![Op::Copy { dst: 2, src: 0 }]);
    assert(t4.locals + t4.max_height + 1 == 4);
    let s0 = initial_slots(4, a, b);
    let s1 = s0.update(2, a);
    assert(run(code, s0, 0, 2) == run(code, s1, 1, 2));
}

pub open spec fn guarded_trap_body() -> Seq<Instr> {
    seq![
        Instr::LocalGet(0), Instr::LocalGet(1), Instr::I32Eq, Instr::If(0), Instr::Unreachable, Instr::End, Instr::LocalGet(0), Instr::End,
    ]
}

/// An `if` without result whose arm is `unreachable`, guarded by `a == b`,
/// yields `a` when the parameters differ and traps when they are equal.
pub proof fn if_without_result_guards(a: usize, b: usize)
    ensures
        a != b ==> body_result(guarded_trap_body(), a, b) == Some(Ok::<usize, ExecError>(a)),
        a == b ==> body_result(guarded_trap_body(), a, b) == Some(Err::<usize, ExecError>(ExecError::Trap)),
{
    let s = guarded_trap_body();
    let t0 = start(2, 1);
    lemma_steps_ends(t0, s);
    let t1 = step(t0, Instr::LocalGet(0))->Ok_0;
    lemma_steps_next(t0, s, 0, t0);
    let t2 = step(t1, Instr::LocalGet(1))->Ok_0;
    lemma_steps_next(t0, s, 1, t1);
    let t3 = step(t2, Instr::I32Eq)->Ok_0;
    lemma_steps_next(t0, s, 2, t2);
    let t4 = step(t3, Instr::If(0))->Ok_0;
    lemma_steps_next(t0, s, 3, t3);
    let t5 = step(t4, Instr::Unreachable)->Ok_0;
    lemma_steps_next(t0, s, 4, t4);
    let t6 = step(t5, Instr::End)->Ok_0;
    lemma_steps_next(t0, s, 5, t5);
    let t7 = step(t6, Instr::LocalGet(0))->Ok_0;
    lemma_steps_next(t0, s, 6, t6);
    let t8 = step(t7, Instr::End)->Ok_0;
    lemma_steps_next(t0, s, 7, t7);
    assert(t8.finished);
    let code = t8.code;
    assert(code =~= seq![Op::Copy { dst: 2, src: 0 }, Op::Copy { dst: 3, src: 1 }, Op::Eq { dst: 2, lhs: 2, rhs: 3 }, Op::JumpIfZero { cond: 2, target: 5 }, Op::Trap, Op::Copy { dst: 2, src: 0 }]);
    assert(t8.locals + t8.max_height + 1 == 5);
    let s0 = initial_slots(5, a, b);
    let s1 = s0.update(2, a);
    let s2 = s1.update(3, b);
    let s3 = s2.update(2, eq_flag(a, b));
    assert(run(code, s0, 0, 2) == run(code, s1, 1, 2));
    assert(run(code, s1, 1, 2) == run(code, s2, 2, 2));
    assert(run(code, s2, 2, 2) == run(code, s3, 3, 2));
    if a == b {
        assert(run(code, s3, 3, 2) == run(code, s3, 4, 2));
    } else {
        let s4 = s3.update(2, a);
        assert(run(code, s3, 3, 2) == run(code, s3, 5, 2));
        assert(run(code, s3, 5, 2) == run(code, s4, 6, 2));
    }
}

pub open spec fn branch_body() -> Seq<Instr> {
    seq![
        Instr::LocalGet(1), Instr::Block(1), Instr::LocalGet(0), Instr::LocalGet(0), Instr::Br(0), Instr::Unreachable, Instr::End, Instr::I32Add, Instr::End,
    ]
}

/// A branch out of a block carries exactly the block's one result and
/// drops the value below it: with parameter 1 pushed first, the sum of the
/// carried parameter 0 and parameter 1 comes out.
#[verifier::rlimit(60)]
pub proof fn branch_carries_arity(a: usize, b: usize)
    ensures
        body_result(branch_body(), a, b) == Some(Ok::<usize, ExecError>(wrap_add(a, b))),
{
    let s = branch_body();
    let t0 = start(2, 1);
    lemma_steps_ends(t0, s);
    let t1 = step(t0, Instr::LocalGet(1))->Ok_0;
    lemma_steps_next(t0, s, 0, t0);
    let t2 = step(t1, Instr::Block(1))->Ok_0;
    lemma_steps_next(t0, s, 1, t1);
    let t3 = step(t2, Instr::LocalGet(0))->Ok_0;
    lemma_steps_next(t0, s, 2, t2);
    let t4 = step(t3, Instr::LocalGet(0))->Ok_0;
    lemma_steps_next(t0, s, 3, t3);
    let t5 = step(t4, Instr::Br(0))->Ok_0;
    lemma_steps_next(t0, s, 4, t4);
    assert(t4.code =~= seq![Op::Copy { dst: 2, src: 1 }, Op::Copy { dst: 3, src: 0 }, Op::Copy { dst: 4, src: 0 }]);
    assert(t4.height == 3 && t4.frames.len() == 2 && t4.frames[1].height == 1 && t4.frames[1].arity == 1);
    assert(t5.code =~= t4.code.push(Op::Copy { dst: 3, src: 4 }).push(Op::Jump { target: 0 }));
    let t6 = step(t5, Instr::Unreachable)->Ok_0;
    lemma_steps_next(t0, s, 5, t5);
    assert(t6.code =~= seq![
        Op::Copy { dst: 2, src: 1 }, Op::Copy { dst: 3, src: 0 }, Op::Copy { dst: 4, src: 0 },
        Op::Copy { dst: 3, src: 4 }, Op::Jump { target: 0 }, Op::Trap,
    ]);
    assert(t6.frames.last().exits =~= seq![4usize]);
    assert(t6.frames.last().exits.drop_last() =~= seq![]);
    assert(patch_all(t6.code.push(Op::Copy { dst: 3, src: 4 }), seq![], 7) == t6.code.push(Op::Copy { dst: 3, src: 4 }));
    let t7 = step(t6, Instr::End)->Ok_0;
    lemma_steps_next(t0, s, 6, t6);
    let t8 = step(t7, Instr::I32Add)->Ok_0;
    lemma_steps_next(t0, s, 7, t7);
    let t9 = step(t8, Instr::End)->Ok_0;
    lemma_steps_next(t0, s, 8, t8);
    assert(t9.finished);
    let code = t9.code;
    assert(code =~= seq![Op::Copy { dst: 2, src: 1 }, Op::Copy { dst: 3, src: 0 }, Op::Copy { dst: 4, src: 0 }, Op::Copy { dst: 3, src: 4 }, Op::Jump { target: 7 }, Op::Trap, Op::Copy { dst: 3, src: 4 }, Op::Add { dst: 2, lhs: 2, rhs: 3 }]);
    assert(t9.locals + t9.max_height + 1 == 6);
    let s0 = initial_slots(6, a, b);
    let s1 = s0.update(2, b);
    let s2 = s1.update(3, a);
    let s3 = s2.update(4, a);
    let s4 = s3.update(3, a);
    let s5 = s4.update(2, wrap_add(b, a));
    assert(run(code, s0, 0, 2) == run(code, s1, 1, 2));
    assert(run(code, s1, 1, 2) == run(code, s2, 2, 2));
    assert(run(code, s2, 2, 2) == run(code, s3, 3, 2));
    assert(run(code, s3, 3, 2) == run(code, s4, 4, 2));
    assert(run(code, s4, 4, 2) == run(code, s4, 7, 2));
    assert(run(code, s4, 7, 2) == run(code, s5, 8, 2));
    assert(wrap_add(b, a) == wrap_add(a, b));
}

pub open spec fn passthrough_body() -> Seq<Instr> {
    seq![
        Instr::Block(1), Instr::LocalGet(1), Instr::LocalGet(0), Instr::BrIf(0), Instr::LocalGet(1), Instr::I32Add, Instr::End, Instr::End,
    ]
}

/// A conditional branch that is not taken leaves both pushed values in
/// place for the add that follows; when taken it carries parameter 1 alone.
pub proof fn branch_if_passes_through(a: usize, b: usize)
    ensures
        a == 0 ==> body_result(passthrough_body(), a, b) == Some(Ok::<usize, ExecError>(wrap_add(b, b))),
        a != 0 ==> body_result(passthrough_body(), a, b) == Some(Ok::<usize, ExecError>(b)),
{
    let s = passthrough_body();
    let t0 = start(2, 1);
    lemma_steps_ends(t0, s);
    let t1 = step(t0, Instr::Block(1))->Ok_0;
    lemma_steps_next(t0, s, 0, t0);
    let t2 = step(t1, Instr::LocalGet(1))->Ok_0;
    lemma_steps_next(t0, s, 1, t1);
    let t3 = step(t2, Instr::LocalGet(0))->Ok_0;
    lemma_steps_next(t0, s, 2, t2);
    let t4 = step(t3, Instr::BrIf(0))->Ok_0;
    lemma_steps_next(t0, s, 3, t3);
    let t5 = step(t4, Instr::LocalGet(1))->Ok_0;
    lemma_steps_next(t0, s, 4, t4);
    let t6 = step(t5, Instr::I32Add)->Ok_0;
    lemma_steps_next(t0, s, 5, t5);
    assert(t6.frames.last().exits =~= seq![2usize]);
    assert(t6.frames.last().exits.drop_last() =~= seq![]);
    assert(patch_all(t6.code, seq![], 5) == t6.code);
    let t7 = step(t6, Instr::End)->Ok_0;
    lemma_steps_next(t0, s, 6, t6);
    let t8 = step(t7, Instr::End)->Ok_0;
    lemma_steps_next(t0, s, 7, t7);
    assert(t8.finished);
    let code = t8.code;
    assert(code =~= seq![Op::Copy { dst: 2, src: 1 }, Op::Copy { dst: 3, src: 0 }, Op::JumpIfNonZero { cond: 3, target: 5 }, Op::Copy { dst: 3, src: 1 }, Op::Add { dst: 2, lhs: 2, rhs: 3 }]);
    assert(t8.locals + t8.max_height + 1 == 5);
    let s0 = initial_slots(5, a, b);
    let s1 = s0.update(2, b);
    let s2 = s1.update(3, a);
    assert(run(code, s0, 0, 2) == run(code, s1, 1, 2));
    assert(run(code, s1, 1, 2) == run(code, s2, 2, 2));
    if a == 0 {
        let s3 = s2.update(3, b);
        let s4 = s3.update(2, wrap_add(b, b));
        assert(run(code, s2, 2, 2) == run(code, s2, 3, 2));
        assert(run(code, s2, 3, 2) == run(code, s3, 4, 2));
        assert(run(code, s3, 4, 2) == run(code, s4, 5, 2));
    } else {
        assert(run(code, s2, 2, 2) == run(code, s2, 5, 2));
    }
}

pub open spec fn branch_if_body() -> Seq<Instr> {
    seq![
        Instr::LocalGet(1), Instr::Block(1), Instr::LocalGet(0), Instr::LocalGet(0), Instr::BrIf(0), Instr::Unreachable, Instr::End, Instr::I32Add, Instr::End,
    ]
}

/// A conditional branch out of a block carries the block's one result and
/// skips the `unreachable` behind it: with a nonzero parameter 0 the sum of
/// both parameters comes out; with zero the fall-through traps.
#[verifier::rlimit(60)]
pub proof fn branch_if_carries_arity(a: usize, b: usize)
    ensures
        a != 0 ==> body_result(branch_if_body(), a, b) == Some(Ok::<usize, ExecError>(wrap_add(a, b))),
        a == 0 ==> body_result(branch_if_body(), a, b) == Some(Err::<usize, ExecError>(ExecError::Trap)),
{
    let s = branch_if_body();
    let t0 = start(2, 1);
    lemma_steps_ends(t0, s);
    let t1 = step(t0, Instr::LocalGet(1))->Ok_0;
    lemma_steps_next(t0, s, 0, t0);
    let t2 = step(t1, Instr::Block(1))->Ok_0;
    lemma_steps_next(t0, s, 1, t1);
    let t3 = step(t2, Instr::LocalGet(0))->Ok_0;
    lemma_steps_next(t0, s, 2, t2);
    let t4 = step(t3, Instr::LocalGet(0))->Ok_0;
    lemma_steps_next(t0, s, 3, t3);
    let t5 = step(t4, Instr::BrIf(0))->Ok_0;
    lemma_steps_next(t0, s, 4, t4);
    let t6 = step(t5, Instr::Unreachable)->Ok_0;
    lemma_steps_next(t0, s, 5, t5);
    assert(t6.code =~= seq![
        Op::Copy { dst: 2, src: 1 }, Op::Copy { dst: 3, src: 0 }, Op::Copy { dst: 4, src: 0 },
        Op::JumpIfNonZero { cond: 4, target: 0 }, Op::Trap,
    ]);
    assert(t6.frames.last().exits =~= seq![3usize]);
    assert(t6.frames.last().exits.drop_last() =~= seq![]);
    assert(patch_all(t6.code, seq![], 5) == t6.code);
    let t7 = step(t6, Instr::End)->Ok_0;
    lemma_steps_next(t0, s, 6, t6);
    let t8 = step(t7, Instr::I32Add)->Ok_0;
    lemma_steps_next(t0, s, 7, t7);
    let t9 = step(t8, Instr::End)->Ok_0;
    lemma_steps_next(t0, s, 8, t8);
    assert(t9.finished);
    let code = t9.code;
    assert(code =~= seq![
        Op::Copy { dst: 2, src: 1 }, Op::Copy { dst: 3, src: 0 }, Op::Copy { dst: 4, src: 0 },
        Op::JumpIfNonZero { cond: 4, target: 5 }, Op::Trap, Op::Add { dst: 2, lhs: 2, rhs: 3 },
    ]);
    assert(t9.locals + t9.max_height + 1 == 6);
    let s0 = initial_slots(6, a, b);
    let s1 = s0.update(2, b);
    let s2 = s1.update(3, a);
    let s3 = s2.update(4, a);
    assert(run(code, s0, 0, 2) == run(code, s1, 1, 2));
    assert(run(code, s1, 1, 2) == run(code, s2, 2, 2));
    assert(run(code, s2, 2, 2) == run(code, s3, 3, 2));
    if a != 0 {
        let s4 = s3.update(2, wrap_add(b, a));
        assert(run(code, s3, 3, 2) == run(code, s3, 5, 2));
        assert(run(code, s3, 5, 2) == run(code, s4, 6, 2));
        assert(wrap_add(b, a) == wrap_add(a, b));
    } else {
        assert(run(code, s3, 3, 2) == run(code, s3, 4, 2));
    }
}

/// Calling a translated function of two parameters and one result, whose
/// frame holds no other locals, runs the translation of its body.
pub proof fn call_runs_body(f: CompiledFunction, body: Seq<Instr>, a: usize, b: usize)
    requires
        translates(f, body, 2),
        f.params == 2,
        f.results == 1,
    ensures
        body_result(body, a, b) == Some(call_result(f, a, b)),
{
}

/// Translation depends on nothing but the instruction stream and the
/// signature: two modules holding the same streams and signatures give the
/// same result for every function and every pair of arguments.
pub proof fn translation_is_deterministic(m1: TranslatedModule, m2: TranslatedModule, k: int, a: usize, b: usize)
    requires
        m1.wf(),
        m2.wf(),
        0 <= k < m1.functions@.len(),
        k < m2.functions@.len(),
        m1.bodies@[k] == m2.bodies@[k],
        m1.functions@[k].params == m2.functions@[k].params,
        m1.functions@[k].results == m2.functions@[k].results,
        m1.functions@[k].result_slot == m2.functions@[k].result_slot,
    ensures
        call_result(m1.functions@[k], a, b) == call_result(m2.functions@[k], a, b),
{
    assert(translates(m1.functions@[k], m1.bodies@[k], m1.functions@[k].result_slot as nat));
    assert(translates(m2.functions@[k], m2.bodies@[k], m2.functions@[k].result_slot as nat));
}

/// Translating the same binary twice gives two modules that return the same
/// result for every function and every pair of arguments.
pub proof fn translating_twice_agrees(bytes: Seq<u8>, m1: TranslatedModule, m2: TranslatedModule, k: int, a: usize, b: usize)
    requires
        decode_spec(bytes) is Ok,
        translated_from(m1, decode_spec(bytes)->Ok_0),
        translated_from(m2, decode_spec(bytes)->Ok_0),
        0 <= k < m1.functions@.len(),
    ensures
        call_result(m1.functions@[k], a, b) == call_result(m2.functions@[k], a, b),
{
    let fs = decode_spec(bytes)->Ok_0;
    assert(forall|j: int| 0 <= j < fs.len() ==> #[trigger] m1.bodies@[j] == fs[j].body && m2.bodies@[j] == fs[j].body);
    assert(forall|j: int| 0 <= j < fs.len() ==> #[trigger] m1.functions@[j] == m1.functions@[j] && {
        &&& m1.functions@[j].params == fs[j].params && m2.functions@[j].params == fs[j].params
        &&& m1.functions@[j].results == fs[j].results && m2.functions@[j].results == fs[j].results
        &&& m1.functions@[j].result_slot == fs[j].slots && m2.functions@[j].result_slot == fs[j].slots
    });
    translation_is_deterministic(m1, m2, k, a, b);
}

} // verus!
