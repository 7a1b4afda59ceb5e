use vstd::prelude::*;
use crate::machine::Op;
use crate::translator::{retarget, patch, patch_all};

verus! {

/// Appends `op` to the code buffer and returns its position.
pub fn emit(code: &mut Vec<Op>, op: Op) -> (pos: usize)
    ensures
        final(code)@ == old(code)@.push(op),
        pos == old(code)@.len(),
{
    let pos = code.len();
    code.push(op);
    pos
}

fn retarget_op(op: Op, target: usize) -> (r: Op)
    ensures
        r == retarget(op, target),
{
    match op {
        Op::Jump { target: _ } => Op::Jump { target },
        Op::JumpIfZero { cond, target: _ } => Op::JumpIfZero { cond, target },
        Op::JumpIfNonZero { cond, target: _ } => Op::JumpIfNonZero { cond, target },
        _ => op,
    }
}

/// Aims the jump emitted at `pos` at `target`.
pub fn patch_jump(code: &mut Vec<Op>, pos: usize, target: usize)
    ensures
        final(code)@ == patch(old(code)@, pos, target),
{
    if pos < code.len() {
        let op = retarget_op(code[pos], target);
        code.set(pos, op);
    }
}

/// Aims every jump listed in `exits` at `target`.
pub fn patch_exits(code: &mut Vec<Op>, exits: &Vec<usize>, target: usize)
    ensures
        final(code)@ == patch_all(old(code)@, exits@, target),
{
    let ghost start = code@;
    let mut i: usize = 0;
    while i < exits.len()
        invariant
            i <= exits.len(),
            code@ == patch_all(start, exits@.take(i as int), target),
        decreases exits.len() - i,
    {
        patch_jump(code, exits[i], target);
        i = i + 1;
        assert(exits@.take(i as int).drop_last() =~= exits@.take(i - 1));
    }
    assert(exits@.take(i as int) =~= exits@);
}

} // verus!
