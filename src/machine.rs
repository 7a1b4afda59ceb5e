use vstd::prelude::*;

verus! {

/// One instruction of the target machine. A function's frame is a flat
/// array of integer slots; jumps only go forward, so every run ends.
#[derive(Clone, Copy, Debug, PartialEq, Eq, Structural)]
pub enum Op {
    Copy { dst: usize, src: usize },
    Add { dst: usize, lhs: usize, rhs: usize },
    Eq { dst: usize, lhs: usize, rhs: usize },
    Jump { target: usize },
    JumpIfZero { cond: usize, target: usize },
    JumpIfNonZero { cond: usize, target: usize },
    Trap,
}

/// How a run of translated code can fail.
#[derive(Clone, Copy, Debug, PartialEq, Eq, Structural)]
pub enum ExecError {
    /// `unreachable` was executed.
    Trap,
    /// No function has the requested index.
    InvalidFunctionIndex,
    /// The function does not take two integers and return one.
    SignatureMismatch,
    /// The code names a slot outside its frame or jumps backwards.
    CorruptCode,
}

/// Addition modulo the width of a machine word.
pub open spec fn wrap_add(a: usize, b: usize) -> usize {
    ((a + b) % (usize::MAX + 1)) as usize
}

/// Integer equality as a machine word: 1 when equal, else 0.
pub open spec fn eq_flag(a: usize, b: usize) -> usize {
    if a == b { 1 } else { 0 }
}

/// The frame a call starts from: the two arguments, then zeros.
pub open spec fn initial_slots(size: nat, a: usize, b: usize) -> Seq<usize> {
    Seq::new(size, |i: int| if i == 0 { a } else if i == 1 { b } else { 0usize })
}

/// What running `code` from `pc` on the frame `slots` yields: the value of
/// slot `result` once control falls off the end.
pub open spec fn run(code: Seq<Op>, slots: Seq<usize>, pc: nat, result: nat) -> Result<usize, ExecError>
    decreases code.len() - pc,
{
    if pc >= code.len() {
        if result < slots.len() { Ok(slots[result as int]) } else { Err(ExecError::CorruptCode) }
    } else {
        let n = slots.len();
        match code[pc as int] {
            Op::Copy { dst, src } => if dst < n && src < n {
                run(code, slots.update(dst as int, slots[src as int]), pc + 1, result)
            } else {
                Err(ExecError::CorruptCode)
            },
            Op::Add { dst, lhs, rhs } => if dst < n && lhs < n && rhs < n {
                run(code, slots.update(dst as int, wrap_add(slots[lhs as int], slots[rhs as int])), pc + 1, result)
            } else {
                Err(ExecError::CorruptCode)
            },
            Op::Eq { dst, lhs, rhs } => if dst < n && lhs < n && rhs < n {
                run(code, slots.update(dst as int, eq_flag(slots[lhs as int], slots[rhs as int])), pc + 1, result)
            } else {
                Err(ExecError::CorruptCode)
            },
            Op::Jump { target } => if pc < target <= code.len() {
                run(code, slots, target as nat, result)
            } else {
                Err(ExecError::CorruptCode)
            },
            Op::JumpIfZero { cond, target } => if cond < n && pc < target <= code.len() {
                if slots[cond as int] == 0 {
                    run(code, slots, target as nat, result)
                } else {
                    run(code, slots, pc + 1, result)
                }
            } else {
                Err(ExecError::CorruptCode)
            },
            Op::JumpIfNonZero { cond, target } => if cond < n && pc < target <= code.len() {
                if slots[cond as int] != 0 {
                    run(code, slots, target as nat, result)
                } else {
                    run(code, slots, pc + 1, result)
                }
            } else {
                Err(ExecError::CorruptCode)
            },
            Op::Trap => Err(ExecError::Trap),
        }
    }
}

fn add_words(a: usize, b: usize) -> (r: usize)
    ensures
        r == wrap_add(a, b),
{
    if a <= usize::MAX - b {
        proof {
            vstd::arithmetic::div_mod::lemma_small_mod((a + b) as nat, (usize::MAX + 1) as nat);
        }
        a + b
    } else {
        proof {
            let m = usize::MAX + 1;
            vstd::arithmetic::div_mod::lemma_small_mod((a + b - m) as nat, m as nat);
            vstd::arithmetic::div_mod::lemma_mod_sub_multiples_vanish((a + b) as int, m as int);
        }
        a - (usize::MAX - b) - 1
    }
}

/// Runs `code` on a fresh frame of `frame_size` slots holding `a` and `b`,
/// and returns the value left in slot `result`.
pub fn execute(code: &Vec<Op>, frame_size: usize, result: usize, a: usize, b: usize) -> (r: Result<usize, ExecError>)
    ensures
        r == run(code@, initial_slots(frame_size as nat, a, b), 0, result as nat),
{
    let mut slots: Vec<usize> = Vec::new();
    let mut i: usize = 0;
    while i < frame_size
        invariant
            i <= frame_size,
            slots@ == initial_slots(i as nat, a, b),
        decreases frame_size - i,
    {
        let v: usize = if i == 0 { a } else if i == 1 { b } else { 0 };
        slots.push(v);
        i = i + 1;
        assert(slots@ =~= initial_slots(i as nat, a, b));
    }
    let ghost start = slots@;
    let n = frame_size;
    let mut pc: usize = 0;
    while pc < code.len()
        invariant
            pc <= code.len(),
            slots@.len() == n,
            n == frame_size,
            start == initial_slots(frame_size as nat, a, b),
            run(code@, slots@, pc as nat, result as nat) == run(code@, start, 0, result as nat),
        decreases code.len() - pc,
    {
        let op = code[pc];
        assert(op == code@[pc as int]);
        match op {
            Op::Copy { dst, src } => {
                if dst >= n || src >= n {
                    return Err(ExecError::CorruptCode);
                }
                let v = slots[src];
                slots.set(dst, v);
                pc = pc + 1;
            },
            Op::Add { dst, lhs, rhs } => {
                if dst >= n || lhs >= n || rhs >= n {
                    return Err(ExecError::CorruptCode);
                }
                let v = add_words(slots[lhs], slots[rhs]);
                slots.set(dst, v);
                pc = pc + 1;
            },
            Op::Eq { dst, lhs, rhs } => {
                if dst >= n || lhs >= n || rhs >= n {
                    return Err(ExecError::CorruptCode);
                }
                let v: usize = if slots[lhs] == slots[rhs] { 1 } else { 0 };
                slots.set(dst, v);
                pc = pc + 1;
            },
            Op::Jump { target } => {
                if target <= pc || target > code.len() {
                    return Err(ExecError::CorruptCode);
                }
                pc = target;
            },
            Op::JumpIfZero { cond, target } => {
                if cond >= n || target <= pc || target > code.len() {
                    return Err(ExecError::CorruptCode);
                }
                if slots[cond] == 0 {
                    pc = target;
                } else {
                    pc = pc + 1;
                }
            },
            Op::JumpIfNonZero { cond, target } => {
                if cond >= n || target <= pc || target > code.len() {
                    return Err(ExecError::CorruptCode);
                }
                if slots[cond] != 0 {
                    pc = target;
                } else {
                    pc = pc + 1;
                }
            },
            Op::Trap => {
                return Err(ExecError::Trap);
            },
        }
    }
    if result < n {
        Ok(slots[result])
    } else {
        Err(ExecError::CorruptCode)
    }
}

} // verus!
