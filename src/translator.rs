use vstd::prelude::*;
use crate::error::TranslateError;
use crate::machine::Op;
use crate::emitter::{emit, patch_jump, patch_exits};

verus! {

/// The supported instructions of a function body, in stream order.
#[derive(Clone, Copy, Debug, PartialEq, Eq, Structural)]
pub enum Instr {
    LocalGet(u32),
    I32Add,
    I32Eq,
    Block(u8),
    If(u8),
    Else,
    End,
    Br(u32),
    BrIf(u32),
    Unreachable,
}

/// A structured construct being translated: its result arity, the operand
/// height at entry, the jumps to its end, and the pending jump of an `if`
/// to its `else` arm.
pub struct FrameModel {
    pub arity: nat,
    pub height: nat,
    pub exits: Seq<usize>,
    pub else_jump: Option<usize>,
}

pub struct Frame {
    pub arity: usize,
    pub height: usize,
    pub exits: Vec<usize>,
    pub else_jump: Option<usize>,
}

impl View for Frame {
    type V = FrameModel;

    open spec fn view(&self) -> FrameModel {
        FrameModel { arity: self.arity as nat, height: self.height as nat, exits: self.exits@, else_jump: self.else_jump }
    }
}

pub open spec fn frames_view(v: Seq<Frame>) -> Seq<FrameModel> {
    v.map_values(|f: Frame| f@)
}

/// The state of the translation of one function body. Operand stack
/// position `h` lives in slot `locals + h`.
pub struct TranslatorModel {
    pub locals: nat,
    pub code: Seq<Op>,
    pub height: nat,
    pub max_height: nat,
    pub frames: Seq<FrameModel>,
    pub finished: bool,
}

pub open spec fn slot(t: TranslatorModel, h: nat) -> usize {
    (t.locals + h) as usize
}

/// The jump at `pos`, now aimed at `target`.
pub open spec fn retarget(op: Op, target: usize) -> Op {
    match op {
        Op::Jump { target: _ } => Op::Jump { target },
        Op::JumpIfZero { cond, target: _ } => Op::JumpIfZero { cond, target },
        Op::JumpIfNonZero { cond, target: _ } => Op::JumpIfNonZero { cond, target },
        _ => op,
    }
}

pub open spec fn patch(code: Seq<Op>, pos: usize, target: usize) -> Seq<Op> {
    if pos < code.len() { code.update(pos as int, retarget(code[pos as int], target)) } else { code }
}

pub open spec fn patch_all(code: Seq<Op>, exits: Seq<usize>, target: usize) -> Seq<Op>
    decreases exits.len(),
{
    if exits.len() == 0 {
        code
    } else {
        patch(patch_all(code, exits.drop_last(), target), exits.last(), target)
    }
}

/// The code after moving the top operand into the result slot of a
/// construct entered at height `dest`, when the construct yields a value.
pub open spec fn carry(t: TranslatorModel, arity: nat, dest: nat) -> Seq<Op> {
    if arity == 1 && slot(t, (t.height - 1) as nat) != slot(t, dest) {
        t.code.push(Op::Copy { dst: slot(t, dest), src: slot(t, (t.height - 1) as nat) })
    } else {
        t.code
    }
}

pub open spec fn add_exit(f: FrameModel, pos: usize) -> FrameModel {
    FrameModel { exits: f.exits.push(pos), ..f }
}

/// The effect of one instruction on the translation state.
pub open spec fn step(t: TranslatorModel, ins: Instr) -> Result<TranslatorModel, TranslateError> {
    if t.finished || t.frames.len() == 0 {
        Err(TranslateError::MalformedInput)
    } else {
        let top = t.frames.last();
        let n = t.frames.len();
        match ins {
            Instr::LocalGet(i) => if i >= t.locals || t.locals + t.height + 2 > usize::MAX {
                Err(TranslateError::MalformedInput)
            } else {
                Ok(TranslatorModel {
                    code: t.code.push(Op::Copy { dst: slot(t, t.height), src: i as usize }),
                    height: t.height + 1,
                    max_height: if t.max_height < t.height + 1 { t.height + 1 } else { t.max_height },
                    ..t
                })
            },
            Instr::I32Add | Instr::I32Eq => if t.height < top.height + 2 {
                Err(TranslateError::StackUnderflow)
            } else {
                let d = slot(t, (t.height - 2) as nat);
                let r = slot(t, (t.height - 1) as nat);
                let op = if ins == Instr::I32Add { Op::Add { dst: d, lhs: d, rhs: r } } else { Op::Eq { dst: d, lhs: d, rhs: r } };
                Ok(TranslatorModel { code: t.code.push(op), height: (t.height - 1) as nat, ..t })
            },
            Instr::Block(a) => if a > 1 {
                Err(TranslateError::UnsupportedFeature)
            } else {
                let f = FrameModel { arity: a as nat, height: t.height, exits: seq![], else_jump: None };
                Ok(TranslatorModel { frames: t.frames.push(f), ..t })
            },
            Instr::If(a) => if a > 1 {
                Err(TranslateError::UnsupportedFeature)
            } else if t.height < top.height + 1 {
                Err(TranslateError::StackUnderflow)
            } else {
                let h = (t.height - 1) as nat;
                let f = FrameModel { arity: a as nat, height: h, exits: seq![], else_jump: Some(t.code.len() as usize) };
                Ok(TranslatorModel {
                    code: t.code.push(Op::JumpIfZero { cond: slot(t, h), target: 0 }),
                    height: h,
                    frames: t.frames.push(f),
                    ..t
                })
            },
            Instr::Else => if top.else_jump.is_none() {
                Err(TranslateError::MalformedInput)
            } else if t.height < top.height + top.arity {
                Err(TranslateError::StackUnderflow)
            } else {
                let c1 = carry(t, top.arity, top.height);
                let c2 = c1.push(Op::Jump { target: 0 });
                let f = FrameModel { exits: top.exits.push(c1.len() as usize), else_jump: None, ..top };
                Ok(TranslatorModel {
                    code: patch(c2, top.else_jump.unwrap(), c2.len() as usize),
                    height: top.height,
                    frames: t.frames.update(n - 1, f),
                    ..t
                })
            },
            Instr::End => if t.height < top.height + top.arity {
                Err(TranslateError::StackUnderflow)
            } else if top.else_jump.is_some() && top.arity == 1 {
                Err(TranslateError::MalformedInput)
            } else {
                let c1 = carry(t, top.arity, top.height);
                let end = c1.len() as usize;
                let c2 = match top.else_jump { Some(p) => patch(c1, p, end), None => c1 };
                Ok(TranslatorModel {
                    code: patch_all(c2, top.exits, end),
                    height: top.height + top.arity,
                    frames: t.frames.drop_last(),
                    finished: n == 1,
                    ..t
                })
            },
            Instr::Br(d) => if d >= n {
                Err(TranslateError::MalformedInput)
            } else {
                let k = n - 1 - d;
                let target = t.frames[k];
                if t.height < top.height + target.arity {
                    Err(TranslateError::StackUnderflow)
                } else {
                    let c1 = carry(t, target.arity, target.height);
                    Ok(TranslatorModel {
                        code: c1.push(Op::Jump { target: 0 }),
                        frames: t.frames.update(k, add_exit(target, c1.len() as usize)),
                        ..t
                    })
                }
            },
            Instr::BrIf(d) => if d >= n {
                Err(TranslateError::MalformedInput)
            } else {
                let k = n - 1 - d;
                let target = t.frames[k];
                if t.height < top.height + 1 + target.arity {
                    Err(TranslateError::StackUnderflow)
                } else {
                    let h = (t.height - 1) as nat;
                    let cond = slot(t, h);
                    let u = TranslatorModel { height: h, ..t };
                    if target.arity == 1 && slot(u, (h - 1) as nat) != slot(u, target.height) {
                        let q = t.code.len() as usize;
                        let c1 = t.code.push(Op::JumpIfZero { cond, target: 0 }).push(
                            Op::Copy { dst: slot(u, target.height), src: slot(u, (h - 1) as nat) }
                        );
                        let c2 = c1.push(Op::Jump { target: 0 });
                        Ok(TranslatorModel {
                            code: patch(c2, q, c2.len() as usize),
                            height: h,
                            frames: t.frames.update(k, add_exit(target, c1.len() as usize)),
                            ..t
                        })
                    } else {
                        Ok(TranslatorModel {
                            code: t.code.push(Op::JumpIfNonZero { cond, target: 0 }),
                            height: h,
                            frames: t.frames.update(k, add_exit(target, t.code.len() as usize)),
                            ..t
                        })
                    }
                }
            },
            Instr::Unreachable => Ok(TranslatorModel { code: t.code.push(Op::Trap), ..t }),
        }
    }
}

/// The state after translating every instruction of `s` from `t`.
pub open spec fn steps(t: TranslatorModel, s: Seq<Instr>) -> Result<TranslatorModel, TranslateError>
    decreases s.len(),
{
    if s.len() == 0 {
        Ok(t)
    } else {
        match steps(t, s.drop_last()) {
            Ok(u) => step(u, s.last()),
            Err(e) => Err(e),
        }
    }
}

/// The state a function body starts from.
pub open spec fn start(locals: nat, arity: nat) -> TranslatorModel {
    TranslatorModel {
        locals,
        code: seq![],
        height: 0,
        max_height: 0,
        frames: seq![FrameModel { arity, height: 0, exits: seq![], else_jump: None }],
        finished: false,
    }
}

/// What translating a whole body gives: its code and the size of its frame.
pub open spec fn translate_spec(body: Seq<Instr>, locals: nat, arity: nat) -> Result<(Seq<Op>, nat), TranslateError> {
    match steps(start(locals, arity), body) {
        Ok(t) => if t.finished {
            Ok((t.code, t.locals + t.max_height + 1))
        } else {
            Err(TranslateError::MalformedInput)
        },
        Err(e) => Err(e),
    }
}

/// The bounds that keep every slot number and height a machine word.
pub open spec fn wf(t: TranslatorModel) -> bool {
    &&& t.locals + t.max_height + 1 <= usize::MAX
    &&& t.height <= t.max_height
    &&& forall|k: int| 0 <= k < t.frames.len() ==> t.frames[k].height <= t.max_height && t.frames[k].arity <= 1
    &&& !t.finished ==> t.frames.len() >= 1
}

proof fn lemma_frames_push(v: Seq<Frame>, f: Frame)
    ensures
        frames_view(v.push(f)) == frames_view(v).push(f@),
{
    assert(frames_view(v.push(f)) =~= frames_view(v).push(f@));
}

proof fn lemma_frames_drop_last(v: Seq<Frame>)
    requires
        v.len() >= 1,
    ensures
        frames_view(v.drop_last()) == frames_view(v).drop_last(),
{
    assert(frames_view(v.drop_last()) =~= frames_view(v).drop_last());
}

proof fn lemma_frames_replace(v: Seq<Frame>, k: int, f: Frame)
    requires
        0 <= k < v.len(),
    ensures
        frames_view(v.remove(k).insert(k, f)) == frames_view(v).update(k, f@),
{
    assert(frames_view(v.remove(k).insert(k, f)) =~= frames_view(v).update(k, f@));
}

/// The translation state of one function body.
pub struct Translator {
    pub locals: usize,
    pub code: Vec<Op>,
    pub height: usize,
    pub max_height: usize,
    pub frames: Vec<Frame>,
    pub finished: bool,
}

impl View for Translator {
    type V = TranslatorModel;

    open spec fn view(&self) -> TranslatorModel {
        TranslatorModel {
            locals: self.locals as nat,
            code: self.code@,
            height: self.height as nat,
            max_height: self.max_height as nat,
            frames: frames_view(self.frames@),
            finished: self.finished,
        }
    }
}

impl Translator {
    /// A translator at the start of a body with `locals` slots for
    /// parameters and locals, whose result arity is `arity`.
    pub fn new(locals: usize, arity: usize) -> (r: Translator)
        requires
            locals + 1 <= usize::MAX,
            arity <= 1,
        ensures
            r@ == start(locals as nat, arity as nat),
            wf(r@),
    {
        let mut frames: Vec<Frame> = Vec::new();
        frames.push(Frame { arity, height: 0, exits: Vec::new(), else_jump: None });
        let r = Translator { locals, code: Vec::new(), height: 0, max_height: 0, frames, finished: false };
        assert(r@.frames =~= start(locals as nat, arity as nat).frames);
        assert(r@.code =~= seq![]);
        r
    }

    /// Moves the top operand into the result slot of a construct entered at
    /// height `dest`, when that construct yields a value.
    fn carry(&mut self, arity: usize, dest: usize)
        requires
            wf(old(self)@),
            arity <= 1,
            dest <= old(self).max_height,
            arity == 1 ==> old(self).height >= 1,
        ensures
            final(self)@ == (TranslatorModel { code: carry(old(self)@, arity as nat, dest as nat), ..old(self)@ }),
            final(self).frames@ == old(self).frames@,
    {
        if arity == 1 && self.locals + (self.height - 1) != self.locals + dest {
            let src = self.locals + (self.height - 1);
            emit(&mut self.code, Op::Copy { dst: self.locals + dest, src });
        }
    }

    /// Records `pos` as a jump to the end of frame `k`.
    fn add_exit(&mut self, k: usize, pos: usize)
        requires
            k < old(self).frames@.len(),
        ensures
            final(self)@ == (TranslatorModel {
                frames: old(self)@.frames.update(k as int, add_exit(old(self)@.frames[k as int], pos)),
                ..old(self)@
            }),
    {
        let mut f = self.frames.remove(k);
        f.exits.push(pos);
        proof {
            lemma_frames_replace(old(self).frames@, k as int, f);
            assert(f@ == add_exit(old(self)@.frames[k as int], pos));
        }
        self.frames.insert(k, f);
    }

    /// Translates one instruction.
    pub fn step(&mut self, ins: Instr) -> (r: Result<(), TranslateError>)
        requires
            wf(old(self)@),
        ensures
            match step(old(self)@, ins) {
                Ok(t) => r is Ok && final(self)@ == t,
                Err(e) => r == Err::<(), TranslateError>(e),
            },
            r is Ok ==> wf(final(self)@),
    {
        if self.finished || self.frames.len() == 0 {
            return Err(TranslateError::MalformedInput);
        }
        match ins {
            Instr::LocalGet(i) => self.local_get(i),
            Instr::I32Add | Instr::I32Eq => self.binary(ins),
            Instr::Block(a) => self.block(a),
            Instr::If(a) => self.if_(a),
            Instr::Else => self.else_(),
            Instr::End => self.end(),
            Instr::Br(d) => self.br(d),
            Instr::BrIf(d) => self.br_if(d),
            Instr::Unreachable => self.unreachable(),
        }
    }

    fn local_get(&mut self, i: u32) -> (r: Result<(), TranslateError>)
        requires
            wf(old(self)@),
            !old(self).finished,
            old(self).frames@.len() >= 1,
        ensures
            match step(old(self)@, Instr::LocalGet(i)) {
                Ok(t) => r is Ok && final(self)@ == t,
                Err(e) => r == Err::<(), TranslateError>(e),
            },
            r is Ok ==> wf(final(self)@),
    {
        let n = self.frames.len();
        let ghost t = self@;
        assert(t.frames.last() == self.frames@[n - 1]@);
        if i as usize >= self.locals || self.locals > usize::MAX - 2 || self.height > usize::MAX - 2 - self.locals {
            return Err(TranslateError::MalformedInput);
        }
        emit(&mut self.code, Op::Copy { dst: self.locals + self.height, src: i as usize });
        self.height = self.height + 1;
        if self.max_height < self.height {
            self.max_height = self.height;
        }
        assert(self@.frames == t.frames);
        Ok(())
    }

    fn binary(&mut self, ins: Instr) -> (r: Result<(), TranslateError>)
        requires
            wf(old(self)@),
            !old(self).finished,
            old(self).frames@.len() >= 1,
            ins == Instr::I32Add || ins == Instr::I32Eq,
        ensures
            match step(old(self)@, ins) {
                Ok(t) => r is Ok && final(self)@ == t,
                Err(e) => r == Err::<(), TranslateError>(e),
            },
            r is Ok ==> wf(final(self)@),
    {
        let n = self.frames.len();
        let top_height = self.frames[n - 1].height;
        let ghost t = self@;
        assert(t.frames.last() == self.frames@[n - 1]@);
        if self.height < top_height || self.height - top_height < 2 {
            return Err(TranslateError::StackUnderflow);
        }
        let d = self.locals + (self.height - 2);
        let r = self.locals + (self.height - 1);
        let op = if ins == Instr::I32Add { Op::Add { dst: d, lhs: d, rhs: r } } else { Op::Eq { dst: d, lhs: d, rhs: r } };
        emit(&mut self.code, op);
        self.height = self.height - 1;
        Ok(())
    }

    fn block(&mut self, a: u8) -> (r: Result<(), TranslateError>)
        requires
            wf(old(self)@),
            !old(self).finished,
            old(self).frames@.len() >= 1,
        ensures
            match step(old(self)@, Instr::Block(a)) {
                Ok(t) => r is Ok && final(self)@ == t,
                Err(e) => r == Err::<(), TranslateError>(e),
            },
            r is Ok ==> wf(final(self)@),
    {
        if a > 1 {
            return Err(TranslateError::UnsupportedFeature);
        }
        let f = Frame { arity: a as usize, height: self.height, exits: Vec::new(), else_jump: None };
        proof { lemma_frames_push(self.frames@, f); }
        assert(f@.exits =~= seq![]);
        self.frames.push(f);
        Ok(())
    }

    fn if_(&mut self, a: u8) -> (r: Result<(), TranslateError>)
        requires
            wf(old(self)@),
            !old(self).finished,
            old(self).frames@.len() >= 1,
        ensures
            match step(old(self)@, Instr::If(a)) {
                Ok(t) => r is Ok && final(self)@ == t,
                Err(e) => r == Err::<(), TranslateError>(e),
            },
            r is Ok ==> wf(final(self)@),
    {
        let n = self.frames.len();
        let top_height = self.frames[n - 1].height;
        let ghost t = self@;
        assert(t.frames.last() == self.frames@[n - 1]@);
        if a > 1 {
            return Err(TranslateError::UnsupportedFeature);
        }
        if self.height < top_height || self.height - top_height < 1 {
            return Err(TranslateError::StackUnderflow);
        }
        let h = self.height - 1;
        let pos = emit(&mut self.code, Op::JumpIfZero { cond: self.locals + h, target: 0 });
        let f = Frame { arity: a as usize, height: h, exits: Vec::new(), else_jump: Some(pos) };
        proof { lemma_frames_push(self.frames@, f); }
        assert(f@.exits =~= seq![]);
        self.frames.push(f);
        self.height = h;
        Ok(())
    }

    fn else_(&mut self) -> (r: Result<(), TranslateError>)
        requires
            wf(old(self)@),
            !old(self).finished,
            old(self).frames@.len() >= 1,
        ensures
            match step(old(self)@, Instr::Else) {
                Ok(t) => r is Ok && final(self)@ == t,
                Err(e) => r == Err::<(), TranslateError>(e),
            },
            r is Ok ==> wf(final(self)@),
    {
        let n = self.frames.len();
        let top_height = self.frames[n - 1].height;
        let top_arity = self.frames[n - 1].arity;
        let top_else = self.frames[n - 1].else_jump;
        let ghost t = self@;
        assert(t.frames.last() == self.frames@[n - 1]@);
        if top_else.is_none() {
            return Err(TranslateError::MalformedInput);
        }
        if self.height < top_height || self.height - top_height < top_arity {
            return Err(TranslateError::StackUnderflow);
        }
        self.carry(top_arity, top_height);
        let j = emit(&mut self.code, Op::Jump { target: 0 });
        let end = self.code.len();
        patch_jump(&mut self.code, top_else.unwrap(), end);
        let mut f = self.frames.pop().unwrap();
        proof { lemma_frames_drop_last(old(self).frames@); }
        f.exits.push(j);
        f.else_jump = None;
        proof {
            lemma_frames_push(self.frames@, f);
            assert(frames_view(old(self).frames@).drop_last().push(f@) =~= t.frames.update(n - 1, f@));
        }
        self.frames.push(f);
        self.height = top_height;
        Ok(())
    }

    fn end(&mut self) -> (r: Result<(), TranslateError>)
        requires
            wf(old(self)@),
            !old(self).finished,
            old(self).frames@.len() >= 1,
        ensures
            match step(old(self)@, Instr::End) {
                Ok(t) => r is Ok && final(self)@ == t,
                Err(e) => r == Err::<(), TranslateError>(e),
            },
            r is Ok ==> wf(final(self)@),
    {
        let n = self.frames.len();
        let top_height = self.frames[n - 1].height;
        let top_arity = self.frames[n - 1].arity;
        let top_else = self.frames[n - 1].else_jump;
        let ghost t = self@;
        assert(t.frames.last() == self.frames@[n - 1]@);
        if self.height < top_height || self.height - top_height < top_arity {
            return Err(TranslateError::StackUnderflow);
        }
        if top_else.is_some() && top_arity == 1 {
            return Err(TranslateError::MalformedInput);
        }
        self.carry(top_arity, top_height);
        let end = self.code.len();
        match top_else {
            Some(p) => patch_jump(&mut self.code, p, end),
            None => {},
        }
        let f = self.frames.pop().unwrap();
        proof { lemma_frames_drop_last(old(self).frames@); }
        patch_exits(&mut self.code, &f.exits, end);
        self.height = top_height + top_arity;
        self.finished = n == 1;
        Ok(())
    }

    fn br(&mut self, d: u32) -> (r: Result<(), TranslateError>)
        requires
            wf(old(self)@),
            !old(self).finished,
            old(self).frames@.len() >= 1,
        ensures
            match step(old(self)@, Instr::Br(d)) {
                Ok(t) => r is Ok && final(self)@ == t,
                Err(e) => r == Err::<(), TranslateError>(e),
            },
            r is Ok ==> wf(final(self)@),
    {
        let n = self.frames.len();
        let top_height = self.frames[n - 1].height;
        let ghost t = self@;
        assert(t.frames.last() == self.frames@[n - 1]@);
        if d as usize >= n {
            return Err(TranslateError::MalformedInput);
        }
        let k = n - 1 - d as usize;
        let target_height = self.frames[k].height;
        let target_arity = self.frames[k].arity;
        assert(t.frames[k as int] == self.frames@[k as int]@);
        if self.height < top_height || self.height - top_height < target_arity {
            return Err(TranslateError::StackUnderflow);
        }
        self.carry(target_arity, target_height);
        let j = emit(&mut self.code, Op::Jump { target: 0 });
        self.add_exit(k, j);
        Ok(())
    }

    fn br_if(&mut self, d: u32) -> (r: Result<(), TranslateError>)
        requires
            wf(old(self)@),
            !old(self).finished,
            old(self).frames@.len() >= 1,
        ensures
            match step(old(self)@, Instr::BrIf(d)) {
                Ok(t) => r is Ok && final(self)@ == t,
                Err(e) => r == Err::<(), TranslateError>(e),
            },
            r is Ok ==> wf(final(self)@),
    {
        let n = self.frames.len();
        let top_height = self.frames[n - 1].height;
        let ghost t = self@;
        assert(t.frames.last() == self.frames@[n - 1]@);
        if d as usize >= n {
            return Err(TranslateError::MalformedInput);
        }
        let k = n - 1 - d as usize;
        let target_height = self.frames[k].height;
        let target_arity = self.frames[k].arity;
        assert(t.frames[k as int] == self.frames@[k as int]@);
        if self.height < top_height || self.height - top_height < 1 || self.height - top_height - 1 < target_arity {
            return Err(TranslateError::StackUnderflow);
        }
        let h = self.height - 1;
        let cond = self.locals + h;
        if target_arity == 1 && h - 1 != target_height {
            let q = emit(&mut self.code, Op::JumpIfZero { cond, target: 0 });
            emit(&mut self.code, Op::Copy { dst: self.locals + target_height, src: self.locals + (h - 1) });
            let j = emit(&mut self.code, Op::Jump { target: 0 });
            let end = self.code.len();
            patch_jump(&mut self.code, q, end);
            self.add_exit(k, j);
        } else {
            let j = emit(&mut self.code, Op::JumpIfNonZero { cond, target: 0 });
            self.add_exit(k, j);
        }
        self.height = h;
        Ok(())
    }

    fn unreachable(&mut self) -> (r: Result<(), TranslateError>)
        requires
            wf(old(self)@),
            !old(self).finished,
            old(self).frames@.len() >= 1,
        ensures
            match step(old(self)@, Instr::Unreachable) {
                Ok(t) => r is Ok && final(self)@ == t,
                Err(e) => r == Err::<(), TranslateError>(e),
            },
            r is Ok ==> wf(final(self)@),
    {
        emit(&mut self.code, Op::Trap);
        Ok(())
    }
}

/// Translated code of one function and the number of slots its frame needs.
pub struct CompiledCode {
    pub code: Vec<Op>,
    pub frame_size: usize,
}

/// Translates a function body whose parameters and locals take `locals`
/// slots and whose result arity is `arity`.
pub fn translate_body(body: &Vec<Instr>, locals: usize, arity: usize) -> (r: Result<CompiledCode, TranslateError>)
    requires
        locals + 1 <= usize::MAX,
        arity <= 1,
    ensures
        match translate_spec(body@, locals as nat, arity as nat) {
            Ok((code, size)) => r is Ok && r->Ok_0.code@ == code && r->Ok_0.frame_size == size,
            Err(e) => r == Err::<CompiledCode, TranslateError>(e),
        },
{
    let mut t = Translator::new(locals, arity);
    let mut i: usize = 0;
    while i < body.len()
        invariant
            i <= body.len(),
            wf(t@),
            steps(start(locals as nat, arity as nat), body@.take(i as int)) == Ok::<TranslatorModel, TranslateError>(t@),
        decreases body.len() - i,
    {
        proof {
            assert(body@.take(i + 1).drop_last() =~= body@.take(i as int));
        }
        let r = t.step(body[i]);
        match r {
            Ok(()) => {},
            Err(e) => {
                proof { lemma_steps_stay_failed(start(locals as nat, arity as nat), body@, (i + 1) as nat, e); }
                return Err(e);
            },
        }
        i = i + 1;
    }
    assert(body@.take(i as int) =~= body@);
    if !t.finished {
        return Err(TranslateError::MalformedInput);
    }
    Ok(CompiledCode { code: t.code, frame_size: t.locals + t.max_height + 1 })
}

/// Once a prefix of the stream fails, the whole stream fails the same way.
proof fn lemma_steps_stay_failed(t: TranslatorModel, s: Seq<Instr>, k: nat, e: TranslateError)
    requires
        k <= s.len(),
        steps(t, s.take(k as int)) == Err::<TranslatorModel, TranslateError>(e),
    ensures
        steps(t, s) == Err::<TranslatorModel, TranslateError>(e),
    decreases s.len() - k,
{
    if k < s.len() {
        assert(s.take((k + 1) as int).drop_last() =~= s.take(k as int));
        lemma_steps_stay_failed(t, s, k + 1, e);
    } else {
        assert(s.take(k as int) =~= s);
    }
}

} // verus!
