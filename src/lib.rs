use vstd::prelude::*;

pub mod error;
pub mod machine;
pub mod translator;
pub mod emitter;
pub mod decoder;
pub mod laws;

use crate::decoder::{decode_module, decode_spec, supported, FunctionDecl, FunctionModel, Module};
use crate::error::TranslateError;
use crate::machine::{execute, initial_slots, run, ExecError, Op};
use crate::translator::{translate_body, translate_spec, Instr};

verus! {

/// The code of one translated function with its signature.
pub struct CompiledFunction {
    pub params: usize,
    pub results: usize,
    /// Slot that holds the result once the code has run.
    pub result_slot: usize,
    pub frame_size: usize,
    pub code: Vec<Op>,
}

/// What running a translated function on `a` and `b` yields.
pub open spec fn call_result(f: CompiledFunction, a: usize, b: usize) -> Result<usize, ExecError> {
    if f.params != 2 || f.results != 1 {
        Err(ExecError::SignatureMismatch)
    } else {
        run(f.code@, initial_slots(f.frame_size as nat, a, b), 0, f.result_slot as nat)
    }
}

/// `f` is the translation of `body`, for a function whose parameters and
/// locals take `slots` slots.
pub open spec fn translates(f: CompiledFunction, body: Seq<Instr>, slots: nat) -> bool {
    &&& translate_spec(body, slots, f.results as nat) == Ok::<(Seq<Op>, nat), TranslateError>((f.code@, f.frame_size as nat))
    &&& f.result_slot == slots
}

/// A module whose functions have all been translated; function `k` is the
/// `k`-th one the binary declares.
pub struct TranslatedModule {
    pub functions: Vec<CompiledFunction>,
    /// The instruction stream behind the code of each function.
    pub bodies: Ghost<Seq<Seq<Instr>>>,
}

impl TranslatedModule {
    pub open spec fn wf(&self) -> bool {
        &&& self.bodies@.len() == self.functions@.len()
        &&& forall|k: int| 0 <= k < self.functions@.len() ==>
            translates(#[trigger] self.functions@[k], self.bodies@[k], self.functions@[k].result_slot as nat)
    }

    /// Runs function `index` with the arguments `a` and `b`.
    pub fn execute_func(&self, index: usize, a: usize, b: usize) -> (r: Result<usize, ExecError>)
        ensures
            index >= self.functions@.len() ==> r == Err::<usize, ExecError>(ExecError::InvalidFunctionIndex),
            index < self.functions@.len() ==> r == call_result(self.functions@[index as int], a, b),
    {
        if index >= self.functions.len() {
            return Err(ExecError::InvalidFunctionIndex);
        }
        let f = &self.functions[index];
        if f.params != 2 || f.results != 1 {
            return Err(ExecError::SignatureMismatch);
        }
        execute(&f.code, f.frame_size, f.result_slot, a, b)
    }
}

/// `t` holds, in order, the translations of the functions `fs`.
pub open spec fn translated_from(t: TranslatedModule, fs: Seq<FunctionModel>) -> bool {
    &&& t.wf()
    &&& t.functions@.len() == fs.len()
    &&& forall|k: int| 0 <= k < fs.len() ==> {
        &&& t.bodies@[k] == (#[trigger] fs[k]).body
        &&& t.functions@[k].params == fs[k].params
        &&& t.functions@[k].results == fs[k].results
        &&& t.functions@[k].result_slot == fs[k].slots
    }
}

/// The code and frame size of function `f`, or why it does not translate.
pub open spec fn function_code(f: FunctionModel) -> Result<(Seq<Op>, nat), TranslateError> {
    translate_spec(f.body, f.slots as nat, f.results as nat)
}

/// The first function of `fs` that does not translate fails with `e`.
pub open spec fn fails_with(fs: Seq<FunctionModel>, e: TranslateError) -> bool {
    exists|k: int| 0 <= k < fs.len()
        && (forall|j: int| 0 <= j < k ==> (#[trigger] function_code(fs[j])) is Ok)
        && #[trigger] function_code(fs[k]) == Err::<(Seq<Op>, nat), TranslateError>(e)
}

/// What calling the first function of `fs` on `a` and `b` yields, once
/// every function of `fs` has translated.
pub open spec fn first_call(fs: Seq<FunctionModel>, a: usize, b: usize) -> Result<usize, ExecError> {
    if fs.len() == 0 {
        Err(ExecError::InvalidFunctionIndex)
    } else if fs[0].params != 2 || fs[0].results != 1 {
        Err(ExecError::SignatureMismatch)
    } else {
        match function_code(fs[0]) {
            Ok((code, size)) => run(code, initial_slots(size, a, b), 0, fs[0].slots as nat),
            Err(_) => Err(ExecError::CorruptCode),
        }
    }
}

/// When `t` holds the code of every function of `fs`, none of them fails.
proof fn lemma_translated_never_fails(t: TranslatedModule, fs: Seq<FunctionModel>, e: TranslateError)
    requires
        translated_from(t, fs),
    ensures
        !fails_with(fs, e),
{
    if fails_with(fs, e) {
        let k = choose|k: int| 0 <= k < fs.len()
            && (forall|j: int| 0 <= j < k ==> (#[trigger] function_code(fs[j])) is Ok)
            && #[trigger] function_code(fs[k]) == Err::<(Seq<Op>, nat), TranslateError>(e);
        assert(t.bodies@[k] == fs[k].body);
        assert(translates(t.functions@[k], t.bodies@[k], t.functions@[k].result_slot as nat));
    }
}

/// Translates every function of a decoded module.
pub fn translate_module(m: Module) -> (r: Result<TranslatedModule, TranslateError>)
    requires
        forall|k: int| 0 <= k < m@.len() ==> supported(#[trigger] m@[k]),
    ensures
        match r {
            Ok(t) => translated_from(t, m@),
            Err(e) => fails_with(m@, e),
        },
{
    let ghost decls = m@;
    let mut rest = m.functions;
    let mut functions: Vec<CompiledFunction> = Vec::new();
    let ghost mut bodies: Seq<Seq<Instr>> = seq![];
    let n = rest.len();
    let mut k: usize = 0;
    while k < n
        invariant
            k <= n,
            decls == m@,
            n == decls.len(),
            rest@.map_values(|f: FunctionDecl| f@) == decls.subrange(k as int, n as int),
            rest@.len() == n - k,
            functions@.len() == k,
            bodies.len() == k,
            forall|j: int| 0 <= j < decls.len() ==> supported(#[trigger] decls[j]),
            forall|j: int| 0 <= j < k ==> #[trigger] bodies[j] == decls[j].body,
            forall|j: int| 0 <= j < k ==> {
                &&& translates(#[trigger] functions@[j], bodies[j], functions@[j].result_slot as nat)
                &&& functions@[j].params == decls[j].params
                &&& functions@[j].results == decls[j].results
                &&& functions@[j].result_slot == decls[j].slots
            },
        decreases n - k,
    {
        proof {
            assert(rest@.map_values(|f: FunctionDecl| f@)[0] == decls[k as int]);
        }
        let ghost before = rest@;
        let d = rest.remove(0);
        proof {
            assert(rest@ =~= before.subrange(1, before.len() as int));
            assert(rest@.map_values(|f: FunctionDecl| f@) =~= before.map_values(|f: FunctionDecl| f@).subrange(1, before.len() as int));
        }
        assert(d@ == decls[k as int]);
        assert(supported(decls[k as int]));
        match translate_body(&d.body, d.slots, d.results) {
            Ok(c) => {
                functions.push(CompiledFunction {
                    params: d.params,
                    results: d.results,
                    result_slot: d.slots,
                    frame_size: c.frame_size,
                    code: c.code,
                });
                proof { bodies = bodies.push(d.body@); }
            },
            Err(e) => {
                assert(function_code(decls[k as int]) == Err::<(Seq<Op>, nat), TranslateError>(e));
                assert forall|j: int| 0 <= j < k implies (#[trigger] function_code(decls[j])) is Ok by {
                    assert(translates(functions@[j], bodies[j], functions@[j].result_slot as nat));
                }
                return Err(e);
            },
        }
        k = k + 1;
    }
    let t = TranslatedModule { functions, bodies: Ghost(bodies) };
    assert(t.wf());
    Ok(t)
}

/// Translates a binary module into executable code: decoding fails as
/// `decode_spec` says, and otherwise every function is translated, or the
/// error of one that does not translate comes back.
pub fn translate(bytes: &[u8]) -> (r: Result<TranslatedModule, TranslateError>)
    ensures
        match decode_spec(bytes@) {
            Err(e) => r == Err::<TranslatedModule, TranslateError>(e),
            Ok(fs) => match r {
                Ok(t) => translated_from(t, fs),
                Err(e) => fails_with(fs, e),
            },
        },
{
    let m = decode_module(bytes)?;
    translate_module(m)
}

/// Why running a module failed: it did not translate, or its run faulted.
#[derive(Clone, Copy, Debug, PartialEq, Eq, Structural)]
pub enum RunError {
    Translate(TranslateError),
    Exec(ExecError),
}

/// Translates `wasm`, the binary form of a text module, and runs its first
/// function on `a` and `b`.
pub fn execute_wat(wasm: &[u8], a: usize, b: usize) -> (r: Result<usize, RunError>)
    ensures
        match decode_spec(wasm@) {
            Err(e) => r == Err::<usize, RunError>(RunError::Translate(e)),
            Ok(fs) => if exists|e: TranslateError| fails_with(fs, e) {
                r matches Err(RunError::Translate(e)) && fails_with(fs, e)
            } else {
                r == match first_call(fs, a, b) {
                    Ok(v) => Ok::<usize, RunError>(v),
                    Err(x) => Err(RunError::Exec(x)),
                }
            },
        },
{
    let translated = match translate(wasm) {
        Ok(t) => t,
        Err(e) => { return Err(RunError::Translate(e)); },
    };
    let ghost fs = decode_spec(wasm@)->Ok_0;
    proof {
        assert forall|e: TranslateError| !fails_with(fs, e) by {
            lemma_translated_never_fails(translated, fs, e);
        }
        if fs.len() > 0 {
            assert(translated.bodies@[0] == fs[0].body);
            assert(translates(translated.functions@[0], translated.bodies@[0], translated.functions@[0].result_slot as nat));
        }
    }
    match translated.execute_func(0, a, b) {
        Ok(v) => Ok(v),
        Err(e) => Err(RunError::Exec(e)),
    }
}

} // verus!
