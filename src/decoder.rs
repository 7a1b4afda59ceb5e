use vstd::prelude::*;
use crate::error::TranslateError;
use crate::translator::Instr;

verus! {

/// The largest value a LEB128 group of `5 - k` more bytes can hold, plus one.
pub open spec fn leb_cap(k: nat) -> nat
    decreases 5 - k,
{
    if k >= 5 { 1 } else { 128 * leb_cap(k + 1) }
}

/// The unsigned LEB128 number at `pos`, after `k` bytes of it were read:
/// its value and the position after it.
pub open spec fn leb(bytes: Seq<u8>, pos: nat, k: nat) -> Result<(nat, nat), TranslateError>
    decreases 5 - k,
{
    if k >= 5 || pos >= bytes.len() {
        Err(TranslateError::MalformedInput)
    } else if bytes[pos as int] < 128 {
        Ok((bytes[pos as int] as nat, pos + 1))
    } else {
        match leb(bytes, pos + 1, k + 1) {
            Ok((v, e)) => Ok(((bytes[pos as int] - 128) as nat + 128 * v, e)),
            Err(x) => Err(x),
        }
    }
}

/// A 32-bit unsigned LEB128 number at `pos`.
pub open spec fn leb_u32(bytes: Seq<u8>, pos: nat) -> Result<(nat, nat), TranslateError> {
    match leb(bytes, pos, 0) {
        Ok((v, e)) => if v <= u32::MAX { Ok((v, e)) } else { Err(TranslateError::MalformedInput) },
        Err(x) => Err(x),
    }
}

fn read_leb(bytes: &[u8], pos: usize, k: usize) -> (r: Result<(u64, usize), TranslateError>)
    requires
        k <= 5,
    ensures
        match leb(bytes@, pos as nat, k as nat) {
            Ok((v, e)) => r is Ok && r->Ok_0.0 == v && r->Ok_0.1 == e,
            Err(x) => r == Err::<(u64, usize), TranslateError>(x),
        },
        r is Ok ==> r->Ok_0.0 < leb_cap(k as nat),
    decreases 5 - k,
{
    if k >= 5 || pos >= bytes.len() {
        return Err(TranslateError::MalformedInput);
    }
    let b = bytes[pos];
    if b < 128 {
        proof { lemma_leb_cap_positive(k as nat); }
        assert(leb_cap(k as nat) >= 128) by {
            reveal_with_fuel(leb_cap, 2);
            lemma_leb_cap_positive((k + 1) as nat);
        }
        Ok((b as u64, pos + 1))
    } else {
        match read_leb(bytes, pos + 1, k + 1) {
            Ok((v, e)) => {
                let ghost c = leb_cap((k + 1) as nat);
                proof { lemma_leb_cap_bound(k as nat); }
                assert((b - 128) + 128 * v < 128 * c) by (nonlinear_arith)
                    requires b < 256, b >= 128, v < c;
                Ok(((b - 128) as u64 + 128 * v, e))
            },
            Err(x) => Err(x),
        }
    }
}

proof fn lemma_leb_cap_positive(k: nat)
    ensures
        leb_cap(k) >= 1,
    decreases 5 - k,
{
    if k < 5 {
        lemma_leb_cap_positive(k + 1);
    }
}

proof fn lemma_leb_cap_bound(k: nat)
    ensures
        leb_cap(k) <= 34359738368,
{
    reveal_with_fuel(leb_cap, 6);
}

/// Reads a 32-bit unsigned LEB128 number at `pos`.
pub fn read_u32(bytes: &[u8], pos: usize) -> (r: Result<(u32, usize), TranslateError>)
    ensures
        match leb_u32(bytes@, pos as nat) {
            Ok((v, e)) => r is Ok && r->Ok_0.0 == v && r->Ok_0.1 == e,
            Err(x) => r == Err::<(u32, usize), TranslateError>(x),
        },
{
    match read_leb(bytes, pos, 0) {
        Ok((v, e)) => if v <= 0xffff_ffff {
            Ok((v as u32, e))
        } else {
            Err(TranslateError::MalformedInput)
        },
        Err(x) => Err(x),
    }
}

/// The result arity that a block type byte stands for.
pub open spec fn block_arity(b: u8) -> Result<u8, TranslateError> {
    if b == 0x40 {
        Ok(0)
    } else if b == 0x7f {
        Ok(1)
    } else {
        Err(TranslateError::UnsupportedFeature)
    }
}

/// The instruction encoded at `pos`, and the position after it. Calls
/// between functions are a feature outside the supported surface; any other
/// opcode outside the set is unsupported as an opcode.
pub open spec fn decode_instr(bytes: Seq<u8>, pos: nat) -> Result<(Instr, nat), TranslateError> {
    if pos >= bytes.len() {
        Err(TranslateError::MalformedInput)
    } else {
        let op = bytes[pos as int];
        if op == 0x00 {
            Ok((Instr::Unreachable, pos + 1))
        } else if op == 0x05 {
            Ok((Instr::Else, pos + 1))
        } else if op == 0x0b {
            Ok((Instr::End, pos + 1))
        } else if op == 0x6a {
            Ok((Instr::I32Add, pos + 1))
        } else if op == 0x46 {
            Ok((Instr::I32Eq, pos + 1))
        } else if op == 0x02 || op == 0x04 {
            if pos + 1 >= bytes.len() {
                Err(TranslateError::MalformedInput)
            } else {
                match block_arity(bytes[pos + 1 as int]) {
                    Ok(a) => Ok((if op == 0x02 { Instr::Block(a) } else { Instr::If(a) }, pos + 2)),
                    Err(x) => Err(x),
                }
            }
        } else if op == 0x0c || op == 0x0d || op == 0x20 {
            match leb_u32(bytes, pos + 1) {
                Ok((v, e)) => Ok((
                    if op == 0x0c { Instr::Br(v as u32) } else if op == 0x0d { Instr::BrIf(v as u32) } else { Instr::LocalGet(v as u32) },
                    e,
                )),
                Err(x) => Err(x),
            }
        } else if op == 0x10 || op == 0x11 {
            Err(TranslateError::UnsupportedFeature)
        } else {
            Err(TranslateError::UnsupportedOpcode)
        }
    }
}

/// The instructions encoded from `pos` up to exactly `end`.
pub open spec fn decode_instrs(bytes: Seq<u8>, pos: nat, end: nat) -> Result<Seq<Instr>, TranslateError>
    decreases end - pos,
{
    if pos >= end {
        Ok(seq![])
    } else {
        match decode_instr(bytes, pos) {
            Ok((i, e)) => if e <= pos || e > end {
                Err(TranslateError::MalformedInput)
            } else {
                match decode_instrs(bytes, e, end) {
                    Ok(rest) => Ok(seq![i] + rest),
                    Err(x) => Err(x),
                }
            },
            Err(x) => Err(x),
        }
    }
}

fn read_block_arity(b: u8) -> (r: Result<u8, TranslateError>)
    ensures
        r == block_arity(b),
{
    if b == 0x40 {
        Ok(0)
    } else if b == 0x7f {
        Ok(1)
    } else {
        Err(TranslateError::UnsupportedFeature)
    }
}

/// Decodes the instruction at `pos`.
pub fn read_instr(bytes: &[u8], pos: usize) -> (r: Result<(Instr, usize), TranslateError>)
    ensures
        match decode_instr(bytes@, pos as nat) {
            Ok((i, e)) => r is Ok && r->Ok_0.0 == i && r->Ok_0.1 == e,
            Err(x) => r == Err::<(Instr, usize), TranslateError>(x),
        },
{
    if pos >= bytes.len() {
        return Err(TranslateError::MalformedInput);
    }
    let op = bytes[pos];
    if op == 0x00 {
        Ok((Instr::Unreachable, pos + 1))
    } else if op == 0x05 {
        Ok((Instr::Else, pos + 1))
    } else if op == 0x0b {
        Ok((Instr::End, pos + 1))
    } else if op == 0x6a {
        Ok((Instr::I32Add, pos + 1))
    } else if op == 0x46 {
        Ok((Instr::I32Eq, pos + 1))
    } else if op == 0x02 || op == 0x04 {
        if pos + 1 >= bytes.len() {
            return Err(TranslateError::MalformedInput);
        }
        let a = match read_block_arity(bytes[pos + 1]) {
            Ok(v) => v,
            Err(x) => { return Err(x); },
        };
        Ok((if op == 0x02 { Instr::Block(a) } else { Instr::If(a) }, pos + 2))
    } else if op == 0x0c || op == 0x0d || op == 0x20 {
        let (v, e) = match read_u32(bytes, pos + 1) {
            Ok(v) => v,
            Err(x) => { return Err(x); },
        };
        Ok((if op == 0x0c { Instr::Br(v) } else if op == 0x0d { Instr::BrIf(v) } else { Instr::LocalGet(v) }, e))
    } else if op == 0x10 || op == 0x11 {
        Err(TranslateError::UnsupportedFeature)
    } else {
        Err(TranslateError::UnsupportedOpcode)
    }
}

/// Decodes the instruction stream that fills `pos..end`.
pub fn read_instrs(bytes: &[u8], pos: usize, end: usize) -> (r: Result<Vec<Instr>, TranslateError>)
    ensures
        match decode_instrs(bytes@, pos as nat, end as nat) {
            Ok(s) => r is Ok && r->Ok_0@ == s,
            Err(x) => r == Err::<Vec<Instr>, TranslateError>(x),
        },
{
    let mut out: Vec<Instr> = Vec::new();
    let mut p = pos;
    while p < end
        invariant
            decode_instrs(bytes@, pos as nat, end as nat) == match decode_instrs(bytes@, p as nat, end as nat) {
                Ok(rest) => Ok(out@ + rest),
                Err(x) => Err::<Seq<Instr>, TranslateError>(x),
            },
        decreases end - p,
    {
        let (i, e) = match read_instr(bytes, p) {
            Ok(x) => x,
            Err(x) => { return Err(x); },
        };
        if e <= p || e > end {
            return Err(TranslateError::MalformedInput);
        }
        proof {
            let ghost old_out = out@;
            assert(old_out.push(i) =~= old_out + seq![i]);
            match decode_instrs(bytes@, e as nat, end as nat) {
                Ok(rest) => { assert(old_out + (seq![i] + rest) =~= old_out.push(i) + rest); },
                Err(_) => {},
            }
        }
        out.push(i);
        p = e;
    }
    assert(out@ + seq![] =~= out@);
    Ok(out)
}

/// One function of a decoded module: its parameter and result counts, the
/// slots its parameters and locals take together, and its body.
pub struct FunctionDecl {
    pub params: usize,
    pub results: usize,
    pub slots: usize,
    pub body: Vec<Instr>,
}

pub struct FunctionModel {
    pub params: usize,
    pub results: usize,
    pub slots: usize,
    pub body: Seq<Instr>,
}

impl View for FunctionDecl {
    type V = FunctionModel;

    open spec fn view(&self) -> FunctionModel {
        FunctionModel { params: self.params, results: self.results, slots: self.slots, body: self.body@ }
    }
}

/// A decoded module; function `k` is the `k`-th one declared.
pub struct Module {
    pub functions: Vec<FunctionDecl>,
}

impl View for Module {
    type V = Seq<FunctionModel>;

    open spec fn view(&self) -> Seq<FunctionModel> {
        self.functions@.map_values(|f: FunctionDecl| f@)
    }
}

/// The shapes the translator supports: at most one result, and a frame
/// whose slot numbers stay machine words.
pub open spec fn supported(f: FunctionModel) -> bool {
    &&& f.results <= 1
    &&& f.params <= f.slots
    &&& f.slots + 1 <= usize::MAX
}

/// `n` value types from `p`, each of which must be a 32-bit integer; the
/// position after them.
pub open spec fn i32_types(bytes: Seq<u8>, p: nat, n: nat) -> Result<nat, TranslateError>
    decreases n,
{
    if n == 0 {
        Ok(p)
    } else if p >= bytes.len() {
        Err(TranslateError::MalformedInput)
    } else if bytes[p as int] != 0x7f {
        Err(TranslateError::UnsupportedFeature)
    } else {
        i32_types(bytes, p + 1, (n - 1) as nat)
    }
}

/// A vector of value types at `pos`: its length and the position after it.
pub open spec fn value_types(bytes: Seq<u8>, pos: nat) -> Result<(usize, nat), TranslateError> {
    match leb_u32(bytes, pos) {
        Ok((n, p)) => match i32_types(bytes, p, n) {
            Ok(e) => Ok((n as usize, e)),
            Err(x) => Err(x),
        },
        Err(x) => Err(x),
    }
}

/// `n` signatures from `p`: the parameter and result count of each.
pub open spec fn signatures(bytes: Seq<u8>, p: nat, n: nat) -> Result<(Seq<(usize, usize)>, nat), TranslateError>
    decreases n,
{
    if n == 0 {
        Ok((seq![], p))
    } else if p >= bytes.len() || bytes[p as int] != 0x60 {
        Err(TranslateError::MalformedInput)
    } else {
        match value_types(bytes, p + 1) {
            Ok((params, q)) => match value_types(bytes, q) {
                Ok((results, q2)) => if results > 1 {
                    Err(TranslateError::UnsupportedFeature)
                } else {
                    match signatures(bytes, q2, (n - 1) as nat) {
                        Ok((rest, e)) => Ok((seq![(params, results)] + rest, e)),
                        Err(x) => Err(x),
                    }
                },
                Err(x) => Err(x),
            },
            Err(x) => Err(x),
        }
    }
}

/// `n` 32-bit numbers from `p`.
pub open spec fn indices(bytes: Seq<u8>, p: nat, n: nat) -> Result<(Seq<u32>, nat), TranslateError>
    decreases n,
{
    if n == 0 {
        Ok((seq![], p))
    } else {
        match leb_u32(bytes, p) {
            Ok((v, q)) => match indices(bytes, q, (n - 1) as nat) {
                Ok((rest, e)) => Ok((seq![v as u32] + rest, e)),
                Err(x) => Err(x),
            },
            Err(x) => Err(x),
        }
    }
}

/// `n` local declarations from `q`, each a count of 32-bit integers, added
/// to `total`.
pub open spec fn local_groups(bytes: Seq<u8>, q: nat, n: nat, total: nat) -> Result<(usize, nat), TranslateError>
    decreases n,
{
    if n == 0 {
        Ok((total as usize, q))
    } else {
        match leb_u32(bytes, q) {
            Ok((c, q1)) => if q1 >= bytes.len() {
                Err(TranslateError::MalformedInput)
            } else if bytes[q1 as int] != 0x7f {
                Err(TranslateError::UnsupportedFeature)
            } else if total + c > usize::MAX {
                Err(TranslateError::MalformedInput)
            } else {
                local_groups(bytes, q1 + 1, (n - 1) as nat, total + c)
            },
            Err(x) => Err(x),
        }
    }
}

/// One entry of the code section at `pos`: its local count and body, and the
/// position after it. The body must fill the entry exactly.
pub open spec fn code_entry(bytes: Seq<u8>, pos: nat) -> Result<((usize, Seq<Instr>), nat), TranslateError> {
    match leb_u32(bytes, pos) {
        Ok((size, p)) => if p + size > bytes.len() {
            Err(TranslateError::MalformedInput)
        } else {
            let end = p + size;
            match leb_u32(bytes, p) {
                Ok((g, q)) => match local_groups(bytes, q, g, 0) {
                    Ok((locals, q2)) => if q2 > end {
                        Err(TranslateError::MalformedInput)
                    } else {
                        match decode_instrs(bytes, q2, end) {
                            Ok(body) => Ok(((locals, body), end)),
                            Err(x) => Err(x),
                        }
                    },
                    Err(x) => Err(x),
                },
                Err(x) => Err(x),
            }
        },
        Err(x) => Err(x),
    }
}

/// `n` code entries from `p`.
pub open spec fn code_entries(bytes: Seq<u8>, p: nat, n: nat) -> Result<(Seq<(usize, Seq<Instr>)>, nat), TranslateError>
    decreases n,
{
    if n == 0 {
        Ok((seq![], p))
    } else {
        match code_entry(bytes, p) {
            Ok((c, q)) => match code_entries(bytes, q, (n - 1) as nat) {
                Ok((rest, e)) => Ok((seq![c] + rest, e)),
                Err(x) => Err(x),
            },
            Err(x) => Err(x),
        }
    }
}

/// What the sections read so far hold.
pub struct Sections {
    pub types: Seq<(usize, usize)>,
    pub funcs: Seq<u32>,
    pub code: Seq<(usize, Seq<Instr>)>,
}

/// The contents of the section whose payload is `p..end`, added to `s`.
pub open spec fn section(bytes: Seq<u8>, id: u8, p: nat, end: nat, s: Sections) -> Result<Sections, TranslateError> {
    if id == 0 {
        Ok(s)
    } else if id == 1 {
        match leb_u32(bytes, p) {
            Ok((n, q)) => match signatures(bytes, q, n) {
                Ok((t, e)) => if e != end { Err(TranslateError::MalformedInput) } else { Ok(Sections { types: t, ..s }) },
                Err(x) => Err(x),
            },
            Err(x) => Err(x),
        }
    } else if id == 3 {
        match leb_u32(bytes, p) {
            Ok((n, q)) => match indices(bytes, q, n) {
                Ok((f, e)) => if e != end { Err(TranslateError::MalformedInput) } else { Ok(Sections { funcs: f, ..s }) },
                Err(x) => Err(x),
            },
            Err(x) => Err(x),
        }
    } else if id == 10 {
        match leb_u32(bytes, p) {
            Ok((n, q)) => match code_entries(bytes, q, n) {
                Ok((c, e)) => if e != end { Err(TranslateError::MalformedInput) } else { Ok(Sections { code: c, ..s }) },
                Err(x) => Err(x),
            },
            Err(x) => Err(x),
        }
    } else if id <= 12 {
        Err(TranslateError::UnsupportedFeature)
    } else {
        Err(TranslateError::MalformedInput)
    }
}

/// The sections from `pos` to the end of the module, added to `s`.
pub open spec fn sections(bytes: Seq<u8>, pos: nat, s: Sections) -> Result<Sections, TranslateError>
    decreases bytes.len() - pos,
{
    if pos >= bytes.len() {
        Ok(s)
    } else {
        match leb_u32(bytes, pos + 1) {
            Ok((size, p)) => if p + size > bytes.len() {
                Err(TranslateError::MalformedInput)
            } else {
                match section(bytes, bytes[pos as int], p, p + size, s) {
                    Ok(s2) => if p + size <= pos { Err(TranslateError::MalformedInput) } else { sections(bytes, p + size, s2) },
                    Err(x) => Err(x),
                }
            },
            Err(x) => Err(x),
        }
    }
}

/// Function `k` names a declared signature, and its slots are machine words.
pub open spec fn fits(s: Sections, k: int) -> bool {
    &&& (s.funcs[k] as int) < s.types.len()
    &&& s.types[s.funcs[k] as int].0 + s.code[k].0 + 1 <= usize::MAX
}

pub open spec fn function_model(s: Sections, k: int) -> FunctionModel {
    let t = s.types[s.funcs[k] as int];
    FunctionModel { params: t.0, results: t.1, slots: (t.0 + s.code[k].0) as usize, body: s.code[k].1 }
}

/// The functions that the sections declare, in order.
pub open spec fn assemble(s: Sections) -> Result<Seq<FunctionModel>, TranslateError> {
    if s.funcs.len() != s.code.len() {
        Err(TranslateError::MalformedInput)
    } else if exists|k: int| 0 <= k < s.funcs.len() && !#[trigger] fits(s, k) {
        Err(TranslateError::MalformedInput)
    } else {
        Ok(Seq::new(s.funcs.len(), |k: int| function_model(s, k)))
    }
}

pub open spec fn has_header(bytes: Seq<u8>) -> bool {
    &&& bytes.len() >= 8
    &&& bytes[0] == 0x00 && bytes[1] == 0x61 && bytes[2] == 0x73 && bytes[3] == 0x6d
    &&& bytes[4] == 0x01 && bytes[5] == 0x00 && bytes[6] == 0x00 && bytes[7] == 0x00
}

/// The functions of a binary module: the header, then its sections. Custom
/// sections are skipped; imports, exports, tables, memories, globals, a start
/// function, elements and data are not supported.
pub open spec fn decode_spec(bytes: Seq<u8>) -> Result<Seq<FunctionModel>, TranslateError> {
    if !has_header(bytes) {
        Err(TranslateError::MalformedInput)
    } else {
        match sections(bytes, 8, Sections { types: seq![], funcs: seq![], code: seq![] }) {
            Ok(s) => assemble(s),
            Err(x) => Err(x),
        }
    }
}

/// Reads a vector of value types: only 32-bit integers are supported.
fn read_value_types(bytes: &[u8], pos: usize) -> (r: Result<(usize, usize), TranslateError>)
    ensures
        match value_types(bytes@, pos as nat) {
            Ok((n, e)) => r is Ok && r->Ok_0.0 == n && r->Ok_0.1 == e,
            Err(x) => r == Err::<(usize, usize), TranslateError>(x),
        },
{
    let (n, p0) = match read_u32(bytes, pos) {
            Ok(v) => v,
            Err(x) => { return Err(x); },
        };
    let mut p = p0;
    let mut i: u32 = 0;
    while i < n
        invariant
            i <= n,
            leb_u32(bytes@, pos as nat) == Ok::<(nat, nat), TranslateError>((n as nat, p0 as nat)),
            i32_types(bytes@, p0 as nat, n as nat) == i32_types(bytes@, p as nat, (n - i) as nat),
        decreases n - i,
    {
        assert(i32_types(bytes@, p as nat, (n - i) as nat) == (if p >= bytes@.len() {
            Err(TranslateError::MalformedInput)
        } else if bytes@[p as int] != 0x7f {
            Err(TranslateError::UnsupportedFeature)
        } else {
            i32_types(bytes@, (p + 1) as nat, (n - i - 1) as nat)
        }));
        if p >= bytes.len() {
            return Err(TranslateError::MalformedInput);
        }
        if bytes[p] != 0x7f {
            return Err(TranslateError::UnsupportedFeature);
        }
        p = p + 1;
        i = i + 1;
    }
    Ok((n as usize, p))
}

/// Reads the type section's payload: the parameter and result count of each
/// signature.
fn read_types(bytes: &[u8], pos: usize) -> (r: Result<(Vec<(usize, usize)>, usize), TranslateError>)
    ensures
        match leb_u32(bytes@, pos as nat) {
            Ok((n, q)) => match signatures(bytes@, q, n) {
                Ok((t, e)) => r is Ok && r->Ok_0.0@ == t && r->Ok_0.1 == e,
                Err(x) => r == Err::<(Vec<(usize, usize)>, usize), TranslateError>(x),
            },
            Err(x) => r == Err::<(Vec<(usize, usize)>, usize), TranslateError>(x),
        },
        r is Ok ==> forall|k: int| 0 <= k < r->Ok_0.0@.len() ==> r->Ok_0.0@[k].1 <= 1,
{
    let (n, p0) = match read_u32(bytes, pos) {
            Ok(v) => v,
            Err(x) => { return Err(x); },
        };
    let mut p = p0;
    let mut types: Vec<(usize, usize)> = Vec::new();
    let mut i: u32 = 0;
    while i < n
        invariant
            i <= n,
            leb_u32(bytes@, pos as nat) == Ok::<(nat, nat), TranslateError>((n as nat, p0 as nat)),
            signatures(bytes@, p0 as nat, n as nat) == match signatures(bytes@, p as nat, (n - i) as nat) {
                Ok((rest, e)) => Ok((types@ + rest, e)),
                Err(x) => Err::<(Seq<(usize, usize)>, nat), TranslateError>(x),
            },
            forall|k: int| 0 <= k < types@.len() ==> types@[k].1 <= 1,
        decreases n - i,
    {
        assert(signatures(bytes@, p as nat, (n - i) as nat) == (if p >= bytes@.len() || bytes@[p as int] != 0x60 {
            Err(TranslateError::MalformedInput)
        } else {
            match value_types(bytes@, (p + 1) as nat) {
                Ok((params, q)) => match value_types(bytes@, q) {
                    Ok((results, q2)) => if results > 1 {
                        Err(TranslateError::UnsupportedFeature)
                    } else {
                        match signatures(bytes@, q2, (n - i - 1) as nat) {
                            Ok((rest, e)) => Ok((seq![(params, results)] + rest, e)),
                            Err(x) => Err(x),
                        }
                    },
                    Err(x) => Err(x),
                },
                Err(x) => Err(x),
            }
        }));
        if p >= bytes.len() || bytes[p] != 0x60 {
            return Err(TranslateError::MalformedInput);
        }
        let q = p + 1;
        let r1 = read_value_types(bytes, q);
        let (params, q1) = match r1 {
            Ok(v) => v,
            Err(x) => {
                assert(value_types(bytes@, (p + 1) as nat) == Err::<(usize, nat), TranslateError>(x));
                return Err(x);
            },
        };
        assert(value_types(bytes@, (p + 1) as nat) == Ok::<(usize, nat), TranslateError>((params, q1 as nat)));
        let r2 = read_value_types(bytes, q1);
        let (results, q) = match r2 {
            Ok(v) => v,
            Err(x) => {
                assert(value_types(bytes@, q1 as nat) == Err::<(usize, nat), TranslateError>(x));
                return Err(x);
            },
        };
        assert(value_types(bytes@, q1 as nat) == Ok::<(usize, nat), TranslateError>((results, q as nat)));
        if results > 1 {
            return Err(TranslateError::UnsupportedFeature);
        }
        proof {
            let old_t = types@;
            match signatures(bytes@, q as nat, (n - i - 1) as nat) {
                Ok((rest, e)) => { assert(old_t + (seq![(params, results)] + rest) =~= old_t.push((params, results)) + rest); },
                Err(_) => {},
            }
        }
        types.push((params, results));
        p = q;
        i = i + 1;
    }
    assert(types@ + seq![] =~= types@);
    Ok((types, p))
}

/// Reads the function section's payload: the signature index of each
/// function.
fn read_function_types(bytes: &[u8], pos: usize) -> (r: Result<(Vec<u32>, usize), TranslateError>)
    ensures
        match leb_u32(bytes@, pos as nat) {
            Ok((n, q)) => match indices(bytes@, q, n) {
                Ok((f, e)) => r is Ok && r->Ok_0.0@ == f && r->Ok_0.1 == e,
                Err(x) => r == Err::<(Vec<u32>, usize), TranslateError>(x),
            },
            Err(x) => r == Err::<(Vec<u32>, usize), TranslateError>(x),
        },
{
    let (n, p0) = match read_u32(bytes, pos) {
            Ok(v) => v,
            Err(x) => { return Err(x); },
        };
    let mut p = p0;
    let mut out: Vec<u32> = Vec::new();
    let mut i: u32 = 0;
    while i < n
        invariant
            i <= n,
            leb_u32(bytes@, pos as nat) == Ok::<(nat, nat), TranslateError>((n as nat, p0 as nat)),
            indices(bytes@, p0 as nat, n as nat) == match indices(bytes@, p as nat, (n - i) as nat) {
                Ok((rest, e)) => Ok((out@ + rest, e)),
                Err(x) => Err::<(Seq<u32>, nat), TranslateError>(x),
            },
        decreases n - i,
    {
        assert(indices(bytes@, p as nat, (n - i) as nat) == match leb_u32(bytes@, p as nat) {
            Ok((v, q)) => match indices(bytes@, q, (n - i - 1) as nat) {
                Ok((rest, e)) => Ok((seq![v as u32] + rest, e)),
                Err(x) => Err(x),
            },
            Err(x) => Err::<(Seq<u32>, nat), TranslateError>(x),
        });
        let (t, q) = match read_u32(bytes, p) {
            Ok(v) => v,
            Err(x) => { return Err(x); },
        };
        proof {
            let old_o = out@;
            match indices(bytes@, q as nat, (n - i - 1) as nat) {
                Ok((rest, e)) => { assert(old_o + (seq![t] + rest) =~= old_o.push(t) + rest); },
                Err(_) => {},
            }
        }
        out.push(t);
        p = q;
        i = i + 1;
    }
    assert(out@ + seq![] =~= out@);
    Ok((out, p))
}

/// Reads one entry of the code section: the number of declared locals and
/// the instruction stream, which must fill the entry exactly.
fn read_code_entry(bytes: &[u8], pos: usize) -> (r: Result<(usize, Vec<Instr>, usize), TranslateError>)
    ensures
        match code_entry(bytes@, pos as nat) {
            Ok(((l, b), e)) => r is Ok && r->Ok_0.0 == l && r->Ok_0.1@ == b && r->Ok_0.2 == e,
            Err(x) => r == Err::<(usize, Vec<Instr>, usize), TranslateError>(x),
        },
{
    let (size, p) = match read_u32(bytes, pos) {
            Ok(v) => v,
            Err(x) => { return Err(x); },
        };
    if p > bytes.len() || size as usize > bytes.len() - p {
        return Err(TranslateError::MalformedInput);
    }
    let end = p + size as usize;
    let (groups, q0) = match read_u32(bytes, p) {
            Ok(v) => v,
            Err(x) => { return Err(x); },
        };
    let mut q = q0;
    let mut locals: usize = 0;
    let mut i: u32 = 0;
    while i < groups
        invariant
            i <= groups,
            leb_u32(bytes@, pos as nat) == Ok::<(nat, nat), TranslateError>((size as nat, p as nat)),
            leb_u32(bytes@, p as nat) == Ok::<(nat, nat), TranslateError>((groups as nat, q0 as nat)),
            p + size <= bytes@.len(),
            end == p + size,
            local_groups(bytes@, q0 as nat, groups as nat, 0) == local_groups(bytes@, q as nat, (groups - i) as nat, locals as nat),
        decreases groups - i,
    {
        assert(local_groups(bytes@, q as nat, (groups - i) as nat, locals as nat) == match leb_u32(bytes@, q as nat) {
            Ok((c, q1)) => if q1 >= bytes@.len() {
                Err(TranslateError::MalformedInput)
            } else if bytes@[q1 as int] != 0x7f {
                Err(TranslateError::UnsupportedFeature)
            } else if locals + c > usize::MAX {
                Err(TranslateError::MalformedInput)
            } else {
                local_groups(bytes@, q1 + 1, (groups - i - 1) as nat, (locals + c) as nat)
            },
            Err(x) => Err(x),
        });
        let (count, q1) = match read_u32(bytes, q) {
            Ok(v) => v,
            Err(x) => { return Err(x); },
        };
        if q1 >= bytes.len() {
            return Err(TranslateError::MalformedInput);
        }
        if bytes[q1] != 0x7f {
            return Err(TranslateError::UnsupportedFeature);
        }
        let q2 = q1 + 1;
        if count as usize > usize::MAX - locals {
            return Err(TranslateError::MalformedInput);
        }
        locals = locals + count as usize;
        q = q2;
        i = i + 1;
    }
    if q > end {
        return Err(TranslateError::MalformedInput);
    }
    let body = match read_instrs(bytes, q, end) {
            Ok(v) => v,
            Err(x) => { return Err(x); },
        };
    Ok((locals, body, end))
}

pub open spec fn code_view(v: Seq<(usize, Vec<Instr>)>) -> Seq<(usize, Seq<Instr>)> {
    v.map_values(|c: (usize, Vec<Instr>)| (c.0, c.1@))
}

/// Reads the code section's payload: the locals and body of each function.
fn read_code(bytes: &[u8], pos: usize) -> (r: Result<(Vec<(usize, Vec<Instr>)>, usize), TranslateError>)
    ensures
        match leb_u32(bytes@, pos as nat) {
            Ok((n, q)) => match code_entries(bytes@, q, n) {
                Ok((c, e)) => r is Ok && code_view(r->Ok_0.0@) == c && r->Ok_0.1 == e,
                Err(x) => r == Err::<(Vec<(usize, Vec<Instr>)>, usize), TranslateError>(x),
            },
            Err(x) => r == Err::<(Vec<(usize, Vec<Instr>)>, usize), TranslateError>(x),
        },
{
    let (n, p0) = match read_u32(bytes, pos) {
            Ok(v) => v,
            Err(x) => { return Err(x); },
        };
    let mut p = p0;
    let mut out: Vec<(usize, Vec<Instr>)> = Vec::new();
    let mut i: u32 = 0;
    while i < n
        invariant
            i <= n,
            leb_u32(bytes@, pos as nat) == Ok::<(nat, nat), TranslateError>((n as nat, p0 as nat)),
            code_entries(bytes@, p0 as nat, n as nat) == match code_entries(bytes@, p as nat, (n - i) as nat) {
                Ok((rest, e)) => Ok((code_view(out@) + rest, e)),
                Err(x) => Err::<(Seq<(usize, Seq<Instr>)>, nat), TranslateError>(x),
            },
        decreases n - i,
    {
        assert(code_entries(bytes@, p as nat, (n - i) as nat) == match code_entry(bytes@, p as nat) {
            Ok((c, q)) => match code_entries(bytes@, q, (n - i - 1) as nat) {
                Ok((rest, e)) => Ok((seq![c] + rest, e)),
                Err(x) => Err(x),
            },
            Err(x) => Err::<(Seq<(usize, Seq<Instr>)>, nat), TranslateError>(x),
        });
        let (locals, body, q) = match read_code_entry(bytes, p) {
            Ok(v) => v,
            Err(x) => { return Err(x); },
        };
        proof {
            let old_o = out@;
            let c = (locals, body@);
            assert(code_view(old_o.push((locals, body))) =~= code_view(old_o).push(c));
            match code_entries(bytes@, q as nat, (n - i - 1) as nat) {
                Ok((rest, e)) => { assert(code_view(old_o) + (seq![c] + rest) =~= code_view(old_o).push(c) + rest); },
                Err(_) => {},
            }
        }
        out.push((locals, body));
        p = q;
        i = i + 1;
    }
    assert(code_view(out@) + seq![] =~= code_view(out@));
    Ok((out, p))
}

/// Decodes a binary module.
pub fn decode_module(bytes: &[u8]) -> (r: Result<Module, TranslateError>)
    ensures
        match decode_spec(bytes@) {
            Ok(fs) => r is Ok && r->Ok_0@ == fs,
            Err(x) => r == Err::<Module, TranslateError>(x),
        },
        r is Ok ==> forall|k: int| 0 <= k < r->Ok_0@.len() ==> supported(#[trigger] r->Ok_0@[k]),
{
    if bytes.len() < 8 || bytes[0] != 0x00 || bytes[1] != 0x61 || bytes[2] != 0x73 || bytes[3] != 0x6d
        || bytes[4] != 0x01 || bytes[5] != 0x00 || bytes[6] != 0x00 || bytes[7] != 0x00 {
        return Err(TranslateError::MalformedInput);
    }
    let mut types: Vec<(usize, usize)> = Vec::new();
    let mut func_types: Vec<u32> = Vec::new();
    let mut code: Vec<(usize, Vec<Instr>)> = Vec::new();
    let ghost empty = Sections { types: seq![], funcs: seq![], code: seq![] };
    assert(code_view(code@) =~= seq![]);
    let mut pos: usize = 8;
    while pos < bytes.len()
        invariant
            has_header(bytes@),
            empty == (Sections { types: seq![], funcs: seq![], code: seq![] }),
            forall|k: int| 0 <= k < types@.len() ==> types@[k].1 <= 1,
            sections(bytes@, 8, empty) == sections(bytes@, pos as nat, Sections { types: types@, funcs: func_types@, code: code_view(code@) }),
        decreases bytes.len() - pos,
    {
        let id = bytes[pos];
        let ghost cur = Sections { types: types@, funcs: func_types@, code: code_view(code@) };
        assert(sections(bytes@, pos as nat, cur) == match leb_u32(bytes@, (pos + 1) as nat) {
            Ok((size, p)) => if p + size > bytes@.len() {
                Err(TranslateError::MalformedInput)
            } else {
                match section(bytes@, id, p, p + size, cur) {
                    Ok(s2) => if p + size <= pos { Err(TranslateError::MalformedInput) } else { sections(bytes@, p + size, s2) },
                    Err(x) => Err(x),
                }
            },
            Err(x) => Err::<Sections, TranslateError>(x),
        });
        let (size, p) = match read_u32(bytes, pos + 1) {
            Ok(v) => v,
            Err(x) => { return Err(x); },
        };
        if p > bytes.len() || size as usize > bytes.len() - p {
            return Err(TranslateError::MalformedInput);
        }
        let end = p + size as usize;
        if id == 0 {
        } else if id == 1 {
            let (t, q) = match read_types(bytes, p) {
            Ok(v) => v,
            Err(x) => { return Err(x); },
        };
            if q != end {
                return Err(TranslateError::MalformedInput);
            }
            types = t;
        } else if id == 3 {
            let (f, q) = match read_function_types(bytes, p) {
            Ok(v) => v,
            Err(x) => { return Err(x); },
        };
            if q != end {
                return Err(TranslateError::MalformedInput);
            }
            func_types = f;
        } else if id == 10 {
            let (c, q) = match read_code(bytes, p) {
            Ok(v) => v,
            Err(x) => { return Err(x); },
        };
            if q != end {
                return Err(TranslateError::MalformedInput);
            }
            code = c;
        } else if id <= 12 {
            return Err(TranslateError::UnsupportedFeature);
        } else {
            return Err(TranslateError::MalformedInput);
        }
        if end <= pos {
            return Err(TranslateError::MalformedInput);
        }
        pos = end;
    }
    let ghost sec = Sections { types: types@, funcs: func_types@, code: code_view(code@) };
    assert(sections(bytes@, pos as nat, sec) == Ok::<Sections, TranslateError>(sec));
    assert(decode_spec(bytes@) == assemble(sec));
    if func_types.len() != code.len() {
        return Err(TranslateError::MalformedInput);
    }
    let mut functions: Vec<FunctionDecl> = Vec::new();
    let mut code = code;
    let mut k: usize = 0;
    let n = func_types.len();
    while k < n
        invariant
            k <= n,
            n == func_types@.len(),
            n == sec.code.len(),
            code@.len() == n - k,
            decode_spec(bytes@) == assemble(sec),
            sec.types == types@,
            forall|j: int| 0 <= j < types@.len() ==> types@[j].1 <= 1,
            sec.funcs == func_types@,
            code_view(code@) == sec.code.subrange(k as int, n as int),
            functions@.len() == k,
            forall|j: int| 0 <= j < k ==> fits(sec, j),
            forall|j: int| 0 <= j < k ==> supported(#[trigger] functions@[j]@),
            forall|j: int| 0 <= j < k ==> (#[trigger] functions@[j])@ == function_model(sec, j),
        decreases n - k,
    {
        let ti = func_types[k] as usize;
        if ti >= types.len() {
            assert(!fits(sec, k as int));
            return Err(TranslateError::MalformedInput);
        }
        let (params, results) = types[ti];
        proof {
            assert(code_view(code@)[0] == sec.code[k as int]);
        }
        let ghost before = code@;
        let (locals, body) = code.remove(0);
        proof {
            assert(code@ =~= before.subrange(1, before.len() as int));
            assert(code_view(code@) =~= code_view(before).subrange(1, before.len() as int));
        }
        if params > usize::MAX - 1 || locals > usize::MAX - 1 - params {
            assert(!fits(sec, k as int));
            return Err(TranslateError::MalformedInput);
        }
        proof {
            assert(code_view(code@) =~= sec.code.subrange(k + 1, n as int));
            assert(fits(sec, k as int));
        }
        functions.push(FunctionDecl { params, results, slots: params + locals, body });
        k = k + 1;
    }
    let m = Module { functions };
    assert(m@ =~= Seq::new(sec.funcs.len(), |j: int| function_model(sec, j)));
    Ok(m)
}

} // verus!
