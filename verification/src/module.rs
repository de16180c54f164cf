//! An editable, in-memory picture of a Wasm module.
//!
//! Only what the instrumentation passes read is modelled, and everything is a
//! plain value: instruction sequences are vectors of [`Instr`], names are
//! strings, and section contents are vectors in section order. The function
//! index space concatenates imported functions and then defined functions;
//! the global index space does the same for globals.

use vstd::prelude::*;

verus! {

/// A Wasm value type, used in function signatures and global declarations.
#[derive(Clone, Copy, PartialEq, Eq, Structural, Debug)]
pub enum ValType {
    I32,
    I64,
    F32,
    F64,
    FuncRef,
    ExternRef,
}

/// The arity of a control block: how many operands it takes from the stack on
/// entry and how many it leaves on exit.
#[derive(Clone, Copy, PartialEq, Eq, Structural, Debug)]
pub struct BlockArity {
    pub params: u32,
    pub results: u32,
}

/// A single Wasm operator.
///
/// Operators that the passes inspect — control flow, constants, calls,
/// variable access, `memory.grow` — have their own variants. Every other
/// operator is carried as [`Instr::Other`], recording its opcode and how many
/// operands it pops and pushes, which is all the stack-height analysis needs.
#[derive(Clone, PartialEq, Eq, Debug)]
pub enum Instr {
    Unreachable,
    Nop,
    Block(BlockArity),
    Loop(BlockArity),
    If(BlockArity),
    Else,
    End,
    Br(u32),
    BrIf(u32),
    /// Branch table: the label targets, then the default label.
    BrTable(Vec<u32>, u32),
    Return,
    Call(u32),
    /// Indirect call through the table; carries the type index.
    CallIndirect(u32),
    Drop,
    GetLocal(u32),
    SetLocal(u32),
    TeeLocal(u32),
    GetGlobal(u32),
    SetGlobal(u32),
    I32Const(i32),
    I64Const(i64),
    GrowMemory,
    I64ExtendUI32,
    I64Mul,
    I64Sub,
    I64LtS,
    I32Add,
    I32Sub,
    I32GtU,
    /// Any other operator: its opcode and its stack signature.
    Other { pops: u32, pushes: u32, op: u32 },
}

/// The mathematical picture of an [`Instr`]: the same operators with the
/// branch table carried as a sequence. Contracts speak of instructions
/// through this type, via [`DeepView`].
pub enum InstrV {
    Unreachable,
    Nop,
    Block(BlockArity),
    Loop(BlockArity),
    If(BlockArity),
    Else,
    End,
    Br(u32),
    BrIf(u32),
    BrTable(Seq<u32>, u32),
    Return,
    Call(u32),
    CallIndirect(u32),
    Drop,
    GetLocal(u32),
    SetLocal(u32),
    TeeLocal(u32),
    GetGlobal(u32),
    SetGlobal(u32),
    I32Const(i32),
    I64Const(i64),
    GrowMemory,
    I64ExtendUI32,
    I64Mul,
    I64Sub,
    I64LtS,
    I32Add,
    I32Sub,
    I32GtU,
    Other { pops: u32, pushes: u32, op: u32 },
}

impl DeepView for Instr {
    type V = InstrV;

    open spec fn deep_view(&self) -> InstrV {
        match self {
            Instr::Unreachable => InstrV::Unreachable,
            Instr::Nop => InstrV::Nop,
            Instr::Block(a) => InstrV::Block(*a),
            Instr::Loop(a) => InstrV::Loop(*a),
            Instr::If(a) => InstrV::If(*a),
            Instr::Else => InstrV::Else,
            Instr::End => InstrV::End,
            Instr::Br(l) => InstrV::Br(*l),
            Instr::BrIf(l) => InstrV::BrIf(*l),
            Instr::BrTable(t, d) => InstrV::BrTable(t@, *d),
            Instr::Return => InstrV::Return,
            Instr::Call(f) => InstrV::Call(*f),
            Instr::CallIndirect(t) => InstrV::CallIndirect(*t),
            Instr::Drop => InstrV::Drop,
            Instr::GetLocal(l) => InstrV::GetLocal(*l),
            Instr::SetLocal(l) => InstrV::SetLocal(*l),
            Instr::TeeLocal(l) => InstrV::TeeLocal(*l),
            Instr::GetGlobal(g) => InstrV::GetGlobal(*g),
            Instr::SetGlobal(g) => InstrV::SetGlobal(*g),
            Instr::I32Const(v) => InstrV::I32Const(*v),
            Instr::I64Const(v) => InstrV::I64Const(*v),
            Instr::GrowMemory => InstrV::GrowMemory,
            Instr::I64ExtendUI32 => InstrV::I64ExtendUI32,
            Instr::I64Mul => InstrV::I64Mul,
            Instr::I64Sub => InstrV::I64Sub,
            Instr::I64LtS => InstrV::I64LtS,
            Instr::I32Add => InstrV::I32Add,
            Instr::I32Sub => InstrV::I32Sub,
            Instr::I32GtU => InstrV::I32GtU,
            Instr::Other { pops, pushes, op } => InstrV::Other {
                pops: *pops,
                pushes: *pushes,
                op: *op,
            },
        }
    }
}

/// A function signature.
#[derive(Clone, PartialEq, Eq, Debug)]
pub struct FuncType {
    pub params: Vec<ValType>,
    pub results: Vec<ValType>,
}

/// What an import brings into the module.
#[derive(Clone, PartialEq, Eq, Debug)]
pub enum ImportKind {
    /// An imported function with its type index.
    Func(u32),
    /// An imported global.
    Global { ty: ValType, mutable: bool },
    Memory { min: u32, max: Option<u32> },
    Table { min: u32, max: Option<u32> },
}

/// One entry of the import section.
#[derive(Clone, PartialEq, Eq, Debug)]
pub struct Import {
    pub module: String,
    pub field: String,
    pub kind: ImportKind,
}

/// A constant initializer expression, as used by globals and segment offsets.
/// Anything that is not a single integer constant is carried as `Other`.
#[derive(Clone, Copy, PartialEq, Eq, Structural, Debug)]
pub enum InitExpr {
    I32Const(i32),
    I64Const(i64),
    Other,
}

/// One entry of the global section.
#[derive(Clone, Copy, PartialEq, Eq, Structural, Debug)]
pub struct GlobalDef {
    pub ty: ValType,
    pub mutable: bool,
    pub init: InitExpr,
}

/// What an export entry points at: an index into the respective index space.
#[derive(Clone, Copy, PartialEq, Eq, Structural, Debug)]
pub enum ExportKind {
    Func(u32),
    Table(u32),
    Memory(u32),
    Global(u32),
}

/// One entry of the export section.
#[derive(Clone, PartialEq, Eq, Debug)]
pub struct Export {
    pub name: String,
    pub kind: ExportKind,
}

/// One element segment: an offset initializer (absent for passive segments)
/// and the function indices placed in the table.
#[derive(Clone, PartialEq, Eq, Debug)]
pub struct ElemSegment {
    pub offset: Option<InitExpr>,
    pub funcs: Vec<u32>,
}

/// One data segment: an offset initializer (absent for passive segments) and
/// the raw bytes.
#[derive(Clone, PartialEq, Eq, Debug)]
pub struct DataSegment {
    pub offset: Option<InitExpr>,
    pub data: Vec<u8>,
}

/// The body of a defined function: the number of declared locals (parameters
/// not included) and the instruction sequence, terminated by `End`.
#[derive(Clone, PartialEq, Eq, Debug)]
pub struct FuncBody {
    pub locals: u32,
    pub code: Vec<Instr>,
}

/// An in-memory Wasm module, one field per section.
///
/// `funcs[i]` is the type index of the `i`-th defined function and pairs with
/// `code[i]`. Function index `n` refers to the `n`-th imported function when
/// `n` is below the number of function imports, and to defined function
/// `n - imports` otherwise; global indices work the same way.
#[derive(Clone, PartialEq, Eq, Debug)]
pub struct Module {
    pub types: Vec<FuncType>,
    pub imports: Vec<Import>,
    pub funcs: Vec<u32>,
    pub tables: Vec<(u32, Option<u32>)>,
    pub memories: Vec<(u32, Option<u32>)>,
    pub globals: Vec<GlobalDef>,
    pub exports: Vec<Export>,
    pub start: Option<u32>,
    pub elements: Vec<ElemSegment>,
    pub code: Vec<FuncBody>,
    pub data: Vec<DataSegment>,
}

/// How many imports in `s` are function imports.
pub open spec fn count_func_imports(s: Seq<Import>) -> int
    decreases s.len(),
{
    if s.len() == 0 {
        0
    } else {
        count_func_imports(s.drop_last()) + if s.last().kind is Func {
            1int
        } else {
            0int
        }
    }
}

/// How many imports in `s` are global imports.
pub open spec fn count_global_imports(s: Seq<Import>) -> int
    decreases s.len(),
{
    if s.len() == 0 {
        0
    } else {
        count_global_imports(s.drop_last()) + if s.last().kind is Global {
            1int
        } else {
            0int
        }
    }
}

proof fn lemma_count_imports_bound(s: Seq<Import>)
    ensures
        0 <= count_func_imports(s) <= s.len(),
        0 <= count_global_imports(s) <= s.len(),
    decreases s.len(),
{
    if s.len() > 0 {
        lemma_count_imports_bound(s.drop_last());
    }
}

impl Module {
    /// The number of imported functions.
    pub fn num_imported_functions(&self) -> (n: usize)
        ensures
            n == count_func_imports(self.imports@),
    {
        let mut n: usize = 0;
        let mut i: usize = 0;
        while i < self.imports.len()
            invariant
                i <= self.imports@.len(),
                n <= i,
                n == count_func_imports(self.imports@.take(i as int)),
            decreases self.imports@.len() - i,
        {
            proof {
                assert(self.imports@.take(i + 1).drop_last() =~= self.imports@.take(i as int));
                assert(self.imports@.take(i + 1).last() == self.imports@[i as int]);
            }
            if let ImportKind::Func(_) = &self.imports[i].kind {
                n = n + 1;
            }
            i = i + 1;
        }
        proof {
            assert(self.imports@.take(i as int) =~= self.imports@);
        }
        n
    }

    /// The number of imported globals.
    pub fn num_imported_globals(&self) -> (n: usize)
        ensures
            n == count_global_imports(self.imports@),
    {
        let mut n: usize = 0;
        let mut i: usize = 0;
        while i < self.imports.len()
            invariant
                i <= self.imports@.len(),
                n <= i,
                n == count_global_imports(self.imports@.take(i as int)),
            decreases self.imports@.len() - i,
        {
            proof {
                assert(self.imports@.take(i + 1).drop_last() =~= self.imports@.take(i as int));
                assert(self.imports@.take(i + 1).last() == self.imports@[i as int]);
            }
            if let ImportKind::Global { .. } = &self.imports[i].kind {
                n = n + 1;
            }
            i = i + 1;
        }
        proof {
            assert(self.imports@.take(i as int) =~= self.imports@);
        }
        n
    }

    /// The size of the function index space: imported plus defined functions.
    pub fn functions_space(&self) -> (n: Option<usize>)
        ensures
            match n {
                Some(v) => v == count_func_imports(self.imports@) + self.funcs@.len(),
                None => count_func_imports(self.imports@) + self.funcs@.len() > usize::MAX,
            },
    {
        proof {
            lemma_count_imports_bound(self.imports@);
        }
        let imported = self.num_imported_functions();
        imported.checked_add(self.funcs.len())
    }
}

/// Deep equality of two `u32` vectors.
pub fn vec_u32_eq(a: &Vec<u32>, b: &Vec<u32>) -> (r: bool)
    ensures
        r == (a@ =~= b@),
{
    if a.len() != b.len() {
        return false;
    }
    let mut i: usize = 0;
    while i < a.len()
        invariant
            i <= a@.len(),
            a@.len() == b@.len(),
            forall|j: int| 0 <= j < i ==> a@[j] == b@[j],
        decreases a@.len() - i,
    {
        if a[i] != b[i] {
            return false;
        }
        i = i + 1;
    }
    true
}

/// Deep equality of two instructions, usable from verified code.
pub fn instr_eq(a: &Instr, b: &Instr) -> (r: bool)
    ensures
        r == (a.deep_view() == b.deep_view()),
{
    match (a, b) {
        (Instr::Unreachable, Instr::Unreachable) => true,
        (Instr::Nop, Instr::Nop) => true,
        (Instr::Block(x), Instr::Block(y)) => x == y,
        (Instr::Loop(x), Instr::Loop(y)) => x == y,
        (Instr::If(x), Instr::If(y)) => x == y,
        (Instr::Else, Instr::Else) => true,
        (Instr::End, Instr::End) => true,
        (Instr::Br(x), Instr::Br(y)) => x == y,
        (Instr::BrIf(x), Instr::BrIf(y)) => x == y,
        (Instr::BrTable(t1, d1), Instr::BrTable(t2, d2)) => {
            let teq = vec_u32_eq(t1, t2);
            teq && d1 == d2
        },
        (Instr::Return, Instr::Return) => true,
        (Instr::Call(x), Instr::Call(y)) => x == y,
        (Instr::CallIndirect(x), Instr::CallIndirect(y)) => x == y,
        (Instr::Drop, Instr::Drop) => true,
        (Instr::GetLocal(x), Instr::GetLocal(y)) => x == y,
        (Instr::SetLocal(x), Instr::SetLocal(y)) => x == y,
        (Instr::TeeLocal(x), Instr::TeeLocal(y)) => x == y,
        (Instr::GetGlobal(x), Instr::GetGlobal(y)) => x == y,
        (Instr::SetGlobal(x), Instr::SetGlobal(y)) => x == y,
        (Instr::I32Const(x), Instr::I32Const(y)) => x == y,
        (Instr::I64Const(x), Instr::I64Const(y)) => x == y,
        (Instr::GrowMemory, Instr::GrowMemory) => true,
        (Instr::I64ExtendUI32, Instr::I64ExtendUI32) => true,
        (Instr::I64Mul, Instr::I64Mul) => true,
        (Instr::I64Sub, Instr::I64Sub) => true,
        (Instr::I64LtS, Instr::I64LtS) => true,
        (Instr::I32Add, Instr::I32Add) => true,
        (Instr::I32Sub, Instr::I32Sub) => true,
        (Instr::I32GtU, Instr::I32GtU) => true,
        (
            Instr::Other { pops: p1, pushes: q1, op: o1 },
            Instr::Other { pops: p2, pushes: q2, op: o2 },
        ) => p1 == p2 && q1 == q2 && o1 == o2,
        _ => false,
    }
}

/// Copy one instruction, field for field.
pub fn instr_clone(a: &Instr) -> (r: Instr)
    ensures
        r.deep_view() == a.deep_view(),
{
    match a {
        Instr::Unreachable => Instr::Unreachable,
        Instr::Nop => Instr::Nop,
        Instr::Block(x) => Instr::Block(*x),
        Instr::Loop(x) => Instr::Loop(*x),
        Instr::If(x) => Instr::If(*x),
        Instr::Else => Instr::Else,
        Instr::End => Instr::End,
        Instr::Br(x) => Instr::Br(*x),
        Instr::BrIf(x) => Instr::BrIf(*x),
        Instr::BrTable(t, d) => Instr::BrTable(t.clone(), *d),
        Instr::Return => Instr::Return,
        Instr::Call(x) => Instr::Call(*x),
        Instr::CallIndirect(x) => Instr::CallIndirect(*x),
        Instr::Drop => Instr::Drop,
        Instr::GetLocal(x) => Instr::GetLocal(*x),
        Instr::SetLocal(x) => Instr::SetLocal(*x),
        Instr::TeeLocal(x) => Instr::TeeLocal(*x),
        Instr::GetGlobal(x) => Instr::GetGlobal(*x),
        Instr::SetGlobal(x) => Instr::SetGlobal(*x),
        Instr::I32Const(x) => Instr::I32Const(*x),
        Instr::I64Const(x) => Instr::I64Const(*x),
        Instr::GrowMemory => Instr::GrowMemory,
        Instr::I64ExtendUI32 => Instr::I64ExtendUI32,
        Instr::I64Mul => Instr::I64Mul,
        Instr::I64Sub => Instr::I64Sub,
        Instr::I64LtS => Instr::I64LtS,
        Instr::I32Add => Instr::I32Add,
        Instr::I32Sub => Instr::I32Sub,
        Instr::I32GtU => Instr::I32GtU,
        Instr::Other { pops, pushes, op } => Instr::Other {
            pops: *pops,
            pushes: *pushes,
            op: *op,
        },
    }
}

} // verus!
