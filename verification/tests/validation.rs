//! End-to-end checks against an independent Wasm validator: modules produced
//! by the two passes, alone and composed, encode to binaries that
//! `wasmparser` accepts.

use wasm_instrument::gas_metering::{self, ConstantCostRules};
use wasm_encoder::Instruction as E;
use wasm_instrument::module::{
    Export, ExportKind, FuncBody, FuncType, GlobalDef, ImportKind, InitExpr, Instr, Module,
    ValType,
};
use wasm_instrument::stack_limiter;

fn enc_val_type(v: ValType) -> wasm_encoder::ValType {
    match v {
        ValType::I32 => wasm_encoder::ValType::I32,
        ValType::I64 => wasm_encoder::ValType::I64,
        ValType::F32 => wasm_encoder::ValType::F32,
        ValType::F64 => wasm_encoder::ValType::F64,
        ValType::FuncRef => wasm_encoder::ValType::FUNCREF,
        ValType::ExternRef => wasm_encoder::ValType::EXTERNREF,
    }
}

fn enc_init(e: InitExpr) -> wasm_encoder::ConstExpr {
    match e {
        InitExpr::I32Const(v) => wasm_encoder::ConstExpr::i32_const(v),
        InitExpr::I64Const(v) => wasm_encoder::ConstExpr::i64_const(v),
        InitExpr::Other => panic!("unencodable initializer"),
    }
}

/// Encode one instruction. Only what the test modules use is covered; block
/// types must be empty (the test inputs use no block results).
fn enc_instr(i: &Instr) -> wasm_encoder::Instruction<'static> {
    match i {
        Instr::Unreachable => E::Unreachable,
        Instr::Nop => E::Nop,
        Instr::Block(a) => {
            assert!(a.params == 0 && a.results == 0);
            E::Block(wasm_encoder::BlockType::Empty)
        }
        Instr::Loop(a) => {
            assert!(a.params == 0 && a.results == 0);
            E::Loop(wasm_encoder::BlockType::Empty)
        }
        Instr::If(a) => {
            assert!(a.params == 0 && a.results == 0);
            E::If(wasm_encoder::BlockType::Empty)
        }
        Instr::Else => E::Else,
        Instr::End => E::End,
        Instr::Br(l) => E::Br(*l),
        Instr::BrIf(l) => E::BrIf(*l),
        Instr::BrTable(t, d) => E::BrTable(t.clone().into(), *d),
        Instr::Return => E::Return,
        Instr::Call(f) => E::Call(*f),
        Instr::CallIndirect(t) => E::CallIndirect {
            type_index: *t,
            table_index: 0,
        },
        Instr::Drop => E::Drop,
        Instr::GetLocal(l) => E::LocalGet(*l),
        Instr::SetLocal(l) => E::LocalSet(*l),
        Instr::TeeLocal(l) => E::LocalTee(*l),
        Instr::GetGlobal(g) => E::GlobalGet(*g),
        Instr::SetGlobal(g) => E::GlobalSet(*g),
        Instr::I32Const(v) => E::I32Const(*v),
        Instr::I64Const(v) => E::I64Const(*v),
        Instr::GrowMemory => E::MemoryGrow(0),
        Instr::I64ExtendUI32 => E::I64ExtendI32U,
        Instr::I64Mul => E::I64Mul,
        Instr::I64Sub => E::I64Sub,
        Instr::I64LtS => E::I64LtS,
        Instr::I32Add => E::I32Add,
        Instr::I32Sub => E::I32Sub,
        Instr::I32GtU => E::I32GtU,
        Instr::Other { op: 0x84, .. } => E::I64Or,
        Instr::Other { op: 0x86, .. } => E::I64Shl,
        Instr::Other { op: 0x88, .. } => E::I64ShrU,
        Instr::Other { .. } => panic!("unencodable operator"),
    }
}

fn encode(m: &Module) -> Vec<u8> {
    let mut out = wasm_encoder::Module::new();

    let mut types = wasm_encoder::TypeSection::new();
    for t in &m.types {
        types.ty().function(
            t.params.iter().map(|v| enc_val_type(*v)),
            t.results.iter().map(|v| enc_val_type(*v)),
        );
    }
    out.section(&types);

    if !m.imports.is_empty() {
        let mut imports = wasm_encoder::ImportSection::new();
        for imp in &m.imports {
            let entity: wasm_encoder::EntityType = match &imp.kind {
                ImportKind::Func(t) => wasm_encoder::EntityType::Function(*t),
                ImportKind::Global { ty, mutable } => {
                    wasm_encoder::EntityType::Global(wasm_encoder::GlobalType {
                        val_type: enc_val_type(*ty),
                        mutable: *mutable,
                        shared: false,
                    })
                }
                ImportKind::Memory { min, max } => {
                    wasm_encoder::EntityType::Memory(wasm_encoder::MemoryType {
                        minimum: *min as u64,
                        maximum: max.map(|x| x as u64),
                        memory64: false,
                        shared: false,
                        page_size_log2: None,
                    })
                }
                ImportKind::Table { min, max } => {
                    wasm_encoder::EntityType::Table(wasm_encoder::TableType {
                        element_type: wasm_encoder::RefType::FUNCREF,
                        table64: false,
                        minimum: *min as u64,
                        maximum: max.map(|x| x as u64),
                        shared: false,
                    })
                }
            };
            imports.import(&imp.module, &imp.field, entity);
        }
        out.section(&imports);
    }

    let mut funcs = wasm_encoder::FunctionSection::new();
    for t in &m.funcs {
        funcs.function(*t);
    }
    out.section(&funcs);

    if !m.tables.is_empty() {
        let mut tables = wasm_encoder::TableSection::new();
        for (min, max) in &m.tables {
            tables.table(wasm_encoder::TableType {
                element_type: wasm_encoder::RefType::FUNCREF,
                table64: false,
                minimum: *min as u64,
                maximum: max.map(|x| x as u64),
                shared: false,
            });
        }
        out.section(&tables);
    }

    if !m.memories.is_empty() {
        let mut memories = wasm_encoder::MemorySection::new();
        for (min, max) in &m.memories {
            memories.memory(wasm_encoder::MemoryType {
                minimum: *min as u64,
                maximum: max.map(|x| x as u64),
                memory64: false,
                shared: false,
                page_size_log2: None,
            });
        }
        out.section(&memories);
    }

    if !m.globals.is_empty() {
        let mut globals = wasm_encoder::GlobalSection::new();
        for g in &m.globals {
            globals.global(
                wasm_encoder::GlobalType {
                    val_type: enc_val_type(g.ty),
                    mutable: g.mutable,
                    shared: false,
                },
                &enc_init(g.init),
            );
        }
        out.section(&globals);
    }

    if !m.exports.is_empty() {
        let mut exports = wasm_encoder::ExportSection::new();
        for e in &m.exports {
            let (kind, index) = match e.kind {
                ExportKind::Func(i) => (wasm_encoder::ExportKind::Func, i),
                ExportKind::Table(i) => (wasm_encoder::ExportKind::Table, i),
                ExportKind::Memory(i) => (wasm_encoder::ExportKind::Memory, i),
                ExportKind::Global(i) => (wasm_encoder::ExportKind::Global, i),
            };
            exports.export(&e.name, kind, index);
        }
        out.section(&exports);
    }

    if let Some(f) = m.start {
        out.section(&wasm_encoder::StartSection { function_index: f });
    }

    if !m.elements.is_empty() {
        let mut elements = wasm_encoder::ElementSection::new();
        for seg in &m.elements {
            let offset = enc_init(seg.offset.expect("passive segments not encoded here"));
            elements.active(
                None,
                &offset,
                wasm_encoder::Elements::Functions(seg.funcs.as_slice().into()),
            );
        }
        out.section(&elements);
    }

    let mut code = wasm_encoder::CodeSection::new();
    for body in &m.code {
        let locals: Vec<(u32, wasm_encoder::ValType)> = if body.locals > 0 {
            vec![(body.locals, wasm_encoder::ValType::I64)]
        } else {
            vec![]
        };
        let mut f = wasm_encoder::Function::new(locals);
        for i in &body.code {
            f.instruction(&enc_instr(i));
        }
        code.function(&f);
    }
    out.section(&code);

    if !m.data.is_empty() {
        let mut data = wasm_encoder::DataSection::new();
        for seg in &m.data {
            let offset = enc_init(seg.offset.expect("passive segments not encoded here"));
            data.active(0, &offset, seg.data.iter().copied());
        }
        out.section(&data);
    }

    out.finish()
}

fn grow_module() -> Module {
    Module {
        types: vec![FuncType {
            params: vec![],
            results: vec![ValType::I32],
        }],
        imports: vec![],
        funcs: vec![0],
        tables: vec![],
        memories: vec![(0, Some(1))],
        globals: vec![GlobalDef {
            ty: ValType::I32,
            mutable: false,
            init: InitExpr::I32Const(42),
        }],
        exports: vec![],
        start: None,
        elements: vec![],
        code: vec![FuncBody {
            locals: 0,
            code: vec![Instr::GetGlobal(0), Instr::GrowMemory, Instr::End],
        }],
        data: vec![],
    }
}

fn add_module() -> Module {
    Module {
        types: vec![FuncType {
            params: vec![ValType::I32, ValType::I32],
            results: vec![ValType::I32],
        }],
        imports: vec![],
        funcs: vec![0],
        tables: vec![],
        memories: vec![],
        globals: vec![],
        exports: vec![Export {
            name: "i32.add".to_owned(),
            kind: ExportKind::Func(0),
        }],
        start: None,
        elements: vec![],
        code: vec![FuncBody {
            locals: 0,
            code: vec![
                Instr::GetLocal(0),
                Instr::GetLocal(1),
                Instr::I32Add,
                Instr::End,
            ],
        }],
        data: vec![],
    }
}

#[test]
fn gas_injected_module_validates() {
    let injected =
        gas_metering::inject(grow_module(), &ConstantCostRules::new(1, 10_000), "env").unwrap();
    let binary = encode(&injected);
    wasmparser::validate(&binary).unwrap();
}

#[test]
fn gas_injected_no_track_validates() {
    let injected =
        gas_metering::inject(grow_module(), &ConstantCostRules::default(), "env").unwrap();
    let binary = encode(&injected);
    wasmparser::validate(&binary).unwrap();
}

#[test]
fn stack_injected_module_validates() {
    let injected = stack_limiter::inject(add_module(), 1024).expect("Failed to inject stack counter");
    let binary = encode(&injected);
    wasmparser::validate(&binary).expect("Invalid module");
}

#[test]
fn composed_passes_validate() {
    // Gas first, stack limiting second.
    let gas = gas_metering::inject(add_module(), &ConstantCostRules::default(), "env").unwrap();
    let both = stack_limiter::inject(gas, 1024).unwrap();
    wasmparser::validate(&encode(&both)).expect("Invalid module");

    // Stack limiting first, gas second.
    let stack = stack_limiter::inject(add_module(), 1024).unwrap();
    let both2 = gas_metering::inject(stack, &ConstantCostRules::default(), "env").unwrap();
    wasmparser::validate(&encode(&both2)).expect("Invalid module");
}

#[test]
fn mixed_width_function_validates() {
    // A body mixing 32- and 64-bit operators, carried partly as opaque
    // operators, still validates after gas injection.
    let mut m = grow_module();
    m.types.push(FuncType {
        params: vec![ValType::I64, ValType::I32],
        results: vec![ValType::I64],
    });
    m.funcs.push(1);
    m.code.push(FuncBody {
        locals: 0,
        code: vec![
            Instr::GetLocal(0),
            Instr::I32Const(64),
            Instr::GetLocal(1),
            Instr::I32Sub,
            Instr::I64ExtendUI32,
            Instr::Other {
                pops: 2,
                pushes: 1,
                op: 0x86,
            },
            Instr::GetLocal(0),
            Instr::GetLocal(1),
            Instr::I64ExtendUI32,
            Instr::Other {
                pops: 2,
                pushes: 1,
                op: 0x88,
            },
            Instr::Other {
                pops: 2,
                pushes: 1,
                op: 0x84,
            },
            Instr::End,
        ],
    });
    let injected = gas_metering::inject(m, &ConstantCostRules::default(), "other").unwrap();
    wasmparser::validate(&encode(&injected)).unwrap();
}
