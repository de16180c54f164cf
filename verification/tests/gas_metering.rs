use wasm_instrument::gas_metering::{inject, ConstantCostRules};
use wasm_instrument::module::{
    BlockArity, ElemSegment, FuncBody, FuncType, GlobalDef, Import, ImportKind, InitExpr, Instr,
    Module, ValType,
};

fn empty_module() -> Module {
    Module {
        types: vec![],
        imports: vec![],
        funcs: vec![],
        tables: vec![],
        memories: vec![],
        globals: vec![],
        exports: vec![],
        start: None,
        elements: vec![],
        code: vec![],
        data: vec![],
    }
}

/// A module with one defined function of the given type and body.
fn one_func_module(params: Vec<ValType>, results: Vec<ValType>, body: Vec<Instr>) -> Module {
    let mut m = empty_module();
    m.types.push(FuncType { params, results });
    m.funcs.push(0);
    m.code.push(FuncBody { locals: 0, code: body });
    m
}

fn get_function_body(module: &Module, index: usize) -> Option<&[Instr]> {
    module.code.get(index).map(|b| b.code.as_slice())
}

const EMPTY_BLOCK: BlockArity = BlockArity { params: 0, results: 0 };

fn gas_counter_body(gas_global: u32) -> Vec<Instr> {
    vec![
        Instr::GetGlobal(gas_global),
        Instr::GetLocal(0),
        Instr::I64Sub,
        Instr::SetGlobal(gas_global),
        Instr::GetGlobal(gas_global),
        Instr::I64Const(0),
        Instr::I64LtS,
        Instr::If(EMPTY_BLOCK),
        Instr::Unreachable,
        Instr::End,
        Instr::End,
    ]
}

#[test]
fn simple_grow() {
    let mut module = one_func_module(
        vec![],
        vec![ValType::I32],
        vec![Instr::GetGlobal(0), Instr::GrowMemory, Instr::End],
    );
    module.globals.push(GlobalDef {
        ty: ValType::I32,
        mutable: false,
        init: InitExpr::I32Const(42),
    });
    module.memories.push((0, Some(1)));

    let injected_module = inject(module, &ConstantCostRules::new(1, 10_000), "env").unwrap();

    // global0 - gas
    // global1 - orig global0
    // func0 - main
    // func1 - gas_counter
    // func2 - grow_counter
    assert_eq!(
        get_function_body(&injected_module, 0).unwrap(),
        &vec![
            Instr::I64Const(2),
            Instr::Call(1),
            Instr::GetGlobal(1),
            Instr::Call(2),
            Instr::End
        ][..]
    );
    // 1 is gas counter
    assert_eq!(
        get_function_body(&injected_module, 1).unwrap(),
        &gas_counter_body(0)[..]
    );
    // 2 is mem-grow gas charge func
    assert_eq!(
        get_function_body(&injected_module, 2).unwrap(),
        &vec![
            Instr::GetLocal(0),
            Instr::GetLocal(0),
            Instr::I64ExtendUI32,
            Instr::I64Const(10000),
            Instr::I64Mul,
            Instr::Call(1),
            Instr::GrowMemory,
            Instr::End
        ][..]
    );
}

#[test]
fn grow_no_gas_no_track() {
    let mut module = one_func_module(
        vec![],
        vec![ValType::I32],
        vec![Instr::GetGlobal(0), Instr::GrowMemory, Instr::End],
    );
    module.globals.push(GlobalDef {
        ty: ValType::I32,
        mutable: false,
        init: InitExpr::I32Const(42),
    });
    module.memories.push((0, Some(1)));

    let injected_module = inject(module, &ConstantCostRules::default(), "env").unwrap();

    assert_eq!(
        get_function_body(&injected_module, 0).unwrap(),
        &vec![
            Instr::I64Const(2),
            Instr::Call(1),
            Instr::GetGlobal(1),
            Instr::GrowMemory,
            Instr::End
        ][..]
    );

    assert_eq!(injected_module.functions_space(), Some(2));
}

#[test]
fn call_index() {
    let mut module = empty_module();
    module.types.push(FuncType {
        params: vec![ValType::I32],
        results: vec![],
    });
    module.globals.push(GlobalDef {
        ty: ValType::I32,
        mutable: false,
        init: InitExpr::I32Const(0),
    });
    module.funcs.push(0);
    module.code.push(FuncBody {
        locals: 0,
        code: vec![Instr::End],
    });
    module.funcs.push(0);
    module.code.push(FuncBody {
        locals: 0,
        code: vec![
            Instr::Call(0),
            Instr::If(EMPTY_BLOCK),
            Instr::Call(0),
            Instr::Call(0),
            Instr::Call(0),
            Instr::Else,
            Instr::Call(0),
            Instr::Call(0),
            Instr::End,
            Instr::Call(0),
            Instr::End,
        ],
    });

    let injected_module = inject(module, &ConstantCostRules::default(), "env").unwrap();

    assert_eq!(
        get_function_body(&injected_module, 1).unwrap(),
        &vec![
            Instr::I64Const(3),
            Instr::Call(2),
            Instr::Call(0),
            Instr::If(EMPTY_BLOCK),
            Instr::I64Const(3),
            Instr::Call(2),
            Instr::Call(0),
            Instr::Call(0),
            Instr::Call(0),
            Instr::Else,
            Instr::I64Const(2),
            Instr::Call(2),
            Instr::Call(0),
            Instr::Call(0),
            Instr::End,
            Instr::Call(0),
            Instr::End
        ][..]
    );
}

#[test]
fn test_gas_error_fvm_fuzzin_5() {
    let mut module = empty_module();
    let types: Vec<(Vec<ValType>, Vec<ValType>)> = vec![
        (vec![], vec![ValType::I32]),
        (vec![ValType::I32], vec![]),
        (vec![ValType::I32], vec![ValType::I32]),
        (vec![ValType::I32, ValType::I32], vec![]),
        (vec![ValType::I32], vec![ValType::I64]),
        (vec![ValType::I32, ValType::I32, ValType::I32], vec![ValType::I64]),
        (vec![ValType::I32, ValType::I32, ValType::I32], vec![]),
        (vec![ValType::I32, ValType::I32], vec![ValType::I32]),
        (
            vec![ValType::I32, ValType::I32, ValType::I32, ValType::I32],
            vec![],
        ),
        (vec![ValType::I64, ValType::I32], vec![ValType::I64]),
        (vec![ValType::I32, ValType::I64], vec![]),
    ];
    for (params, results) in types {
        module.types.push(FuncType { params, results });
    }
    module.imports.push(Import {
        module: "env".to_owned(),
        field: "memory".to_owned(),
        kind: ImportKind::Memory {
            min: 256,
            max: Some(256),
        },
    });
    module.imports.push(Import {
        module: "env".to_owned(),
        field: "DYNAMICTOP_PTR".to_owned(),
        kind: ImportKind::Global {
            ty: ValType::I32,
            mutable: false,
        },
    });
    module.imports.push(Import {
        module: "env".to_owned(),
        field: "STACKTOP".to_owned(),
        kind: ImportKind::Global {
            ty: ValType::I32,
            mutable: false,
        },
    });
    for (field, ty) in [
        ("enlargeMemory", 0u32),
        ("getTotalMemory", 0),
        ("abortOnCannotGrowMemory", 0),
        ("___setErrNo", 1),
    ] {
        module.imports.push(Import {
            module: "env".to_owned(),
            field: field.to_owned(),
            kind: ImportKind::Func(ty),
        });
    }
    module.funcs.push(9);
    module.code.push(FuncBody {
        locals: 0,
        code: vec![
            Instr::GetLocal(0),
            Instr::I32Const(64),
            Instr::GetLocal(1),
            Instr::I32Sub,
            Instr::I64ExtendUI32,
            Instr::Other {
                pops: 2,
                pushes: 1,
                op: 0x86,
            },
            Instr::GetLocal(0),
            Instr::GetLocal(1),
            Instr::I64ExtendUI32,
            Instr::Other {
                pops: 2,
                pushes: 1,
                op: 0x88,
            },
            Instr::Other {
                pops: 2,
                pushes: 1,
                op: 0x84,
            },
            Instr::End,
        ],
    });

    let _injected_module = inject(module, &ConstantCostRules::default(), "other")
        .expect("inject_gas_counter call failed");
}

/// The gas import is unique after injection, and a module that already
/// imports the gas slot is refused.
#[test]
fn gas_import_unique_and_conflict_refused() {
    let module = one_func_module(vec![], vec![], vec![Instr::End]);
    let injected = inject(module, &ConstantCostRules::default(), "env").unwrap();
    let matching = injected
        .imports
        .iter()
        .filter(|imp| {
            imp.module == "env"
                && imp.field == "gas_counter"
                && matches!(
                    imp.kind,
                    ImportKind::Global { mutable: true, .. }
                )
        })
        .count();
    assert_eq!(matching, 1);
    assert_eq!(injected.imports.len(), 1);

    let mut conflicted = one_func_module(vec![], vec![], vec![Instr::End]);
    conflicted.imports.push(Import {
        module: "env".to_owned(),
        field: "gas_counter".to_owned(),
        kind: ImportKind::Global {
            ty: ValType::I64,
            mutable: true,
        },
    });
    assert!(inject(conflicted, &ConstantCostRules::default(), "env").is_err());
}

/// A segment whose offset is not a single `i32.const` fails the injection.
#[test]
fn non_constant_offset_refused() {
    let mut module = one_func_module(vec![], vec![], vec![Instr::End]);
    module.tables.push((1, None));
    module.elements.push(ElemSegment {
        offset: Some(InitExpr::Other),
        funcs: vec![0],
    });
    assert!(inject(module, &ConstantCostRules::default(), "env").is_err());
}

// The scenarios below pin the metered-block boundaries: the body-wide
// prelude, arms of an `if`, blocks cut short by escaping branches, loops.

fn expect_metered(input: Vec<Instr>, expected: Vec<Instr>) {
    let module = one_func_module(vec![], vec![ValType::I32], input);
    let injected = inject(module, &ConstantCostRules::default(), "env")
        .expect("inject_gas_counter call failed");
    assert_eq!(get_function_body(&injected, 0).unwrap(), &expected[..]);
}

#[test]
fn simple() {
    expect_metered(
        vec![Instr::GetGlobal(0), Instr::End],
        vec![
            Instr::I64Const(1),
            Instr::Call(1),
            Instr::GetGlobal(1),
            Instr::End,
        ],
    );
}

#[test]
fn nested() {
    expect_metered(
        vec![
            Instr::GetGlobal(0),
            Instr::Block(EMPTY_BLOCK),
            Instr::GetGlobal(0),
            Instr::GetGlobal(0),
            Instr::GetGlobal(0),
            Instr::End,
            Instr::GetGlobal(0),
            Instr::End,
        ],
        vec![
            Instr::I64Const(6),
            Instr::Call(1),
            Instr::GetGlobal(1),
            Instr::Block(EMPTY_BLOCK),
            Instr::GetGlobal(1),
            Instr::GetGlobal(1),
            Instr::GetGlobal(1),
            Instr::End,
            Instr::GetGlobal(1),
            Instr::End,
        ],
    );
}

#[test]
fn ifelse() {
    expect_metered(
        vec![
            Instr::GetGlobal(0),
            Instr::If(EMPTY_BLOCK),
            Instr::GetGlobal(0),
            Instr::GetGlobal(0),
            Instr::GetGlobal(0),
            Instr::Else,
            Instr::GetGlobal(0),
            Instr::GetGlobal(0),
            Instr::End,
            Instr::GetGlobal(0),
            Instr::End,
        ],
        vec![
            Instr::I64Const(3),
            Instr::Call(1),
            Instr::GetGlobal(1),
            Instr::If(EMPTY_BLOCK),
            Instr::I64Const(3),
            Instr::Call(1),
            Instr::GetGlobal(1),
            Instr::GetGlobal(1),
            Instr::GetGlobal(1),
            Instr::Else,
            Instr::I64Const(2),
            Instr::Call(1),
            Instr::GetGlobal(1),
            Instr::GetGlobal(1),
            Instr::End,
            Instr::GetGlobal(1),
            Instr::End,
        ],
    );
}

#[test]
fn branch_innermost() {
    expect_metered(
        vec![
            Instr::GetGlobal(0),
            Instr::Block(EMPTY_BLOCK),
            Instr::GetGlobal(0),
            Instr::Drop,
            Instr::Br(0),
            Instr::GetGlobal(0),
            Instr::Drop,
            Instr::End,
            Instr::GetGlobal(0),
            Instr::End,
        ],
        vec![
            Instr::I64Const(6),
            Instr::Call(1),
            Instr::GetGlobal(1),
            Instr::Block(EMPTY_BLOCK),
            Instr::GetGlobal(1),
            Instr::Drop,
            Instr::Br(0),
            Instr::I64Const(2),
            Instr::Call(1),
            Instr::GetGlobal(1),
            Instr::Drop,
            Instr::End,
            Instr::GetGlobal(1),
            Instr::End,
        ],
    );
}

#[test]
fn branch_outer_block() {
    expect_metered(
        vec![
            Instr::GetGlobal(0),
            Instr::Block(EMPTY_BLOCK),
            Instr::GetGlobal(0),
            Instr::If(EMPTY_BLOCK),
            Instr::GetGlobal(0),
            Instr::GetGlobal(0),
            Instr::Drop,
            Instr::BrIf(1),
            Instr::End,
            Instr::GetGlobal(0),
            Instr::Drop,
            Instr::End,
            Instr::GetGlobal(0),
            Instr::End,
        ],
        vec![
            Instr::I64Const(5),
            Instr::Call(1),
            Instr::GetGlobal(1),
            Instr::Block(EMPTY_BLOCK),
            Instr::GetGlobal(1),
            Instr::If(EMPTY_BLOCK),
            Instr::I64Const(4),
            Instr::Call(1),
            Instr::GetGlobal(1),
            Instr::GetGlobal(1),
            Instr::Drop,
            Instr::BrIf(1),
            Instr::End,
            Instr::I64Const(2),
            Instr::Call(1),
            Instr::GetGlobal(1),
            Instr::Drop,
            Instr::End,
            Instr::GetGlobal(1),
            Instr::End,
        ],
    );
}

#[test]
fn branch_outer_loop() {
    expect_metered(
        vec![
            Instr::GetGlobal(0),
            Instr::Loop(EMPTY_BLOCK),
            Instr::GetGlobal(0),
            Instr::If(EMPTY_BLOCK),
            Instr::GetGlobal(0),
            Instr::BrIf(0),
            Instr::Else,
            Instr::GetGlobal(0),
            Instr::GetGlobal(0),
            Instr::Drop,
            Instr::BrIf(1),
            Instr::End,
            Instr::GetGlobal(0),
            Instr::Drop,
            Instr::End,
            Instr::GetGlobal(0),
            Instr::End,
        ],
        vec![
            Instr::I64Const(3),
            Instr::Call(1),
            Instr::GetGlobal(1),
            Instr::Loop(EMPTY_BLOCK),
            Instr::I64Const(4),
            Instr::Call(1),
            Instr::GetGlobal(1),
            Instr::If(EMPTY_BLOCK),
            Instr::I64Const(2),
            Instr::Call(1),
            Instr::GetGlobal(1),
            Instr::BrIf(0),
            Instr::Else,
            Instr::I64Const(4),
            Instr::Call(1),
            Instr::GetGlobal(1),
            Instr::GetGlobal(1),
            Instr::Drop,
            Instr::BrIf(1),
            Instr::End,
            Instr::GetGlobal(1),
            Instr::Drop,
            Instr::End,
            Instr::GetGlobal(1),
            Instr::End,
        ],
    );
}

#[test]
fn return_from_func() {
    expect_metered(
        vec![
            Instr::GetGlobal(0),
            Instr::If(EMPTY_BLOCK),
            Instr::Return,
            Instr::End,
            Instr::GetGlobal(0),
            Instr::End,
        ],
        vec![
            Instr::I64Const(2),
            Instr::Call(1),
            Instr::GetGlobal(1),
            Instr::If(EMPTY_BLOCK),
            Instr::I64Const(1),
            Instr::Call(1),
            Instr::Return,
            Instr::End,
            Instr::I64Const(1),
            Instr::Call(1),
            Instr::GetGlobal(1),
            Instr::End,
        ],
    );
}

#[test]
fn branch_from_if_not_else() {
    expect_metered(
        vec![
            Instr::GetGlobal(0),
            Instr::Block(EMPTY_BLOCK),
            Instr::GetGlobal(0),
            Instr::If(EMPTY_BLOCK),
            Instr::Br(1),
            Instr::Else,
            Instr::Br(0),
            Instr::End,
            Instr::GetGlobal(0),
            Instr::Drop,
            Instr::End,
            Instr::GetGlobal(0),
            Instr::End,
        ],
        vec![
            Instr::I64Const(5),
            Instr::Call(1),
            Instr::GetGlobal(1),
            Instr::Block(EMPTY_BLOCK),
            Instr::GetGlobal(1),
            Instr::If(EMPTY_BLOCK),
            Instr::I64Const(1),
            Instr::Call(1),
            Instr::Br(1),
            Instr::Else,
            Instr::I64Const(1),
            Instr::Call(1),
            Instr::Br(0),
            Instr::End,
            Instr::I64Const(2),
            Instr::Call(1),
            Instr::GetGlobal(1),
            Instr::Drop,
            Instr::End,
            Instr::GetGlobal(1),
            Instr::End,
        ],
    );
}

#[test]
fn empty_loop() {
    expect_metered(
        vec![
            Instr::Loop(EMPTY_BLOCK),
            Instr::Br(0),
            Instr::End,
            Instr::Unreachable,
            Instr::End,
        ],
        vec![
            Instr::I64Const(2),
            Instr::Call(1),
            Instr::Loop(EMPTY_BLOCK),
            Instr::I64Const(1),
            Instr::Call(1),
            Instr::Br(0),
            Instr::End,
            Instr::Unreachable,
            Instr::End,
        ],
    );
}
