use wasm_instrument::gas_metering::{self, ConstantCostRules};
use wasm_instrument::module::{
    BlockArity, ElemSegment, Export, ExportKind, FuncBody, FuncType, GlobalDef, Import,
    ImportKind, InitExpr, Instr, Module, ValType,
};
use wasm_instrument::stack_limiter::{compute_stack_costs, inject};

fn empty_module() -> Module {
    Module {
        types: vec![],
        imports: vec![],
        funcs: vec![],
        tables: vec![],
        memories: vec![],
        globals: vec![],
        exports: vec![],
        start: None,
        elements: vec![],
        code: vec![],
        data: vec![],
    }
}

fn add_module() -> Module {
    let mut m = empty_module();
    m.types.push(FuncType {
        params: vec![ValType::I32, ValType::I32],
        results: vec![ValType::I32],
    });
    m.funcs.push(0);
    m.code.push(FuncBody {
        locals: 0,
        code: vec![
            Instr::GetLocal(0),
            Instr::GetLocal(1),
            Instr::I32Add,
            Instr::End,
        ],
    });
    m.exports.push(Export {
        name: "i32.add".to_owned(),
        kind: ExportKind::Func(0),
    });
    m
}

#[test]
fn test_with_params_and_result() {
    let module = add_module();
    let injected = inject(module, 1024).expect("Failed to inject stack counter");

    // Exactly one new mutable `i32` global initialised to zero.
    assert_eq!(injected.globals.len(), 1);
    assert_eq!(
        injected.globals[0],
        GlobalDef {
            ty: ValType::I32,
            mutable: true,
            init: InitExpr::I32Const(0),
        }
    );
    // One thunk for the exported entry, and the export points at it.
    assert_eq!(injected.funcs.len(), 2);
    assert_eq!(injected.code.len(), 2);
    assert_eq!(injected.exports[0].kind, ExportKind::Func(1));
}

/// The thunk forwards the parameters, wraps the call in the height
/// bookkeeping, and the original body is unchanged (it calls nobody).
#[test]
fn thunk_shape() {
    let injected = inject(add_module(), 1024).expect("Failed to inject stack counter");
    // Stack cost of the original: 2 params + 0 locals + max height 2.
    assert_eq!(
        injected.code[1].code,
        vec![
            Instr::GetLocal(0),
            Instr::GetLocal(1),
            Instr::GetGlobal(0),
            Instr::I32Const(4),
            Instr::I32Add,
            Instr::SetGlobal(0),
            Instr::GetGlobal(0),
            Instr::I32Const(1024),
            Instr::I32GtU,
            Instr::If(BlockArity { params: 0, results: 0 }),
            Instr::Unreachable,
            Instr::End,
            Instr::Call(0),
            Instr::GetGlobal(0),
            Instr::I32Const(4),
            Instr::I32Sub,
            Instr::SetGlobal(0),
            Instr::End,
        ]
    );
    assert_eq!(
        injected.code[0].code,
        vec![
            Instr::GetLocal(0),
            Instr::GetLocal(1),
            Instr::I32Add,
            Instr::End,
        ]
    );
}

/// Stack costs: parameters plus declared locals plus the maximum operand
/// stack height.
#[test]
fn stack_costs_params_locals_height() {
    let mut m = add_module();
    m.code[0].locals = 3;
    let costs = compute_stack_costs(&m).unwrap();
    // 2 params + 3 locals + height 2.
    assert_eq!(costs, vec![7]);
}

/// Imported functions have stack cost zero.
#[test]
fn imported_function_cost_zero() {
    let mut m = add_module();
    m.types.push(FuncType {
        params: vec![],
        results: vec![],
    });
    m.imports.push(Import {
        module: "env".to_owned(),
        field: "f".to_owned(),
        kind: ImportKind::Func(1),
    });
    let costs = compute_stack_costs(&m).unwrap();
    assert_eq!(costs, vec![0, 4]);
}

/// The height analysis follows control flow: the two arms of an `if` do not
/// add up, and unreachable code after a branch absorbs its pops.
#[test]
fn height_through_control_flow() {
    let mut m = empty_module();
    m.types.push(FuncType {
        params: vec![],
        results: vec![ValType::I32],
    });
    m.funcs.push(0);
    m.code.push(FuncBody {
        locals: 0,
        code: vec![
            Instr::I32Const(1),
            Instr::If(BlockArity { params: 0, results: 1 }),
            Instr::I32Const(2),
            Instr::Else,
            Instr::I32Const(3),
            Instr::I32Const(4),
            Instr::Drop,
            Instr::End,
            Instr::End,
        ],
    });
    let costs = compute_stack_costs(&m).unwrap();
    // Maximum height is two operands (inside the else arm).
    assert_eq!(costs, vec![2]);
}

/// A direct call to a costly function is wrapped in the preamble and
/// postamble; a call to a cost-zero (imported) function is not.
#[test]
fn direct_calls_wrapped() {
    let mut m = empty_module();
    m.types.push(FuncType {
        params: vec![],
        results: vec![],
    });
    m.imports.push(Import {
        module: "env".to_owned(),
        field: "host".to_owned(),
        kind: ImportKind::Func(0),
    });
    // Function 1: does nothing, but has a local, so its cost is 1.
    m.funcs.push(0);
    m.code.push(FuncBody {
        locals: 1,
        code: vec![Instr::End],
    });
    // Function 2: calls both.
    m.funcs.push(0);
    m.code.push(FuncBody {
        locals: 0,
        code: vec![Instr::Call(0), Instr::Call(1), Instr::End],
    });
    let injected = inject(m, 7).unwrap();
    assert_eq!(
        injected.code[1].code,
        vec![
            Instr::Call(0),
            Instr::GetGlobal(0),
            Instr::I32Const(1),
            Instr::I32Add,
            Instr::SetGlobal(0),
            Instr::GetGlobal(0),
            Instr::I32Const(7),
            Instr::I32GtU,
            Instr::If(BlockArity { params: 0, results: 0 }),
            Instr::Unreachable,
            Instr::End,
            Instr::Call(1),
            Instr::GetGlobal(0),
            Instr::I32Const(1),
            Instr::I32Sub,
            Instr::SetGlobal(0),
            Instr::End,
        ]
    );
}

/// Element-segment entries and the start section are routed through thunks.
#[test]
fn start_and_elements_thunked() {
    let mut m = add_module();
    m.exports.clear();
    m.start = Some(0);
    m.tables.push((1, None));
    m.elements.push(ElemSegment {
        offset: Some(InitExpr::I32Const(0)),
        funcs: vec![0, 0],
    });
    let injected = inject(m, 1024).unwrap();
    // One thunk, shared by the start section and both element entries.
    assert_eq!(injected.funcs.len(), 2);
    assert_eq!(injected.start, Some(1));
    assert_eq!(injected.elements[0].funcs, vec![1, 1]);
}

/// A malformed body (operand-stack underflow) is refused.
#[test]
fn underflow_refused() {
    let mut m = empty_module();
    m.types.push(FuncType {
        params: vec![],
        results: vec![],
    });
    m.funcs.push(0);
    m.code.push(FuncBody {
        locals: 0,
        code: vec![Instr::Drop, Instr::End],
    });
    assert!(inject(m, 1024).is_err());
}

/// Gas injection and stack limiting compose, in either order.
#[test]
fn passes_compose() {
    let m = add_module();
    let gas_first = gas_metering::inject(m, &ConstantCostRules::default(), "env").unwrap();
    let both = inject(gas_first, 1024).expect("stack limiting after gas injection failed");
    // The gas import survives, and the new height global is appended.
    assert_eq!(both.imports.len(), 1);
    assert_eq!(both.globals.len(), 1);

    let m2 = add_module();
    let stack_first = inject(m2, 1024).unwrap();
    let both2 = gas_metering::inject(stack_first, &ConstantCostRules::default(), "env")
        .expect("gas injection after stack limiting failed");
    assert_eq!(both2.imports.len(), 1);
    // The height global moved up by one for the new gas import.
    assert_eq!(both2.globals.len(), 1);
}
