//! Stack height limiting.
//!
//! [`inject`] rewrites a module so that the height of its call stack is
//! bounded: a new mutable `i32` global tracks the height, every direct call
//! to a function with positive stack cost is wrapped in a preamble that bumps
//! and checks the counter and a postamble that lowers it again, and every
//! function reachable from outside — exports, the start function, table
//! elements — is routed through a synthesised thunk applying the same
//! discipline.

use vstd::prelude::*;

use crate::module::{
    count_func_imports, count_global_imports, instr_clone, BlockArity, ElemSegment, Export,
    ExportKind, FuncBody, FuncType, GlobalDef, Import, ImportKind, InitExpr, Instr, InstrV,
    Module, ValType,
};

verus! {

/// One control frame of the height analysis: the operand-stack height at the
/// frame's base, the block's parameter and result arities, the arity a branch
/// to it carries, and whether code in it is (or started out) unreachable.
#[derive(Debug, PartialEq, Eq, Structural, Copy, Clone)]
pub struct HFrame {
    pub start_height: u32,
    pub params: u32,
    pub end_arity: u32,
    pub br_arity: u32,
    pub entry_poly: bool,
    pub poly: bool,
}

/// The state of the height analysis: current height, maximum seen, and the
/// stack of open control frames.
pub struct HState {
    pub height: u32,
    pub max: u32,
    pub frames: Seq<HFrame>,
}

/// A value operation popping `pops` and pushing `pushes` operands. Under an
/// unreachable (polymorphic) stack the operation is absorbed; otherwise the
/// stack must be deep enough, and the height moves by the signature's delta.
pub open spec fn s_h_value(st: HState, pops: int, pushes: int) -> Option<HState> {
    if st.frames.len() == 0 {
        None
    } else if st.frames.last().poly {
        Some(st)
    } else if st.height < pops {
        None
    } else if st.height - pops + pushes > u32::MAX {
        None
    } else {
        let h2 = ((st.height - pops + pushes) as u32);
        Some(
            HState {
                height: h2,
                max: if h2 > st.max {
                    h2
                } else {
                    st.max
                },
                frames: st.frames,
            },
        )
    }
}

/// Opening a `block`, `loop` or `if` frame: its base is the height minus the
/// block's parameters; a frame opened in unreachable code is itself
/// unreachable.
pub open spec fn s_h_open(st: HState, a: BlockArity, is_loop: bool) -> Option<HState> {
    if st.frames.len() == 0 {
        None
    } else {
        let br = if is_loop {
            a.params
        } else {
            a.results
        };
        if st.frames.last().poly {
            Some(
                HState {
                    height: st.height,
                    max: st.max,
                    frames: st.frames.push(
                        HFrame {
                            start_height: st.height,
                            params: a.params,
                            end_arity: a.results,
                            br_arity: br,
                            entry_poly: true,
                            poly: true,
                        },
                    ),
                },
            )
        } else if st.height < a.params {
            None
        } else {
            Some(
                HState {
                    height: st.height,
                    max: st.max,
                    frames: st.frames.push(
                        HFrame {
                            start_height: ((st.height - a.params) as u32),
                            params: a.params,
                            end_arity: a.results,
                            br_arity: br,
                            entry_poly: false,
                            poly: false,
                        },
                    ),
                },
            )
        }
    }
}

/// An unconditional transfer (`br`, `br_table`, `return`): pop what the
/// target label carries, then the rest of the block is unreachable.
pub open spec fn s_h_transfer(st: HState, arity: int) -> Option<HState> {
    match s_h_value(st, arity, 0) {
        None => None,
        Some(st1) => Some(
            HState {
                height: st1.height,
                max: st1.max,
                frames: st1.frames.update(
                    st1.frames.len() - 1,
                    (HFrame {
                        poly: true,
                        ..st1.frames.last()
                    }),
                ),
            },
        ),
    }
}

/// Whether some branch-table target is out of range of the control stack.
pub open spec fn any_oob(t: Seq<u32>, n: int) -> bool {
    exists|j: int| 0 <= j < t.len() && #[trigger] t[j] >= n
}

/// One instruction of the height analysis. `types` holds the arity of each
/// type-section entry, `sigs` the arity of each function in index order.
pub open spec fn s_h_step(
    types: Seq<(u32, u32)>,
    sigs: Seq<(u32, u32)>,
    st: HState,
    instr: InstrV,
) -> Option<HState> {
    match instr {
        InstrV::Unreachable => if st.frames.len() == 0 {
            None
        } else {
            Some(
                HState {
                    height: st.height,
                    max: st.max,
                    frames: st.frames.update(
                        st.frames.len() - 1,
                        (HFrame { poly: true, ..st.frames.last() }),
                    ),
                },
            )
        },
        InstrV::Nop => if st.frames.len() == 0 {
            None
        } else {
            Some(st)
        },
        InstrV::Block(a) => s_h_open(st, a, false),
        InstrV::Loop(a) => s_h_open(st, a, true),
        InstrV::If(a) => match s_h_value(st, 1, 0) {
            None => None,
            Some(st1) => s_h_open(st1, a, false),
        },
        InstrV::Else => if st.frames.len() == 0 {
            None
        } else {
            let f = st.frames.last();
            if f.start_height + f.params > u32::MAX {
                None
            } else {
                let h2 = ((f.start_height + f.params) as u32);
                Some(
                    HState {
                        height: h2,
                        max: if h2 > st.max {
                            h2
                        } else {
                            st.max
                        },
                        frames: st.frames.update(
                            st.frames.len() - 1,
                            (HFrame { poly: f.entry_poly, ..f }),
                        ),
                    },
                )
            }
        },
        InstrV::End => if st.frames.len() == 0 {
            None
        } else {
            let f = st.frames.last();
            if f.start_height + f.end_arity > u32::MAX {
                None
            } else {
                let h2 = ((f.start_height + f.end_arity) as u32);
                Some(
                    HState {
                        height: h2,
                        max: if h2 > st.max {
                            h2
                        } else {
                            st.max
                        },
                        frames: st.frames.drop_last(),
                    },
                )
            }
        },
        InstrV::Br(l) => if st.frames.len() == 0 || l >= st.frames.len() {
            None
        } else {
            s_h_transfer(st, st.frames[st.frames.len() - 1 - l].br_arity as int)
        },
        InstrV::BrIf(l) => if st.frames.len() == 0 || l >= st.frames.len() {
            None
        } else {
            let arity = st.frames[st.frames.len() - 1 - l].br_arity as int;
            s_h_value(st, 1 + arity, arity)
        },
        InstrV::BrTable(t, d) => if st.frames.len() == 0 || d >= st.frames.len() || any_oob(
            t,
            st.frames.len() as int,
        ) {
            None
        } else {
            match s_h_value(st, 1, 0) {
                None => None,
                Some(st1) => s_h_transfer(st1, st1.frames[st1.frames.len() - 1 - d].br_arity as int),
            }
        },
        InstrV::Return => if st.frames.len() == 0 {
            None
        } else {
            s_h_transfer(st, st.frames[0].end_arity as int)
        },
        InstrV::Call(f) => if f >= sigs.len() {
            None
        } else {
            s_h_value(st, sigs[f as int].0 as int, sigs[f as int].1 as int)
        },
        InstrV::CallIndirect(t) => if t >= types.len() {
            None
        } else {
            s_h_value(st, types[t as int].0 + 1, types[t as int].1 as int)
        },
        InstrV::Drop => s_h_value(st, 1, 0),
        InstrV::GetLocal(_) => s_h_value(st, 0, 1),
        InstrV::SetLocal(_) => s_h_value(st, 1, 0),
        InstrV::TeeLocal(_) => s_h_value(st, 1, 1),
        InstrV::GetGlobal(_) => s_h_value(st, 0, 1),
        InstrV::SetGlobal(_) => s_h_value(st, 1, 0),
        InstrV::I32Const(_) => s_h_value(st, 0, 1),
        InstrV::I64Const(_) => s_h_value(st, 0, 1),
        InstrV::GrowMemory => s_h_value(st, 1, 1),
        InstrV::I64ExtendUI32 => s_h_value(st, 1, 1),
        InstrV::I64Mul => s_h_value(st, 2, 1),
        InstrV::I64Sub => s_h_value(st, 2, 1),
        InstrV::I64LtS => s_h_value(st, 2, 1),
        InstrV::I32Add => s_h_value(st, 2, 1),
        InstrV::I32Sub => s_h_value(st, 2, 1),
        InstrV::I32GtU => s_h_value(st, 2, 1),
        InstrV::Other { pops, pushes, op: _ } => s_h_value(st, pops as int, pushes as int),
    }
}

/// The analysis run from instruction `i` onward.
pub open spec fn s_h_from(
    types: Seq<(u32, u32)>,
    sigs: Seq<(u32, u32)>,
    body: Seq<InstrV>,
    i: int,
    st: HState,
) -> Option<HState>
    decreases body.len() - i,
{
    if i < 0 || i >= body.len() {
        Some(st)
    } else {
        match s_h_step(types, sigs, st, body[i]) {
            None => None,
            Some(st1) => s_h_from(types, sigs, body, i + 1, st1),
        }
    }
}

/// The maximum operand-stack height a function body can reach, starting from
/// the implicit function frame, or `None` when the body is malformed.
pub open spec fn s_max_height(
    types: Seq<(u32, u32)>,
    sigs: Seq<(u32, u32)>,
    results: u32,
    body: Seq<InstrV>,
) -> Option<u32> {
    let init = HState {
        height: 0,
        max: 0,
        frames: seq![
            HFrame {
                start_height: 0,
                params: 0,
                end_arity: results,
                br_arity: results,
                entry_poly: false,
                poly: false,
            },
        ],
    };
    match s_h_from(types, sigs, body, 0, init) {
        None => None,
        Some(st) => Some(st.max),
    }
}

proof fn lemma_h_unfold(
    types: Seq<(u32, u32)>,
    sigs: Seq<(u32, u32)>,
    body: Seq<InstrV>,
    i: int,
    st: HState,
)
    requires
        0 <= i < body.len(),
    ensures
        s_h_from(types, sigs, body, i, st) == (match s_h_step(types, sigs, st, body[i]) {
            None => None::<HState>,
            Some(st1) => s_h_from(types, sigs, body, i + 1, st1),
        }),
{
}

/// Compute the maximum operand-stack height of `body` by abstract
/// interpretation; the executable counterpart of [`s_max_height`].
#[verifier::loop_isolation(false)]
#[verifier::rlimit(100)]
pub fn max_height(
    type_arities: &Vec<(u32, u32)>,
    func_sigs: &Vec<(u32, u32)>,
    results: u32,
    body: &Vec<Instr>,
) -> (r: Result<u32, ()>)
    ensures
        match r {
            Ok(m) => s_max_height(type_arities@, func_sigs@, results, body.deep_view()) == Some(m),
            Err(_) => s_max_height(type_arities@, func_sigs@, results, body.deep_view()) is None,
        },
{
    let ghost bseq = body.deep_view();
    let mut height: u32 = 0;
    let mut max: u32 = 0;
    let mut frames: Vec<HFrame> = Vec::new();
    frames.push(
        HFrame {
            start_height: 0,
            params: 0,
            end_arity: results,
            br_arity: results,
            entry_poly: false,
            poly: false,
        },
    );
    let ghost init = (HState { height: 0, max: 0, frames: frames@ });
    let mut i: usize = 0;
    while i < body.len()
        invariant
            i <= body@.len(),
            bseq.len() == body@.len(),
            s_h_from(type_arities@, func_sigs@, bseq, i as int, (HState {
                height,
                max,
                frames: frames@,
            })) == s_h_from(type_arities@, func_sigs@, bseq, 0, init),
        decreases body@.len() - i,
    {
        let ghost pre = (HState { height, max, frames: frames@ });
        proof {
            lemma_h_unfold(type_arities@, func_sigs@, bseq, i as int, pre);
            assert(bseq[i as int] == body@[i as int].deep_view());
        }
        let n = frames.len();
        if n == 0 {
            return Err(());
        }
        let top = frames[n - 1];
        match &body[i] {
            Instr::Unreachable => {
                frames[n - 1] = HFrame { poly: true, ..top };
            },
            Instr::Nop => {},
            Instr::Block(a) => {
                match open_frame(&mut height, &mut max, &mut frames, *a, false) {
                    Ok(_) => {},
                    Err(_) => {
                        return Err(());
                    },
                }
            },
            Instr::Loop(a) => {
                match open_frame(&mut height, &mut max, &mut frames, *a, true) {
                    Ok(_) => {},
                    Err(_) => {
                        return Err(());
                    },
                }
            },
            Instr::If(a) => {
                match value_op(&mut height, &mut max, &frames, 1, 0) {
                    Ok(_) => {},
                    Err(_) => {
                        return Err(());
                    },
                }
                match open_frame(&mut height, &mut max, &mut frames, *a, false) {
                    Ok(_) => {},
                    Err(_) => {
                        return Err(());
                    },
                }
            },
            Instr::Else => {
                match top.start_height.checked_add(top.params) {
                    Some(h2) => {
                        height = h2;
                        if h2 > max {
                            max = h2;
                        }
                        frames[n - 1] = HFrame { poly: top.entry_poly, ..top };
                    },
                    None => {
                        return Err(());
                    },
                }
            },
            Instr::End => {
                match top.start_height.checked_add(top.end_arity) {
                    Some(h2) => {
                        height = h2;
                        if h2 > max {
                            max = h2;
                        }
                        frames.pop();
                    },
                    None => {
                        return Err(());
                    },
                }
            },
            Instr::Br(l) => {
                if *l as usize >= n {
                    return Err(());
                }
                let arity = frames[n - 1 - *l as usize].br_arity;
                match value_op(&mut height, &mut max, &frames, arity as u64, 0) {
                    Ok(_) => {},
                    Err(_) => {
                        return Err(());
                    },
                }
                let t2 = frames[n - 1];
                frames[n - 1] = HFrame { poly: true, ..t2 };
            },
            Instr::BrIf(l) => {
                if *l as usize >= n {
                    return Err(());
                }
                let arity = frames[n - 1 - *l as usize].br_arity;
                match value_op(&mut height, &mut max, &frames, 1 + arity as u64, arity as u64) {
                    Ok(_) => {},
                    Err(_) => {
                        return Err(());
                    },
                }
            },
            Instr::BrTable(t, d) => {
                if *d as usize >= n {
                    return Err(());
                }
                let mut j: usize = 0;
                while j < t.len()
                    invariant
                        j <= t@.len(),
                        forall|m: int| 0 <= m < j ==> t@[m] < frames@.len(),
                        n == frames@.len(),
                    decreases t@.len() - j,
                {
                    if t[j] as usize >= n {
                        proof {
                            assert(t@[j as int] >= pre.frames.len());
                            assert(any_oob(t@, pre.frames.len() as int));
                            assert(s_h_step(type_arities@, func_sigs@, pre, bseq[i as int])
                                is None);
                        }
                        return Err(());
                    }
                    j = j + 1;
                }
                match value_op(&mut height, &mut max, &frames, 1, 0) {
                    Ok(_) => {},
                    Err(_) => {
                        return Err(());
                    },
                }
                let arity = frames[n - 1 - *d as usize].br_arity;
                match value_op(&mut height, &mut max, &frames, arity as u64, 0) {
                    Ok(_) => {},
                    Err(_) => {
                        return Err(());
                    },
                }
                let t2 = frames[n - 1];
                frames[n - 1] = HFrame { poly: true, ..t2 };
            },
            Instr::Return => {
                let arity = frames[0].end_arity;
                match value_op(&mut height, &mut max, &frames, arity as u64, 0) {
                    Ok(_) => {},
                    Err(_) => {
                        return Err(());
                    },
                }
                let t2 = frames[n - 1];
                frames[n - 1] = HFrame { poly: true, ..t2 };
            },
            Instr::Call(f) => {
                if *f as usize >= func_sigs.len() {
                    return Err(());
                }
                let sig = func_sigs[*f as usize];
                match value_op(&mut height, &mut max, &frames, sig.0 as u64, sig.1 as u64) {
                    Ok(_) => {},
                    Err(_) => {
                        return Err(());
                    },
                }
            },
            Instr::CallIndirect(t) => {
                if *t as usize >= type_arities.len() {
                    return Err(());
                }
                let ar = type_arities[*t as usize];
                match value_op(&mut height, &mut max, &frames, ar.0 as u64 + 1, ar.1 as u64) {
                    Ok(_) => {},
                    Err(_) => {
                        return Err(());
                    },
                }
            },
            Instr::Drop => {
                match value_op(&mut height, &mut max, &frames, 1, 0) {
                    Ok(_) => {},
                    Err(_) => {
                        return Err(());
                    },
                }
            },
            Instr::SetLocal(_) | Instr::SetGlobal(_) => {
                match value_op(&mut height, &mut max, &frames, 1, 0) {
                    Ok(_) => {},
                    Err(_) => {
                        return Err(());
                    },
                }
            },
            Instr::GetLocal(_) | Instr::GetGlobal(_) | Instr::I32Const(_) | Instr::I64Const(_) => {
                match value_op(&mut height, &mut max, &frames, 0, 1) {
                    Ok(_) => {},
                    Err(_) => {
                        return Err(());
                    },
                }
            },
            Instr::TeeLocal(_) | Instr::GrowMemory | Instr::I64ExtendUI32 => {
                match value_op(&mut height, &mut max, &frames, 1, 1) {
                    Ok(_) => {},
                    Err(_) => {
                        return Err(());
                    },
                }
            },
            Instr::I64Mul | Instr::I64Sub | Instr::I64LtS | Instr::I32Add | Instr::I32Sub
                | Instr::I32GtU => {
                match value_op(&mut height, &mut max, &frames, 2, 1) {
                    Ok(_) => {},
                    Err(_) => {
                        return Err(());
                    },
                }
            },
            Instr::Other { pops, pushes, op: _ } => {
                match value_op(&mut height, &mut max, &frames, *pops as u64, *pushes as u64) {
                    Ok(_) => {},
                    Err(_) => {
                        return Err(());
                    },
                }
            },
        }
        proof {
            assert(s_h_step(type_arities@, func_sigs@, pre, bseq[i as int]) == Some(
                (HState { height, max, frames: frames@ }),
            ));
        }
        i = i + 1;
    }
    Ok(max)
}

/// The executable counterpart of [`s_h_value`], over the shared mutable
/// height and maximum. `pops` and `pushes` are `u64` so that `arity + 1`
/// never wraps.
#[verifier::loop_isolation(false)]
fn value_op(height: &mut u32, max: &mut u32, frames: &Vec<HFrame>, pops: u64, pushes: u64) -> (r:
    Result<(), ()>)
    requires
        pops <= u32::MAX as u64 + 1,
        pushes <= u32::MAX as u64,
    ensures
        match r {
            Ok(_) => s_h_value(
                (HState { height: *old(height), max: *old(max), frames: frames@ }),
                pops as int,
                pushes as int,
            ) == Some((HState { height: *final(height), max: *final(max), frames: frames@ })),
            Err(_) => s_h_value(
                (HState { height: *old(height), max: *old(max), frames: frames@ }),
                pops as int,
                pushes as int,
            ) is None,
        },
{
    let n = frames.len();
    if n == 0 {
        return Err(());
    }
    if frames[n - 1].poly {
        return Ok(());
    }
    if (*height as u64) < pops {
        return Err(());
    }
    let rest = (*height as u64) - pops;
    if rest + pushes > u32::MAX as u64 {
        return Err(());
    }
    let h2 = (rest + pushes) as u32;
    *height = h2;
    if h2 > *max {
        *max = h2;
    }
    Ok(())
}

/// The executable counterpart of [`s_h_open`].
#[verifier::loop_isolation(false)]
fn open_frame(
    height: &mut u32,
    max: &mut u32,
    frames: &mut Vec<HFrame>,
    a: BlockArity,
    is_loop: bool,
) -> (r: Result<(), ()>)
    ensures
        match r {
            Ok(_) => s_h_open(
                (HState { height: *old(height), max: *old(max), frames: old(frames)@ }),
                a,
                is_loop,
            ) == Some(
                (HState { height: *final(height), max: *final(max), frames: final(frames)@ }),
            ),
            Err(_) => s_h_open(
                (HState { height: *old(height), max: *old(max), frames: old(frames)@ }),
                a,
                is_loop,
            ) is None,
        },
{
    let n = frames.len();
    if n == 0 {
        return Err(());
    }
    let br = if is_loop {
        a.params
    } else {
        a.results
    };
    if frames[n - 1].poly {
        frames.push(
            HFrame {
                start_height: *height,
                params: a.params,
                end_arity: a.results,
                br_arity: br,
                entry_poly: true,
                poly: true,
            },
        );
        return Ok(());
    }
    if *height < a.params {
        return Err(());
    }
    frames.push(
        HFrame {
            start_height: *height - a.params,
            params: a.params,
            end_arity: a.results,
            br_arity: br,
            entry_poly: false,
            poly: false,
        },
    );
    Ok(())
}

/// Whether every type's parameter and result counts fit `u32`.
pub open spec fn arities_ok(types: Seq<FuncType>) -> bool {
    forall|k: int|
        0 <= k < types.len() ==> (#[trigger] types[k]).params@.len() <= u32::MAX
            && types[k].results@.len() <= u32::MAX
}

/// The (parameters, results) arity of every type-section entry.
pub open spec fn s_type_arities(types: Seq<FuncType>) -> Seq<(u32, u32)> {
    Seq::new(
        types.len(),
        |k: int| ((types[k].params@.len() as u32, types[k].results@.len() as u32)),
    )
}

/// The type index of every imported function, in import order.
pub open spec fn func_import_types(s: Seq<Import>) -> Seq<u32>
    decreases s.len(),
{
    if s.len() == 0 {
        Seq::empty()
    } else {
        func_import_types(s.drop_last()) + (match s.last().kind {
            ImportKind::Func(t) => seq![t],
            _ => Seq::empty(),
        })
    }
}

/// The type index of every function in the function index space: imported
/// functions first, then defined ones.
pub open spec fn all_type_idx(m: Module) -> Seq<u32> {
    func_import_types(m.imports@) + m.funcs@
}

/// Whether every function's type index is in range.
pub open spec fn sigs_ok(m: Module) -> bool {
    forall|k: int|
        0 <= k < all_type_idx(m).len() ==> #[trigger] all_type_idx(m)[k] < m.types@.len()
}

/// The (parameters, results) arity of every function in index order.
pub open spec fn s_func_sigs(m: Module) -> Seq<(u32, u32)> {
    Seq::new(
        all_type_idx(m).len(),
        |k: int| s_type_arities(m.types@)[all_type_idx(m)[k] as int],
    )
}

proof fn lemma_func_import_types_len(s: Seq<Import>)
    ensures
        func_import_types(s).len() == count_func_imports(s),
    decreases s.len(),
{
    if s.len() > 0 {
        lemma_func_import_types_len(s.drop_last());
    }
}

/// Build the per-type arity table; fails when a count does not fit `u32`.
#[verifier::loop_isolation(false)]
fn type_arities(types: &Vec<FuncType>) -> (r: Result<Vec<(u32, u32)>, ()>)
    ensures
        match r {
            Ok(tar) => arities_ok(types@) && tar@ == s_type_arities(types@),
            Err(_) => !arities_ok(types@),
        },
{
    let mut out: Vec<(u32, u32)> = Vec::new();
    let mut i: usize = 0;
    while i < types.len()
        invariant
            i <= types@.len(),
            out@.len() == i,
            forall|k: int|
                0 <= k < i ==> (#[trigger] types@[k]).params@.len() <= u32::MAX
                    && types@[k].results@.len() <= u32::MAX,
            forall|k: int| 0 <= k < i ==> out@[k] == s_type_arities(types@)[k],
        decreases types@.len() - i,
    {
        let t = &types[i];
        if t.params.len() > u32::MAX as usize || t.results.len() > u32::MAX as usize {
            return Err(());
        }
        out.push((t.params.len() as u32, t.results.len() as u32));
        i = i + 1;
    }
    proof {
        assert(out@ =~= s_type_arities(types@));
    }
    Ok(out)
}

/// Build the per-function arity table; fails when some function's type index
/// is out of range.
#[verifier::loop_isolation(false)]
fn func_sigs_exec(m: &Module, tar: &Vec<(u32, u32)>) -> (r: Result<Vec<(u32, u32)>, ()>)
    requires
        tar@ == s_type_arities(m.types@),
    ensures
        match r {
            Ok(sigs) => sigs_ok(*m) && sigs@ == s_func_sigs(*m),
            Err(_) => !sigs_ok(*m),
        },
{
    let ghost all = all_type_idx(*m);
    let mut idx: Vec<u32> = Vec::new();
    let mut i: usize = 0;
    while i < m.imports.len()
        invariant
            i <= m.imports@.len(),
            idx@ == func_import_types(m.imports@.take(i as int)),
        decreases m.imports@.len() - i,
    {
        proof {
            assert(m.imports@.take(i + 1).drop_last() =~= m.imports@.take(i as int));
            assert(m.imports@.take(i + 1).last() == m.imports@[i as int]);
        }
        let ghost ipre = idx@;
        match &m.imports[i].kind {
            ImportKind::Func(t) => {
                idx.push(*t);
                proof {
                    assert(idx@ =~= ipre + seq![m.imports@[i as int].kind->Func_0]);
                }
            },
            _ => {
                proof {
                    assert(idx@ =~= ipre + Seq::<u32>::empty());
                }
            },
        }
        i = i + 1;
    }
    proof {
        assert(m.imports@.take(m.imports@.len() as int) =~= m.imports@);
    }
    let mut j: usize = 0;
    while j < m.funcs.len()
        invariant
            j <= m.funcs@.len(),
            idx@ == func_import_types(m.imports@) + m.funcs@.take(j as int),
        decreases m.funcs@.len() - j,
    {
        let ghost ipre = idx@;
        idx.push(m.funcs[j]);
        proof {
            assert(idx@ =~= func_import_types(m.imports@) + m.funcs@.take(j + 1));
        }
        j = j + 1;
    }
    proof {
        assert(m.funcs@.take(m.funcs@.len() as int) =~= m.funcs@);
        assert(idx@ == all);
    }
    let mut sigs: Vec<(u32, u32)> = Vec::new();
    let mut k: usize = 0;
    while k < idx.len()
        invariant
            k <= idx@.len(),
            idx@ == all,
            sigs@.len() == k,
            forall|n: int| 0 <= n < k ==> all[n] < m.types@.len(),
            forall|n: int| 0 <= n < k ==> sigs@[n] == s_func_sigs(*m)[n],
        decreases idx@.len() - k,
    {
        let t = idx[k];
        if t as usize >= tar.len() {
            return Err(());
        }
        sigs.push(tar[t as usize]);
        k = k + 1;
    }
    proof {
        assert(sigs@ =~= s_func_sigs(*m));
    }
    Ok(sigs)
}

/// `o` or zero.
pub open spec fn opt_u32(o: Option<u32>) -> u32 {
    match o {
        Some(v) => v,
        None => 0u32,
    }
}

/// The stack cost of one defined function: parameters plus declared locals
/// plus the maximum operand-stack height; `None` on a malformed body or when
/// the sum leaves `u32`.
pub open spec fn s_defined_cost(
    tar: Seq<(u32, u32)>,
    sigs: Seq<(u32, u32)>,
    params: u32,
    locals: u32,
    results: u32,
    body: Seq<InstrV>,
) -> Option<u32> {
    match s_max_height(tar, sigs, results, body) {
        None => None,
        Some(mx) => if params + locals + mx > u32::MAX {
            None
        } else {
            Some(((params + locals + mx) as u32))
        },
    }
}

/// The cost of function `i` of `m` (zero for imports), assuming tables built.
pub open spec fn s_cost_of(m: Module, i: int) -> Option<u32> {
    let tar = s_type_arities(m.types@);
    let sigs = s_func_sigs(m);
    let ic = count_func_imports(m.imports@);
    if i < ic {
        Some(0u32)
    } else {
        s_defined_cost(
            tar,
            sigs,
            sigs[i].0,
            m.code@[i - ic].locals,
            sigs[i].1,
            m.code@[i - ic].code.deep_view(),
        )
    }
}

/// The stack cost of every function of `m`, or `None` when a table cannot be
/// built or some defined function's cost cannot.
pub open spec fn s_stack_costs(m: Module) -> Option<Seq<u32>> {
    if !arities_ok(m.types@) || !sigs_ok(m) {
        None
    } else if exists|i: int| 0 <= i < all_type_idx(m).len() && (#[trigger] s_cost_of(m, i))
        is None {
        None
    } else {
        Some(Seq::new(all_type_idx(m).len(), |i: int| opt_u32(s_cost_of(m, i))))
    }
}

/// Calculate the stack cost of every function, including imports (whose cost
/// is zero): parameters plus declared locals plus the maximum operand-stack
/// height of the body.
#[verifier::loop_isolation(false)]
pub fn compute_stack_costs(m: &Module) -> (r: Result<Vec<u32>, ()>)
    requires
        m.funcs@.len() == m.code@.len(),
    ensures
        match r {
            Ok(c) => s_stack_costs(*m) == Some(c@),
            Err(_) => s_stack_costs(*m) is None,
        },
{
    let tar = match type_arities(&m.types) {
        Ok(t) => t,
        Err(_) => {
            return Err(());
        },
    };
    let sigs = match func_sigs_exec(m, &tar) {
        Ok(s) => s,
        Err(_) => {
            return Err(());
        },
    };
    let ic = m.num_imported_functions();
    proof {
        lemma_func_import_types_len(m.imports@);
        assert(sigs@.len() == all_type_idx(*m).len());
        assert(all_type_idx(*m).len() == ic + m.funcs@.len());
    }
    let mut costs: Vec<u32> = Vec::new();
    let mut i: usize = 0;
    while i < sigs.len()
        invariant
            i <= sigs@.len(),
            costs@.len() == i,
            forall|n: int| 0 <= n < i ==> s_cost_of(*m, n) == Some(costs@[n]),
        decreases sigs@.len() - i,
    {
        if i < ic {
            costs.push(0);
        } else {
            let j = i - ic;
            let body = &m.code[j];
            let mx = match max_height(&tar, &sigs, sigs[i].1, &body.code) {
                Ok(mx) => mx,
                Err(_) => {
                    proof {
                        assert(s_cost_of(*m, i as int) is None);
                    }
                    return Err(());
                },
            };
            let c1 = match sigs[i].0.checked_add(body.locals) {
                Some(c) => c,
                None => {
                    return Err(());
                },
            };
            let c2 = match c1.checked_add(mx) {
                Some(c) => c,
                None => {
                    return Err(());
                },
            };
            costs.push(c2);
        }
        i = i + 1;
    }
    proof {
        assert forall|n: int| 0 <= n < all_type_idx(*m).len() implies !((#[trigger] s_cost_of(
            *m,
            n,
        )) is None) by {
            assert(s_cost_of(*m, n) == Some(costs@[n]));
        }
        assert(costs@ =~= Seq::new(all_type_idx(*m).len(), |i: int| opt_u32(s_cost_of(*m, i))));
    }
    Ok(costs)
}

/// The preamble, call and postamble that replace a direct `call f` with
/// positive stack cost: raise the height global, trap above the limit, call,
/// lower the global again.
pub open spec fn s_call_wrapped(f: u32, cost: u32, global: u32, limit: u32) -> Seq<InstrV> {
    seq![
        InstrV::GetGlobal(global),
        InstrV::I32Const(cost as i32),
        InstrV::I32Add,
        InstrV::SetGlobal(global),
        InstrV::GetGlobal(global),
        InstrV::I32Const(limit as i32),
        InstrV::I32GtU,
        InstrV::If(BlockArity { params: 0, results: 0 }),
        InstrV::Unreachable,
        InstrV::End,
        InstrV::Call(f),
        InstrV::GetGlobal(global),
        InstrV::I32Const(cost as i32),
        InstrV::I32Sub,
        InstrV::SetGlobal(global),
    ]
}

/// A body over its first `i` instructions with every costly direct call
/// wrapped; other instructions are copied unchanged.
pub open spec fn s_instr_prefix(
    body: Seq<InstrV>,
    costs: Seq<u32>,
    global: u32,
    limit: u32,
    i: int,
) -> Seq<InstrV>
    decreases i,
{
    if i <= 0 {
        Seq::empty()
    } else {
        let p = s_instr_prefix(body, costs, global, limit, i - 1);
        match body[i - 1] {
            InstrV::Call(f) => if f < costs.len() && costs[f as int] > 0 {
                p + s_call_wrapped(f, costs[f as int], global, limit)
            } else {
                p.push(body[i - 1])
            },
            _ => p.push(body[i - 1]),
        }
    }
}

/// Wrap every costly direct call of one body; see [`s_instr_prefix`].
#[verifier::loop_isolation(false)]
fn instrument_body(body: &Vec<Instr>, costs: &Vec<u32>, global: u32, limit: u32) -> (r: Vec<
    Instr,
>)
    ensures
        r.deep_view() == s_instr_prefix(body.deep_view(), costs@, global, limit,
        body@.len() as int),
{
    let ghost bseq = body.deep_view();
    let mut out: Vec<Instr> = Vec::new();
    let mut i: usize = 0;
    while i < body.len()
        invariant
            i <= body@.len(),
            bseq.len() == body@.len(),
            out.deep_view() == s_instr_prefix(bseq, costs@, global, limit, i as int),
        decreases body@.len() - i,
    {
        let ghost opre = out.deep_view();
        proof {
            assert(bseq[i as int] == body@[i as int].deep_view());
        }
        let mut wrapped = false;
        match &body[i] {
            Instr::Call(f) => {
                if (*f as usize) < costs.len() && costs[*f as usize] > 0 {
                    let cost = costs[*f as usize];
                    out.push(Instr::GetGlobal(global));
                    out.push(Instr::I32Const(#[verifier::truncate] (cost as i32)));
                    out.push(Instr::I32Add);
                    out.push(Instr::SetGlobal(global));
                    out.push(Instr::GetGlobal(global));
                    out.push(Instr::I32Const(#[verifier::truncate] (limit as i32)));
                    out.push(Instr::I32GtU);
                    out.push(Instr::If(BlockArity { params: 0, results: 0 }));
                    out.push(Instr::Unreachable);
                    out.push(Instr::End);
                    out.push(Instr::Call(*f));
                    out.push(Instr::GetGlobal(global));
                    out.push(Instr::I32Const(#[verifier::truncate] (cost as i32)));
                    out.push(Instr::I32Sub);
                    out.push(Instr::SetGlobal(global));
                    proof {
                        assert(out.deep_view() =~= opre + s_call_wrapped(
                            *f,
                            cost,
                            global,
                            limit,
                        ));
                    }
                    wrapped = true;
                }
            },
            _ => {},
        }
        if !wrapped {
            out.push(instr_clone(&body[i]));
            proof {
                assert(out.deep_view() =~= opre.push(bseq[i as int]));
            }
        }
        i = i + 1;
    }
    out
}

/// The function references of the export section, in order.
pub open spec fn export_refs(s: Seq<Export>) -> Seq<u32>
    decreases s.len(),
{
    if s.len() == 0 {
        Seq::empty()
    } else {
        export_refs(s.drop_last()) + (match s.last().kind {
            ExportKind::Func(f) => seq![f],
            _ => Seq::empty(),
        })
    }
}

/// The function reference of the start section, if any.
pub open spec fn start_refs(s: Option<u32>) -> Seq<u32> {
    match s {
        Some(f) => seq![f],
        None => Seq::empty(),
    }
}

/// The function references of all element segments, in order.
pub open spec fn elem_refs(s: Seq<ElemSegment>) -> Seq<u32>
    decreases s.len(),
{
    if s.len() == 0 {
        Seq::empty()
    } else {
        elem_refs(s.drop_last()) + s.last().funcs@
    }
}

/// Every function reference an export, the start section or an element
/// segment makes, in scanning order.
pub open spec fn all_refs(m: Module) -> Seq<u32> {
    export_refs(m.exports@) + start_refs(m.start) + elem_refs(m.elements@)
}

/// Whether a reference to `f` must go through a thunk: `f` has positive
/// stack cost.
pub open spec fn needs_thunk(costs: Seq<u32>, f: u32) -> bool {
    f < costs.len() && costs[f as int] > 0
}

/// One reference folded into the list of functions needing a thunk.
pub open spec fn s_tl_push(acc: Seq<u32>, costs: Seq<u32>, f: u32) -> Seq<u32> {
    if needs_thunk(costs, f) && !acc.contains(f) {
        acc.push(f)
    } else {
        acc
    }
}

/// The distinct functions needing a thunk among `refs`, in order of first
/// sighting, appended to `acc`.
pub open spec fn s_thunk_list(refs: Seq<u32>, costs: Seq<u32>, acc: Seq<u32>) -> Seq<u32>
    decreases refs.len(),
{
    if refs.len() == 0 {
        acc
    } else {
        s_thunk_list(refs.drop_first(), costs, s_tl_push(acc, costs, refs.first()))
    }
}

proof fn lemma_thunk_list_app(a: Seq<u32>, b: Seq<u32>, costs: Seq<u32>, acc: Seq<u32>)
    ensures
        s_thunk_list(a + b, costs, acc) == s_thunk_list(b, costs, s_thunk_list(a, costs, acc)),
    decreases a.len(),
{
    if a.len() == 0 {
        assert(a + b =~= b);
    } else {
        assert((a + b).first() == a.first());
        assert((a + b).drop_first() =~= a.drop_first() + b);
        lemma_thunk_list_app(a.drop_first(), b, costs, s_tl_push(acc, costs, a.first()));
    }
}

/// Whatever needed a thunk and was seen ends up in the list.
proof fn lemma_thunk_list_complete(refs: Seq<u32>, costs: Seq<u32>, acc: Seq<u32>, f: u32)
    requires
        (refs.contains(f) && needs_thunk(costs, f)) || acc.contains(f),
    ensures
        s_thunk_list(refs, costs, acc).contains(f),
    decreases refs.len(),
{
    if refs.len() == 0 {
    } else {
        let acc1 = s_tl_push(acc, costs, refs.first());
        if acc.contains(f) {
            assert(acc1.contains(f)) by {
                if acc1 != acc {
                    assert(acc1 == acc.push(refs.first()));
                    let w = choose|w: int| 0 <= w < acc.len() && acc[w] == f;
                    assert(acc1[w] == f);
                }
            }
            lemma_thunk_list_complete(refs.drop_first(), costs, acc1, f);
        } else if refs.first() == f {
            assert(acc1.contains(f)) by {
                assert(acc1 == acc.push(f));
                assert(acc1[acc1.len() - 1] == f);
            }
            lemma_thunk_list_complete(refs.drop_first(), costs, acc1, f);
        } else {
            assert(refs.drop_first().contains(f)) by {
                let w = choose|w: int| 0 <= w < refs.len() && refs[w] == f;
                assert(refs.drop_first()[w - 1] == f);
            }
            lemma_thunk_list_complete(refs.drop_first(), costs, acc1, f);
        }
    }
}

/// No index occurs twice.
pub open spec fn distinct_u32(s: Seq<u32>) -> bool {
    forall|a: int, b: int| 0 <= a < b < s.len() ==> s[a] != s[b]
}

#[verifier::loop_isolation(false)]
fn contains_u32(v: &Vec<u32>, x: u32) -> (r: bool)
    ensures
        r == v@.contains(x),
{
    let mut i: usize = 0;
    while i < v.len()
        invariant
            i <= v@.len(),
            forall|j: int| 0 <= j < i ==> v@[j] != x,
        decreases v@.len() - i,
    {
        if v[i] == x {
            return true;
        }
        i = i + 1;
    }
    false
}

#[verifier::loop_isolation(false)]
fn find_u32(v: &Vec<u32>, x: u32) -> (r: Option<usize>)
    ensures
        match r {
            Some(m) => m < v@.len() && v@[m as int] == x,
            None => !v@.contains(x),
        },
{
    let mut i: usize = 0;
    while i < v.len()
        invariant
            i <= v@.len(),
            forall|j: int| 0 <= j < i ==> v@[j] != x,
        decreases v@.len() - i,
    {
        if v[i] == x {
            return Some(i);
        }
        i = i + 1;
    }
    None
}

/// Where a reference to `f` points after thunking: at its thunk when it has
/// one, else unchanged.
pub open spec fn map_ref(costs: Seq<u32>, tl: Seq<u32>, base: u32, f: u32) -> u32 {
    if needs_thunk(costs, f) && tl.contains(f) {
        ((base + (choose|m: int| 0 <= m < tl.len() && tl[m] == f)) as u32)
    } else {
        f
    }
}

/// The body of a thunk for `f`: forward all parameters, then the wrapped
/// call.
pub open spec fn s_thunk_body(params: u32, f: u32, cost: u32, global: u32, limit: u32) -> Seq<
    InstrV,
> {
    Seq::new(params as nat, |i: int| InstrV::GetLocal(i as u32)) + s_call_wrapped(
        f,
        cost,
        global,
        limit,
    ) + seq![InstrV::End]
}

/// Collect the functions that exports, the start section and element segments
/// reference and that need a thunk, in order of first sighting.
#[verifier::loop_isolation(false)]
fn collect_thunk_refs(
    exports: &Vec<Export>,
    start: &Option<u32>,
    elements: &Vec<ElemSegment>,
    costs: &Vec<u32>,
) -> (r: Vec<u32>)
    ensures
        r@ == s_thunk_list(
            export_refs(exports@) + start_refs(*start) + elem_refs(elements@),
            costs@,
            Seq::empty(),
        ),
        distinct_u32(r@),
        forall|k: int| 0 <= k < r@.len() ==> needs_thunk(costs@, #[trigger] r@[k]),
{
    let mut tl: Vec<u32> = Vec::new();
    let mut i: usize = 0;
    while i < exports.len()
        invariant
            i <= exports@.len(),
            tl@ == s_thunk_list(export_refs(exports@.take(i as int)), costs@, Seq::empty()),
            distinct_u32(tl@),
            forall|k: int| 0 <= k < tl@.len() ==> needs_thunk(costs@, #[trigger] tl@[k]),
        decreases exports@.len() - i,
    {
        proof {
            assert(exports@.take(i + 1).drop_last() =~= exports@.take(i as int));
            assert(exports@.take(i + 1).last() == exports@[i as int]);
        }
        match &exports[i].kind {
            ExportKind::Func(f) => {
                proof {
                    assert(export_refs(exports@.take(i + 1)) == export_refs(
                        exports@.take(i as int),
                    ) + seq![*f]);
                    lemma_thunk_list_app(
                        export_refs(exports@.take(i as int)),
                        seq![*f],
                        costs@,
                        Seq::empty(),
                    );
                    assert(seq![*f].drop_first() =~= Seq::<u32>::empty());
                    assert(s_thunk_list(seq![*f], costs@, tl@) == s_thunk_list(
                        Seq::<u32>::empty(),
                        costs@,
                        s_tl_push(tl@, costs@, *f),
                    ));
                    assert(s_thunk_list(Seq::<u32>::empty(), costs@, s_tl_push(tl@, costs@, *f))
                        == s_tl_push(tl@, costs@, *f));
                }
                if (*f as usize) < costs.len() && costs[*f as usize] > 0 && !contains_u32(
                    &tl,
                    *f,
                ) {
                    tl.push(*f);
                }
            },
            _ => {
                proof {
                    assert(export_refs(exports@.take(i + 1)) =~= export_refs(
                        exports@.take(i as int),
                    ));
                }
            },
        }
        i = i + 1;
    }
    proof {
        assert(exports@.take(exports@.len() as int) =~= exports@);
    }
    let ghost after_exports = tl@;
    match start {
        Some(f) => {
            proof {
                assert(start_refs(*start) =~= seq![*f]);
                lemma_thunk_list_app(export_refs(exports@), seq![*f], costs@, Seq::empty());
                assert(seq![*f].drop_first() =~= Seq::<u32>::empty());
                assert(s_thunk_list(seq![*f], costs@, after_exports) == s_thunk_list(
                    Seq::<u32>::empty(),
                    costs@,
                    s_tl_push(after_exports, costs@, *f),
                ));
                assert(s_thunk_list(
                    Seq::<u32>::empty(),
                    costs@,
                    s_tl_push(after_exports, costs@, *f),
                ) == s_tl_push(after_exports, costs@, *f));
            }
            if (*f as usize) < costs.len() && costs[*f as usize] > 0 && !contains_u32(&tl, *f) {
                tl.push(*f);
            }
        },
        None => {
            proof {
                assert(export_refs(exports@) + start_refs(*start) =~= export_refs(exports@));
            }
        },
    }
    proof {
        assert(tl@ == s_thunk_list(
            export_refs(exports@) + start_refs(*start),
            costs@,
            Seq::empty(),
        ));
    }
    let ghost head = export_refs(exports@) + start_refs(*start);
    let mut e: usize = 0;
    while e < elements.len()
        invariant
            e <= elements@.len(),
            tl@ == s_thunk_list(head + elem_refs(elements@.take(e as int)), costs@, Seq::empty()),
            distinct_u32(tl@),
            forall|k: int| 0 <= k < tl@.len() ==> needs_thunk(costs@, #[trigger] tl@[k]),
        decreases elements@.len() - e,
    {
        proof {
            assert(elements@.take(e + 1).drop_last() =~= elements@.take(e as int));
            assert(elements@.take(e + 1).last() == elements@[e as int]);
            assert(elem_refs(elements@.take(e + 1)) == elem_refs(elements@.take(e as int))
                + elements@[e as int].funcs@);
        }
        let seg = &elements[e];
        let ghost seghead = head + elem_refs(elements@.take(e as int));
        let mut j: usize = 0;
        while j < seg.funcs.len()
            invariant
                j <= seg.funcs@.len(),
                seg.funcs@ == elements@[e as int].funcs@,
                tl@ == s_thunk_list(seghead + seg.funcs@.take(j as int), costs@, Seq::empty()),
                distinct_u32(tl@),
                forall|k: int| 0 <= k < tl@.len() ==> needs_thunk(costs@, #[trigger] tl@[k]),
            decreases seg.funcs@.len() - j,
        {
            let f = seg.funcs[j];
            proof {
                assert(seg.funcs@.take(j + 1) =~= seg.funcs@.take(j as int) + seq![f]);
                assert(seghead + seg.funcs@.take(j + 1) =~= (seghead + seg.funcs@.take(j as int))
                    + seq![f]);
                lemma_thunk_list_app(
                    seghead + seg.funcs@.take(j as int),
                    seq![f],
                    costs@,
                    Seq::empty(),
                );
                assert(seq![f].drop_first() =~= Seq::<u32>::empty());
                assert(s_thunk_list(seq![f], costs@, tl@) == s_thunk_list(
                    Seq::<u32>::empty(),
                    costs@,
                    s_tl_push(tl@, costs@, f),
                ));
                assert(s_thunk_list(Seq::<u32>::empty(), costs@, s_tl_push(tl@, costs@, f))
                    == s_tl_push(tl@, costs@, f));
            }
            if (f as usize) < costs.len() && costs[f as usize] > 0 && !contains_u32(&tl, f) {
                tl.push(f);
            }
            j = j + 1;
        }
        proof {
            assert(seg.funcs@.take(seg.funcs@.len() as int) =~= seg.funcs@);
            assert(seghead + seg.funcs@ =~= head + elem_refs(elements@.take(e + 1)));
        }
        e = e + 1;
    }
    proof {
        assert(elements@.take(elements@.len() as int) =~= elements@);
        assert(head + elem_refs(elements@) =~= export_refs(exports@) + start_refs(*start)
            + elem_refs(elements@));
    }
    tl
}

/// Exactly when [`inject`] refuses a module: the stack costs cannot be
/// computed (malformed body, bad index, cost leaving `u32`), or the new
/// global's or the thunks' indices would leave `u32`.
pub open spec fn s_stack_fails(m: Module) -> bool {
    ||| s_stack_costs(m) is None
    ||| count_global_imports(m.imports@) + m.globals@.len() > u32::MAX
    ||| match s_stack_costs(m) {
        None => true,
        Some(costs) => count_func_imports(m.imports@) + m.funcs@.len() + s_thunk_list(
            all_refs(m),
            costs,
            Seq::empty(),
        ).len() > u32::MAX,
    }
}

/// What a successful run returns: one new mutable `i32` global initialised to
/// zero; every body with its costly direct calls wrapped; one thunk appended
/// per distinct externally reachable costly function; and every export, start
/// and element reference routed through its thunk.
pub open spec fn stack_output_ok(m: Module, limit: u32, out: Module) -> bool {
    match s_stack_costs(m) {
        None => false,
        Some(costs) => {
            let gi = (count_global_imports(m.imports@) + m.globals@.len()) as u32;
            let base = (count_func_imports(m.imports@) + m.funcs@.len()) as u32;
            let ic = count_func_imports(m.imports@);
            let tl = s_thunk_list(all_refs(m), costs, Seq::empty());
            &&& count_func_imports(m.imports@) + m.funcs@.len() + tl.len() <= u32::MAX
            &&& out.globals@ == m.globals@.push(
                (GlobalDef { ty: ValType::I32, mutable: true, init: InitExpr::I32Const(0) }),
            )
            &&& out.types@ == m.types@
            &&& out.imports@ == m.imports@
            &&& out.tables@ == m.tables@
            &&& out.memories@ == m.memories@
            &&& out.data@ == m.data@
            &&& out.funcs@.len() == m.funcs@.len() + tl.len()
            &&& out.funcs@.subrange(0, m.funcs@.len() as int) == m.funcs@
            &&& (forall|k: int|
                0 <= k < tl.len() ==> #[trigger] out.funcs@[m.funcs@.len() + k] == m.funcs@[
                    tl[k] - ic
                ])
            &&& out.code@.len() == m.code@.len() + tl.len()
            &&& (forall|i: int|
                0 <= i < m.code@.len() ==> (#[trigger] out.code@[i]).locals == m.code@[i].locals
                    && out.code@[i].code.deep_view() == s_instr_prefix(
                    m.code@[i].code.deep_view(),
                    costs,
                    gi,
                    limit,
                    m.code@[i].code@.len() as int,
                ))
            &&& (forall|k: int|
                0 <= k < tl.len() ==> (#[trigger] out.code@[m.code@.len() + k]).locals == 0
                    && out.code@[m.code@.len() + k].code.deep_view() == s_thunk_body(
                    s_func_sigs(m)[tl[k] as int].0,
                    tl[k],
                    costs[tl[k] as int],
                    gi,
                    limit,
                ))
            &&& out.exports@.len() == m.exports@.len()
            &&& (forall|i: int|
                0 <= i < m.exports@.len() ==> (#[trigger] out.exports@[i]).name
                    == m.exports@[i].name && out.exports@[i].kind == (match m.exports@[i].kind {
                    ExportKind::Func(f) => ExportKind::Func(map_ref(costs, tl, base, f)),
                    k => k,
                }))
            &&& out.start == (match m.start {
                Some(f) => Some(map_ref(costs, tl, base, f)),
                None => None::<u32>,
            })
            &&& out.elements@.len() == m.elements@.len()
            &&& (forall|i: int|
                0 <= i < m.elements@.len() ==> (#[trigger] out.elements@[i]).offset
                    == m.elements@[i].offset && out.elements@[i].funcs@.len()
                    == m.elements@[i].funcs@.len() && (forall|j: int|
                    0 <= j < m.elements@[i].funcs@.len() ==> #[trigger] out.elements@[i].funcs@[j]
                        == map_ref(costs, tl, base, m.elements@[i].funcs@[j])))
        },
    }
}

/// Thunk coverage: in a module that [`inject`] accepted, every function that
/// an export, the start section or an element segment of the output refers to
/// either had stack cost zero or is one of the synthesised thunks (an index
/// at or past the original function index space).
pub proof fn lemma_thunk_coverage(m: Module, limit: u32, out: Module, costs: Seq<u32>)
    requires
        stack_output_ok(m, limit, out),
        s_stack_costs(m) == Some(costs),
    ensures
        forall|i: int|
            0 <= i < out.exports@.len() ==> match (#[trigger] out.exports@[i]).kind {
                ExportKind::Func(f) => f >= count_func_imports(m.imports@) + m.funcs@.len() || (
                f < costs.len() && costs[f as int] == 0),
                _ => true,
            },
        match out.start {
            Some(f) => f >= count_func_imports(m.imports@) + m.funcs@.len() || (f < costs.len()
                && costs[f as int] == 0),
            None => true,
        },
        forall|i: int, j: int|
            0 <= i < out.elements@.len() && 0 <= j < out.elements@[i].funcs@.len()
                ==> #[trigger] out.elements@[i].funcs@[j] >= count_func_imports(m.imports@)
                + m.funcs@.len() || (out.elements@[i].funcs@[j] < costs.len()
                && costs[out.elements@[i].funcs@[j] as int] == 0),
{
    let base = (count_func_imports(m.imports@) + m.funcs@.len()) as u32;
    let tl = s_thunk_list(all_refs(m), costs, Seq::empty());
    lemma_func_import_types_len(m.imports@);
    assert(costs.len() == count_func_imports(m.imports@) + m.funcs@.len());
    assert(count_func_imports(m.imports@) + m.funcs@.len() + tl.len() <= u32::MAX);
    assert forall|f: u32| all_refs(m).contains(f) implies #[trigger] map_ref(costs, tl, base, f)
        >= base || (map_ref(costs, tl, base, f) < costs.len() && costs[map_ref(
        costs,
        tl,
        base,
        f,
    ) as int] == 0) by {
        if needs_thunk(costs, f) {
            lemma_thunk_list_complete(all_refs(m), costs, Seq::empty(), f);
            assert(tl.contains(f));
            let c = choose|c: int| 0 <= c < tl.len() && tl[c] == f;
            assert(map_ref(costs, tl, base, f) == (base + c) as u32);
            assert(base + c <= u32::MAX);
        } else if f < costs.len() {
            assert(costs[f as int] == 0);
        } else {
            assert(f >= base);
        }
    }
    assert forall|i: int| 0 <= i < m.exports@.len() implies match (
    #[trigger] m.exports@[i]).kind {
        ExportKind::Func(f) => all_refs(m).contains(f),
        _ => true,
    } by {
        lemma_export_ref_contained(m.exports@, i);
        match m.exports@[i].kind {
            ExportKind::Func(f) => {
                let w = choose|w: int|
                    0 <= w < export_refs(m.exports@).len() && export_refs(m.exports@)[w] == f;
                assert(all_refs(m)[w] == f);
            },
            _ => {},
        }
    }
    match m.start {
        Some(f) => {
            assert(all_refs(m)[export_refs(m.exports@).len() as int] == f);
            assert(all_refs(m).contains(f));
        },
        None => {},
    }
    assert forall|i: int, j: int|
        0 <= i < m.elements@.len() && 0 <= j < m.elements@[i].funcs@.len() implies all_refs(
        m,
    ).contains(#[trigger] m.elements@[i].funcs@[j]) by {
        lemma_elem_ref_contained(m.elements@, i, j);
        let f = m.elements@[i].funcs@[j];
        let w = choose|w: int|
            0 <= w < elem_refs(m.elements@).len() && elem_refs(m.elements@)[w] == f;
        assert(all_refs(m)[export_refs(m.exports@).len() + start_refs(m.start).len() + w] == f);
    }
}

/// Reference integrity: in a module that [`inject`] accepted, every function
/// reference of an export, the start section or an element segment stays
/// inside the output's function index space, provided the input's references
/// were inside its own.
pub proof fn lemma_reference_integrity(m: Module, limit: u32, out: Module, costs: Seq<u32>)
    requires
        stack_output_ok(m, limit, out),
        s_stack_costs(m) == Some(costs),
        forall|i: int|
            0 <= i < m.exports@.len() ==> match (#[trigger] m.exports@[i]).kind {
                ExportKind::Func(f) => f < count_func_imports(m.imports@) + m.funcs@.len(),
                _ => true,
            },
        match m.start {
            Some(f) => f < count_func_imports(m.imports@) + m.funcs@.len(),
            None => true,
        },
        forall|i: int, j: int|
            0 <= i < m.elements@.len() && 0 <= j < m.elements@[i].funcs@.len()
                ==> #[trigger] m.elements@[i].funcs@[j] < count_func_imports(m.imports@)
                + m.funcs@.len(),
    ensures
        forall|i: int|
            0 <= i < out.exports@.len() ==> match (#[trigger] out.exports@[i]).kind {
                ExportKind::Func(f) => f < count_func_imports(out.imports@) + out.funcs@.len(),
                _ => true,
            },
        match out.start {
            Some(f) => f < count_func_imports(out.imports@) + out.funcs@.len(),
            None => true,
        },
        forall|i: int, j: int|
            0 <= i < out.elements@.len() && 0 <= j < out.elements@[i].funcs@.len()
                ==> #[trigger] out.elements@[i].funcs@[j] < count_func_imports(out.imports@)
                + out.funcs@.len(),
{
    let base = (count_func_imports(m.imports@) + m.funcs@.len()) as u32;
    let tl = s_thunk_list(all_refs(m), costs, Seq::empty());
    assert(count_func_imports(out.imports@) == count_func_imports(m.imports@));
    assert(out.funcs@.len() == m.funcs@.len() + tl.len());
    assert forall|f: u32|
        f < count_func_imports(m.imports@) + m.funcs@.len() implies #[trigger] map_ref(
        costs,
        tl,
        base,
        f,
    ) < count_func_imports(out.imports@) + out.funcs@.len() by {
        if needs_thunk(costs, f) && tl.contains(f) {
            let c = choose|c: int| 0 <= c < tl.len() && tl[c] == f;
            assert(map_ref(costs, tl, base, f) == (base + c) as u32);
            assert(base + c < base + tl.len());
        }
    }
}

proof fn lemma_export_ref_contained(s: Seq<Export>, i: int)
    requires
        0 <= i < s.len(),
    ensures
        match s[i].kind {
            ExportKind::Func(f) => export_refs(s).contains(f),
            _ => true,
        },
    decreases s.len(),
{
    if i == s.len() - 1 {
        match s[i].kind {
            ExportKind::Func(f) => {
                assert(export_refs(s).last() == f);
            },
            _ => {},
        }
    } else {
        lemma_export_ref_contained(s.drop_last(), i);
        match s[i].kind {
            ExportKind::Func(f) => {
                let w = choose|w: int|
                    0 <= w < export_refs(s.drop_last()).len() && export_refs(s.drop_last())[w]
                        == f;
                assert(export_refs(s)[w] == f);
            },
            _ => {},
        }
    }
}

proof fn lemma_elem_ref_contained(s: Seq<ElemSegment>, i: int, j: int)
    requires
        0 <= i < s.len(),
        0 <= j < s[i].funcs@.len(),
    ensures
        elem_refs(s).contains(s[i].funcs@[j]),
    decreases s.len(),
{
    if i == s.len() - 1 {
        assert(elem_refs(s)[elem_refs(s.drop_last()).len() + j] == s[i].funcs@[j]);
    } else {
        lemma_elem_ref_contained(s.drop_last(), i, j);
        let f = s[i].funcs@[j];
        let w = choose|w: int|
            0 <= w < elem_refs(s.drop_last()).len() && elem_refs(s.drop_last())[w] == f;
        assert(elem_refs(s)[w] == f);
    }
}

/// Map one function reference through the thunk table.
#[verifier::loop_isolation(false)]
fn map_ref_exec(costs: &Vec<u32>, tl: &Vec<u32>, base: u32, f: u32) -> (r: u32)
    requires
        distinct_u32(tl@),
        base + tl@.len() <= u32::MAX,
    ensures
        r == map_ref(costs@, tl@, base, f),
{
    if (f as usize) < costs.len() && costs[f as usize] > 0 {
        match find_u32(tl, f) {
            Some(mpos) => {
                proof {
                    assert(tl@.contains(f));
                    let c = choose|c: int| 0 <= c < tl@.len() && tl@[c] == f;
                    assert(c == mpos as int);
                }
                base + (mpos as u32)
            },
            None => f,
        }
    } else {
        f
    }
}

/// Rewrite a module so that it enforces a deterministic bound on the height
/// of its call stack.
///
/// A new mutable `i32` global initialised to zero tracks the height. Every
/// direct call to a function with positive stack cost is wrapped in a
/// preamble that raises the global and traps above `stack_limit`, and a
/// postamble that lowers it. Every function reachable from an export, the
/// start section or an element segment goes through a synthesised thunk with
/// the same discipline. The module is refused exactly on the conditions of
/// [`s_stack_fails`].
#[verifier::loop_isolation(false)]
#[verifier::rlimit(100)]
pub fn inject(module: Module, stack_limit: u32) -> (r: Result<Module, ()>)
    requires
        module.funcs@.len() == module.code@.len(),
    ensures
        r is Err <==> s_stack_fails(module),
        r matches Ok(out) ==> stack_output_ok(module, stack_limit, out),
{
    let costs = match compute_stack_costs(&module) {
        Ok(c) => c,
        Err(_) => {
            return Err(());
        },
    };
    let ig = module.num_imported_globals();
    let gsum = match ig.checked_add(module.globals.len()) {
        Some(g) => g,
        None => {
            return Err(());
        },
    };
    if gsum > u32::MAX as usize {
        return Err(());
    }
    let global_idx: u32 = gsum as u32;
    let ic = module.num_imported_functions();
    let total = match module.functions_space() {
        Some(t) => t,
        None => {
            proof {
                assert(s_stack_fails(module));
            }
            return Err(());
        },
    };
    let tl = collect_thunk_refs(&module.exports, &module.start, &module.elements, &costs);
    if tl.len() > u32::MAX as usize || total > (u32::MAX as usize) - tl.len() {
        return Err(());
    }
    let base: u32 = total as u32;
    proof {
        lemma_func_import_types_len(module.imports@);
        assert(costs@.len() == ic + module.funcs@.len());
    }
    let Module { types, imports, mut funcs, tables, memories, mut globals, exports, start,
        elements, code, data } = module;
    // Wrap the costly direct calls of every body.
    let ghost code0 = code@;
    let mut src = code;
    let mut new_code: Vec<FuncBody> = Vec::new();
    while src.len() > 0
        invariant
            new_code@.len() + src@.len() == code0.len(),
            forall|j: int| 0 <= j < src@.len() ==> src@[j] == code0[new_code@.len() + j],
            forall|i: int|
                0 <= i < new_code@.len() ==> (#[trigger] new_code@[i]).locals == code0[i].locals
                    && new_code@[i].code.deep_view() == s_instr_prefix(
                    code0[i].code.deep_view(),
                    costs@,
                    global_idx,
                    stack_limit,
                    code0[i].code@.len() as int,
                ),
        decreases src@.len(),
    {
        let ghost spre = src@;
        let fb = src.remove(0);
        proof {
            assert(fb == spre[0]);
            assert(src@ =~= spre.drop_first());
        }
        let nb = instrument_body(&fb.code, &costs, global_idx, stack_limit);
        new_code.push(FuncBody { locals: fb.locals, code: nb });
    }
    // One thunk per externally reachable costly function.
    let ghost funcs0 = funcs@;
    let mut k: usize = 0;
    while k < tl.len()
        invariant
            k <= tl@.len(),
            funcs@.len() == funcs0.len() + k,
            funcs@.subrange(0, funcs0.len() as int) == funcs0,
            forall|j: int|
                0 <= j < k ==> #[trigger] funcs@[funcs0.len() + j] == funcs0[tl@[j] - ic],
            new_code@.len() == code0.len() + k,
            forall|i: int|
                0 <= i < code0.len() ==> (#[trigger] new_code@[i]).locals == code0[i].locals
                    && new_code@[i].code.deep_view() == s_instr_prefix(
                    code0[i].code.deep_view(),
                    costs@,
                    global_idx,
                    stack_limit,
                    code0[i].code@.len() as int,
                ),
            forall|j: int|
                0 <= j < k ==> (#[trigger] new_code@[code0.len() + j]).locals == 0
                    && new_code@[code0.len() + j].code.deep_view() == s_thunk_body(
                    s_func_sigs(module)[tl@[j] as int].0,
                    tl@[j],
                    costs@[tl@[j] as int],
                    global_idx,
                    stack_limit,
                ),
        decreases tl@.len() - k,
    {
        let f = tl[k];
        proof {
            assert(needs_thunk(costs@, f));
            assert(costs@[f as int] == opt_u32(s_cost_of(module, f as int)));
            if (f as int) < ic {
                assert(s_cost_of(module, f as int) == Some(0u32));
            }
        }
        let df = (f as usize) - ic;
        let tf = funcs[df];
        let fcost = costs[f as usize];
        // The thunk forwards its parameters to the original function.
        let ghost params = s_func_sigs(module)[f as int].0;
        let nparams = types[tf as usize].params.len() as u32;
        proof {
            assert(all_type_idx(module)[f as int] == funcs0[f - ic]);
            assert(s_func_sigs(module)[f as int] == s_type_arities(module.types@)[tf as int]);
            assert(nparams == params);
        }
        let mut tbody: Vec<Instr> = Vec::new();
        let mut p: u32 = 0;
        while p < nparams
            invariant
                p <= nparams,
                tbody.deep_view() =~= Seq::new(p as nat, |i: int| InstrV::GetLocal(i as u32)),
            decreases nparams - p,
        {
            let ghost tpre = tbody.deep_view();
            tbody.push(Instr::GetLocal(p));
            proof {
                assert(tbody.deep_view() =~= tpre.push(InstrV::GetLocal(p)));
                assert(tbody.deep_view() =~= Seq::new(
                    (p + 1) as nat,
                    |i: int| InstrV::GetLocal(i as u32),
                ));
            }
            p = p + 1;
        }
        let ghost gets = tbody.deep_view();
        tbody.push(Instr::GetGlobal(global_idx));
        tbody.push(Instr::I32Const(#[verifier::truncate] (fcost as i32)));
        tbody.push(Instr::I32Add);
        tbody.push(Instr::SetGlobal(global_idx));
        tbody.push(Instr::GetGlobal(global_idx));
        tbody.push(Instr::I32Const(#[verifier::truncate] (stack_limit as i32)));
        tbody.push(Instr::I32GtU);
        tbody.push(Instr::If(BlockArity { params: 0, results: 0 }));
        tbody.push(Instr::Unreachable);
        tbody.push(Instr::End);
        tbody.push(Instr::Call(f));
        tbody.push(Instr::GetGlobal(global_idx));
        tbody.push(Instr::I32Const(#[verifier::truncate] (fcost as i32)));
        tbody.push(Instr::I32Sub);
        tbody.push(Instr::SetGlobal(global_idx));
        tbody.push(Instr::End);
        proof {
            assert(tbody.deep_view() =~= gets + s_call_wrapped(
                f,
                fcost,
                global_idx,
                stack_limit,
            ) + seq![InstrV::End]);
        }
        let ghost fpre = funcs@;
        funcs.push(tf);
        new_code.push(FuncBody { locals: 0, code: tbody });
        proof {
            assert(funcs@.subrange(0, funcs0.len() as int) =~= funcs0);
        }
        k = k + 1;
    }
    // Route external references through the thunks.
    let ghost exports0 = exports@;
    let mut esrc = exports;
    let mut new_exports: Vec<Export> = Vec::new();
    while esrc.len() > 0
        invariant
            new_exports@.len() + esrc@.len() == exports0.len(),
            forall|j: int| 0 <= j < esrc@.len() ==> esrc@[j] == exports0[new_exports@.len() + j],
            forall|i: int|
                0 <= i < new_exports@.len() ==> (#[trigger] new_exports@[i]).name
                    == exports0[i].name && new_exports@[i].kind == (match exports0[i].kind {
                    ExportKind::Func(f) => ExportKind::Func(
                        map_ref(costs@, tl@, base, f),
                    ),
                    k2 => k2,
                }),
        decreases esrc@.len(),
    {
        let ghost spre = esrc@;
        let e = esrc.remove(0);
        proof {
            assert(e == spre[0]);
            assert(esrc@ =~= spre.drop_first());
        }
        let kind = match e.kind {
            ExportKind::Func(f) => ExportKind::Func(map_ref_exec(&costs, &tl, base, f)),
            k2 => k2,
        };
        new_exports.push(Export { name: e.name, kind });
    }
    let new_start = match start {
        Some(f) => Some(map_ref_exec(&costs, &tl, base, f)),
        None => None,
    };
    let ghost elements0 = elements@;
    let mut lsrc = elements;
    let mut new_elements: Vec<ElemSegment> = Vec::new();
    while lsrc.len() > 0
        invariant
            new_elements@.len() + lsrc@.len() == elements0.len(),
            forall|j: int|
                0 <= j < lsrc@.len() ==> lsrc@[j] == elements0[new_elements@.len() + j],
            forall|i: int|
                0 <= i < new_elements@.len() ==> (#[trigger] new_elements@[i]).offset
                    == elements0[i].offset && new_elements@[i].funcs@.len()
                    == elements0[i].funcs@.len() && (forall|j: int|
                    0 <= j < elements0[i].funcs@.len()
                        ==> #[trigger] new_elements@[i].funcs@[j] == map_ref(
                        costs@,
                        tl@,
                        base,
                        elements0[i].funcs@[j],
                    )),
        decreases lsrc@.len(),
    {
        let ghost spre = lsrc@;
        let seg = lsrc.remove(0);
        proof {
            assert(seg == spre[0]);
            assert(lsrc@ =~= spre.drop_first());
        }
        let mut nf: Vec<u32> = Vec::new();
        let mut j: usize = 0;
        while j < seg.funcs.len()
            invariant
                j <= seg.funcs@.len(),
                nf@.len() == j,
                forall|n: int|
                    0 <= n < j ==> #[trigger] nf@[n] == map_ref(
                        costs@,
                        tl@,
                        base,
                        seg.funcs@[n],
                    ),
            decreases seg.funcs@.len() - j,
        {
            nf.push(map_ref_exec(&costs, &tl, base, seg.funcs[j]));
            j = j + 1;
        }
        new_elements.push(ElemSegment { offset: seg.offset, funcs: nf });
    }
    let ghost globals0 = globals@;
    globals.push(GlobalDef { ty: ValType::I32, mutable: true, init: InitExpr::I32Const(0) });
    Ok(
        Module {
            types,
            imports,
            funcs,
            tables,
            memories,
            globals,
            exports: new_exports,
            start: new_start,
            elements: new_elements,
            code: new_code,
            data,
        },
    )
}

} // verus!
