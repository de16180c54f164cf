//! Gas metering injection.
//!
//! [`inject`] rewrites a module so that it charges gas as it executes: each
//! function body is split into metered blocks, a charge call is placed at the
//! head of every block, a gas-accounting function working on an imported
//! mutable `i64` global is appended, and every function and global reference
//! is renumbered to account for the additions.

use vstd::multiset::Multiset;
use vstd::prelude::*;

use crate::module::{instr_clone, instr_eq, BlockArity, DataSegment, ElemSegment, Export, ExportKind, FuncBody, FuncType, Import, ImportKind, InitExpr, Instr, InstrV, Module, ValType};
use crate::module::{count_func_imports, count_global_imports};

verus! {

/// The cost a [`Rules`] implementation assigns to one instruction.
#[derive(Debug, PartialEq, Eq, Structural, Copy, Clone)]
pub enum InstructionCost {
    /// Charge a fixed amount for the instruction.
    Fixed(u64),
    /// Charge a base amount, plus an amount per unit taken from the operand on
    /// top of the stack (for `memory.grow`: the number of pages).
    Linear(u64, u64),
}

/// An interface that describes instruction costs.
pub trait Rules: Sized {
    /// The cost assignment as a mathematical function. An `Err` marks the
    /// instruction as forbidden.
    spec fn spec_cost(&self, instruction: InstrV) -> Result<InstructionCost, ()>;

    /// Returns the cost for the passed `instruction`; `Err` means the
    /// instruction is forbidden and fails the whole injection.
    fn instruction_cost(&self, instruction: &Instr) -> (r: Result<InstructionCost, ()>)
        ensures
            r == self.spec_cost(instruction.deep_view()),
    ;
}

/// A [`Rules`] implementation under which every instruction costs the same,
/// except that `memory.grow` may carry a linear per-page cost. Mostly useful
/// for development and testing.
#[derive(Debug, PartialEq, Eq, Structural, Copy, Clone)]
pub struct ConstantCostRules {
    pub instruction_cost: u64,
    pub memory_grow_cost: u64,
}

impl ConstantCostRules {
    /// Create new rules: `instruction_cost` for every instruction, and
    /// `memory_grow_cost` per page for `memory.grow` (zero disables the
    /// dynamic metering of growth).
    pub fn new(instruction_cost: u64, memory_grow_cost: u64) -> (r: Self)
        ensures
            r == (ConstantCostRules { instruction_cost, memory_grow_cost }),
    {
        Self { instruction_cost, memory_grow_cost }
    }
}

impl Default for ConstantCostRules {
    /// Instruction cost `1`, no dynamic metering of memory growth.
    fn default() -> (r: Self)
        ensures
            r == (ConstantCostRules { instruction_cost: 1u64, memory_grow_cost: 0u64 }),
    {
        Self { instruction_cost: 1, memory_grow_cost: 0 }
    }
}

impl Rules for ConstantCostRules {
    open spec fn spec_cost(&self, instruction: InstrV) -> Result<InstructionCost, ()> {
        match instruction {
            InstrV::GrowMemory => if self.memory_grow_cost == 0 {
                Ok(InstructionCost::Fixed(1))
            } else {
                Ok(InstructionCost::Linear(1, self.memory_grow_cost))
            },
            _ => Ok(InstructionCost::Fixed(self.instruction_cost)),
        }
    }

    fn instruction_cost(&self, instruction: &Instr) -> (r: Result<InstructionCost, ()>) {
        match instruction {
            Instr::GrowMemory => if self.memory_grow_cost == 0 {
                Ok(InstructionCost::Fixed(1))
            } else {
                Ok(InstructionCost::Linear(1, self.memory_grow_cost))
            },
            _ => Ok(InstructionCost::Fixed(self.instruction_cost)),
        }
    }
}

/// A block of code that a metering call will be inserted at the beginning of.
/// Metered blocks have the property that, in the absence of traps, either all
/// of their instructions are executed or none are.
#[derive(Debug, PartialEq, Eq, Structural, Copy, Clone)]
pub struct MeteredBlock {
    /// Index of the first instruction of the block.
    pub start_pos: usize,
    /// Sum of the costs of all instructions until the end of the block.
    pub cost: u64,
}

/// One open control region (`block`, `loop`, `if`, or the function body)
/// while a function is scanned.
#[derive(Debug, PartialEq, Eq, Structural, Copy, Clone)]
pub struct ControlBlock {
    /// The lowest control-stack index that a forward branch inside this block
    /// may target. At most the index of the block itself.
    pub lowest_forward_br_target: usize,
    /// The metered block that new instructions currently contribute their
    /// cost to.
    pub active_metered_block: MeteredBlock,
    /// Whether this control block is a loop; branches to a loop are backward
    /// jumps.
    pub is_loop: bool,
}

/// Scanning state: a stack of open control blocks and the list of metered
/// blocks already finalized.
pub struct Counter {
    stack: Vec<ControlBlock>,
    finalized_blocks: Vec<MeteredBlock>,
}

/// Opening a control block whose first instruction is at `cursor`.
pub open spec fn s_begin(st: Seq<ControlBlock>, cursor: int, is_loop: bool) -> Seq<ControlBlock> {
    st.push(
        ControlBlock {
            lowest_forward_br_target: st.len() as usize,
            active_metered_block: (MeteredBlock { start_pos: cursor as usize, cost: 0 }),
            is_loop,
        },
    )
}

/// Charging `val` to the active metered block; `None` on an empty stack or on
/// overflow of the block cost.
pub open spec fn s_increment(st: Seq<ControlBlock>, val: u64) -> Option<Seq<ControlBlock>> {
    if st.len() == 0 {
        None
    } else {
        let top = st.last();
        if top.active_metered_block.cost + val > u64::MAX {
            None
        } else {
            Some(
                st.update(
                    st.len() - 1,
                    (ControlBlock {
                        lowest_forward_br_target: top.lowest_forward_br_target,
                        active_metered_block: (MeteredBlock {
                            start_pos: top.active_metered_block.start_pos,
                            cost: (top.active_metered_block.cost + val) as u64,
                        }),
                        is_loop: top.is_loop,
                    }),
                ),
            )
        }
    }
}

/// Finalizing the active metered block at `cursor`: a fresh active block
/// starts at `cursor + 1`; the closed block merges into the parent's active
/// block when both start at the same position, and otherwise is kept when its
/// cost is positive.
pub open spec fn s_fmb(st: Seq<ControlBlock>, fin: Seq<MeteredBlock>, cursor: int) -> Option<
    (Seq<ControlBlock>, Seq<MeteredBlock>),
> {
    if st.len() == 0 {
        None
    } else {
        let top = st.last();
        let closing = top.active_metered_block;
        let st1 = st.update(
            st.len() - 1,
            (ControlBlock {
                lowest_forward_br_target: top.lowest_forward_br_target,
                active_metered_block: (MeteredBlock { start_pos: (cursor + 1) as usize, cost: 0 }),
                is_loop: top.is_loop,
            }),
        );
        if st.len() > 1 && closing.start_pos == st[st.len() - 2].active_metered_block.start_pos {
            let prev = st[st.len() - 2];
            if prev.active_metered_block.cost + closing.cost > u64::MAX {
                None
            } else {
                Some(
                    (
                        st1.update(
                            st.len() - 2,
                            (ControlBlock {
                                lowest_forward_br_target: prev.lowest_forward_br_target,
                                active_metered_block: (MeteredBlock {
                                    start_pos: prev.active_metered_block.start_pos,
                                    cost: (prev.active_metered_block.cost + closing.cost) as u64,
                                }),
                                is_loop: prev.is_loop,
                            }),
                        ),
                        fin,
                    ),
                )
            }
        } else if closing.cost > 0 {
            Some((st1, fin.push(closing)))
        } else {
            Some((st1, fin))
        }
    }
}

/// Closing a control block at `cursor`: finalize the active metered block,
/// pop the stack, fold the closed block's branch target into the parent, and
/// when a branch escapes the closed block, finalize the parent's active
/// metered block as well.
pub open spec fn s_fcb(st: Seq<ControlBlock>, fin: Seq<MeteredBlock>, cursor: int) -> Option<
    (Seq<ControlBlock>, Seq<MeteredBlock>),
> {
    match s_fmb(st, fin, cursor) {
        None => None,
        Some((st1, fin1)) => {
            let closing = st1.last();
            let st2 = st1.drop_last();
            if st2.len() == 0 {
                Some((st2, fin1))
            } else {
                let top = st2.last();
                let lowest = if closing.lowest_forward_br_target < top.lowest_forward_br_target {
                    closing.lowest_forward_br_target
                } else {
                    top.lowest_forward_br_target
                };
                let st3 = st2.update(
                    st2.len() - 1,
                    (ControlBlock {
                        lowest_forward_br_target: lowest,
                        active_metered_block: top.active_metered_block,
                        is_loop: top.is_loop,
                    }),
                );
                if closing.lowest_forward_br_target < st2.len() {
                    s_fmb(st3, fin1, cursor)
                } else {
                    Some((st3, fin1))
                }
            }
        },
    }
}

/// One branch target folded into the top control block: out-of-range targets
/// fail, loop targets are ignored, others lower the top block's
/// `lowest_forward_br_target`.
pub open spec fn s_branch_step(st: Seq<ControlBlock>, index: usize) -> Option<Seq<ControlBlock>> {
    if index >= st.len() {
        None
    } else if st[index as int].is_loop {
        Some(st)
    } else {
        let top = st.last();
        if (index as int) < top.lowest_forward_br_target {
            Some(
                st.update(
                    st.len() - 1,
                    (ControlBlock {
                        lowest_forward_br_target: index,
                        active_metered_block: top.active_metered_block,
                        is_loop: top.is_loop,
                    }),
                ),
            )
        } else {
            Some(st)
        }
    }
}

/// All branch targets folded in, left to right.
pub open spec fn s_branch_iter(st: Option<Seq<ControlBlock>>, indices: Seq<usize>) -> Option<
    Seq<ControlBlock>,
>
    decreases indices.len(),
{
    match st {
        None => None,
        Some(s) => if indices.len() == 0 {
            Some(s)
        } else {
            s_branch_iter(s_branch_step(s, indices.first()), indices.drop_first())
        },
    }
}

/// A branch instruction at `cursor` with the given target stack indices:
/// finalize the active metered block, then fold in every target.
pub open spec fn s_branch(
    st: Seq<ControlBlock>,
    fin: Seq<MeteredBlock>,
    cursor: int,
    indices: Seq<usize>,
) -> Option<(Seq<ControlBlock>, Seq<MeteredBlock>)> {
    match s_fmb(st, fin, cursor) {
        None => None,
        Some((st1, fin1)) => match s_branch_iter(Some(st1), indices) {
            None => None,
            Some(st2) => Some((st2, fin1)),
        },
    }
}

impl Counter {
    fn new() -> (r: Counter)
        ensures
            r.stack@ == Seq::<ControlBlock>::empty(),
            r.finalized_blocks@ == Seq::<MeteredBlock>::empty(),
    {
        Counter { stack: Vec::new(), finalized_blocks: Vec::new() }
    }

    /// Open a new control block; `cursor` is the position of its first
    /// instruction.
    fn begin_control_block(&mut self, cursor: usize, is_loop: bool)
        requires
            old(self).stack@.len() < usize::MAX,
        ensures
            final(self).stack@ == s_begin(old(self).stack@, cursor as int, is_loop),
            final(self).finalized_blocks@ == old(self).finalized_blocks@,
    {
        let index = self.stack.len();
        self.stack.push(
            ControlBlock {
                lowest_forward_br_target: index,
                active_metered_block: MeteredBlock { start_pos: cursor, cost: 0 },
                is_loop,
            },
        );
    }

    /// Charge `val` to the active metered block, failing on overflow.
    fn increment(&mut self, val: u64) -> (r: Result<(), ()>)
        ensures
            match r {
                Ok(_) => s_increment(old(self).stack@, val) == Some(final(self).stack@),
                Err(_) => s_increment(old(self).stack@, val) is None,
            },
            final(self).finalized_blocks@ == old(self).finalized_blocks@,
    {
        let n = self.stack.len();
        if n == 0 {
            return Err(());
        }
        let top = self.stack[n - 1];
        match top.active_metered_block.cost.checked_add(val) {
            Some(c) => {
                self.stack[n - 1] = ControlBlock {
                    lowest_forward_br_target: top.lowest_forward_br_target,
                    active_metered_block: MeteredBlock {
                        start_pos: top.active_metered_block.start_pos,
                        cost: c,
                    },
                    is_loop: top.is_loop,
                };
                Ok(())
            },
            None => Err(()),
        }
    }

    /// Finalize the active metered block; see [`s_fmb`].
    fn finalize_metered_block(&mut self, cursor: usize) -> (r: Result<(), ()>)
        requires
            cursor < usize::MAX,
        ensures
            match r {
                Ok(_) => s_fmb(old(self).stack@, old(self).finalized_blocks@, cursor as int)
                    == Some((final(self).stack@, final(self).finalized_blocks@)),
                Err(_) => s_fmb(old(self).stack@, old(self).finalized_blocks@, cursor as int)
                    is None,
            },
    {
        let n = self.stack.len();
        if n == 0 {
            return Err(());
        }
        let top = self.stack[n - 1];
        let closing = top.active_metered_block;
        self.stack[n - 1] = ControlBlock {
            lowest_forward_br_target: top.lowest_forward_br_target,
            active_metered_block: MeteredBlock { start_pos: cursor + 1, cost: 0 },
            is_loop: top.is_loop,
        };
        if n > 1 {
            let prev = self.stack[n - 2];
            if closing.start_pos == prev.active_metered_block.start_pos {
                match prev.active_metered_block.cost.checked_add(closing.cost) {
                    Some(c) => {
                        self.stack[n - 2] = ControlBlock {
                            lowest_forward_br_target: prev.lowest_forward_br_target,
                            active_metered_block: MeteredBlock {
                                start_pos: prev.active_metered_block.start_pos,
                                cost: c,
                            },
                            is_loop: prev.is_loop,
                        };
                        return Ok(());
                    },
                    None => {
                        return Err(());
                    },
                }
            }
        }
        if closing.cost > 0 {
            self.finalized_blocks.push(closing);
        }
        Ok(())
    }

    /// Close the current control block; see [`s_fcb`].
    fn finalize_control_block(&mut self, cursor: usize) -> (r: Result<(), ()>)
        requires
            cursor < usize::MAX,
        ensures
            match r {
                Ok(_) => s_fcb(old(self).stack@, old(self).finalized_blocks@, cursor as int)
                    == Some((final(self).stack@, final(self).finalized_blocks@)),
                Err(_) => s_fcb(old(self).stack@, old(self).finalized_blocks@, cursor as int)
                    is None,
            },
    {
        match self.finalize_metered_block(cursor) {
            Ok(_) => {},
            Err(_) => {
                return Err(());
            },
        }
        let closing = match self.stack.pop() {
            Some(c) => c,
            None => {
                return Err(());
            },
        };
        let closing_index = self.stack.len();
        if closing_index == 0 {
            return Ok(());
        }
        let top = self.stack[closing_index - 1];
        let lowest = if closing.lowest_forward_br_target < top.lowest_forward_br_target {
            closing.lowest_forward_br_target
        } else {
            top.lowest_forward_br_target
        };
        self.stack[closing_index - 1] = ControlBlock {
            lowest_forward_br_target: lowest,
            active_metered_block: top.active_metered_block,
            is_loop: top.is_loop,
        };
        if closing.lowest_forward_br_target < closing_index {
            match self.finalize_metered_block(cursor) {
                Ok(_) => {},
                Err(_) => {
                    return Err(());
                },
            }
        }
        Ok(())
    }

    /// Handle a branch at `cursor` targeting the given control-stack indices;
    /// see [`s_branch`].
    fn branch(&mut self, cursor: usize, indices: &Vec<usize>) -> (r: Result<(), ()>)
        requires
            cursor < usize::MAX,
        ensures
            match r {
                Ok(_) => s_branch(
                    old(self).stack@,
                    old(self).finalized_blocks@,
                    cursor as int,
                    indices@,
                ) == Some((final(self).stack@, final(self).finalized_blocks@)),
                Err(_) => s_branch(
                    old(self).stack@,
                    old(self).finalized_blocks@,
                    cursor as int,
                    indices@,
                ) is None,
            },
    {
        match self.finalize_metered_block(cursor) {
            Ok(_) => {},
            Err(_) => {
                return Err(());
            },
        }
        let ghost st1 = self.stack@;
        let ghost fin1 = self.finalized_blocks@;
        proof {
            assert(indices@.skip(0) =~= indices@);
        }
        let mut i: usize = 0;
        while i < indices.len()
            invariant
                i <= indices@.len(),
                self.finalized_blocks@ == fin1,
                s_fmb(old(self).stack@, old(self).finalized_blocks@, cursor as int) == Some(
                    (st1, fin1),
                ),
                s_branch_iter(Some(self.stack@), indices@.skip(i as int)) == s_branch_iter(
                    Some(st1),
                    indices@,
                ),
            decreases indices@.len() - i,
        {
            proof {
                assert(indices@.skip(i as int).first() == indices@[i as int]);
                assert(indices@.skip(i as int).drop_first() =~= indices@.skip(i as int + 1));
            }
            let index = indices[i];
            if index >= self.stack.len() {
                proof {
                    assert(indices@.skip(i as int).len() > 0);
                    assert(s_branch_step(self.stack@, index) is None);
                    assert(s_branch_iter(
                        None::<Seq<ControlBlock>>,
                        indices@.skip(i as int).drop_first(),
                    ) is None);
                    assert(s_branch_iter(Some(self.stack@), indices@.skip(i as int)) is None);
                }
                return Err(());
            }
            let target = self.stack[index];
            if !target.is_loop {
                let m = self.stack.len();
                let top = self.stack[m - 1];
                if index < top.lowest_forward_br_target {
                    self.stack[m - 1] = ControlBlock {
                        lowest_forward_br_target: index,
                        active_metered_block: top.active_metered_block,
                        is_loop: top.is_loop,
                    };
                }
            }
            i = i + 1;
        }
        proof {
            assert(indices@.skip(i as int) =~= Seq::<usize>::empty());
        }
        Ok(())
    }
}

/// The full scanning state: the control stack, the finalized metered blocks,
/// the last `i32.const` seen (for constant-folding linear costs), and the
/// distinct dynamic-cost instructions met so far, in order of first sighting.
pub struct ScanState {
    pub stack: Seq<ControlBlock>,
    pub fin: Seq<MeteredBlock>,
    pub last_const: Option<i32>,
    pub dyns: Seq<InstrV>,
}

/// The amount charged statically for an instruction of cost `c`, and whether
/// the instruction needs a dynamic-cost thunk. A `Linear` cost folds with a
/// preceding `i32.const`; without one, only the base is charged statically.
/// `None` on overflow of the folded amount.
pub open spec fn s_charge(c: InstructionCost, last_const: Option<i32>) -> Option<(u64, bool)> {
    match c {
        InstructionCost::Fixed(x) => Some((x, false)),
        InstructionCost::Linear(base, per) => match last_const {
            Some(v) => if base + (v as u64) * per > u64::MAX {
                None
            } else {
                Some(((base + (v as u64) * per) as u64, false))
            },
            None => Some((base, true)),
        },
    }
}

/// One instruction scanned: how the state changes, or `None` when the whole
/// pass fails (forbidden instruction, cost overflow, malformed nesting).
pub open spec fn s_scan_step<R: Rules>(rules: R, s: ScanState, instr: InstrV, cursor: int) -> Option<
    ScanState,
> {
    match rules.spec_cost(instr) {
        Result::Err(_) => None,
        Result::Ok(ic) => match s_charge(ic, s.last_const) {
            None => None,
            Some(charge) => {
                let amount = charge.0;
                let dyns1 = if charge.1 && !s.dyns.contains(instr) {
                    s.dyns.push(instr)
                } else {
                    s.dyns
                };
                match instr {
                    InstrV::Block(_) => match s_increment(s.stack, amount) {
                        None => None,
                        Some(st1) => Some(
                            ScanState {
                                stack: s_begin(
                                    st1,
                                    st1.last().active_metered_block.start_pos as int,
                                    false,
                                ),
                                fin: s.fin,
                                last_const: None,
                                dyns: dyns1,
                            },
                        ),
                    },
                    InstrV::If(_) => match s_increment(s.stack, amount) {
                        None => None,
                        Some(st1) => Some(
                            ScanState {
                                stack: s_begin(st1, cursor + 1, false),
                                fin: s.fin,
                                last_const: None,
                                dyns: dyns1,
                            },
                        ),
                    },
                    InstrV::Loop(_) => match s_increment(s.stack, amount) {
                        None => None,
                        Some(st1) => Some(
                            ScanState {
                                stack: s_begin(st1, cursor + 1, true),
                                fin: s.fin,
                                last_const: None,
                                dyns: dyns1,
                            },
                        ),
                    },
                    InstrV::End => match s_fcb(s.stack, s.fin, cursor) {
                        None => None,
                        Some(r) => Some(
                            ScanState { stack: r.0, fin: r.1, last_const: None, dyns: dyns1 },
                        ),
                    },
                    InstrV::Else => match s_fmb(s.stack, s.fin, cursor) {
                        None => None,
                        Some(r) => Some(
                            ScanState { stack: r.0, fin: r.1, last_const: None, dyns: dyns1 },
                        ),
                    },
                    InstrV::Br(label) => s_scan_branch(s, amount, dyns1, cursor, seq![label]),
                    InstrV::BrIf(label) => s_scan_branch(s, amount, dyns1, cursor, seq![label]),
                    InstrV::BrTable(table, default) => s_scan_branch(
                        s,
                        amount,
                        dyns1,
                        cursor,
                        seq![default] + table,
                    ),
                    InstrV::Return => match s_increment(s.stack, amount) {
                        None => None,
                        Some(st1) => match s_branch(st1, s.fin, cursor, seq![0usize]) {
                            None => None,
                            Some(r) => Some(
                                ScanState { stack: r.0, fin: r.1, last_const: None, dyns: dyns1 },
                            ),
                        },
                    },
                    InstrV::I32Const(v) => match s_increment(s.stack, amount) {
                        None => None,
                        Some(st1) => Some(
                            ScanState {
                                stack: st1,
                                fin: s.fin,
                                last_const: Some(v),
                                dyns: dyns1,
                            },
                        ),
                    },
                    _ => match s_increment(s.stack, amount) {
                        None => None,
                        Some(st1) => Some(
                            ScanState { stack: st1, fin: s.fin, last_const: None, dyns: dyns1 },
                        ),
                    },
                }
            },
        },
    }
}

/// A branch instruction with relative labels: charge, turn every label into a
/// control-stack index (failing on underflow), and fold the targets in.
pub open spec fn s_scan_branch(
    s: ScanState,
    amount: u64,
    dyns1: Seq<InstrV>,
    cursor: int,
    labels: Seq<u32>,
) -> Option<ScanState> {
    match s_increment(s.stack, amount) {
        None => None,
        Some(st1) => {
            let active = st1.len() - 1;
            if exists|j: int| 0 <= j < labels.len() && labels[j] > active {
                None
            } else {
                let targets = Seq::new(labels.len(), |j: int| (active - labels[j]) as usize);
                match s_branch(st1, s.fin, cursor, targets) {
                    None => None,
                    Some(r) => Some(
                        ScanState { stack: r.0, fin: r.1, last_const: None, dyns: dyns1 },
                    ),
                }
            }
        },
    }
}

/// Scanning all instructions from position `i` onward.
pub open spec fn s_scan_from<R: Rules>(rules: R, instrs: Seq<InstrV>, i: int, s: ScanState) -> Option<
    ScanState,
>
    decreases instrs.len() - i,
{
    if i < 0 || i >= instrs.len() {
        Some(s)
    } else {
        match s_scan_step(rules, s, instrs[i], i) {
            None => None,
            Some(s1) => s_scan_from(rules, instrs, i + 1, s1),
        }
    }
}

/// The starting state: one implicit control block for the function body.
pub open spec fn s_scan_init() -> ScanState {
    ScanState {
        stack: s_begin(Seq::empty(), 0, false),
        fin: Seq::empty(),
        last_const: None,
        dyns: Seq::empty(),
    }
}

/// The metered blocks and dynamic-cost instructions of a whole body, or
/// `None` when the pass fails on it.
pub open spec fn s_metered<R: Rules>(rules: R, instrs: Seq<InstrV>) -> Option<ScanState> {
    s_scan_from(rules, instrs, 0, s_scan_init())
}

/// Blocks ordered by starting position.
pub open spec fn sorted_blocks(s: Seq<MeteredBlock>) -> bool {
    forall|i: int, j: int| 0 <= i < j < s.len() ==> s[i].start_pos <= s[j].start_pos
}

/// No instruction occurs twice.
pub open spec fn distinct_seq(s: Seq<InstrV>) -> bool {
    forall|a: int, b: int| 0 <= a < b < s.len() ==> s[a] != s[b]
}

/// Whether `x` occurs in `dyns`, comparing instructions by value.
fn dyn_contains(dyns: &Vec<Instr>, x: &Instr) -> (r: bool)
    ensures
        r == dyns.deep_view().contains(x.deep_view()),
{
    let mut i: usize = 0;
    while i < dyns.len()
        invariant
            i <= dyns@.len(),
            forall|j: int| 0 <= j < i ==> dyns.deep_view()[j] != x.deep_view(),
        decreases dyns@.len() - i,
    {
        if instr_eq(&dyns[i], x) {
            proof {
                assert(dyns.deep_view()[i as int] == x.deep_view());
            }
            return true;
        }
        i = i + 1;
    }
    proof {
        assert(forall|j: int| 0 <= j < dyns.deep_view().len()
            ==> dyns.deep_view()[j] != x.deep_view());
    }
    false
}

/// Metered blocks ordered by starting position, with the cost as a tie
/// breaker; a total order, so the sorted sequence is unique.
pub open spec fn block_le(a: MeteredBlock, b: MeteredBlock) -> bool {
    a.start_pos < b.start_pos || (a.start_pos == b.start_pos && a.cost <= b.cost)
}

/// The ordering as a function value, for `sort_by`.
pub open spec fn block_leq() -> spec_fn(MeteredBlock, MeteredBlock) -> bool {
    |a: MeteredBlock, b: MeteredBlock| block_le(a, b)
}

proof fn lemma_block_le_total()
    ensures
        vstd::relations::total_ordering(block_leq()),
{
    let leq = block_leq();
    assert forall|a: MeteredBlock, b: MeteredBlock| #[trigger] leq(a, b) && #[trigger] leq(b, a)
        implies a == b by {
        assert(a.start_pos == b.start_pos && a.cost == b.cost);
    }
}

/// Order metered blocks by `block_le` (selection sort).
fn sort_metered_blocks(blocks: Vec<MeteredBlock>) -> (r: Vec<MeteredBlock>)
    ensures
        r@ == blocks@.sort_by(block_leq()),
        sorted_blocks(r@),
{
    broadcast use vstd::seq_lib::group_to_multiset_ensures;

    let mut rest = blocks;
    let ghost orig = rest@;
    let mut out: Vec<MeteredBlock> = Vec::new();
    while rest.len() > 0
        invariant
            vstd::relations::sorted_by(out@, block_leq()),
            out@.to_multiset().add(rest@.to_multiset()) =~= orig.to_multiset(),
            forall|a: int, b: int|
                0 <= a < out@.len() && 0 <= b < rest@.len() ==> block_le(out@[a], rest@[b]),
        decreases rest@.len(),
    {
        let mut min: usize = 0;
        let mut j: usize = 1;
        while j < rest.len()
            invariant
                min < rest@.len(),
                j <= rest@.len(),
                rest@.len() > 0,
                forall|k: int| 0 <= k < j ==> block_le(rest@[min as int], rest@[k]),
            decreases rest@.len() - j,
        {
            if rest[j].start_pos < rest[min].start_pos || (rest[j].start_pos
                == rest[min].start_pos && rest[j].cost < rest[min].cost) {
                min = j;
            }
            j = j + 1;
        }
        let ghost rest_pre = rest@;
        let ghost out_pre = out@;
        let x = rest.remove(min);
        out.push(x);
        proof {
            broadcast use vstd::multiset::group_multiset_axioms;

            out_pre.to_multiset_ensures();
            rest_pre.to_multiset_ensures();
            assert(out@ == out_pre.push(x));
            assert(rest@ == rest_pre.remove(min as int));
            assert(out@.to_multiset() =~= out_pre.to_multiset().insert(x));
            assert(rest@.to_multiset() =~= rest_pre.to_multiset().remove(x));
            assert(rest_pre.contains(x));
            assert(rest_pre.to_multiset().count(x) > 0);
            assert(out@.to_multiset().add(rest@.to_multiset()) =~= orig.to_multiset());
            assert forall|a: int, b: int|
                0 <= a < out@.len() && 0 <= b < rest@.len() implies block_le(
                out@[a],
                rest@[b],
            ) by {
                assert(rest@[b] == if b < min { rest_pre[b] } else { rest_pre[b + 1] });
                if a < out_pre.len() {
                    assert(out@[a] == out_pre[a]);
                } else {
                    assert(out@[a] == rest_pre[min as int]);
                }
            }
            assert(vstd::relations::sorted_by(out@, block_leq())) by {
                assert(forall|a: int| 0 <= a < out_pre.len() ==> out@[a] == out_pre[a]);
                assert(out@.last() == rest_pre[min as int]);
                assert(forall|a: int|
                    0 <= a < out_pre.len() ==> block_le(out_pre[a], rest_pre[min as int]));
            }
        }
    }
    proof {
        assert(rest@.to_multiset() =~= Multiset::<MeteredBlock>::empty());
        assert(out@.to_multiset() =~= orig.to_multiset());
        lemma_block_le_total();
        orig.lemma_sort_by_ensures(block_leq());
        vstd::seq_lib::lemma_sorted_unique(out@, orig.sort_by(block_leq()), block_leq());
        assert(out@ =~= orig.sort_by(block_leq()));
        assert forall|i: int, j: int| 0 <= i < j < out@.len() implies out@[i].start_pos
            <= out@[j].start_pos by {
            assert(block_leq()(out@[i], out@[j]));
            assert(block_le(out@[i], out@[j]));
        }
    }
    out
}

proof fn lemma_scan_unfold<R: Rules>(rules: R, iseq: Seq<InstrV>, i: int, s: ScanState)
    requires
        0 <= i < iseq.len(),
    ensures
        s_scan_from(rules, iseq, i, s) == (match s_scan_step(rules, s, iseq[i], i) {
            None => None::<ScanState>,
            Some(s1) => s_scan_from(rules, iseq, i + 1, s1),
        }),
{
}

proof fn lemma_branch_iter_len(st: Seq<ControlBlock>, indices: Seq<usize>)
    ensures
        s_branch_iter(Some(st), indices) matches Some(st2) ==> st2.len() == st.len(),
    decreases indices.len(),
{
    if indices.len() > 0 {
        match s_branch_step(st, indices.first()) {
            None => {
                assert(s_branch_iter(
                    None::<Seq<ControlBlock>>,
                    indices.drop_first(),
                ) is None);
            },
            Some(s2) => {
                assert(s2.len() == st.len());
                lemma_branch_iter_len(s2, indices.drop_first());
                assert(s_branch_iter(Some(st), indices) == s_branch_iter(
                    Some(s2),
                    indices.drop_first(),
                ));
            },
        }
    }
}

/// Scan one function body: the finalized metered blocks ordered by starting
/// position, and the distinct dynamic-cost instructions in order of first
/// sighting. Fails exactly when the scan of the body fails (forbidden
/// instruction, cost overflow, branch out of range, malformed nesting).
#[verifier::rlimit(100)]
#[verifier::loop_isolation(false)]
fn determine_metered_blocks<R: Rules>(instrs: &Vec<Instr>, rules: &R) -> (r: Result<
    (Vec<MeteredBlock>, Vec<Instr>),
    (),
>)
    requires
        instrs@.len() < usize::MAX,
    ensures
        match r {
            Ok(p) => s_metered(*rules, instrs.deep_view()) matches Some(res)
                && sorted_blocks(p.0@) && p.0@ == res.fin.sort_by(block_leq())
                && p.1.deep_view() == res.dyns && distinct_seq(p.1.deep_view()),
            Err(_) => s_metered(*rules, instrs.deep_view()) is None,
        },
{
    let ghost iseq = instrs.deep_view();
    let mut counter = Counter::new();
    counter.begin_control_block(0, false);
    let mut last_const: Option<i32> = None;
    let mut dyns: Vec<Instr> = Vec::new();
    proof {
        assert(dyns.deep_view() =~= Seq::<InstrV>::empty());
        assert(counter.stack@ == s_scan_init().stack);
    }
    let mut cursor: usize = 0;
    while cursor < instrs.len()
        invariant
            cursor <= instrs@.len(),
            instrs@.len() < usize::MAX,
            iseq == instrs.deep_view(),
            iseq.len() == instrs@.len(),
            counter.stack@.len() <= cursor + 1,
            distinct_seq(dyns.deep_view()),
            s_scan_from(
                *rules,
                iseq,
                cursor as int,
                (ScanState {
                    stack: counter.stack@,
                    fin: counter.finalized_blocks@,
                    last_const,
                    dyns: dyns.deep_view(),
                }),
            ) == s_metered(*rules, iseq),
        decreases instrs@.len() - cursor,
    {
        let ghost pre = (ScanState {
            stack: counter.stack@,
            fin: counter.finalized_blocks@,
            last_const,
            dyns: dyns.deep_view(),
        });
        proof {
            lemma_scan_unfold(*rules, iseq, cursor as int, pre);
            assert(iseq[cursor as int] == instrs@[cursor as int].deep_view());
        }
        let instr = &instrs[cursor];
        let ic = match rules.instruction_cost(instr) {
            Ok(c) => c,
            Err(_) => {
                return Err(());
            },
        };
        let charge: (u64, bool) = match ic {
            InstructionCost::Fixed(x) => (x, false),
            InstructionCost::Linear(base, per) => match last_const {
                Some(v) => {
                    let vv = v as u64;
                    match vv.checked_mul(per) {
                        None => {
                            return Err(());
                        },
                        Some(m) => match m.checked_add(base) {
                            None => {
                                return Err(());
                            },
                            Some(a) => (a, false),
                        },
                    }
                },
                None => (base, true),
            },
        };
        let amount = charge.0;
        proof {
            assert(s_charge(ic, last_const) == Some(charge));
        }
        if charge.1 {
            if !dyn_contains(&dyns, instr) {
                let ghost dpre = dyns.deep_view();
                dyns.push(instr_clone(instr));
                proof {
                    assert(dyns.deep_view() =~= dpre.push(instr.deep_view()));
                    assert(distinct_seq(dyns.deep_view()));
                }
            }
        }
        match instr {
            Instr::Block(_) => {
                if counter.increment(amount).is_err() {
                    return Err(());
                }
                let n = counter.stack.len();
                let start = counter.stack[n - 1].active_metered_block.start_pos;
                counter.begin_control_block(start, false);
                last_const = None;
            },
            Instr::If(_) => {
                if counter.increment(amount).is_err() {
                    return Err(());
                }
                counter.begin_control_block(cursor + 1, false);
                last_const = None;
            },
            Instr::Loop(_) => {
                if counter.increment(amount).is_err() {
                    return Err(());
                }
                counter.begin_control_block(cursor + 1, true);
                last_const = None;
            },
            Instr::End => {
                if counter.finalize_control_block(cursor).is_err() {
                    return Err(());
                }
                last_const = None;
            },
            Instr::Else => {
                if counter.finalize_metered_block(cursor).is_err() {
                    return Err(());
                }
                last_const = None;
            },
            Instr::Br(label) => {
                if counter.increment(amount).is_err() {
                    return Err(());
                }
                let active = counter.stack.len() - 1;
                let l = *label as usize;
                if l > active {
                    proof {
                        assert(seq![*label][0] == *label);
                    }
                    return Err(());
                }
                let mut targets: Vec<usize> = Vec::new();
                targets.push(active - l);
                proof {
                    assert(targets@ =~= Seq::new(
                        seq![*label].len(),
                        |j: int| ((active as int - seq![*label][j]) as usize),
                    ));
                    match s_fmb(counter.stack@, counter.finalized_blocks@, cursor as int) {
                        Some(p) => lemma_branch_iter_len(p.0, targets@),
                        None => {},
                    }
                }
                if counter.branch(cursor, &targets).is_err() {
                    return Err(());
                }
                last_const = None;
            },
            Instr::BrIf(label) => {
                if counter.increment(amount).is_err() {
                    return Err(());
                }
                let active = counter.stack.len() - 1;
                let l = *label as usize;
                if l > active {
                    proof {
                        assert(seq![*label][0] == *label);
                    }
                    return Err(());
                }
                let mut targets: Vec<usize> = Vec::new();
                targets.push(active - l);
                proof {
                    assert(targets@ =~= Seq::new(
                        seq![*label].len(),
                        |j: int| ((active as int - seq![*label][j]) as usize),
                    ));
                    match s_fmb(counter.stack@, counter.finalized_blocks@, cursor as int) {
                        Some(p) => lemma_branch_iter_len(p.0, targets@),
                        None => {},
                    }
                }
                if counter.branch(cursor, &targets).is_err() {
                    return Err(());
                }
                last_const = None;
            },
            Instr::BrTable(table, default) => {
                if counter.increment(amount).is_err() {
                    return Err(());
                }
                let active = counter.stack.len() - 1;
                let ghost labels: Seq<u32> = seq![*default] + table@;
                let d = *default as usize;
                if d > active {
                    proof {
                        assert(labels[0] > active);
                    }
                    return Err(());
                }
                let mut targets: Vec<usize> = Vec::new();
                targets.push(active - d);
                let mut k: usize = 0;
                while k < table.len()
                    invariant
                        k <= table@.len(),
                        counter.stack@.len() == active + 1,
                        labels == seq![*default] + table@,
                        d == *default as usize,
                        d <= active,
                        targets@.len() == k + 1,
                        targets@[0] == (active - d) as usize,
                        forall|j: int|
                            0 <= j < k ==> table@[j] <= active && targets@[j + 1] == ((active
                                - table@[j]) as usize),
                    decreases table@.len() - k,
                {
                    let t = table[k];
                    if t as usize > active {
                        proof {
                            assert(labels[k as int + 1] == table@[k as int]);
                            assert(labels[k as int + 1] > active);
                            assert(iseq[cursor as int] == InstrV::BrTable(table@, *default));
                            assert(rules.spec_cost(iseq[cursor as int]) == Ok::<
                                InstructionCost,
                                (),
                            >(ic));
                            assert(s_charge(ic, pre.last_const) == Some(charge));
                            assert(s_increment(pre.stack, amount) == Some(counter.stack@));
                            assert(counter.stack@.len() - 1 == active as int);
                            assert(exists|j: int|
                                0 <= j < labels.len() && labels[j] > active as int);
                            assert(s_scan_branch(pre, amount, dyns.deep_view(), cursor as int,
                                labels) is None);
                            assert(s_scan_step(*rules, pre, iseq[cursor as int], cursor as int)
                                is None);
                        }
                        return Err(());
                    }
                    targets.push(active - t as usize);
                    k = k + 1;
                }
                proof {
                    assert(forall|j: int| 0 <= j < labels.len() ==> labels[j] <= active);
                    assert(targets@ =~= Seq::new(
                        labels.len(),
                        |j: int| ((active as int - labels[j]) as usize),
                    ));
                    match s_fmb(counter.stack@, counter.finalized_blocks@, cursor as int) {
                        Some(p) => lemma_branch_iter_len(p.0, targets@),
                        None => {},
                    }
                }
                if counter.branch(cursor, &targets).is_err() {
                    return Err(());
                }
                last_const = None;
            },
            Instr::Return => {
                if counter.increment(amount).is_err() {
                    return Err(());
                }
                let mut targets: Vec<usize> = Vec::new();
                targets.push(0);
                proof {
                    assert(targets@ =~= seq![0usize]);
                    match s_fmb(counter.stack@, counter.finalized_blocks@, cursor as int) {
                        Some(p) => lemma_branch_iter_len(p.0, targets@),
                        None => {},
                    }
                }
                if counter.branch(cursor, &targets).is_err() {
                    return Err(());
                }
                last_const = None;
            },
            Instr::I32Const(v) => {
                if counter.increment(amount).is_err() {
                    return Err(());
                }
                last_const = Some(*v);
            },
            _ => {
                if counter.increment(amount).is_err() {
                    return Err(());
                }
                last_const = None;
            },
        }
        proof {
            assert(s_scan_step(*rules, pre, iseq[cursor as int], cursor as int) == Some(
                (ScanState {
                    stack: counter.stack@,
                    fin: counter.finalized_blocks@,
                    last_const,
                    dyns: dyns.deep_view(),
                }),
            ));
        }
        cursor = cursor + 1;
    }
    let blocks = sort_metered_blocks(counter.finalized_blocks);
    Ok((blocks, dyns))
}

/// The body with metering calls woven in, over the first `i` instructions:
/// the output built so far and how many blocks have been consumed. A block is
/// consumed when its start position comes up, placing
/// `i64.const cost; call gas_func` before that instruction.
pub open spec fn s_weave_prefix(
    instrs: Seq<InstrV>,
    blocks: Seq<MeteredBlock>,
    gas_func: u32,
    i: int,
) -> (Seq<InstrV>, int)
    decreases i,
{
    if i <= 0 {
        (Seq::empty(), 0)
    } else {
        let p = s_weave_prefix(instrs, blocks, gas_func, i - 1);
        if p.1 < blocks.len() && blocks[p.1].start_pos == i - 1 {
            (
                p.0 + seq![
                    InstrV::I64Const(blocks[p.1].cost as i64),
                    InstrV::Call(gas_func),
                    instrs[i - 1],
                ],
                p.1 + 1,
            )
        } else {
            (p.0.push(instrs[i - 1]), p.1)
        }
    }
}

/// Copy the body, placing `i64.const cost; call gas_func` immediately before
/// the first instruction of every metered block. Fails exactly when some
/// block is left unplaced at the end of the body.
#[verifier::loop_isolation(false)]
fn insert_metering_calls(instrs: &Vec<Instr>, blocks: &Vec<MeteredBlock>, gas_func: u32) -> (r:
    Result<Vec<Instr>, ()>)
    ensures
        ({
            let w = s_weave_prefix(instrs.deep_view(), blocks@, gas_func, instrs@.len() as int);
            match r {
                Ok(out) => out.deep_view() == w.0 && w.1 == blocks@.len(),
                Err(_) => w.1 < blocks@.len(),
            }
        }),
{
    let ghost iseq = instrs.deep_view();
    let mut out: Vec<Instr> = Vec::new();
    let mut j: usize = 0;
    let mut i: usize = 0;
    while i < instrs.len()
        invariant
            i <= instrs@.len(),
            j <= blocks@.len(),
            iseq == instrs.deep_view(),
            iseq.len() == instrs@.len(),
            s_weave_prefix(iseq, blocks@, gas_func, i as int) == (out.deep_view(), j as int),
        decreases instrs@.len() - i,
    {
        let ghost opre = out.deep_view();
        let used = if j < blocks.len() && blocks[j].start_pos == i {
            out.push(Instr::I64Const(#[verifier::truncate] (blocks[j].cost as i64)));
            out.push(Instr::Call(gas_func));
            true
        } else {
            false
        };
        out.push(instr_clone(&instrs[i]));
        proof {
            assert(iseq[i as int] == instrs@[i as int].deep_view());
            if used {
                assert(out.deep_view() =~= opre + seq![
                    InstrV::I64Const(blocks@[j as int].cost as i64),
                    InstrV::Call(gas_func),
                    iseq[i as int],
                ]);
            } else {
                assert(out.deep_view() =~= opre.push(iseq[i as int]));
            }
        }
        if used {
            j = j + 1;
        }
        i = i + 1;
    }
    if j < blocks.len() {
        return Err(());
    }
    Ok(out)
}

/// The combined cost of a list of metered blocks.
pub open spec fn sum_blocks(s: Seq<MeteredBlock>) -> int
    decreases s.len(),
{
    if s.len() == 0 {
        0
    } else {
        sum_blocks(s.drop_last()) + s.last().cost
    }
}

/// The combined cost of the active metered blocks of a control stack.
pub open spec fn sum_active(s: Seq<ControlBlock>) -> int
    decreases s.len(),
{
    if s.len() == 0 {
        0
    } else {
        sum_active(s.drop_last()) + s.last().active_metered_block.cost
    }
}

/// Everything charged so far: finalized blocks plus still-active ones.
pub open spec fn s_total(st: Seq<ControlBlock>, fin: Seq<MeteredBlock>) -> int {
    sum_active(st) + sum_blocks(fin)
}

/// What the scan charges for one instruction: its static amount, except that
/// `end` and `else` are never charged.
pub open spec fn s_charge_amount<R: Rules>(rules: R, last: Option<i32>, instr: InstrV) -> int {
    match rules.spec_cost(instr) {
        Result::Err(_) => 0,
        Result::Ok(ic) => match s_charge(ic, last) {
            None => 0,
            Some(c) => match instr {
                InstrV::End => 0,
                InstrV::Else => 0,
                _ => c.0 as int,
            },
        },
    }
}

/// The static charge of a whole body from position `i` on, folding constants
/// as the scan does.
pub open spec fn s_charged_from<R: Rules>(
    rules: R,
    instrs: Seq<InstrV>,
    i: int,
    last: Option<i32>,
) -> int
    decreases instrs.len() - i,
{
    if i < 0 || i >= instrs.len() {
        0
    } else {
        let next = match instrs[i] {
            InstrV::I32Const(v) => Some(v),
            _ => None::<i32>,
        };
        s_charge_amount(rules, last, instrs[i]) + s_charged_from(rules, instrs, i + 1, next)
    }
}

proof fn lemma_sum_active_update(s: Seq<ControlBlock>, i: int, v: ControlBlock)
    requires
        0 <= i < s.len(),
    ensures
        sum_active(s.update(i, v)) == sum_active(s) - s[i].active_metered_block.cost
            + v.active_metered_block.cost,
    decreases s.len(),
{
    if i == s.len() - 1 {
        assert(s.update(i, v).drop_last() =~= s.drop_last());
    } else {
        assert(s.update(i, v).drop_last() =~= s.drop_last().update(i, v));
        lemma_sum_active_update(s.drop_last(), i, v);
    }
}

proof fn lemma_sum_active_push(s: Seq<ControlBlock>, v: ControlBlock)
    ensures
        sum_active(s.push(v)) == sum_active(s) + v.active_metered_block.cost,
{
    assert(s.push(v).drop_last() =~= s);
}

proof fn lemma_sum_blocks_push(s: Seq<MeteredBlock>, v: MeteredBlock)
    ensures
        sum_blocks(s.push(v)) == sum_blocks(s) + v.cost,
{
    assert(s.push(v).drop_last() =~= s);
}

proof fn lemma_increment_total(st: Seq<ControlBlock>, val: u64)
    ensures
        s_increment(st, val) matches Some(st1) ==> sum_active(st1) == sum_active(st) + val,
{
    match s_increment(st, val) {
        None => {},
        Some(st1) => {
            let top = st.last();
            lemma_sum_active_update(
                st,
                st.len() - 1,
                (ControlBlock {
                    lowest_forward_br_target: top.lowest_forward_br_target,
                    active_metered_block: (MeteredBlock {
                        start_pos: top.active_metered_block.start_pos,
                        cost: (top.active_metered_block.cost + val) as u64,
                    }),
                    is_loop: top.is_loop,
                }),
            );
        },
    }
}

proof fn lemma_fmb_total(st: Seq<ControlBlock>, fin: Seq<MeteredBlock>, cursor: int)
    ensures
        s_fmb(st, fin, cursor) matches Some(r) ==> s_total(r.0, r.1) == s_total(st, fin)
            && r.0.len() == st.len() && r.0.last().active_metered_block.cost == 0,
{
    if st.len() == 0 {
    } else {
        let top = st.last();
        let closing = top.active_metered_block;
        let fresh = ControlBlock {
            lowest_forward_br_target: top.lowest_forward_br_target,
            active_metered_block: (MeteredBlock { start_pos: (cursor + 1) as usize, cost: 0 }),
            is_loop: top.is_loop,
        };
        let st1 = st.update(st.len() - 1, fresh);
        lemma_sum_active_update(st, st.len() - 1, fresh);
        if st.len() > 1 && closing.start_pos == st[st.len() - 2].active_metered_block.start_pos {
            let prev = st[st.len() - 2];
            if prev.active_metered_block.cost + closing.cost <= u64::MAX {
                lemma_sum_active_update(
                    st1,
                    st.len() - 2,
                    (ControlBlock {
                        lowest_forward_br_target: prev.lowest_forward_br_target,
                        active_metered_block: (MeteredBlock {
                            start_pos: prev.active_metered_block.start_pos,
                            cost: (prev.active_metered_block.cost + closing.cost) as u64,
                        }),
                        is_loop: prev.is_loop,
                    }),
                );
                assert(st1[st.len() - 2] == st[st.len() - 2]);
            }
        } else if closing.cost > 0 {
            lemma_sum_blocks_push(fin, closing);
        }
    }
}

proof fn lemma_branch_iter_total(st: Seq<ControlBlock>, indices: Seq<usize>)
    ensures
        s_branch_iter(Some(st), indices) matches Some(st2) ==> sum_active(st2) == sum_active(st),
    decreases indices.len(),
{
    if indices.len() > 0 {
        match s_branch_step(st, indices.first()) {
            None => {
                assert(s_branch_iter(
                    None::<Seq<ControlBlock>>,
                    indices.drop_first(),
                ) is None);
            },
            Some(s2) => {
                assert(s_branch_iter(Some(st), indices) == s_branch_iter(
                    Some(s2),
                    indices.drop_first(),
                ));
                if !(indices.first() >= st.len()) && !st[indices.first() as int].is_loop && (
                indices.first() as int) < st.last().lowest_forward_br_target {
                    let top = st.last();
                    lemma_sum_active_update(
                        st,
                        st.len() - 1,
                        (ControlBlock {
                            lowest_forward_br_target: indices.first(),
                            active_metered_block: top.active_metered_block,
                            is_loop: top.is_loop,
                        }),
                    );
                }
                assert(sum_active(s2) == sum_active(st));
                lemma_branch_iter_total(s2, indices.drop_first());
            },
        }
    }
}

proof fn lemma_fcb_total(st: Seq<ControlBlock>, fin: Seq<MeteredBlock>, cursor: int)
    ensures
        s_fcb(st, fin, cursor) matches Some(r) ==> s_total(r.0, r.1) == s_total(st, fin),
{
    match s_fmb(st, fin, cursor) {
        None => {},
        Some((st1, fin1)) => {
            lemma_fmb_total(st, fin, cursor);
            let closing = st1.last();
            let st2 = st1.drop_last();
            assert(sum_active(st2) == sum_active(st1));
            if st2.len() == 0 {
            } else {
                let top = st2.last();
                let lowest = if closing.lowest_forward_br_target
                    < top.lowest_forward_br_target {
                    closing.lowest_forward_br_target
                } else {
                    top.lowest_forward_br_target
                };
                let st3 = st2.update(
                    st2.len() - 1,
                    (ControlBlock {
                        lowest_forward_br_target: lowest,
                        active_metered_block: top.active_metered_block,
                        is_loop: top.is_loop,
                    }),
                );
                lemma_sum_active_update(
                    st2,
                    st2.len() - 1,
                    (ControlBlock {
                        lowest_forward_br_target: lowest,
                        active_metered_block: top.active_metered_block,
                        is_loop: top.is_loop,
                    }),
                );
                if closing.lowest_forward_br_target < st2.len() {
                    lemma_fmb_total(st3, fin1, cursor);
                }
            }
        },
    }
}

proof fn lemma_branch_total(
    st: Seq<ControlBlock>,
    fin: Seq<MeteredBlock>,
    cursor: int,
    indices: Seq<usize>,
)
    ensures
        s_branch(st, fin, cursor, indices) matches Some(r) ==> s_total(r.0, r.1) == s_total(
            st,
            fin,
        ),
{
    match s_fmb(st, fin, cursor) {
        None => {},
        Some((st1, fin1)) => {
            lemma_fmb_total(st, fin, cursor);
            lemma_branch_iter_total(st1, indices);
        },
    }
}

proof fn lemma_step_total<R: Rules>(rules: R, s: ScanState, instr: InstrV, cursor: int)
    ensures
        s_scan_step(rules, s, instr, cursor) matches Some(s1) ==> s_total(s1.stack, s1.fin)
            == s_total(s.stack, s.fin) + s_charge_amount(rules, s.last_const, instr),
{
    match rules.spec_cost(instr) {
        Result::Err(_) => {},
        Result::Ok(ic) => match s_charge(ic, s.last_const) {
            None => {},
            Some(charge) => {
                let amount = charge.0;
                lemma_increment_total(s.stack, amount);
                match instr {
                    InstrV::Block(_) => {
                        match s_increment(s.stack, amount) {
                            None => {},
                            Some(st1) => {
                                lemma_sum_active_push(
                                    st1,
                                    (ControlBlock {
                                        lowest_forward_br_target: st1.len() as usize,
                                        active_metered_block: (MeteredBlock {
                                            start_pos: st1.last().active_metered_block.start_pos,
                                            cost: 0,
                                        }),
                                        is_loop: false,
                                    }),
                                );
                            },
                        }
                    },
                    InstrV::If(_) => {
                        match s_increment(s.stack, amount) {
                            None => {},
                            Some(st1) => {
                                lemma_sum_active_push(
                                    st1,
                                    (ControlBlock {
                                        lowest_forward_br_target: st1.len() as usize,
                                        active_metered_block: (MeteredBlock {
                                            start_pos: (cursor + 1) as usize,
                                            cost: 0,
                                        }),
                                        is_loop: false,
                                    }),
                                );
                            },
                        }
                    },
                    InstrV::Loop(_) => {
                        match s_increment(s.stack, amount) {
                            None => {},
                            Some(st1) => {
                                lemma_sum_active_push(
                                    st1,
                                    (ControlBlock {
                                        lowest_forward_br_target: st1.len() as usize,
                                        active_metered_block: (MeteredBlock {
                                            start_pos: (cursor + 1) as usize,
                                            cost: 0,
                                        }),
                                        is_loop: true,
                                    }),
                                );
                            },
                        }
                    },
                    InstrV::End => {
                        lemma_fcb_total(s.stack, s.fin, cursor);
                    },
                    InstrV::Else => {
                        lemma_fmb_total(s.stack, s.fin, cursor);
                    },
                    InstrV::Br(label) => {
                        match s_increment(s.stack, amount) {
                            None => {},
                            Some(st1) => {
                                if !(label > st1.len() - 1) {
                                    lemma_branch_total(
                                        st1,
                                        s.fin,
                                        cursor,
                                        Seq::new(
                                            seq![label].len(),
                                            |j: int| (((st1.len() - 1) - seq![label][j]) as usize),
                                        ),
                                    );
                                }
                            },
                        }
                    },
                    InstrV::BrIf(label) => {
                        match s_increment(s.stack, amount) {
                            None => {},
                            Some(st1) => {
                                if !(label > st1.len() - 1) {
                                    lemma_branch_total(
                                        st1,
                                        s.fin,
                                        cursor,
                                        Seq::new(
                                            seq![label].len(),
                                            |j: int| (((st1.len() - 1) - seq![label][j]) as usize),
                                        ),
                                    );
                                }
                            },
                        }
                    },
                    InstrV::BrTable(table, default) => {
                        match s_increment(s.stack, amount) {
                            None => {},
                            Some(st1) => {
                                let labels = seq![default] + table;
                                if !(exists|j: int|
                                    0 <= j < labels.len() && labels[j] > st1.len() - 1) {
                                    lemma_branch_total(
                                        st1,
                                        s.fin,
                                        cursor,
                                        Seq::new(
                                            labels.len(),
                                            |j: int| (((st1.len() - 1) - labels[j]) as usize),
                                        ),
                                    );
                                }
                            },
                        }
                    },
                    InstrV::Return => {
                        match s_increment(s.stack, amount) {
                            None => {},
                            Some(st1) => {
                                lemma_branch_total(st1, s.fin, cursor, seq![0usize]);
                            },
                        }
                    },
                    _ => {},
                }
            },
        },
    }
}

/// Total-charge conservation: whenever the scan succeeds, the costs of the
/// finalized metered blocks and the still-active ones add up to exactly the
/// static charge of the instructions scanned — every instruction is paid for
/// once, with `end` and `else` free and a constant-preceded linear cost
/// folded, as [`s_charged_from`] states. Run from the start on a body whose
/// final `end` closes every control block, it says the finalized blocks alone
/// charge the whole body.
pub proof fn lemma_total_charge<R: Rules>(rules: R, instrs: Seq<InstrV>, i: int, s: ScanState)
    requires
        0 <= i <= instrs.len(),
    ensures
        s_scan_from(rules, instrs, i, s) matches Some(res) ==> s_total(res.stack, res.fin)
            == s_total(s.stack, s.fin) + s_charged_from(rules, instrs, i, s.last_const),
    decreases instrs.len() - i,
{
    if i >= instrs.len() {
    } else {
        match s_scan_step(rules, s, instrs[i], i) {
            None => {},
            Some(s1) => {
                lemma_step_total(rules, s, instrs[i], i);
                assert(s1.last_const == (match instrs[i] {
                    InstrV::I32Const(v) => Some(v),
                    _ => None::<i32>,
                }));
                lemma_total_charge(rules, instrs, i + 1, s1);
            },
        }
    }
}

/// Charge before execution: every metered block that the weave placed shows
/// up in the output as `i64.const cost; call gas_func` immediately before the
/// block's first instruction.
pub proof fn lemma_charge_before_execution(
    body: Seq<InstrV>,
    blocks: Seq<MeteredBlock>,
    gas_func: u32,
    i: int,
    j: int,
)
    requires
        0 <= i <= body.len(),
        0 <= j < s_weave_prefix(body, blocks, gas_func, i).1,
    ensures
        exists|p: int|
            {
                &&& 0 <= p
                &&& p + 2 < s_weave_prefix(body, blocks, gas_func, i).0.len()
                &&& #[trigger] s_weave_prefix(body, blocks, gas_func, i).0[p]
                    == InstrV::I64Const(blocks[j].cost as i64)
                &&& s_weave_prefix(body, blocks, gas_func, i).0[p + 1] == InstrV::Call(gas_func)
                &&& s_weave_prefix(body, blocks, gas_func, i).0[p + 2] == body[
                    blocks[j].start_pos as int
                ]
            },
    decreases i,
{
    let w = s_weave_prefix(body, blocks, gas_func, i);
    let wp = s_weave_prefix(body, blocks, gas_func, i - 1);
    if i <= 0 {
    } else if wp.1 < blocks.len() && blocks[wp.1].start_pos == i - 1 {
        if j < wp.1 {
            lemma_charge_before_execution(body, blocks, gas_func, i - 1, j);
            let p = choose|p: int|
                {
                    &&& 0 <= p
                    &&& p + 2 < wp.0.len()
                    &&& #[trigger] wp.0[p] == InstrV::I64Const(blocks[j].cost as i64)
                    &&& wp.0[p + 1] == InstrV::Call(gas_func)
                    &&& wp.0[p + 2] == body[blocks[j].start_pos as int]
                };
            assert(w.0[p] == wp.0[p] && w.0[p + 1] == wp.0[p + 1] && w.0[p + 2] == wp.0[p + 2]);
        } else {
            let p = wp.0.len() as int;
            assert(w.0[p] == InstrV::I64Const(blocks[j].cost as i64));
            assert(w.0[p + 1] == InstrV::Call(gas_func));
            assert(w.0[p + 2] == body[blocks[j].start_pos as int]);
        }
    } else {
        lemma_charge_before_execution(body, blocks, gas_func, i - 1, j);
        let p = choose|p: int|
            {
                &&& 0 <= p
                &&& p + 2 < wp.0.len()
                &&& #[trigger] wp.0[p] == InstrV::I64Const(blocks[j].cost as i64)
                &&& wp.0[p + 1] == InstrV::Call(gas_func)
                &&& wp.0[p + 2] == body[blocks[j].start_pos as int]
            };
        assert(w.0[p] == wp.0[p] && w.0[p + 1] == wp.0[p + 1] && w.0[p + 2] == wp.0[p + 2]);
    }
}

/// A global index shifted up by one, wrapping at the top of `u32`.
pub open spec fn wrap_inc(g: u32) -> u32 {
    if g == u32::MAX {
        0u32
    } else {
        (g + 1) as u32
    }
}

/// Renumbering of one instruction after the gas global is inserted at index
/// `gas_global`: global accesses at or above it move up by one.
pub open spec fn s_bump(i: InstrV, gas_global: u32) -> InstrV {
    match i {
        InstrV::GetGlobal(g) => if g >= gas_global {
            InstrV::GetGlobal(wrap_inc(g))
        } else {
            i
        },
        InstrV::SetGlobal(g) => if g >= gas_global {
            InstrV::SetGlobal(wrap_inc(g))
        } else {
            i
        },
        _ => i,
    }
}

/// A whole body renumbered.
pub open spec fn s_bumped(body: Seq<InstrV>, gas_global: u32) -> Seq<InstrV> {
    Seq::new(body.len(), |k: int| s_bump(body[k], gas_global))
}

fn wrap_inc_exec(g: u32) -> (r: u32)
    ensures
        r == wrap_inc(g),
{
    if g == u32::MAX {
        0
    } else {
        g + 1
    }
}

/// Renumber the global accesses of one body; see [`s_bump`].
#[verifier::loop_isolation(false)]
fn bump_body(body: &Vec<Instr>, gas_global: u32) -> (r: Vec<Instr>)
    ensures
        r.deep_view() == s_bumped(body.deep_view(), gas_global),
        r@.len() == body@.len(),
{
    let mut out: Vec<Instr> = Vec::new();
    let mut i: usize = 0;
    while i < body.len()
        invariant
            i <= body@.len(),
            out@.len() == i,
            forall|k: int|
                0 <= k < i ==> out.deep_view()[k] == s_bump(body.deep_view()[k], gas_global),
        decreases body@.len() - i,
    {
        let ghost dpre = out.deep_view();
        match &body[i] {
            Instr::GetGlobal(g) => if *g >= gas_global {
                out.push(Instr::GetGlobal(wrap_inc_exec(*g)));
            } else {
                out.push(Instr::GetGlobal(*g));
            },
            Instr::SetGlobal(g) => if *g >= gas_global {
                out.push(Instr::SetGlobal(wrap_inc_exec(*g)));
            } else {
                out.push(Instr::SetGlobal(*g));
            },
            _ => {
                out.push(instr_clone(&body[i]));
            },
        }
        proof {
            assert(body.deep_view()[i as int] == body@[i as int].deep_view());
            assert(out.deep_view()[i as int] == s_bump(
                body.deep_view()[i as int],
                gas_global,
            ));
            assert forall|k: int| 0 <= k < i implies out.deep_view()[k] == s_bump(
                body.deep_view()[k],
                gas_global,
            ) by {
                assert(out.deep_view()[k] == out@[k].deep_view());
                assert(dpre[k] == out@[k].deep_view());
            }
        }
        i = i + 1;
    }
    proof {
        assert(out.deep_view() =~= s_bumped(body.deep_view(), gas_global));
    }
    out
}

/// `pre` extended with the elements of `add` that it does not hold yet, in
/// order of first sighting.
pub open spec fn s_merge_dyns(pre: Seq<InstrV>, add: Seq<InstrV>) -> Seq<InstrV>
    decreases add.len(),
{
    if add.len() == 0 {
        pre
    } else {
        s_merge_dyns(
            if pre.contains(add.first()) {
                pre
            } else {
                pre.push(add.first())
            },
            add.drop_first(),
        )
    }
}

/// Fold newly found dynamic-cost instructions into the running list.
fn merge_dyns(dyns: &mut Vec<Instr>, add: &Vec<Instr>)
    ensures
        final(dyns).deep_view() == s_merge_dyns(old(dyns).deep_view(), add.deep_view()),
        distinct_seq(old(dyns).deep_view()) ==> distinct_seq(final(dyns).deep_view()),
{
    let ghost d0 = dyns.deep_view();
    let ghost aseq = add.deep_view();
    proof {
        assert(aseq.skip(0) =~= aseq);
    }
    let mut k: usize = 0;
    while k < add.len()
        invariant
            k <= add@.len(),
            aseq == add.deep_view(),
            aseq.len() == add@.len(),
            s_merge_dyns(dyns.deep_view(), aseq.skip(k as int)) == s_merge_dyns(d0, aseq),
            distinct_seq(d0) ==> distinct_seq(dyns.deep_view()),
        decreases add@.len() - k,
    {
        proof {
            assert(aseq.skip(k as int).first() == aseq[k as int]);
            assert(aseq.skip(k as int).drop_first() =~= aseq.skip(k as int + 1));
        }
        if !dyn_contains(dyns, &add[k]) {
            let ghost dpre = dyns.deep_view();
            dyns.push(instr_clone(&add[k]));
            proof {
                assert(dyns.deep_view() =~= dpre.push(aseq[k as int]));
            }
        }
        k = k + 1;
    }
    proof {
        assert(aseq.skip(k as int) =~= Seq::<InstrV>::empty());
    }
}

/// The function index that the dynamic-cost thunk for `x` is called at.
pub open spec fn dyn_call_index(dyns: Seq<InstrV>, x: InstrV, gas_func: u32) -> u32 {
    ((gas_func + 1 + (choose|m: int| 0 <= m < dyns.len() && dyns[m] == x)) as u32)
}

/// Every occurrence of a dynamic-cost instruction replaced by a call to its
/// thunk.
pub open spec fn s_replace_dyn(body: Seq<InstrV>, dyns: Seq<InstrV>, gas_func: u32) -> Seq<
    InstrV,
> {
    Seq::new(
        body.len(),
        |k: int| if dyns.contains(body[k]) {
            InstrV::Call(dyn_call_index(dyns, body[k], gas_func))
        } else {
            body[k]
        },
    )
}

/// The position of `x` in `dyns`, if any.
fn find_dyn(dyns: &Vec<Instr>, x: &Instr) -> (r: Option<usize>)
    ensures
        match r {
            Some(m) => m < dyns@.len() && dyns.deep_view()[m as int] == x.deep_view(),
            None => !dyns.deep_view().contains(x.deep_view()),
        },
{
    let mut m: usize = 0;
    while m < dyns.len()
        invariant
            m <= dyns@.len(),
            forall|j: int| 0 <= j < m ==> dyns.deep_view()[j] != x.deep_view(),
        decreases dyns@.len() - m,
    {
        if instr_eq(&dyns[m], x) {
            return Some(m);
        }
        m = m + 1;
    }
    None
}

/// Rewrite dynamic-cost instructions to thunk calls; see [`s_replace_dyn`].
#[verifier::loop_isolation(false)]
fn replace_dyn_calls(body: Vec<Instr>, dyns: &Vec<Instr>, gas_func: u32) -> (r: Vec<Instr>)
    requires
        distinct_seq(dyns.deep_view()),
        gas_func + dyns@.len() <= u32::MAX,
    ensures
        r.deep_view() == s_replace_dyn(body.deep_view(), dyns.deep_view(), gas_func),
{
    let ghost bseq = body.deep_view();
    let mut src = body;
    let mut out: Vec<Instr> = Vec::new();
    while src.len() > 0
        invariant
            out@.len() + src@.len() == bseq.len(),
            forall|j: int|
                0 <= j < src@.len() ==> src.deep_view()[j] == bseq[out@.len() + j],
            forall|k: int|
                0 <= k < out@.len() ==> out.deep_view()[k] == s_replace_dyn(
                    bseq,
                    dyns.deep_view(),
                    gas_func,
                )[k],
            distinct_seq(dyns.deep_view()),
            gas_func + dyns@.len() <= u32::MAX,
        decreases src@.len(),
    {
        let ghost spre = src.deep_view();
        let e = src.remove(0);
        proof {
            assert(e.deep_view() == spre[0]);
            assert(src.deep_view() =~= spre.drop_first());
        }
        let ghost opre_len = out@.len();
        let ghost dpre = out.deep_view();
        match find_dyn(dyns, &e) {
            Some(m) => {
                proof {
                    assert(dyns.deep_view().contains(e.deep_view()));
                    let c = choose|i: int|
                        0 <= i < dyns.deep_view().len() && dyns.deep_view()[i] == e.deep_view();
                    assert(c == m as int);
                }
                out.push(Instr::Call(gas_func + 1 + (m as u32)));
            },
            None => {
                out.push(e);
            },
        }
        proof {
            assert(e.deep_view() == bseq[opre_len as int]);
            assert(out.deep_view()[opre_len as int] == s_replace_dyn(
                bseq,
                dyns.deep_view(),
                gas_func,
            )[opre_len as int]);
            assert forall|k: int| 0 <= k < opre_len implies out.deep_view()[k]
                == s_replace_dyn(bseq, dyns.deep_view(), gas_func)[k] by {
                assert(out.deep_view()[k] == out@[k].deep_view());
                assert(dpre[k] == out@[k].deep_view());
            }
        }
    }
    proof {
        assert(out.deep_view() =~= s_replace_dyn(bseq, dyns.deep_view(), gas_func));
    }
    out
}

/// The body of the gas-accounting function: subtract the charge from the gas
/// global and trap when the remainder is negative.
pub open spec fn s_gas_counter_body(gas_global: u32) -> Seq<InstrV> {
    seq![
        InstrV::GetGlobal(gas_global),
        InstrV::GetLocal(0),
        InstrV::I64Sub,
        InstrV::SetGlobal(gas_global),
        InstrV::GetGlobal(gas_global),
        InstrV::I64Const(0),
        InstrV::I64LtS,
        InstrV::If(BlockArity { params: 0, results: 0 }),
        InstrV::Unreachable,
        InstrV::End,
        InstrV::End,
    ]
}

fn gas_counter_body(gas_global: u32) -> (r: Vec<Instr>)
    ensures
        r.deep_view() == s_gas_counter_body(gas_global),
{
    let mut v: Vec<Instr> = Vec::new();
    v.push(Instr::GetGlobal(gas_global));
    v.push(Instr::GetLocal(0));
    v.push(Instr::I64Sub);
    v.push(Instr::SetGlobal(gas_global));
    v.push(Instr::GetGlobal(gas_global));
    v.push(Instr::I64Const(0));
    v.push(Instr::I64LtS);
    v.push(Instr::If(BlockArity { params: 0, results: 0 }));
    v.push(Instr::Unreachable);
    v.push(Instr::End);
    v.push(Instr::End);
    proof {
        assert(v.deep_view() =~= s_gas_counter_body(gas_global));
    }
    v
}

/// The body of a dynamic-cost thunk: re-push the operand, extend it, multiply
/// by the per-unit cost, charge, then run the instruction itself.
pub open spec fn s_dyn_thunk_body(d: InstrV, per: u64, gas_func: u32) -> Seq<InstrV> {
    seq![
        InstrV::GetLocal(0),
        InstrV::GetLocal(0),
        InstrV::I64ExtendUI32,
        InstrV::I64Const(per as i64),
        InstrV::I64Mul,
        InstrV::Call(gas_func),
        d,
        InstrV::End,
    ]
}

/// One body taken through the whole gas pipeline: globals renumbered, metered
/// blocks determined and woven in, dynamic-cost instructions folded into the
/// running list and rewritten to thunk calls.
pub open spec fn s_gas_body<R: Rules>(
    rules: R,
    body: Seq<InstrV>,
    gas_global: u32,
    gas_func: u32,
    pre_dyns: Seq<InstrV>,
) -> Option<(Seq<InstrV>, Seq<InstrV>)> {
    let bumped = s_bumped(body, gas_global);
    match s_metered(rules, bumped) {
        None => None,
        Some(res) => {
            let blocks = res.fin.sort_by(block_leq());
            let w = s_weave_prefix(bumped, blocks, gas_func, bumped.len() as int);
            if w.1 != blocks.len() {
                None
            } else {
                let dyns1 = s_merge_dyns(pre_dyns, res.dyns);
                if gas_func + dyns1.len() > u32::MAX {
                    None
                } else {
                    Some((s_replace_dyn(w.0, dyns1, gas_func), dyns1))
                }
            }
        },
    }
}

fn process_body<R: Rules>(
    body: &Vec<Instr>,
    rules: &R,
    gas_global: u32,
    gas_func: u32,
    dyns: &mut Vec<Instr>,
) -> (r: Result<Vec<Instr>, ()>)
    requires
        body@.len() < usize::MAX,
        distinct_seq(old(dyns).deep_view()),
    ensures
        match r {
            Ok(out) => s_gas_body(
                *rules,
                body.deep_view(),
                gas_global,
                gas_func,
                old(dyns).deep_view(),
            ) == Some((out.deep_view(), final(dyns).deep_view())) && distinct_seq(
                final(dyns).deep_view(),
            ),
            Err(_) => s_gas_body(
                *rules,
                body.deep_view(),
                gas_global,
                gas_func,
                old(dyns).deep_view(),
            ) is None,
        },
{
    let bumped = bump_body(body, gas_global);
    let pair = match determine_metered_blocks(&bumped, rules) {
        Ok(p) => p,
        Err(_) => {
            return Err(());
        },
    };
    let blocks = pair.0;
    let new_dyns = pair.1;
    let woven = match insert_metering_calls(&bumped, &blocks, gas_func) {
        Ok(w) => w,
        Err(_) => {
            return Err(());
        },
    };
    merge_dyns(dyns, &new_dyns);
    if dyns.len() > 0 {
        let limit = u32::MAX - gas_func;
        if dyns.len() > limit as usize {
            return Err(());
        }
    }
    Ok(replace_dyn_calls(woven, dyns, gas_func))
}

/// The instruction sequences of a code section.
pub open spec fn codes_of(code: Seq<FuncBody>) -> Seq<Seq<InstrV>> {
    Seq::new(code.len(), |k: int| code[k].code.deep_view())
}

/// Every body taken through the gas pipeline, threading the dynamic-cost
/// list through, left to right.
pub open spec fn s_gas_code<R: Rules>(
    rules: R,
    bodies: Seq<Seq<InstrV>>,
    gas_global: u32,
    gas_func: u32,
    dyns: Seq<InstrV>,
) -> Option<(Seq<Seq<InstrV>>, Seq<InstrV>)>
    decreases bodies.len(),
{
    if bodies.len() == 0 {
        Some((Seq::empty(), dyns))
    } else {
        match s_gas_body(rules, bodies.first(), gas_global, gas_func, dyns) {
            None => None,
            Some(p) => match s_gas_code(rules, bodies.drop_first(), gas_global, gas_func, p.1) {
                None => None,
                Some(q) => Some((seq![p.0] + q.0, q.1)),
            },
        }
    }
}

#[verifier::loop_isolation(false)]
fn process_code<R: Rules>(code: Vec<FuncBody>, rules: &R, gas_global: u32, gas_func: u32) -> (r:
    Result<(Vec<FuncBody>, Vec<Instr>), ()>)
    requires
        forall|i: int| 0 <= i < code@.len() ==> code@[i].code@.len() < usize::MAX,
    ensures
        match r {
            Ok(p) => s_gas_code(*rules, codes_of(code@), gas_global, gas_func, Seq::empty())
                matches Some(q) && codes_of(p.0@) == q.0 && p.0@.len() == code@.len() && (forall|
                i: int,
            | 0 <= i < code@.len() ==> p.0@[i].locals == code@[i].locals) && p.1.deep_view() == q.1
                && distinct_seq(p.1.deep_view()),
            Err(_) => s_gas_code(*rules, codes_of(code@), gas_global, gas_func, Seq::empty())
                is None,
        },
{
    let ghost full = codes_of(code@);
    let ghost code0 = code@;
    let mut src = code;
    let mut out: Vec<FuncBody> = Vec::new();
    let mut dyns: Vec<Instr> = Vec::new();
    proof {
        assert(dyns.deep_view() =~= Seq::<InstrV>::empty());
        assert(codes_of(src@) =~= full);
    }
    while src.len() > 0
        invariant
            out@.len() + src@.len() == code0.len(),
            forall|j: int| 0 <= j < src@.len() ==> src@[j] == code0[out@.len() + j],
            forall|i: int| 0 <= i < out@.len() ==> out@[i].locals == code0[i].locals,
            distinct_seq(dyns.deep_view()),
            s_gas_code(*rules, full, gas_global, gas_func, Seq::empty()) == (match s_gas_code(
                *rules,
                codes_of(src@),
                gas_global,
                gas_func,
                dyns.deep_view(),
            ) {
                None => None::<(Seq<Seq<InstrV>>, Seq<InstrV>)>,
                Some(q) => Some((codes_of(out@) + q.0, q.1)),
            }),
        decreases src@.len(),
    {
        let ghost spre = src@;
        let fb = src.remove(0);
        proof {
            assert(fb == spre[0]);
            assert(src@ =~= spre.drop_first());
            assert(codes_of(spre).first() == fb.code.deep_view());
            assert(codes_of(spre).drop_first() =~= codes_of(src@));
        }
        let ghost dpre = dyns.deep_view();
        let nb = match process_body(&fb.code, rules, gas_global, gas_func, &mut dyns) {
            Ok(nb) => nb,
            Err(_) => {
                return Err(());
            },
        };
        let ghost opre = out@;
        out.push(FuncBody { locals: fb.locals, code: nb });
        proof {
            assert(codes_of(out@) =~= codes_of(opre).push(nb.deep_view()));
            assert(codes_of(opre) + (seq![nb.deep_view()] + codes_of(src@)) =~= codes_of(out@)
                + codes_of(src@));
        }
    }
    proof {
        assert(codes_of(src@) =~= Seq::<Seq<InstrV>>::empty());
        assert(codes_of(out@) + Seq::<Seq<InstrV>>::empty() =~= codes_of(out@));
    }
    Ok((out, dyns))
}

/// Whether an import claims the slot of the gas counter: same module name,
/// field `gas_counter`, a mutable global.
pub open spec fn is_gas_import(imp: Import, name: Seq<char>) -> bool {
    &&& imp.module@ == name
    &&& imp.field@ == "gas_counter"@
    &&& (imp.kind matches ImportKind::Global { mutable: true, .. })
}

/// How many imports claim the gas-counter slot.
pub open spec fn count_gas_imports(s: Seq<Import>, name: Seq<char>) -> int
    decreases s.len(),
{
    if s.len() == 0 {
        0
    } else {
        count_gas_imports(s.drop_last(), name) + if is_gas_import(s.last(), name) {
            1int
        } else {
            0int
        }
    }
}

#[verifier::loop_isolation(false)]
fn count_gas_imports_exec(imports: &Vec<Import>, gm: &String, gc: &String) -> (n: usize)
    requires
        gc@ == "gas_counter"@,
    ensures
        n == count_gas_imports(imports@, gm@),
{
    let mut n: usize = 0;
    let mut i: usize = 0;
    while i < imports.len()
        invariant
            i <= imports@.len(),
            n <= i,
            n == count_gas_imports(imports@.take(i as int), gm@),
        decreases imports@.len() - i,
    {
        proof {
            assert(imports@.take(i + 1).drop_last() =~= imports@.take(i as int));
            assert(imports@.take(i + 1).last() == imports@[i as int]);
        }
        let imp = &imports[i];
        let is_mut_global = match &imp.kind {
            ImportKind::Global { mutable, .. } => *mutable,
            _ => false,
        };
        if is_mut_global && imp.module == *gm && imp.field == *gc {
            n = n + 1;
        }
        i = i + 1;
    }
    proof {
        assert(imports@.take(i as int) =~= imports@);
    }
    n
}

/// An offset initializer that the analysis cannot follow: present but not a
/// single `i32.const`.
pub open spec fn bad_offset(o: Option<InitExpr>) -> bool {
    match o {
        Some(e) => !(e is I32Const),
        None => false,
    }
}

#[verifier::loop_isolation(false)]
fn check_elem_offsets(segs: &Vec<ElemSegment>) -> (r: bool)
    ensures
        r == (forall|i: int| 0 <= i < segs@.len() ==> !bad_offset(segs@[i].offset)),
{
    let mut i: usize = 0;
    while i < segs.len()
        invariant
            i <= segs@.len(),
            forall|j: int| 0 <= j < i ==> !bad_offset(segs@[j].offset),
        decreases segs@.len() - i,
    {
        match &segs[i].offset {
            Some(InitExpr::I32Const(_)) => {},
            None => {},
            _ => {
                return false;
            },
        }
        i = i + 1;
    }
    true
}

#[verifier::loop_isolation(false)]
fn check_data_offsets(segs: &Vec<DataSegment>) -> (r: bool)
    ensures
        r == (forall|i: int| 0 <= i < segs@.len() ==> !bad_offset(segs@[i].offset)),
{
    let mut i: usize = 0;
    while i < segs.len()
        invariant
            i <= segs@.len(),
            forall|j: int| 0 <= j < i ==> !bad_offset(segs@[j].offset),
        decreases segs@.len() - i,
    {
        match &segs[i].offset {
            Some(InitExpr::I32Const(_)) => {},
            None => {},
            _ => {
                return false;
            },
        }
        i = i + 1;
    }
    true
}

/// An export entry renumbered: global exports at or above the gas global move
/// up by one.
pub open spec fn s_bump_export(kind: ExportKind, gas_global: u32) -> ExportKind {
    match kind {
        ExportKind::Global(g) => if g >= gas_global {
            ExportKind::Global(wrap_inc(g))
        } else {
            kind
        },
        _ => kind,
    }
}

#[verifier::loop_isolation(false)]
fn bump_global_exports(exports: Vec<Export>, gas_global: u32) -> (r: Vec<Export>)
    ensures
        r@.len() == exports@.len(),
        forall|i: int|
            0 <= i < exports@.len() ==> r@[i].name == exports@[i].name && r@[i].kind
                == s_bump_export(exports@[i].kind, gas_global),
{
    let ghost e0 = exports@;
    let mut src = exports;
    let mut out: Vec<Export> = Vec::new();
    while src.len() > 0
        invariant
            out@.len() + src@.len() == e0.len(),
            forall|j: int| 0 <= j < src@.len() ==> src@[j] == e0[out@.len() + j],
            forall|i: int|
                0 <= i < out@.len() ==> out@[i].name == e0[i].name && out@[i].kind
                    == s_bump_export(e0[i].kind, gas_global),
        decreases src@.len(),
    {
        let ghost spre = src@;
        let e = src.remove(0);
        proof {
            assert(e == spre[0]);
            assert(src@ =~= spre.drop_first());
        }
        let kind = match e.kind {
            ExportKind::Global(g) => if g >= gas_global {
                ExportKind::Global(wrap_inc_exec(g))
            } else {
                ExportKind::Global(g)
            },
            k => k,
        };
        out.push(Export { name: e.name, kind });
    }
    out
}

/// Whether a dynamic-cost instruction can be given a thunk: it must be
/// `memory.grow` (the one instruction with a known dynamic signature) and its
/// cost must be linear.
pub open spec fn thunkable<R: Rules>(rules: R, d: InstrV) -> bool {
    &&& d == InstrV::GrowMemory
    &&& (rules.spec_cost(d) matches Ok(InstructionCost::Linear(..)))
}

/// The per-unit cost of a dynamic-cost instruction.
pub open spec fn thunk_per<R: Rules>(rules: R, d: InstrV) -> u64 {
    match rules.spec_cost(d) {
        Ok(InstructionCost::Linear(_, per)) => per,
        _ => 0,
    }
}

/// The gas global's index: the number of imported globals, since the new
/// import lands at the end of the import section.
pub open spec fn gas_global_of(m: Module) -> int {
    count_global_imports(m.imports@)
}

/// The gas function's index: one past the whole function index space.
pub open spec fn gas_func_of(m: Module) -> int {
    count_func_imports(m.imports@) + m.funcs@.len()
}

/// Exactly when [`inject`] refuses a module: a conflicting gas import, an
/// index space too large for `u32`, a segment offset the analysis cannot
/// follow, a body on which the scan or the weave fails, or a dynamic-cost
/// instruction without a thunk shape.
pub open spec fn s_gas_fails<R: Rules>(rules: R, m: Module, name: Seq<char>) -> bool {
    ||| count_gas_imports(m.imports@, name) != 0
    ||| gas_global_of(m) >= u32::MAX
    ||| gas_func_of(m) > u32::MAX
    ||| exists|i: int| 0 <= i < m.elements@.len() && bad_offset(#[trigger] m.elements@[i].offset)
    ||| exists|i: int| 0 <= i < m.data@.len() && bad_offset(#[trigger] m.data@[i].offset)
    ||| match s_gas_code(
        rules,
        codes_of(m.code@),
        gas_global_of(m) as u32,
        gas_func_of(m) as u32,
        Seq::empty(),
    ) {
        None => true,
        Some(p) => {
            ||| m.types@.len() + 1 + p.1.len() > u32::MAX
            ||| exists|k: int| 0 <= k < p.1.len() && !thunkable(rules, #[trigger] p.1[k])
        },
    }
}

/// What a successful injection returns: the original module with the gas
/// import appended to the imports, every body metered (see [`s_gas_code`]),
/// global references renumbered, and the gas function and the dynamic-cost
/// thunks appended to the type, function and code sections.
pub open spec fn gas_output_ok<R: Rules>(rules: R, m: Module, name: Seq<char>, out: Module) -> bool {
    let gg = gas_global_of(m) as u32;
    let gf = gas_func_of(m) as u32;
    match s_gas_code(rules, codes_of(m.code@), gg, gf, Seq::empty()) {
        None => false,
        Some(p) => {
            let bodies = p.0;
            let dyns = p.1;
            let gas_ty = m.types@.len() as u32;
            &&& out.imports@.len() == m.imports@.len() + 1
            &&& out.imports@.drop_last() == m.imports@
            &&& out.imports@.last().module@ == name
            &&& out.imports@.last().field@ == "gas_counter"@
            &&& out.imports@.last().kind == (ImportKind::Global { ty: ValType::I64, mutable: true })
            &&& count_gas_imports(out.imports@, name) == 1
            &&& out.types@.len() == m.types@.len() + 1 + dyns.len()
            &&& out.types@.subrange(0, m.types@.len() as int) == m.types@
            &&& out.types@[m.types@.len() as int].params@ == seq![ValType::I64]
            &&& out.types@[m.types@.len() as int].results@ == Seq::<ValType>::empty()
            &&& (forall|k: int|
                0 <= k < dyns.len() ==> (#[trigger] out.types@[m.types@.len() + 1 + k]).params@
                    == seq![ValType::I32] && out.types@[m.types@.len() + 1 + k].results@ == seq![
                    ValType::I32,
                ])
            &&& out.funcs@ == m.funcs@ + seq![gas_ty] + Seq::new(
                dyns.len(),
                |k: int| (gas_ty + 1 + k) as u32,
            )
            &&& out.code@.len() == m.code@.len() + 1 + dyns.len()
            &&& (forall|i: int|
                0 <= i < m.code@.len() ==> out.code@[i].locals == m.code@[i].locals
                    && #[trigger] out.code@[i].code.deep_view() == bodies[i])
            &&& out.code@[m.code@.len() as int].locals == 0
            &&& out.code@[m.code@.len() as int].code.deep_view() == s_gas_counter_body(gg)
            &&& (forall|k: int|
                0 <= k < dyns.len() ==> (#[trigger] out.code@[m.code@.len() + 1 + k]).locals == 0
                    && out.code@[m.code@.len() + 1 + k].code.deep_view() == s_dyn_thunk_body(
                    dyns[k],
                    thunk_per(rules, dyns[k]),
                    gf,
                ))
            &&& out.exports@.len() == m.exports@.len()
            &&& (forall|i: int|
                0 <= i < m.exports@.len() ==> out.exports@[i].name == m.exports@[i].name
                    && #[trigger] out.exports@[i].kind == s_bump_export(m.exports@[i].kind, gg))
            &&& out.globals@ == m.globals@
            &&& out.tables@ == m.tables@
            &&& out.memories@ == m.memories@
            &&& out.start == m.start
            &&& out.elements@ == m.elements@
            &&& out.data@ == m.data@
        },
    }
}

/// Reference integrity: in a module that [`inject`] accepted, every export
/// still points inside the respective index space — global exports moved up
/// by one alongside the new import, and the function index space only grew.
pub proof fn lemma_gas_reference_integrity<R: Rules>(rules: R, m: Module, name: Seq<char>, out: Module)
    requires
        gas_output_ok(rules, m, name, out),
        count_global_imports(m.imports@) + m.globals@.len() < u32::MAX,
        forall|i: int|
            0 <= i < m.exports@.len() ==> match (#[trigger] m.exports@[i]).kind {
                ExportKind::Global(g) => g < count_global_imports(m.imports@) + m.globals@.len(),
                ExportKind::Func(f) => f < count_func_imports(m.imports@) + m.funcs@.len(),
                _ => true,
            },
    ensures
        forall|i: int|
            0 <= i < out.exports@.len() ==> match (#[trigger] out.exports@[i]).kind {
                ExportKind::Global(g) => g < count_global_imports(out.imports@)
                    + out.globals@.len(),
                ExportKind::Func(f) => f < count_func_imports(out.imports@) + out.funcs@.len(),
                _ => true,
            },
{
    let gg = gas_global_of(m) as u32;
    assert(out.imports@.drop_last() == m.imports@);
    assert(count_global_imports(out.imports@) == count_global_imports(m.imports@) + 1);
    assert(count_func_imports(out.imports@) == count_func_imports(m.imports@));
    assert forall|i: int| 0 <= i < out.exports@.len() implies match (
    #[trigger] out.exports@[i]).kind {
        ExportKind::Global(g) => g < count_global_imports(out.imports@) + out.globals@.len(),
        ExportKind::Func(f) => f < count_func_imports(out.imports@) + out.funcs@.len(),
        _ => true,
    } by {
        assert(out.exports@[i].kind == s_bump_export(m.exports@[i].kind, gg));
        match m.exports@[i].kind {
            ExportKind::Global(g) => {
                assert(g < u32::MAX);
                assert(wrap_inc(g) == g + 1);
            },
            _ => {},
        }
    }
}

/// Rewrite `module` so that it charges gas as it runs.
///
/// The returned module imports a mutable `i64` global `gas_counter` from
/// `gas_module_name` (and exactly one import matches that slot), holds one
/// synthesised gas-accounting function, zero or more dynamic-cost thunks, a
/// charge call at the head of every metered block, and every global reference
/// renumbered for the new import. The module is refused — nothing of it is
/// returned — exactly on the conditions of [`s_gas_fails`].
#[verifier::loop_isolation(false)]
#[verifier::rlimit(100)]
pub fn inject<R: Rules>(module: Module, rules: &R, gas_module_name: &str) -> (r: Result<
    Module,
    (),
>)
    requires
        module.funcs@.len() == module.code@.len(),
        forall|i: int| 0 <= i < module.code@.len() ==> module.code@[i].code@.len() < usize::MAX,
    ensures
        r is Err <==> s_gas_fails(*rules, module, gas_module_name@),
        r matches Ok(out) ==> gas_output_ok(*rules, module, gas_module_name@, out),
{
    let gm: String = gas_module_name.to_owned();
    let gc: String = "gas_counter".to_owned();
    if count_gas_imports_exec(&module.imports, &gm, &gc) != 0 {
        return Err(());
    }
    let imported_globals = module.num_imported_globals();
    if imported_globals >= u32::MAX as usize {
        return Err(());
    }
    let gas_global: u32 = imported_globals as u32;
    let total_func = match module.functions_space() {
        Some(t) => t,
        None => {
            return Err(());
        },
    };
    if total_func > u32::MAX as usize {
        return Err(());
    }
    let gas_func: u32 = total_func as u32;
    if !check_elem_offsets(&module.elements) {
        return Err(());
    }
    if !check_data_offsets(&module.data) {
        return Err(());
    }
    let Module { mut types, mut imports, mut funcs, tables, memories, globals, exports, start,
        elements, mut code, data } = module;
    let processed = match process_code(code, rules, gas_global, gas_func) {
        Ok(p) => p,
        Err(_) => {
            return Err(());
        },
    };
    let mut new_code = processed.0;
    let dyn_list = processed.1;
    if types.len() >= u32::MAX as usize {
        return Err(());
    }
    if dyn_list.len() > (u32::MAX as usize) - types.len() - 1 {
        return Err(());
    }
    let gas_ty: u32 = types.len() as u32;
    // The gas-accounting function.
    let mut params: Vec<ValType> = Vec::new();
    params.push(ValType::I64);
    let results: Vec<ValType> = Vec::new();
    proof {
        assert(params@ =~= seq![ValType::I64]);
    }
    let ghost types0 = types@;
    types.push(FuncType { params, results });
    let ghost funcs0 = funcs@;
    funcs.push(gas_ty);
    let ghost code0 = new_code@;
    new_code.push(FuncBody { locals: 0, code: gas_counter_body(gas_global) });
    // One thunk per dynamic-cost instruction, in order of first sighting.
    let ghost dseq = dyn_list.deep_view();
    let mut k: usize = 0;
    while k < dyn_list.len()
        invariant
            k <= dyn_list@.len(),
            dseq == dyn_list.deep_view(),
            dseq.len() == dyn_list@.len(),
            gas_ty == types0.len(),
            gas_ty + 1 + dseq.len() <= u32::MAX,
            types@.len() == types0.len() + 1 + k,
            types@.subrange(0, types0.len() as int) == types0,
            types@[types0.len() as int].params@ == seq![ValType::I64],
            types@[types0.len() as int].results@ == Seq::<ValType>::empty(),
            forall|j: int|
                0 <= j < k ==> (#[trigger] types@[types0.len() + 1 + j]).params@ == seq![
                    ValType::I32,
                ] && types@[types0.len() + 1 + j].results@ == seq![ValType::I32],
            funcs@ == funcs0 + seq![gas_ty] + Seq::new(k as nat, |j: int| (gas_ty + 1 + j) as u32),
            new_code@.len() == code0.len() + 1 + k,
            forall|i: int| 0 <= i < code0.len() ==> new_code@[i] == code0[i],
            new_code@[code0.len() as int].locals == 0,
            new_code@[code0.len() as int].code.deep_view() == s_gas_counter_body(gas_global),
            forall|j: int|
                0 <= j < k ==> (#[trigger] new_code@[code0.len() + 1 + j]).locals == 0
                    && new_code@[code0.len() + 1 + j].code.deep_view() == s_dyn_thunk_body(
                    dseq[j],
                    thunk_per(*rules, dseq[j]),
                    gas_func,
                ),
            forall|j: int| 0 <= j < k ==> thunkable(*rules, #[trigger] dseq[j]),
        decreases dyn_list@.len() - k,
    {
        let d = &dyn_list[k];
        proof {
            assert(d.deep_view() == dseq[k as int]);
        }
        let per = match rules.instruction_cost(d) {
            Ok(InstructionCost::Linear(_, per)) => per,
            _ => {
                proof {
                    assert(!thunkable(*rules, dseq[k as int]));
                }
                return Err(());
            },
        };
        match d {
            Instr::GrowMemory => {},
            _ => {
                proof {
                    assert(d.deep_view() != InstrV::GrowMemory);
                    assert(!thunkable(*rules, dseq[k as int]));
                }
                return Err(());
            },
        }
        let mut tparams: Vec<ValType> = Vec::new();
        tparams.push(ValType::I32);
        let mut tresults: Vec<ValType> = Vec::new();
        tresults.push(ValType::I32);
        proof {
            assert(tparams@ =~= seq![ValType::I32]);
            assert(tresults@ =~= seq![ValType::I32]);
        }
        let ghost types_pre = types@;
        types.push(FuncType { params: tparams, results: tresults });
        let ghost funcs_pre = funcs@;
        funcs.push(gas_ty + 1 + (k as u32));
        let mut tbody: Vec<Instr> = Vec::new();
        tbody.push(Instr::GetLocal(0));
        tbody.push(Instr::GetLocal(0));
        tbody.push(Instr::I64ExtendUI32);
        tbody.push(Instr::I64Const(#[verifier::truncate] (per as i64)));
        tbody.push(Instr::I64Mul);
        tbody.push(Instr::Call(gas_func));
        tbody.push(Instr::GrowMemory);
        tbody.push(Instr::End);
        proof {
            assert(tbody.deep_view() =~= s_dyn_thunk_body(
                dseq[k as int],
                thunk_per(*rules, dseq[k as int]),
                gas_func,
            ));
        }
        new_code.push(FuncBody { locals: 0, code: tbody });
        proof {
            assert(types@.subrange(0, types0.len() as int) =~= types0);
            assert(funcs@ =~= funcs0 + seq![gas_ty] + Seq::new(
                (k + 1) as nat,
                |j: int| (gas_ty + 1 + j) as u32,
            ));
        }
        k = k + 1;
    }
    // The gas import lands at the end of the import section; its index among
    // the imported globals is the count of global imports before it.
    let ghost imports0 = imports@;
    imports.push(
        Import { module: gm, field: gc, kind: ImportKind::Global { ty: ValType::I64, mutable: true } },
    );
    let new_exports = bump_global_exports(exports, gas_global);
    proof {
        assert(imports@.drop_last() =~= imports0);
        assert(imports@.take(imports0.len() as int) =~= imports0);
        assert(count_gas_imports(imports@, gas_module_name@) == 1);
    }
    Ok(
        Module {
            types,
            imports,
            funcs,
            tables,
            memories,
            globals,
            exports: new_exports,
            start,
            elements,
            code: new_code,
            data,
        },
    )
}

} // verus!
