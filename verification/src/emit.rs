//! The emitter: one pass over the operation stream that writes the loads,
//! stores, pointer updates, branches and calls into a Cranelift function.

use vstd::prelude::*;
use cranelift_codegen::ir::{Ebb, FuncRef, Value};
use cranelift_frontend::{FunctionBuilder, Variable};
use crate::brackets::{balanced, lemma_opens_some_before, lemma_structure_ok, StructuralError};
use crate::clif::{
    block_count, block_id, block_params, create_ebb, edges, create_explicit_slot, current_def, cursor,
    declare_var, def_var, emitted, first_result, fresh_blocks, func_id, imported, ins_brz,
    ins_call, ins_iadd, ins_iconst, ins_jump, ins_load_trusted, ins_return, ins_sextend,
    ins_stack_addr, ins_store_trusted,
    ins_uextend, known, readable, result_count, result_counts, slot_sizes, switch_to_block,
    unsealed_blocks, use_var, value_count, value_id, value_types, values_kept, var_id, var_types,
    Emitted, Width,
};
use crate::layout::lemma_scan_ok;
use crate::ops::{decode, op_of, Op};
use crate::tape::TAPE_LEN;
use crate::ir::StepModel;
use crate::translate::{
    lemma_scan_opens, plain_step, scan, translate, translation, Layout,
};

verus! {

/// Why nothing was emitted.
#[derive(Clone, Copy, Debug, PartialEq, Eq, Structural)]
pub enum EmitError {
    /// The stream has no translation.
    Structure(StructuralError),
    /// The stream asks for input, and the input primitive, as it was
    /// imported, returns nothing to store.
    InputWithoutResult,
}

/// The two blocks of a loop that is being emitted.
pub struct LoopBlocks {
    pub head: Ebb,
    pub exit: Ebb,
}

/// What has been written into a function, as far as the emitter is
/// concerned.
pub struct Emission {
    /// The instructions in the order in which they were made, each with its
    /// block.
    pub log: Seq<(nat, Emitted)>,
    /// The block parameters made for variables: block, variable, value.
    pub params: Seq<(nat, nat, nat)>,
    /// The number of values that the function has; the next value gets this
    /// number.
    pub values: nat,
    /// The value on record for the pointer in the open block, if any.
    pub def: Option<nat>,
    /// For each jump and branch on zero, in their order: the block in which
    /// it stands, its target, and the value that was on record for the
    /// pointer where it stands, if any: the value of the pointer on that edge.
    pub edges: Seq<(nat, nat, Option<nat>)>,
}

/// The value on record for a variable, if any.
pub open spec fn on_record(defs: Map<nat, nat>, var: nat) -> Option<nat> {
    if defs.contains_key(var) {
        Some(defs[var])
    } else {
        None
    }
}

/// What has been written into the function that `b` builds.
pub open spec fn snapshot(b: FunctionBuilder, pointer: Variable) -> Emission {
    Emission {
        log: emitted(b),
        params: block_params(b),
        values: value_count(b),
        def: on_record(current_def(b), var_id(pointer)),
        edges: seen(edges(b), var_id(pointer)),
    }
}

/// The edges as far as one variable goes.
pub open spec fn seen(es: Seq<(nat, nat, Map<nat, nat>)>, var: nat) -> Seq<
    (nat, nat, Option<nat>),
> {
    Seq::new(es.len(), |i: int| (es[i].0, es[i].1, on_record(es[i].2, var)))
}

/// One more edge is one more edge seen.
pub proof fn lemma_seen_push(es: Seq<(nat, nat, Map<nat, nat>)>, e: (nat, nat, Map<nat, nat>), var: nat)
    ensures
        seen(es.push(e), var) == seen(es, var).push((e.0, e.1, on_record(e.2, var))),
{
    assert(seen(es.push(e), var) =~= seen(es, var).push((e.0, e.1, on_record(e.2, var))));
}

/// Where code goes and what it refers to: the open block, the pointer
/// variable and the value that holds the tape's base address.
pub struct Site {
    pub block: nat,
    pub pointer: nat,
    pub base: nat,
}

/// The site of `b` as it stands.
pub open spec fn site(b: FunctionBuilder, pointer: Variable, base: Value) -> Site {
    Site { block: cursor(b).unwrap(), pointer: var_id(pointer), base: value_id(base) }
}

impl Emission {
    /// One more instruction, without a result.
    pub open spec fn put(self, block: nat, e: Emitted) -> Emission {
        Emission { log: self.log.push((block, e)), ..self }
    }

    /// One more instruction, whose result is the next value.
    pub open spec fn make(self, block: nat, e: Emitted) -> Emission {
        Emission { log: self.log.push((block, e)), values: self.values + 1, ..self }
    }

    /// The open block has changed: no value is on record for the pointer.
    pub open spec fn switched(self) -> Emission {
        Emission { def: None, ..self }
    }

    /// One more jump, in `block` to `target`: the value on record for the
    /// pointer goes along the edge, and the block is closed.
    pub open spec fn jumped(self, block: nat, target: nat) -> Emission {
        Emission {
            log: self.log.push((block, Emitted::Jump { target })),
            edges: self.edges.push((block, target, self.def)),
            def: None,
            ..self
        }
    }

    /// One more branch on the value `cond` being zero, in `block` to
    /// `target`: the value on record for the pointer goes along the edge.
    pub open spec fn branched(self, block: nat, cond: nat, target: nat) -> Emission {
        Emission {
            log: self.log.push((block, Emitted::Brz { cond, target })),
            edges: self.edges.push((block, target, self.def)),
            ..self
        }
    }

    /// The pointer has been read: where no value was on record for it, the
    /// next value is a parameter of the block that stands for it.
    pub open spec fn used(self, at: Site) -> Emission {
        match self.def {
            Some(_) => self,
            None => Emission {
                params: self.params.push((at.block, at.pointer, self.values)),
                values: self.values + 1,
                def: Some(self.values),
                ..self
            },
        }
    }

    /// The address of the current cell has been computed: the pointer,
    /// zero-extended to 64 bits, is added to the base. The address is the
    /// last value made.
    pub open spec fn addressed(self, at: Site) -> Emission {
        let e = self.used(at);
        let w = e.values;
        e.make(at.block, Emitted::Uextend { r: w, bits: 64, x: e.def.unwrap() }).make(
            at.block,
            Emitted::Iadd { r: w + 1, x: at.base, y: w },
        )
    }

    /// `pointer := pointer + delta`: the constant is added to the pointer's
    /// value, and the sum is put on record for the pointer.
    pub open spec fn moved(self, at: Site, delta: int) -> Emission {
        let e = self.used(at);
        let t = e.values;
        Emission {
            def: Some(t + 1),
            ..e.make(at.block, Emitted::Iconst { r: t, bits: 32, imm: delta }).make(
                at.block,
                Emitted::Iadd { r: t + 1, x: e.def.unwrap(), y: t },
            )
        }
    }

    /// `cell := cell + delta`: the byte at the cell's address is loaded, the
    /// constant is added to it, and the sum is stored at the same address.
    pub open spec fn added(self, at: Site, delta: int) -> Emission {
        let e = self.addressed(at);
        let a = (e.values - 1) as nat;
        let l = e.values;
        e.make(at.block, Emitted::Load { r: l, bits: 8, addr: a, offset: 0 }).make(
            at.block,
            Emitted::Iconst { r: l + 1, bits: 8, imm: delta },
        ).make(at.block, Emitted::Iadd { r: l + 2, x: l, y: l + 1 }).put(
            at.block,
            Emitted::Store { val: l + 2, addr: a, offset: 0 },
        )
    }

    /// The test at the head of a loop: the byte at the cell's address is
    /// loaded and sign-extended to 32 bits, and the branch to `exit` is taken
    /// when it is zero.
    pub open spec fn tested(self, at: Site, exit: nat) -> Emission {
        let e = self.addressed(at);
        let a = (e.values - 1) as nat;
        let l = e.values;
        e.make(at.block, Emitted::Load { r: l, bits: 8, addr: a, offset: 0 }).make(
            at.block,
            Emitted::Sextend { r: l + 1, bits: 32, x: l },
        ).branched(at.block, l + 1, exit)
    }

    /// Output: the byte at the cell's address is loaded and is the one
    /// argument of the call of the output primitive, which has `results` result
    /// values.
    pub open spec fn printed(self, at: Site, putchar: nat, results: nat) -> Emission {
        let e = self.addressed(at);
        let a = (e.values - 1) as nat;
        let l = e.values;
        let c = e.make(at.block, Emitted::Load { r: l, bits: 8, addr: a, offset: 0 });
        Emission {
            values: c.values + results,
            ..c.put(at.block, Emitted::Call { func: putchar, args: seq![l], first: c.values })
        }
    }

    /// Input: the input primitive, which has `results` result values, is called
    /// without arguments, and its first result is stored at the cell's
    /// address.
    pub open spec fn got(self, at: Site, getchar: nat, results: nat) -> Emission {
        let first = self.values;
        let c = Emission {
            values: self.values + results,
            ..self.put(at.block, Emitted::Call { func: getchar, args: Seq::empty(), first })
        };
        let e = c.addressed(at);
        e.put(at.block, Emitted::Store { val: first, addr: (e.values - 1) as nat, offset: 0 })
    }

    /// The tape has been reserved and zeroed. In `block`: the address of slot
    /// `slot` is taken, the pointer is set to the number of cells, and the
    /// block jumps to `head`. In `head`: if the pointer is zero, leave for
    /// `head + 1`; else take one from the pointer, store a zero byte in the
    /// cell that it then designates, and jump back. So every cell is zero and
    /// the pointer is zero where block `head + 1` begins.
    pub open spec fn zeroed(self, block: nat, pointer: nat, slot: nat, head: nat) -> Emission {
        let base = self.values;
        let start = self.make(block, Emitted::StackAddr { r: base, bits: 64, slot, offset: 0 }).make(
            block,
            Emitted::Iconst { r: base + 1, bits: 32, imm: TAPE_LEN as int },
        );
        let counting = Emission { def: Some(base + 1), ..start }.jumped(block, head);
        let at = Site { block: head, pointer, base };
        let v = base + 2;
        let less = counting.used(at).branched(head, v, head + 1).make(
            head,
            Emitted::Iconst { r: v + 1, bits: 32, imm: -1 },
        ).make(head, Emitted::Iadd { r: v + 2, x: v, y: v + 1 });
        Emission { def: Some(v + 2), ..less }.make(
            head,
            Emitted::Uextend { r: v + 3, bits: 64, x: v + 2 },
        ).make(head, Emitted::Iadd { r: v + 4, x: base, y: v + 3 }).make(
            head,
            Emitted::Iconst { r: v + 5, bits: 8, imm: 0 },
        ).put(head, Emitted::Store { val: v + 5, addr: v + 4, offset: 0 }).jumped(head, head)
    }
}

/// What the emitter needs of the builder: a block is open in which the
/// pointer can be read, as it can after `begin` and after each function of
/// this file; the pointer variable is declared as a 32-bit integer; and the
/// tape's base address is a 64-bit value of the function.
pub open spec fn ready(b: FunctionBuilder, pointer: Variable, base: Value) -> bool {
    &&& readable(b, pointer)
    &&& var_types(b).contains_key(var_id(pointer))
    &&& var_types(b)[var_id(pointer)] == 32
    &&& known(b, base)
    &&& value_types(b)[value_id(base)] == 64
}

/// Code was appended to the open block and nothing else happened: the same
/// block is open, blocks, slots, variables and imports are as they were, and
/// every value is still there with its type.
pub open spec fn appended(pre: FunctionBuilder, post: FunctionBuilder) -> bool {
    &&& crate::clif::same_control(pre, post)
    &&& values_kept(pre, post)
}

/// Reserves the tape in the function's frame, emits the loop that zeroes it,
/// and returns its base address, a 64-bit value. The pointer variable counts
/// the cells down and is zero at the end. Two blocks are made; the second is
/// open at the end.
pub fn allocate(b: &mut FunctionBuilder, pointer: Variable) -> (base: Value)
    requires
        cursor(*old(b)).is_some(),
        var_types(*old(b)).contains_key(var_id(pointer)),
        var_types(*old(b))[var_id(pointer)] == 32,
    ensures
        snapshot(*final(b), pointer) == snapshot(*old(b), pointer).zeroed(
            cursor(*old(b)).unwrap(),
            var_id(pointer),
            slot_sizes(*old(b)).len(),
            block_count(*old(b)),
        ),
        slot_sizes(*final(b)) == slot_sizes(*old(b)).push(TAPE_LEN as nat),
        value_id(base) == value_count(*old(b)),
        ready(*final(b), pointer, base),
        cursor(*final(b)) == Some(block_count(*old(b)) + 1),
        block_count(*final(b)) == block_count(*old(b)) + 2,
        fresh_blocks(*final(b)) == fresh_blocks(*old(b)),
        unsealed_blocks(*final(b)) == unsealed_blocks(*old(b)).insert(block_count(*old(b))).insert(
            block_count(*old(b)) + 1,
        ),
        var_types(*final(b)) == var_types(*old(b)),
        imported(*final(b)) == imported(*old(b)),
        result_counts(*final(b)) == result_counts(*old(b)),
        values_kept(*old(b), *final(b)),
{
    let slot = create_explicit_slot(b, TAPE_LEN as u32);
    let base = ins_stack_addr(b, Width::I64, slot, 0);
    let count = ins_iconst(b, Width::I32, TAPE_LEN as i64);
    def_var(b, pointer, count);
    let head = create_ebb(b);
    let exit = create_ebb(b);
    proof {
        lemma_seen_push(
            edges(*b),
            (cursor(*b).unwrap(), block_id(head), current_def(*b)),
            var_id(pointer),
        );
    }
    ins_jump(b, head);
    switch_to_block(b, head);
    let left = use_var(b, pointer);
    proof {
        lemma_seen_push(
            edges(*b),
            (cursor(*b).unwrap(), block_id(exit), current_def(*b)),
            var_id(pointer),
        );
    }
    ins_brz(b, left, exit);
    let one = ins_iconst(b, Width::I32, -1);
    let less = ins_iadd(b, left, one);
    def_var(b, pointer, less);
    let wide = ins_uextend(b, Width::I64, less);
    let addr = ins_iadd(b, base, wide);
    let zero = ins_iconst(b, Width::I8, 0);
    ins_store_trusted(b, zero, addr, 0);
    proof {
        lemma_seen_push(
            edges(*b),
            (cursor(*b).unwrap(), block_id(head), current_def(*b)),
            var_id(pointer),
        );
    }
    ins_jump(b, head);
    switch_to_block(b, exit);
    proof {
        assert(fresh_blocks(*b) =~= fresh_blocks(*old(b)));
    }
    base
}

/// Begins a function body: declares the pointer as a 32-bit variable, makes
/// the entry block and opens it, reserves and zeroes the tape, and sets the
/// pointer to zero. Returns the tape's base address.
pub fn begin(b: &mut FunctionBuilder, pointer: Variable) -> (base: Value)
    requires
        cursor(*old(b)).is_none(),
        !var_types(*old(b)).contains_key(var_id(pointer)),
    ensures
        ready(*final(b), pointer, base),
        value_id(base) == value_count(*old(b)),
        ({
            let entry = block_count(*old(b));
            let tape = Emission { def: None, ..snapshot(*old(b), pointer) }.zeroed(
                entry,
                var_id(pointer),
                slot_sizes(*old(b)).len(),
                entry + 1,
            );
            snapshot(*final(b), pointer) == (Emission {
                def: Some(tape.values),
                ..tape.make(entry + 2, Emitted::Iconst { r: tape.values, bits: 32, imm: 0 })
            })
        }),
        slot_sizes(*final(b)) == slot_sizes(*old(b)).push(TAPE_LEN as nat),
        cursor(*final(b)) == Some(block_count(*old(b)) + 2),
        block_count(*final(b)) == block_count(*old(b)) + 3,
        fresh_blocks(*final(b)) == fresh_blocks(*old(b)),
        unsealed_blocks(*final(b)) == unsealed_blocks(*old(b)).insert(block_count(*old(b))).insert(
            block_count(*old(b)) + 1,
        ).insert(block_count(*old(b)) + 2),
        var_types(*final(b)) == var_types(*old(b)).insert(var_id(pointer), 32),
        imported(*final(b)) == imported(*old(b)),
        result_counts(*final(b)) == result_counts(*old(b)),
        values_kept(*old(b), *final(b)),
{
    declare_var(b, pointer, Width::I32);
    let entry = create_ebb(b);
    switch_to_block(b, entry);
    let base = allocate(b, pointer);
    let zero = ins_iconst(b, Width::I32, 0);
    def_var(b, pointer, zero);
    proof {
        assert(fresh_blocks(*b) =~= fresh_blocks(*old(b)));
    }
    base
}

/// Emits the address of the current cell: the base plus the pointer,
/// zero-extended to 64 bits.
pub fn cell_address(b: &mut FunctionBuilder, pointer: Variable, base: Value) -> (addr: Value)
    requires
        ready(*old(b), pointer, base),
    ensures
        appended(*old(b), *final(b)),
        snapshot(*final(b), pointer) == snapshot(*old(b), pointer).addressed(
            site(*old(b), pointer, base),
        ),
        known(*final(b), addr),
        value_id(addr) == value_count(*final(b)) - 1,
{
    let index = use_var(b, pointer);
    let wide = ins_uextend(b, Width::I64, index);
    ins_iadd(b, base, wide)
}

/// Emits a load of the byte at `addr`.
pub fn read_cell(b: &mut FunctionBuilder, addr: Value) -> (val: Value)
    requires
        cursor(*old(b)).is_some(),
        known(*old(b), addr),
    ensures
        crate::clif::made(
            *old(b),
            *final(b),
            val,
            Emitted::Load { r: value_id(val), bits: 8, addr: value_id(addr), offset: 0 },
        ),
        value_types(*final(b))[value_id(val)] == 8,
{
    ins_load_trusted(b, Width::I8, addr, 0)
}

/// Emits a store of the byte `val` at `addr`.
pub fn write_cell(b: &mut FunctionBuilder, addr: Value, val: Value)
    requires
        cursor(*old(b)).is_some(),
        known(*old(b), addr),
        known(*old(b), val),
    ensures
        crate::clif::done(
            *old(b),
            *final(b),
            Emitted::Store { val: value_id(val), addr: value_id(addr), offset: 0 },
        ),
        cursor(*final(b)) == cursor(*old(b)),
        current_def(*final(b)) == current_def(*old(b)),
        edges(*final(b)) == edges(*old(b)),
{
    ins_store_trusted(b, val, addr, 0)
}

/// Emits `pointer := pointer + delta`.
pub fn emit_move(b: &mut FunctionBuilder, pointer: Variable, base: Value, delta: i32)
    requires
        ready(*old(b), pointer, base),
    ensures
        appended(*old(b), *final(b)),
        snapshot(*final(b), pointer) == snapshot(*old(b), pointer).moved(
            site(*old(b), pointer, base),
            delta as int,
        ),
{
    let val = use_var(b, pointer);
    let tmp = ins_iconst(b, Width::I32, delta as i64);
    let newval = ins_iadd(b, val, tmp);
    def_var(b, pointer, newval);
}

/// Emits `cell := cell + delta` for the current cell.
pub fn emit_arith(b: &mut FunctionBuilder, pointer: Variable, base: Value, delta: i8)
    requires
        ready(*old(b), pointer, base),
    ensures
        appended(*old(b), *final(b)),
        snapshot(*final(b), pointer) == snapshot(*old(b), pointer).added(
            site(*old(b), pointer, base),
            delta as int,
        ),
{
    let addr = cell_address(b, pointer, base);
    let val = read_cell(b, addr);
    let tmp = ins_iconst(b, Width::I8, delta as i64);
    let newval = ins_iadd(b, val, tmp);
    write_cell(b, addr, newval);
}

/// Emits the test at the head of a loop: leave for `exit` if the current cell
/// is zero, go on otherwise.
pub fn emit_test(b: &mut FunctionBuilder, pointer: Variable, base: Value, exit: Ebb)
    requires
        ready(*old(b), pointer, base),
        unsealed_blocks(*old(b)).contains(block_id(exit)),
    ensures
        appended(*old(b), *final(b)),
        snapshot(*final(b), pointer) == snapshot(*old(b), pointer).tested(
            site(*old(b), pointer, base),
            block_id(exit),
        ),
{
    let addr = cell_address(b, pointer, base);
    let val = read_cell(b, addr);
    let wide = ins_sextend(b, Width::I32, val);
    proof {
        lemma_seen_push(
            edges(*b),
            (cursor(*b).unwrap(), block_id(exit), current_def(*b)),
            var_id(pointer),
        );
    }
    ins_brz(b, wide, exit);
}

/// Emits a call of the output primitive with the current cell.
pub fn emit_print(b: &mut FunctionBuilder, pointer: Variable, base: Value, putchar: FuncRef)
    requires
        ready(*old(b), pointer, base),
        imported(*old(b)).contains(func_id(putchar)),
    ensures
        appended(*old(b), *final(b)),
        snapshot(*final(b), pointer) == snapshot(*old(b), pointer).printed(
            site(*old(b), pointer, base),
            func_id(putchar),
            result_counts(*old(b))[func_id(putchar)],
        ),
{
    let addr = cell_address(b, pointer, base);
    let val = read_cell(b, addr);
    let mut args: Vec<Value> = Vec::new();
    args.push(val);
    proof {
        assert(crate::clif::ids_of(args@) =~= seq![value_id(val)]);
    }
    let call = ins_call(b, putchar, &args);
}

/// Emits a call of the input primitive and a store of its result in the
/// current cell. The primitive must return a value.
pub fn emit_get(b: &mut FunctionBuilder, pointer: Variable, base: Value, getchar: FuncRef)
    requires
        ready(*old(b), pointer, base),
        imported(*old(b)).contains(func_id(getchar)),
        result_counts(*old(b))[func_id(getchar)] > 0,
    ensures
        appended(*old(b), *final(b)),
        snapshot(*final(b), pointer) == snapshot(*old(b), pointer).got(
            site(*old(b), pointer, base),
            func_id(getchar),
            result_counts(*old(b))[func_id(getchar)],
        ),
{
    let args: Vec<Value> = Vec::new();
    proof {
        assert(crate::clif::ids_of(args@) =~= Seq::<nat>::empty());
    }
    let call = ins_call(b, getchar, &args);
    match first_result(b, call) {
        Some(newval) => {
            let addr = cell_address(b, pointer, base);
            write_cell(b, addr, newval);
        },
        None => {},
    }
}

/// How the blocks of a translation are numbered in the function: block 0
/// is the block that was open when the emitter began, and the others follow
/// the blocks that the function already had.
pub struct Numbering {
    /// The number of the block that was open at the start.
    pub first: nat,
    /// The number of blocks that the function had at the start.
    pub base: nat,
}

impl Numbering {
    /// The number in the function of block `k` of the translation.
    pub open spec fn of(self, k: nat) -> nat {
        if k == 0 {
            self.first
        } else {
            (self.base + k - 1) as nat
        }
    }
}

/// What the emitted code refers to: the numbering of the blocks, the pointer
/// variable, the value of the tape's base address, and the two primitives,
/// each with the number of values that it returns.
pub struct Target {
    pub nb: Numbering,
    pub pointer: nat,
    pub base: nat,
    pub putchar: nat,
    pub put_results: nat,
    pub getchar: nat,
    pub get_results: nat,
}

/// The target that a builder and the emitter's arguments make.
pub open spec fn target_of(
    b: FunctionBuilder,
    pointer: Variable,
    base: Value,
    putchar: FuncRef,
    getchar: FuncRef,
) -> Target {
    Target {
        nb: Numbering { first: cursor(b).unwrap(), base: block_count(b) },
        pointer: var_id(pointer),
        base: value_id(base),
        putchar: func_id(putchar),
        put_results: result_counts(b)[func_id(putchar)],
        getchar: func_id(getchar),
        get_results: result_counts(b)[func_id(getchar)],
    }
}

/// The code of one step of a translated program, added to the emission
/// `e` in block `block` of the translation. A jump ends its block.
pub open spec fn step_emission(e: Emission, step: StepModel, block: nat, t: Target) -> Emission {
    let at = Site { block: t.nb.of(block), pointer: t.pointer, base: t.base };
    match step {
        StepModel::Move(d) => e.moved(at, d),
        StepModel::Add(d) => e.added(at, d),
        StepModel::Output => e.printed(at, t.putchar, t.put_results),
        StepModel::Input => e.got(at, t.getchar, t.get_results),
        StepModel::Jump(k) => e.jumped(at.block, t.nb.of(k)),
        StepModel::BranchIfZero(k) => e.tested(at, t.nb.of(k)),
    }
}

/// What one token adds to the emission `e`, read when the layout is `l`:
/// the code of the steps that the translator lays out for the token, in the
/// blocks where it lays them out. For a `[` these are the jump to the head
/// block, in the current block, and the test, in the head block; for a `]`
/// the jump back to the head.
pub open spec fn token_emission(e: Emission, l: Layout, op: Op, t: Target) -> Emission {
    match op {
        Op::Skip => e,
        Op::Open => {
            let head = l.blocks.len();
            step_emission(
                step_emission(e, StepModel::Jump(head), l.cur, t),
                StepModel::BranchIfZero(head + 1),
                head,
                t,
            )
        },
        Op::Close => step_emission(e, StepModel::Jump(l.stack.last().head), l.cur, t),
        _ => step_emission(e, plain_step(op).unwrap(), l.cur, t),
    }
}

/// The emission after the first `n` tokens of `s`, begun at `start`.
pub open spec fn traced(s: Seq<u8>, n: nat, start: Emission, t: Target) -> Emission
    decreases n,
{
    if n == 0 {
        start
    } else {
        token_emission(
            traced(s, (n - 1) as nat, start, t),
            scan(s, (n - 1) as nat).unwrap(),
            op_of(s[n - 1]),
            t,
        )
    }
}

/// Whether the stream holds a `,`.
pub open spec fn asks_input(s: Seq<u8>) -> bool {
    exists|i: int| 0 <= i < s.len() && op_of(#[trigger] s[i]) == Op::Input
}

/// Whether the stream holds a `,`.
pub fn holds_input(stream: &[u8]) -> (r: bool)
    ensures
        r == asks_input(stream@),
{
    let mut i: usize = 0;
    while i < stream.len()
        invariant
            i <= stream.len(),
            forall|k: int| 0 <= k < i ==> op_of(#[trigger] stream@[k]) != Op::Input,
        decreases stream.len() - i,
    {
        if decode(stream[i]) == Op::Input {
            return true;
        }
        i = i + 1;
    }
    false
}

/// What `emit` refuses, if anything: a stream without translation, or a
/// stream that asks for input where the input primitive returns no value.
pub open spec fn refusal(s: Seq<u8>, get_results: nat) -> Option<EmitError> {
    match translation(s) {
        Err(e) => Some(EmitError::Structure(e)),
        Ok(_) => if asks_input(s) && get_results == 0 {
            Some(EmitError::InputWithoutResult)
        } else {
            None
        },
    }
}

/// Emits the whole stream into the open block of `b`.
///
/// What is refused is refused before anything is emitted, and the builder
/// is then as it was. Every other stream is emitted, token by token: what is
/// appended is the code of the steps of the stream's translation, in the
/// order of the tokens, each step in its block, with the values that each
/// instruction reads. Each `[` makes the head and the exit block of its
/// loop. At the end the block in which the translation ends is open, ready
/// for the instruction that returns; every block made on the way has been
/// switched to, and none of them is sealed.
pub fn emit(
    b: &mut FunctionBuilder,
    stream: &[u8],
    pointer: Variable,
    base: Value,
    putchar: FuncRef,
    getchar: FuncRef,
) -> (r: Result<(), EmitError>)
    requires
        ready(*old(b), pointer, base),
        imported(*old(b)).contains(func_id(putchar)),
        imported(*old(b)).contains(func_id(getchar)),
    ensures
        match refusal(stream@, result_counts(*old(b))[func_id(getchar)]) {
            Some(e) => r == Err::<(), EmitError>(e) && *final(b) == *old(b),
            None => {
                let t = target_of(*old(b), pointer, base, putchar, getchar);
                let end = scan(stream@, stream@.len()).unwrap();
                &&& r is Ok
                &&& snapshot(*final(b), pointer) == traced(
                    stream@,
                    stream@.len(),
                    snapshot(*old(b), pointer),
                    t,
                )
                &&& cursor(*final(b)) == Some(t.nb.of(end.cur))
                &&& block_count(*final(b)) == block_count(*old(b)) + end.blocks.len() - 1
                &&& fresh_blocks(*final(b)) == fresh_blocks(*old(b))
                &&& forall|x: nat|
                    unsealed_blocks(*final(b)).contains(x) <==> unsealed_blocks(*old(b)).contains(x)
                        || block_count(*old(b)) <= x < block_count(*final(b))
                &&& ready(*final(b), pointer, base)
                &&& var_types(*final(b)) == var_types(*old(b))
                &&& imported(*final(b)) == imported(*old(b))
                &&& result_counts(*final(b)) == result_counts(*old(b))
                &&& slot_sizes(*final(b)) == slot_sizes(*old(b))
                &&& values_kept(*old(b), *final(b))
            },
        },
{
    match translate(stream) {
        Err(e) => {
            return Err(EmitError::Structure(e));
        },
        Ok(_) => {},
    }
    if holds_input(stream) && result_count(b, getchar) == 0 {
        return Err(EmitError::InputWithoutResult);
    }
    let mut stack: Vec<LoopBlocks> = Vec::new();
    let mut i: usize = 0;
    let ghost t = target_of(*b, pointer, base, putchar, getchar);
    let ghost start = snapshot(*b, pointer);
    proof {
        lemma_structure_ok(stream@);
        lemma_scan_opens(stream@, 0);
        lemma_scan_opens(stream@, stream@.len());
    }
    while i < stream.len()
        invariant
            i <= stream.len(),
            translation(stream@) is Ok,
            balanced(stream@),
            t == target_of(*old(b), pointer, base, putchar, getchar),
            start == snapshot(*old(b), pointer),
            asks_input(stream@) ==> t.get_results > 0,
            scan(stream@, i as nat).is_some(),
            scan(stream@, i as nat).unwrap().stack.len() == stack.len(),
            scan(stream@, i as nat).unwrap().blocks.len() >= 1,
            cursor(*b) == Some(t.nb.of(scan(stream@, i as nat).unwrap().cur)),
            block_count(*b) == t.nb.base + scan(stream@, i as nat).unwrap().blocks.len() - 1,
            snapshot(*b, pointer) == traced(stream@, i as nat, start, t),
            ready(*b, pointer, base),
            imported(*b).contains(func_id(putchar)),
            imported(*b).contains(func_id(getchar)),
            var_types(*b) == var_types(*old(b)),
            imported(*b) == imported(*old(b)),
            result_counts(*b) == result_counts(*old(b)),
            slot_sizes(*b) == slot_sizes(*old(b)),
            values_kept(*old(b), *b),
            forall|x: nat|
                unsealed_blocks(*b).contains(x) <==> unsealed_blocks(*old(b)).contains(x)
                    || block_count(*old(b)) <= x < block_count(*b),
            forall|k: int|
                0 <= k < stack.len() ==> {
                    &&& block_id((#[trigger] stack[k]).head) == t.nb.of(
                        scan(stream@, i as nat).unwrap().stack[k].head,
                    )
                    &&& block_id(stack[k].exit) == t.nb.of(
                        scan(stream@, i as nat).unwrap().stack[k].exit,
                    )
                    &&& t.nb.base <= block_id(stack[k].head) < block_count(*b)
                    &&& t.nb.base <= block_id(stack[k].exit) < block_count(*b)
                },
            forall|k: int|
                0 <= k < stack.len() ==> fresh_blocks(*b).contains(
                    block_id((#[trigger] stack[k]).exit),
                ) && !fresh_blocks(*old(b)).contains(block_id(stack[k].exit)),
            forall|j: int, k: int|
                0 <= j < k < stack.len() ==> block_id((#[trigger] stack[j]).exit) != block_id(
                    (#[trigger] stack[k]).exit,
                ),
            forall|x: nat|
                #[trigger] fresh_blocks(*b).contains(x) <==> fresh_blocks(*old(b)).contains(x) || (
                exists|k: int| 0 <= k < stack.len() && block_id((#[trigger] stack[k]).exit) == x),
        decreases stream.len() - i,
    {
        let op = decode(stream[i]);
        let ghost l = scan(stream@, i as nat).unwrap();
        proof {
            lemma_opens_some_before(stream@, (i + 1) as nat, stream@.len());
            lemma_scan_opens(stream@, (i + 1) as nat);
            lemma_scan_ok(stream@, i as nat);
            assert(scan(stream@, (i + 1) as nat) == l.advance(i as nat, op));
            assert(traced(stream@, (i + 1) as nat, start, t) == token_emission(
                traced(stream@, i as nat, start, t),
                l,
                op,
                t,
            ));
        }
        let ghost entry = *b;
        let ghost old_stack = stack@;
        match op {
            Op::Right => {
                emit_move(b, pointer, base, 1);
            },
            Op::Left => {
                emit_move(b, pointer, base, -1);
            },
            Op::Inc => {
                emit_arith(b, pointer, base, 1);
            },
            Op::Dec => {
                emit_arith(b, pointer, base, -1);
            },
            Op::Open => {
                let head = create_ebb(b);
                let exit = create_ebb(b);
                proof {
                    lemma_seen_push(
                        edges(*b),
                        (cursor(*b).unwrap(), block_id(head), current_def(*b)),
                        var_id(pointer),
                    );
                }
                ins_jump(b, head);
                switch_to_block(b, head);
                emit_test(b, pointer, base, exit);
                stack.push(LoopBlocks { head, exit });
                proof {
                    let l1 = scan(stream@, (i + 1) as nat).unwrap();
                    assert(l1.stack[l1.stack.len() - 1].head == l.blocks.len());
                    assert forall|k: int| 0 <= k < stack.len() implies {
                        &&& block_id((#[trigger] stack[k]).head) == t.nb.of(l1.stack[k].head)
                        &&& block_id(stack[k].exit) == t.nb.of(l1.stack[k].exit)
                        &&& t.nb.base <= block_id(stack[k].head) < block_count(*b)
                        &&& t.nb.base <= block_id(stack[k].exit) < block_count(*b)
                    } by {
                        if k < old_stack.len() {
                            assert(stack[k] == old_stack[k]);
                            assert(l1.stack[k] == l.stack[k]);
                        }
                    }
                    assert forall|x: nat| #[trigger]
                        fresh_blocks(*b).contains(x) <==> fresh_blocks(*old(b)).contains(x) || (
                        exists|k: int|
                            0 <= k < stack.len() && block_id((#[trigger] stack[k]).exit) == x) by {
                        if fresh_blocks(*b).contains(x) && !fresh_blocks(*old(b)).contains(x) {
                            if x == block_id(exit) {
                                assert(block_id(stack[stack.len() - 1].exit) == x);
                            } else {
                                assert(fresh_blocks(entry).contains(x));
                                let k = choose|k: int|
                                    0 <= k < old_stack.len() && block_id(
                                        (#[trigger] old_stack[k]).exit,
                                    ) == x;
                                assert(stack[k] == old_stack[k]);
                            }
                        }
                        if exists|k: int|
                            0 <= k < stack.len() && block_id((#[trigger] stack[k]).exit) == x {
                            let k = choose|k: int|
                                0 <= k < stack.len() && block_id((#[trigger] stack[k]).exit) == x;
                            if k < old_stack.len() {
                                assert(stack[k] == old_stack[k]);
                            }
                        }
                    }
                }
            },
            Op::Close => {
                let top = stack.pop().unwrap();
                assert(top == old_stack[old_stack.len() - 1]);
                proof {
                    lemma_seen_push(
                        edges(*b),
                        (cursor(*b).unwrap(), block_id(top.head), current_def(*b)),
                        var_id(pointer),
                    );
                }
                ins_jump(b, top.head);
                switch_to_block(b, top.exit);
                proof {
                    let l1 = scan(stream@, (i + 1) as nat).unwrap();
                    assert forall|k: int| 0 <= k < stack.len() implies {
                        &&& block_id((#[trigger] stack[k]).head) == t.nb.of(l1.stack[k].head)
                        &&& block_id(stack[k].exit) == t.nb.of(l1.stack[k].exit)
                        &&& t.nb.base <= block_id(stack[k].head) < block_count(*b)
                        &&& t.nb.base <= block_id(stack[k].exit) < block_count(*b)
                    } by {
                        assert(stack[k] == old_stack[k]);
                        assert(l1.stack[k] == l.stack[k]);
                    }
                    assert forall|x: nat| #[trigger]
                        fresh_blocks(*b).contains(x) <==> fresh_blocks(*old(b)).contains(x) || (
                        exists|k: int|
                            0 <= k < stack.len() && block_id((#[trigger] stack[k]).exit) == x) by {
                        if fresh_blocks(*b).contains(x) && !fresh_blocks(*old(b)).contains(x) {
                            let k = choose|k: int|
                                0 <= k < old_stack.len() && block_id(
                                    (#[trigger] old_stack[k]).exit,
                                ) == x;
                            assert(k < stack.len());
                            assert(stack[k] == old_stack[k]);
                        }
                        if exists|k: int|
                            0 <= k < stack.len() && block_id((#[trigger] stack[k]).exit) == x {
                            let k = choose|k: int|
                                0 <= k < stack.len() && block_id((#[trigger] stack[k]).exit) == x;
                            assert(stack[k] == old_stack[k]);
                        }
                    }
                }
            },
            Op::Output => {
                emit_print(b, pointer, base, putchar);
            },
            Op::Input => {
                assert(op_of(stream@[i as int]) == Op::Input);
                emit_get(b, pointer, base, getchar);
            },
            Op::Skip => {},
        }
        i = i + 1;
    }
    proof {
        assert(fresh_blocks(*b) =~= fresh_blocks(*old(b)));
    }
    Ok(())
}

/// Ends the function body: emits the return of the pointer's value, which
/// ends the open block. What is left to do with the builder after it is to
/// seal the blocks and to finalize.
pub fn emit_return(b: &mut FunctionBuilder, pointer: Variable, base: Value)
    requires
        ready(*old(b), pointer, base),
    ensures
        snapshot(*final(b), pointer).switched() == ({
            let e = snapshot(*old(b), pointer).used(site(*old(b), pointer, base));
            e.put(cursor(*old(b)).unwrap(), Emitted::Return { val: e.def.unwrap() }).switched()
        }),
        cursor(*final(b)).is_none(),
        block_count(*final(b)) == block_count(*old(b)),
        fresh_blocks(*final(b)) == fresh_blocks(*old(b)),
        unsealed_blocks(*final(b)) == unsealed_blocks(*old(b)),
        var_types(*final(b)) == var_types(*old(b)),
        imported(*final(b)) == imported(*old(b)),
        result_counts(*final(b)) == result_counts(*old(b)),
        slot_sizes(*final(b)) == slot_sizes(*old(b)),
        values_kept(*old(b), *final(b)),
{
    let val = use_var(b, pointer);
    ins_return(b, val);
}

} // verus!
