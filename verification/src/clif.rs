//! Lowering into Cranelift IR through a `FunctionBuilder`.
//!
//! Cranelift's builder is opaque to the verifier. What the contracts below say
//! of it is taken from the source of `cranelift-frontend` and
//! `cranelift-codegen`, and is believed, not proved.

use vstd::prelude::*;
use cranelift_codegen::ir::{Ebb, FuncRef, Inst, InstBuilder, MemFlags, StackSlot, Value};
use cranelift_codegen::ir::stackslot::{StackSlotData, StackSlotKind};
use cranelift_codegen::ir::types::{I8, I32, I64};
use cranelift_frontend::{FunctionBuilder, Variable};

verus! {

/// `cranelift_frontend::FunctionBuilder`: the function under construction. Opaque.
#[verifier::external_type_specification]
#[verifier::external_body]
pub struct ExFunctionBuilder<'a>(FunctionBuilder<'a>);

/// `cranelift_codegen::ir::Value`: a handle on an SSA value. Opaque.
#[verifier::external_type_specification]
#[verifier::external_body]
pub struct ExValue(Value);

/// `cranelift_codegen::ir::Ebb`: a handle on a block. Opaque.
#[verifier::external_type_specification]
#[verifier::external_body]
pub struct ExEbb(Ebb);

/// `cranelift_codegen::ir::FuncRef`: a handle on an imported function. Opaque.
#[verifier::external_type_specification]
#[verifier::external_body]
pub struct ExFuncRef(FuncRef);

/// `cranelift_codegen::ir::Inst`: a handle on an instruction. Opaque.
#[verifier::external_type_specification]
#[verifier::external_body]
pub struct ExInst(Inst);

/// `cranelift_codegen::ir::StackSlot`: a handle on a stack slot. Opaque.
#[verifier::external_type_specification]
#[verifier::external_body]
pub struct ExStackSlot(StackSlot);

/// `cranelift_frontend::Variable`: a handle on a variable of the builder. Opaque.
#[verifier::external_type_specification]
#[verifier::external_body]
pub struct ExVariable(Variable);

/// The number of a value, as `Value::as_u32` returns it. Values are numbered
/// from 0 in the order in which they are made.
pub uninterp spec fn value_id(v: Value) -> nat;

/// The number of a block, as `Ebb::as_u32` returns it.
pub uninterp spec fn block_id(e: Ebb) -> nat;

/// The number of an imported function, as `FuncRef::as_u32` returns it.
pub uninterp spec fn func_id(f: FuncRef) -> nat;

/// The index of a variable, as `Variable::index` returns it.
pub uninterp spec fn var_id(v: Variable) -> nat;

/// The number of a stack slot, as `StackSlot::as_u32` returns it.
pub uninterp spec fn slot_id(s: StackSlot) -> nat;

/// The number of an instruction, as `Inst::as_u32` returns it. Instructions
/// are numbered from 0 in the order in which they are made.
pub uninterp spec fn inst_id(i: Inst) -> nat;

/// An instruction: what it does, the values it reads and the value it makes,
/// each value by its number.
pub enum Emitted {
    /// `r = iconst imm`, of an integer type with `bits` bits.
    Iconst { r: nat, bits: u8, imm: int },
    /// `r = iadd x, y`.
    Iadd { r: nat, x: nat, y: nat },
    /// `r = uextend x`, to an integer type with `bits` bits.
    Uextend { r: nat, bits: u8, x: nat },
    /// `r = sextend x`, to an integer type with `bits` bits.
    Sextend { r: nat, bits: u8, x: nat },
    /// `r = load addr + offset`, of an integer type with `bits` bits, with
    /// the flags of `MemFlags::trusted`: the access is aligned and cannot trap.
    Load { r: nat, bits: u8, addr: nat, offset: int },
    /// `store val, addr + offset`, with the flags of `MemFlags::trusted`.
    Store { val: nat, addr: nat, offset: int },
    /// `jump` to the block with this number, without arguments.
    Jump { target: nat },
    /// `brz cond` to the block with this number, without arguments.
    Brz { cond: nat, target: nat },
    /// `call` of the imported function `func` with the arguments `args`. Its
    /// results, as many as the function's signature returns, are the values
    /// numbered from `first`.
    Call { func: nat, args: Seq<nat>, first: nat },
    /// `r = stack_addr slot + offset`, a value of an integer type with `bits`
    /// bits.
    StackAddr { r: nat, bits: u8, slot: nat, offset: int },
    /// `return val`: the function returns this one value.
    Return { val: nat },
}

/// The instructions of the function in the order in which they were made,
/// each with the number of the block that it was appended to.
pub uninterp spec fn emitted(b: FunctionBuilder) -> Seq<(nat, Emitted)>;

/// The number of blocks that the function has. Blocks are numbered from 0 in
/// the order in which they are made.
pub uninterp spec fn block_count(b: FunctionBuilder) -> nat;

/// The number of values that the function has.
pub uninterp spec fn value_count(b: FunctionBuilder) -> nat;

/// The sizes in bytes of the function's stack slots, by their numbers.
pub uninterp spec fn slot_sizes(b: FunctionBuilder) -> Seq<nat>;

/// The block that accepts instructions: the one last switched to, as long as
/// no terminator has been inserted into it. `None` before the first switch
/// and after a terminator.
pub uninterp spec fn cursor(b: FunctionBuilder) -> Option<nat>;

/// The blocks made by `create_ebb` that have not been switched to yet.
pub uninterp spec fn fresh_blocks(b: FunctionBuilder) -> Set<nat>;

/// The blocks made by `create_ebb` that have not been sealed.
pub uninterp spec fn unsealed_blocks(b: FunctionBuilder) -> Set<nat>;

/// The variables that were declared once, each with the width in bits of its
/// integer type; every value recorded for such a variable has that type.
pub uninterp spec fn var_types(b: FunctionBuilder) -> Map<nat, u8>;

/// The values of the function, each with the width in bits of its integer type.
pub uninterp spec fn value_types(b: FunctionBuilder) -> Map<nat, u8>;

/// The functions that the function under construction has imported.
pub uninterp spec fn imported(b: FunctionBuilder) -> Set<nat>;

/// For each imported function, the number of values that its signature returns.
pub uninterp spec fn result_counts(b: FunctionBuilder) -> Map<nat, nat>;

/// For each variable that has a value on record in the open block, since the
/// block was switched to, that value: the last one given to `def_var`, or the
/// block parameter that `use_var` made for it.
pub uninterp spec fn current_def(b: FunctionBuilder) -> Map<nat, nat>;

/// The block parameters that `use_var` has made, in their order: the block,
/// the variable that the parameter stands for at the head of the block, and
/// the parameter. When the block is sealed the builder lets each jump and
/// branch to the block pass the value that the variable has where it stands.
pub uninterp spec fn block_params(b: FunctionBuilder) -> Seq<(nat, nat, nat)>;

/// For each jump and branch on zero, in the order in which they were made:
/// the block in which it stands, its target, and the values that were on
/// record for the variables where it stands. These are the values that the
/// jump or branch passes for the target's parameters once the target is
/// sealed; for a variable without a value on record the builder then looks
/// further back.
pub uninterp spec fn edges(b: FunctionBuilder) -> Seq<(nat, nat, Map<nat, nat>)>;

/// The integer types that the lowering uses.
#[derive(Clone, Copy, Debug, PartialEq, Eq, Structural)]
pub enum Width {
    I8,
    I32,
    I64,
}

impl Width {
    /// The width in bits.
    pub open spec fn bits(self) -> u8 {
        match self {
            Width::I8 => 8,
            Width::I32 => 32,
            Width::I64 => 64,
        }
    }
}

/// Blocks, slots, variables and imports are as they were, and the same block
/// is open.
pub open spec fn same_control(pre: FunctionBuilder, post: FunctionBuilder) -> bool {
    &&& cursor(post) == cursor(pre)
    &&& block_count(post) == block_count(pre)
    &&& fresh_blocks(post) == fresh_blocks(pre)
    &&& unsealed_blocks(post) == unsealed_blocks(pre)
    &&& var_types(post) == var_types(pre)
    &&& imported(post) == imported(pre)
    &&& result_counts(post) == result_counts(pre)
    &&& slot_sizes(post) == slot_sizes(pre)
}

/// Every value that was there is still there, with its type.
pub open spec fn values_kept(pre: FunctionBuilder, post: FunctionBuilder) -> bool {
    forall|k: nat| #[trigger]
        value_types(pre).contains_key(k) ==> value_types(post).contains_key(k) && value_types(
            post,
        )[k] == value_types(pre)[k]
}

/// No variable has a value on record.
pub open spec fn nothing_on_record() -> Map<nat, nat> {
    Map::empty()
}

/// Whether `v` is a value of the function.
pub open spec fn known(b: FunctionBuilder, v: Value) -> bool {
    value_types(b).contains_key(value_id(v))
}

/// Whether no jump or branch stands in `block` yet.
pub open spec fn no_edge_from(b: FunctionBuilder, block: nat) -> bool {
    forall|i: int| 0 <= i < edges(b).len() ==> (#[trigger] edges(b)[i]).0 != block
}

/// Whether `use_var` can give the variable's value and change nothing that
/// was there: a block is open, and either it has a value on record for the
/// variable, or it is not sealed and no jump or branch stands in it yet.
pub open spec fn readable(b: FunctionBuilder, var: Variable) -> bool {
    &&& cursor(b).is_some()
    &&& current_def(b).contains_key(var_id(var)) || (unsealed_blocks(b).contains(
        cursor(b).unwrap(),
    ) && no_edge_from(b, cursor(b).unwrap()))
}

/// One instruction with one result was appended to the open block: the
/// result is a new value with the next free number, and nothing else changed.
pub open spec fn made(pre: FunctionBuilder, post: FunctionBuilder, r: Value, e: Emitted) -> bool {
    &&& same_control(pre, post)
    &&& values_kept(pre, post)
    &&& known(post, r)
    &&& value_id(r) == value_count(pre)
    &&& value_count(post) == value_count(pre) + 1
    &&& current_def(post) == current_def(pre)
    &&& block_params(post) == block_params(pre)
    &&& edges(post) == edges(pre)
    &&& emitted(post) == emitted(pre).push((cursor(pre).unwrap(), e))
}

/// One instruction without a result was appended to the open block, and
/// nothing else changed but what a terminator changes.
pub open spec fn done(pre: FunctionBuilder, post: FunctionBuilder, e: Emitted) -> bool {
    &&& block_count(post) == block_count(pre)
    &&& fresh_blocks(post) == fresh_blocks(pre)
    &&& unsealed_blocks(post) == unsealed_blocks(pre)
    &&& var_types(post) == var_types(pre)
    &&& imported(post) == imported(pre)
    &&& result_counts(post) == result_counts(pre)
    &&& slot_sizes(post) == slot_sizes(pre)
    &&& value_types(post) == value_types(pre)
    &&& value_count(post) == value_count(pre)
    &&& block_params(post) == block_params(pre)
    &&& emitted(post) == emitted(pre).push((cursor(pre).unwrap(), e))
}

/// Nothing changed but what the clauses beside this one name.
pub open spec fn untouched(pre: FunctionBuilder, post: FunctionBuilder) -> bool {
    &&& var_types(post) == var_types(pre)
    &&& imported(post) == imported(pre)
    &&& result_counts(post) == result_counts(pre)
    &&& slot_sizes(post) == slot_sizes(pre)
    &&& value_types(post) == value_types(pre)
    &&& value_count(post) == value_count(pre)
    &&& block_params(post) == block_params(pre)
    &&& edges(post) == edges(pre)
    &&& emitted(post) == emitted(pre)
}

/// `FunctionBuilder::declare_var`: declares a variable of an integer type.
/// Nothing else changes.
#[verifier::external_body]
pub(crate) fn declare_var(b: &mut FunctionBuilder, var: Variable, width: Width)
    requires
        !var_types(*old(b)).contains_key(var_id(var)),
    ensures
        var_types(*final(b)) == var_types(*old(b)).insert(var_id(var), width.bits()),
        cursor(*final(b)) == cursor(*old(b)),
        block_count(*final(b)) == block_count(*old(b)),
        fresh_blocks(*final(b)) == fresh_blocks(*old(b)),
        unsealed_blocks(*final(b)) == unsealed_blocks(*old(b)),
        current_def(*final(b)) == current_def(*old(b)),
        imported(*final(b)) == imported(*old(b)),
        result_counts(*final(b)) == result_counts(*old(b)),
        slot_sizes(*final(b)) == slot_sizes(*old(b)),
        value_types(*final(b)) == value_types(*old(b)),
        value_count(*final(b)) == value_count(*old(b)),
        block_params(*final(b)) == block_params(*old(b)),
        emitted(*final(b)) == emitted(*old(b)),
        edges(*final(b)) == edges(*old(b)),
{
    let ty = match width {
        Width::I8 => I8,
        Width::I32 => I32,
        Width::I64 => I64,
    };
    b.declare_var(var, ty)
}

/// `FunctionBuilder::create_ebb`: makes a block, neither switched to nor
/// sealed, with the next free number. Nothing else changes.
#[verifier::external_body]
pub(crate) fn create_ebb(b: &mut FunctionBuilder) -> (e: Ebb)
    ensures
        block_id(e) == block_count(*old(b)),
        block_count(*final(b)) == block_count(*old(b)) + 1,
        !fresh_blocks(*old(b)).contains(block_id(e)),
        fresh_blocks(*final(b)) == fresh_blocks(*old(b)).insert(block_id(e)),
        unsealed_blocks(*final(b)) == unsealed_blocks(*old(b)).insert(block_id(e)),
        cursor(*final(b)) == cursor(*old(b)),
        current_def(*final(b)) == current_def(*old(b)),
        untouched(*old(b), *final(b)),
{
    b.create_ebb()
}

/// `FunctionBuilder::switch_to_block`: makes `e` the open block. The builder
/// asks that no block be open and that `e` was never switched to; no
/// variable has a value on record in such a block, and no jump or branch
/// stands in it.
#[verifier::external_body]
pub(crate) fn switch_to_block(b: &mut FunctionBuilder, e: Ebb)
    requires
        cursor(*old(b)).is_none(),
        fresh_blocks(*old(b)).contains(block_id(e)),
    ensures
        cursor(*final(b)) == Some(block_id(e)),
        fresh_blocks(*final(b)) == fresh_blocks(*old(b)).remove(block_id(e)),
        current_def(*final(b)) == nothing_on_record(),
        no_edge_from(*final(b), block_id(e)),
        block_count(*final(b)) == block_count(*old(b)),
        unsealed_blocks(*final(b)) == unsealed_blocks(*old(b)),
        untouched(*old(b), *final(b)),
{
    b.switch_to_block(e)
}

/// `FunctionBuilder::use_var`: the value that stands for the variable at the
/// end of the open block. This is the value on record for the variable, or
/// else, in a block that is not sealed, a new parameter of the block, which
/// then is on record; no instruction is made. Two cases are left out: in a
/// sealed block without a value on record the builder would look into other
/// blocks and might make instructions; and a new parameter would also come
/// on record for the branches that already stand in the block. The value
/// has the variable's declared type. The builder panics on an undeclared
/// variable.
#[verifier::external_body]
pub(crate) fn use_var(b: &mut FunctionBuilder, var: Variable) -> (r: Value)
    requires
        readable(*old(b), var),
        var_types(*old(b)).contains_key(var_id(var)),
    ensures
        same_control(*old(b), *final(b)),
        values_kept(*old(b), *final(b)),
        known(*final(b), r),
        value_types(*final(b))[value_id(r)] == var_types(*old(b))[var_id(var)],
        emitted(*final(b)) == emitted(*old(b)),
        edges(*final(b)) == edges(*old(b)),
        current_def(*final(b)) == current_def(*old(b)).insert(var_id(var), value_id(r)),
        current_def(*old(b)).contains_key(var_id(var)) ==> {
            &&& value_id(r) == current_def(*old(b))[var_id(var)]
            &&& value_count(*final(b)) == value_count(*old(b))
            &&& block_params(*final(b)) == block_params(*old(b))
        },
        !current_def(*old(b)).contains_key(var_id(var)) ==> {
            &&& value_id(r) == value_count(*old(b))
            &&& value_count(*final(b)) == value_count(*old(b)) + 1
            &&& block_params(*final(b)) == block_params(*old(b)).push(
                (cursor(*old(b)).unwrap(), var_id(var), value_id(r)),
            )
        },
{
    b.use_var(var)
}

/// `FunctionBuilder::def_var`: puts `val` on record as the variable's value
/// from here on. The builder asks that the value have the variable's
/// declared type.
#[verifier::external_body]
pub(crate) fn def_var(b: &mut FunctionBuilder, var: Variable, val: Value)
    requires
        cursor(*old(b)).is_some(),
        var_types(*old(b)).contains_key(var_id(var)),
        known(*old(b), val),
        value_types(*old(b))[value_id(val)] == var_types(*old(b))[var_id(var)],
    ensures
        same_control(*old(b), *final(b)),
        current_def(*final(b)) == current_def(*old(b)).insert(var_id(var), value_id(val)),
        value_types(*final(b)) == value_types(*old(b)),
        value_count(*final(b)) == value_count(*old(b)),
        block_params(*final(b)) == block_params(*old(b)),
        emitted(*final(b)) == emitted(*old(b)),
        edges(*final(b)) == edges(*old(b)),
{
    b.def_var(var, val)
}

/// `InstBuilder::iconst` at `FunctionBuilder::ins`: appends an integer
/// constant of the given type to the open block.
#[verifier::external_body]
pub(crate) fn ins_iconst(b: &mut FunctionBuilder, width: Width, imm: i64) -> (r: Value)
    requires
        cursor(*old(b)).is_some(),
    ensures
        made(
            *old(b),
            *final(b),
            r,
            Emitted::Iconst { r: value_id(r), bits: width.bits(), imm: imm as int },
        ),
        value_types(*final(b))[value_id(r)] == width.bits(),
{
    let ty = match width {
        Width::I8 => I8,
        Width::I32 => I32,
        Width::I64 => I64,
    };
    b.ins().iconst(ty, imm)
}

/// `InstBuilder::iadd` at `FunctionBuilder::ins`: appends an integer addition
/// to the open block. The result has the type of the first operand.
#[verifier::external_body]
pub(crate) fn ins_iadd(b: &mut FunctionBuilder, x: Value, y: Value) -> (r: Value)
    requires
        cursor(*old(b)).is_some(),
        known(*old(b), x),
        known(*old(b), y),
    ensures
        made(
            *old(b),
            *final(b),
            r,
            Emitted::Iadd { r: value_id(r), x: value_id(x), y: value_id(y) },
        ),
        value_types(*final(b))[value_id(r)] == value_types(*old(b))[value_id(x)],
{
    b.ins().iadd(x, y)
}

/// `InstBuilder::uextend` at `FunctionBuilder::ins`: appends a zero extension
/// of `x` to the given type to the open block.
#[verifier::external_body]
pub(crate) fn ins_uextend(b: &mut FunctionBuilder, width: Width, x: Value) -> (r: Value)
    requires
        cursor(*old(b)).is_some(),
        known(*old(b), x),
    ensures
        made(
            *old(b),
            *final(b),
            r,
            Emitted::Uextend { r: value_id(r), bits: width.bits(), x: value_id(x) },
        ),
        value_types(*final(b))[value_id(r)] == width.bits(),
{
    let ty = match width {
        Width::I8 => I8,
        Width::I32 => I32,
        Width::I64 => I64,
    };
    b.ins().uextend(ty, x)
}

/// `InstBuilder::sextend` at `FunctionBuilder::ins`: appends a sign extension
/// of `x` to the given type to the open block.
#[verifier::external_body]
pub(crate) fn ins_sextend(b: &mut FunctionBuilder, width: Width, x: Value) -> (r: Value)
    requires
        cursor(*old(b)).is_some(),
        known(*old(b), x),
    ensures
        made(
            *old(b),
            *final(b),
            r,
            Emitted::Sextend { r: value_id(r), bits: width.bits(), x: value_id(x) },
        ),
        value_types(*final(b))[value_id(r)] == width.bits(),
{
    let ty = match width {
        Width::I8 => I8,
        Width::I32 => I32,
        Width::I64 => I64,
    };
    b.ins().sextend(ty, x)
}

/// `InstBuilder::load` at `FunctionBuilder::ins`, with `MemFlags::trusted`:
/// appends a load of the given type from address `addr` plus `offset`.
#[verifier::external_body]
pub(crate) fn ins_load_trusted(
    b: &mut FunctionBuilder,
    width: Width,
    addr: Value,
    offset: i32,
) -> (r: Value)
    requires
        cursor(*old(b)).is_some(),
        known(*old(b), addr),
    ensures
        made(
            *old(b),
            *final(b),
            r,
            Emitted::Load {
                r: value_id(r),
                bits: width.bits(),
                addr: value_id(addr),
                offset: offset as int,
            },
        ),
        value_types(*final(b))[value_id(r)] == width.bits(),
{
    let ty = match width {
        Width::I8 => I8,
        Width::I32 => I32,
        Width::I64 => I64,
    };
    b.ins().load(ty, MemFlags::trusted(), addr, offset)
}

/// `InstBuilder::store` at `FunctionBuilder::ins`, with `MemFlags::trusted`:
/// appends a store of `val` to address `addr` plus `offset`.
#[verifier::external_body]
pub(crate) fn ins_store_trusted(b: &mut FunctionBuilder, val: Value, addr: Value, offset: i32)
    requires
        cursor(*old(b)).is_some(),
        known(*old(b), val),
        known(*old(b), addr),
    ensures
        done(
            *old(b),
            *final(b),
            Emitted::Store { val: value_id(val), addr: value_id(addr), offset: offset as int },
        ),
        cursor(*final(b)) == cursor(*old(b)),
        edges(*final(b)) == edges(*old(b)),
        current_def(*final(b)) == current_def(*old(b)),
{
    b.ins().store(MemFlags::trusted(), val, addr, offset);
}

/// `InstBuilder::jump` at `FunctionBuilder::ins`: appends a jump to `target`
/// without arguments. The jump ends the open block, so none is open after
/// it. The builder asks that the target is not sealed.
#[verifier::external_body]
pub(crate) fn ins_jump(b: &mut FunctionBuilder, target: Ebb)
    requires
        cursor(*old(b)).is_some(),
        unsealed_blocks(*old(b)).contains(block_id(target)),
    ensures
        done(*old(b), *final(b), Emitted::Jump { target: block_id(target) }),
        cursor(*final(b)).is_none(),
        edges(*final(b)) == edges(*old(b)).push(
            (cursor(*old(b)).unwrap(), block_id(target), current_def(*old(b))),
        ),
{
    b.ins().jump(target, &[]);
}

/// `InstBuilder::brz` at `FunctionBuilder::ins`: appends a branch to `target`,
/// without arguments, that is taken when `cond` is zero. The open block stays
/// open, and the values on record stay. The builder asks that the target is
/// not sealed.
#[verifier::external_body]
pub(crate) fn ins_brz(b: &mut FunctionBuilder, cond: Value, target: Ebb)
    requires
        cursor(*old(b)).is_some(),
        known(*old(b), cond),
        unsealed_blocks(*old(b)).contains(block_id(target)),
    ensures
        done(
            *old(b),
            *final(b),
            Emitted::Brz { cond: value_id(cond), target: block_id(target) },
        ),
        cursor(*final(b)) == cursor(*old(b)),
        current_def(*final(b)) == current_def(*old(b)),
        edges(*final(b)) == edges(*old(b)).push(
            (cursor(*old(b)).unwrap(), block_id(target), current_def(*old(b))),
        ),
{
    b.ins().brz(cond, target, &[]);
}

/// `InstBuilder::return_` at `FunctionBuilder::ins`: appends the return of
/// the one value `val`. It ends the open block, so none is open after it.
#[verifier::external_body]
pub(crate) fn ins_return(b: &mut FunctionBuilder, val: Value)
    requires
        cursor(*old(b)).is_some(),
        known(*old(b), val),
    ensures
        done(*old(b), *final(b), Emitted::Return { val: value_id(val) }),
        cursor(*final(b)).is_none(),
        edges(*final(b)) == edges(*old(b)),
{
    b.ins().return_(&[val]);
}

/// The numbers of the values in `args`.
pub open spec fn ids_of(args: Seq<Value>) -> Seq<nat> {
    Seq::new(args.len(), |i: int| value_id(args[i]))
}

/// `InstBuilder::call` at `FunctionBuilder::ins`: appends a call of the
/// imported function `f` with the given arguments. The results of the call,
/// as many as the signature of `f` returns, are new values with the next
/// free numbers.
#[verifier::external_body]
pub(crate) fn ins_call(b: &mut FunctionBuilder, f: FuncRef, args: &Vec<Value>) -> (inst: Inst)
    requires
        cursor(*old(b)).is_some(),
        imported(*old(b)).contains(func_id(f)),
        forall|i: int| 0 <= i < args@.len() ==> known(*old(b), #[trigger] args@[i]),
    ensures
        same_control(*old(b), *final(b)),
        imported(*final(b)).contains(func_id(f)),
        values_kept(*old(b), *final(b)),
        inst_id(inst) == emitted(*old(b)).len(),
        value_count(*final(b)) == value_count(*old(b)) + result_counts(*old(b))[func_id(f)],
        current_def(*final(b)) == current_def(*old(b)),
        block_params(*final(b)) == block_params(*old(b)),
        edges(*final(b)) == edges(*old(b)),
        emitted(*final(b)) == emitted(*old(b)).push(
            (
                cursor(*old(b)).unwrap(),
                Emitted::Call {
                    func: func_id(f),
                    args: ids_of(args@),
                    first: value_count(*old(b)),
                },
            ),
        ),
{
    b.ins().call(f, args.as_slice())
}

/// `FunctionBuilder::inst_results`, first element: the first result of a
/// call. There is one exactly when the signature of the called function
/// returns a value; it is then the value numbered `first` in the call's
/// record.
#[verifier::external_body]
pub(crate) fn first_result(b: &FunctionBuilder, inst: Inst) -> (r: Option<Value>)
    requires
        inst_id(inst) < emitted(*b).len(),
        emitted(*b)[inst_id(inst) as int].1 is Call,
        imported(*b).contains(emitted(*b)[inst_id(inst) as int].1->func),
    ensures
        r is Some <==> result_counts(*b)[emitted(*b)[inst_id(inst) as int].1->func] > 0,
        r matches Some(v) ==> known(*b, v) && value_id(v) == emitted(
            *b,
        )[inst_id(inst) as int].1->first,
{
    b.inst_results(inst).first().copied()
}

/// The signature of an imported function, read from the function's tables
/// (`ext_funcs`, then `signatures`): the number of values that it returns.
#[verifier::external_body]
pub(crate) fn result_count(b: &FunctionBuilder, f: FuncRef) -> (n: usize)
    requires
        imported(*b).contains(func_id(f)),
    ensures
        n == result_counts(*b)[func_id(f)],
{
    let signature = b.func.dfg.ext_funcs[f].signature;
    b.func.dfg.signatures[signature].returns.len()
}

/// `FunctionBuilder::create_stack_slot` with `StackSlotData::new` and
/// `StackSlotKind::ExplicitSlot`: reserves a stack slot of `size` bytes in
/// the function's frame, with the next free number. The slot is not
/// initialised. No instruction is made.
#[verifier::external_body]
pub(crate) fn create_explicit_slot(b: &mut FunctionBuilder, size: u32) -> (slot: StackSlot)
    ensures
        slot_id(slot) == slot_sizes(*old(b)).len(),
        slot_sizes(*final(b)) == slot_sizes(*old(b)).push(size as nat),
        cursor(*final(b)) == cursor(*old(b)),
        block_count(*final(b)) == block_count(*old(b)),
        fresh_blocks(*final(b)) == fresh_blocks(*old(b)),
        unsealed_blocks(*final(b)) == unsealed_blocks(*old(b)),
        current_def(*final(b)) == current_def(*old(b)),
        var_types(*final(b)) == var_types(*old(b)),
        imported(*final(b)) == imported(*old(b)),
        result_counts(*final(b)) == result_counts(*old(b)),
        value_types(*final(b)) == value_types(*old(b)),
        value_count(*final(b)) == value_count(*old(b)),
        block_params(*final(b)) == block_params(*old(b)),
        emitted(*final(b)) == emitted(*old(b)),
        edges(*final(b)) == edges(*old(b)),
{
    b.create_stack_slot(StackSlotData::new(StackSlotKind::ExplicitSlot, size))
}

/// `InstBuilder::stack_addr` at `FunctionBuilder::ins`: appends the
/// computation of the address of a stack slot plus `offset`, as a value of
/// the given type.
#[verifier::external_body]
pub(crate) fn ins_stack_addr(
    b: &mut FunctionBuilder,
    width: Width,
    slot: StackSlot,
    offset: i32,
) -> (r: Value)
    requires
        cursor(*old(b)).is_some(),
        slot_id(slot) < slot_sizes(*old(b)).len(),
    ensures
        made(
            *old(b),
            *final(b),
            r,
            Emitted::StackAddr {
                r: value_id(r),
                bits: width.bits(),
                slot: slot_id(slot),
                offset: offset as int,
            },
        ),
        value_types(*final(b))[value_id(r)] == width.bits(),
{
    let ty = match width {
        Width::I8 => I8,
        Width::I32 => I32,
        Width::I64 => I64,
    };
    b.ins().stack_addr(ty, slot, offset)
}

} // verus!
