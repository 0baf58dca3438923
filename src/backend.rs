//! Emission of generated code as an LLVM module, through inkwell.
use vstd::prelude::*;

use inkwell::basic_block::BasicBlock;
use inkwell::builder::Builder;
use inkwell::context::Context;
use inkwell::module::Module;
use inkwell::passes::PassManager;
use inkwell::types::{BasicMetadataTypeEnum, FloatType, FunctionType};
use inkwell::values::{
    BasicMetadataValueEnum, BasicValueEnum, FloatValue, FunctionValue, IntValue, PhiValue, PointerValue,
};
use inkwell::FloatPredicate;

use crate::ir::{BlockKind, FnBody, Inst, InstView, IrFunction, ModuleIr, Terminator, Val};

verus! {

#[verifier::external_type_specification]
#[verifier::external_body]
pub struct ExContext(Context);

#[verifier::external_type_specification]
#[verifier::external_body]
pub struct ExModule<'ctx>(Module<'ctx>);

#[verifier::external_type_specification]
#[verifier::external_body]
pub struct ExBuilder<'ctx>(Builder<'ctx>);

#[verifier::external_type_specification]
#[verifier::external_body]
#[verifier::reject_recursive_types(T)]
pub struct ExPassManager<T>(PassManager<T>);

#[verifier::external_type_specification]
#[verifier::external_body]
pub struct ExFunctionValue<'ctx>(FunctionValue<'ctx>);

#[verifier::external_type_specification]
#[verifier::external_body]
pub struct ExBasicBlock<'ctx>(BasicBlock<'ctx>);

#[verifier::external_type_specification]
#[verifier::external_body]
pub struct ExFloatValue<'ctx>(FloatValue<'ctx>);

#[verifier::external_type_specification]
#[verifier::external_body]
pub struct ExPointerValue<'ctx>(PointerValue<'ctx>);

#[verifier::external_type_specification]
#[verifier::external_body]
pub struct ExIntValue<'ctx>(IntValue<'ctx>);

#[verifier::external_type_specification]
#[verifier::external_body]
pub struct ExPhiValue<'ctx>(PhiValue<'ctx>);

#[verifier::external_type_specification]
#[verifier::external_body]
pub struct ExFloatType<'ctx>(FloatType<'ctx>);

#[verifier::external_type_specification]
#[verifier::external_body]
pub struct ExFunctionType<'ctx>(FunctionType<'ctx>);

/// The comparison predicates; their variants carry no data, so verified
/// code names them.
#[verifier::external_type_specification]
pub struct ExFloatPredicate(FloatPredicate);

/// Relies on `Context::create_module`: an empty module with this name.
#[verifier::external_body]
fn new_module<'ctx>(context: &'ctx Context, name: &str) -> Module<'ctx> {
    context.create_module(name)
}

/// Relies on `Context::create_builder`: a builder not yet positioned.
#[verifier::external_body]
fn new_builder<'ctx>(context: &'ctx Context) -> Builder<'ctx> {
    context.create_builder()
}

/// Relies on `PassManager::create`: an empty function pass manager for `module`.
#[verifier::external_body]
fn new_pass_manager<'ctx>(module: &Module<'ctx>) -> PassManager<FunctionValue<'ctx>> {
    PassManager::create(module)
}

/// Relies on `PassManager::add_instruction_combining_pass`.
#[verifier::external_body]
fn add_instruction_combining<'ctx>(passes: &PassManager<FunctionValue<'ctx>>) {
    passes.add_instruction_combining_pass()
}

/// Relies on `PassManager::add_reassociate_pass`.
#[verifier::external_body]
fn add_reassociate<'ctx>(passes: &PassManager<FunctionValue<'ctx>>) {
    passes.add_reassociate_pass()
}

/// Relies on `PassManager::add_gvn_pass`.
#[verifier::external_body]
fn add_gvn<'ctx>(passes: &PassManager<FunctionValue<'ctx>>) {
    passes.add_gvn_pass()
}

/// Relies on `PassManager::add_cfg_simplification_pass`.
#[verifier::external_body]
fn add_cfg_simplification<'ctx>(passes: &PassManager<FunctionValue<'ctx>>) {
    passes.add_cfg_simplification_pass()
}

/// Relies on `PassManager::add_basic_alias_analysis_pass`.
#[verifier::external_body]
fn add_basic_alias_analysis<'ctx>(passes: &PassManager<FunctionValue<'ctx>>) {
    passes.add_basic_alias_analysis_pass()
}

/// Relies on `PassManager::add_promote_memory_to_register_pass`.
#[verifier::external_body]
fn add_promote_memory_to_register<'ctx>(passes: &PassManager<FunctionValue<'ctx>>) {
    passes.add_promote_memory_to_register_pass()
}

/// Relies on `PassManager::initialize`; its result says whether a pass changed anything.
#[verifier::external_body]
fn initialize_passes<'ctx>(passes: &PassManager<FunctionValue<'ctx>>) -> bool {
    passes.initialize()
}

/// Relies on `PassManager::run_on`; its result says whether a pass changed the function.
#[verifier::external_body]
fn run_passes<'ctx>(passes: &PassManager<FunctionValue<'ctx>>, f: FunctionValue<'ctx>) -> bool {
    passes.run_on(&f)
}

/// Relies on `Context::f64_type`: the 64-bit float type.
#[verifier::external_body]
fn float_type<'ctx>(context: &'ctx Context) -> FloatType<'ctx> {
    context.f64_type()
}

/// Relies on `FloatType::const_zero`: the constant 0.0.
#[verifier::external_body]
fn float_zero<'ctx>(t: FloatType<'ctx>) -> FloatValue<'ctx> {
    t.const_zero()
}

/// Relies on `FloatType::fn_type`: the type `t(t, ..., t)` of `arity`
/// parameters, not variadic.
#[verifier::external_body]
fn function_type<'ctx>(t: FloatType<'ctx>, arity: usize) -> FunctionType<'ctx> {
    let params: Vec<BasicMetadataTypeEnum<'ctx>> = vec![t.into(); arity];
    t.fn_type(&params, false)
}

/// Relies on `Module::add_function`, with no linkage given.
#[verifier::external_body]
fn add_function<'ctx>(module: &Module<'ctx>, name: &str, ty: FunctionType<'ctx>) -> FunctionValue<'ctx> {
    module.add_function(name, ty, None)
}

/// Relies on `FunctionValue::count_params` and `FunctionValue::get_nth_param`:
/// the parameter at `index`, if `f` has one there and it is a float.
#[verifier::external_body]
fn param<'ctx>(f: FunctionValue<'ctx>, index: usize) -> Option<FloatValue<'ctx>> {
    let index = u32::try_from(index).ok()?;
    if index >= f.count_params() {
        return None;
    }
    match f.get_nth_param(index)? {
        BasicValueEnum::FloatValue(v) => Some(v),
        _ => None,
    }
}

/// Relies on `FloatValue::set_name`, which names a value in the printed code.
#[verifier::external_body]
fn set_value_name<'ctx>(v: FloatValue<'ctx>, name: &str) {
    v.set_name(name)
}

/// Relies on `Context::append_basic_block`: a new block at the end of `f`.
#[verifier::external_body]
fn append_block<'ctx>(context: &'ctx Context, f: FunctionValue<'ctx>, name: &str) -> BasicBlock<'ctx> {
    context.append_basic_block(f, name)
}

/// Relies on `Builder::position_at_end`.
#[verifier::external_body]
fn position_at_end<'ctx>(builder: &Builder<'ctx>, block: BasicBlock<'ctx>) {
    builder.position_at_end(block)
}

/// Relies on `Builder::build_alloca` of a slot of type `t`.
#[verifier::external_body]
fn build_slot<'ctx>(builder: &Builder<'ctx>, t: FloatType<'ctx>, name: &str) -> Option<
    PointerValue<'ctx>,
> {
    builder.build_alloca(t, name).ok()
}

/// Relies on `Builder::build_store`.
#[verifier::external_body]
fn build_store<'ctx>(builder: &Builder<'ctx>, slot: PointerValue<'ctx>, v: FloatValue<'ctx>) -> bool {
    builder.build_store(slot, v).is_ok()
}

/// Relies on `Builder::build_load`: the loaded value, if it is a float.
#[verifier::external_body]
fn build_load<'ctx>(builder: &Builder<'ctx>, slot: PointerValue<'ctx>, name: &str) -> Option<
    FloatValue<'ctx>,
> {
    match builder.build_load(slot, name).ok()? {
        BasicValueEnum::FloatValue(v) => Some(v),
        _ => None,
    }
}

/// Relies on `Builder::build_float_add`.
#[verifier::external_body]
fn build_add<'ctx>(builder: &Builder<'ctx>, a: FloatValue<'ctx>, b: FloatValue<'ctx>) -> Option<
    FloatValue<'ctx>,
> {
    builder.build_float_add(a, b, "tmpadd").ok()
}

/// Relies on `Builder::build_float_sub`.
#[verifier::external_body]
fn build_sub<'ctx>(builder: &Builder<'ctx>, a: FloatValue<'ctx>, b: FloatValue<'ctx>) -> Option<
    FloatValue<'ctx>,
> {
    builder.build_float_sub(a, b, "tmpsub").ok()
}

/// Relies on `Builder::build_float_mul`.
#[verifier::external_body]
fn build_mul<'ctx>(builder: &Builder<'ctx>, a: FloatValue<'ctx>, b: FloatValue<'ctx>) -> Option<
    FloatValue<'ctx>,
> {
    builder.build_float_mul(a, b, "tmpmul").ok()
}

/// Relies on `Builder::build_float_div`.
#[verifier::external_body]
fn build_div<'ctx>(builder: &Builder<'ctx>, a: FloatValue<'ctx>, b: FloatValue<'ctx>) -> Option<
    FloatValue<'ctx>,
> {
    builder.build_float_div(a, b, "tmpdiv").ok()
}

/// Relies on `Builder::build_float_compare`.
#[verifier::external_body]
fn build_compare<'ctx>(
    builder: &Builder<'ctx>,
    predicate: FloatPredicate,
    a: FloatValue<'ctx>,
    b: FloatValue<'ctx>,
    name: &str,
) -> Option<IntValue<'ctx>> {
    builder.build_float_compare(predicate, a, b, name).ok()
}

/// Relies on `Builder::build_unsigned_int_to_float` to the type `t`.
#[verifier::external_body]
fn build_to_float<'ctx>(builder: &Builder<'ctx>, a: IntValue<'ctx>, t: FloatType<'ctx>) -> Option<
    FloatValue<'ctx>,
> {
    builder.build_unsigned_int_to_float(a, t, "tmpbool").ok()
}

/// Relies on `Builder::build_call`, and on `CallSiteValue::try_as_basic_value`
/// for the value it returns; `None` when there is none or it is not a float.
#[verifier::external_body]
fn build_call<'ctx>(builder: &Builder<'ctx>, f: FunctionValue<'ctx>, args: &Vec<FloatValue<'ctx>>) -> Option<
    FloatValue<'ctx>,
> {
    let args: Vec<BasicMetadataValueEnum<'ctx>> = args.iter().map(|a| (*a).into()).collect();
    let call = builder.build_call(f, &args, "tmp").ok()?;
    match call.try_as_basic_value().left()? {
        BasicValueEnum::FloatValue(v) => Some(v),
        _ => None,
    }
}

/// Relies on `Builder::build_phi` of type `t`, without incoming values yet.
#[verifier::external_body]
fn build_phi<'ctx>(builder: &Builder<'ctx>, t: FloatType<'ctx>) -> Option<PhiValue<'ctx>> {
    builder.build_phi(t, "iftmp").ok()
}

/// Relies on `PhiValue::add_incoming`, for two incoming values.
#[verifier::external_body]
fn add_incoming<'ctx>(
    phi: PhiValue<'ctx>,
    a: FloatValue<'ctx>,
    from_a: BasicBlock<'ctx>,
    b: FloatValue<'ctx>,
    from_b: BasicBlock<'ctx>,
) {
    phi.add_incoming(&[(&a, from_a), (&b, from_b)])
}

/// Relies on `PhiValue::as_basic_value`: the phi's value, if it is a float.
#[verifier::external_body]
fn phi_value<'ctx>(phi: PhiValue<'ctx>) -> Option<FloatValue<'ctx>> {
    match phi.as_basic_value() {
        BasicValueEnum::FloatValue(v) => Some(v),
        _ => None,
    }
}

/// Relies on `Builder::build_return`.
#[verifier::external_body]
fn build_return<'ctx>(builder: &Builder<'ctx>, v: FloatValue<'ctx>) -> bool {
    builder.build_return(Some(&v)).is_ok()
}

/// Relies on `Builder::build_unconditional_branch`.
#[verifier::external_body]
fn build_branch<'ctx>(builder: &Builder<'ctx>, to: BasicBlock<'ctx>) -> bool {
    builder.build_unconditional_branch(to).is_ok()
}

/// Relies on `Builder::build_conditional_branch`.
#[verifier::external_body]
fn build_cond_branch<'ctx>(
    builder: &Builder<'ctx>,
    c: IntValue<'ctx>,
    then_block: BasicBlock<'ctx>,
    else_block: BasicBlock<'ctx>,
) -> bool {
    builder.build_conditional_branch(c, then_block, else_block).is_ok()
}

/// Relies on `FunctionValue::verify`: whether LLVM's verifier accepts `f`.
#[verifier::external_body]
fn verify_function<'ctx>(f: FunctionValue<'ctx>) -> bool {
    f.verify(true)
}

/// What an instruction's result is: a float, a stack slot, a truth value,
/// or nothing.
#[derive(Clone, Copy, PartialEq, Eq, Structural)]
pub enum Kind {
    Float,
    Slot,
    Truth,
    Nothing,
}

pub open spec fn inst_kind(i: Inst) -> Kind {
    match i {
        Inst::Alloca(_) => Kind::Slot,
        Inst::Store(_, _) => Kind::Nothing,
        Inst::LessThan(_, _) | Inst::NonZero(_) => Kind::Truth,
        _ => Kind::Float,
    }
}

fn kind_of(i: &Inst) -> (r: Kind)
    ensures
        r == inst_kind(*i),
{
    match i {
        Inst::Alloca(_) => Kind::Slot,
        Inst::Store(_, _) => Kind::Nothing,
        Inst::LessThan(_, _) | Inst::NonZero(_) => Kind::Truth,
        _ => Kind::Float,
    }
}

/// `v`, used by instruction `at` of a function with `nparams` parameters,
/// is a value of kind `k`: a parameter (a float), or an earlier instruction.
pub open spec fn operand_is(insts: Seq<Inst>, nparams: nat, at: int, v: Val, k: Kind) -> bool {
    match v {
        Val::Param(p) => k == Kind::Float && p < nparams,
        Val::Inst(j) => j < at && j < insts.len() && inst_kind(insts[j as int]) == k,
    }
}

/// Instruction `i` of `f` has operands of the kinds it takes, its block
/// numbers and parameter indices exist, a call passes its callee as many
/// arguments as the callee has parameters, and a constant has its value.
pub open spec fn inst_ok(fs: Seq<IrFunction>, f: IrFunction, body: FnBody, values: Seq<bool>, i: int) -> bool {
    let insts = body.insts@;
    let n = f.params@.len();
    let fl = |v: Val| operand_is(insts, n, i, v, Kind::Float);
    match insts[i] {
        Inst::Constant(_) => values[i],
        Inst::Alloca(p) => p < n,
        Inst::Store(v, s) => fl(v) && operand_is(insts, n, i, s, Kind::Slot),
        Inst::Load(s, p) => operand_is(insts, n, i, s, Kind::Slot) && p < n,
        Inst::Add(a, b) | Inst::Sub(a, b) | Inst::Mul(a, b) | Inst::Div(a, b) | Inst::LessThan(
            a,
            b,
        ) => fl(a) && fl(b),
        Inst::ToFloat(a) => operand_is(insts, n, i, a, Kind::Truth),
        Inst::NonZero(a) => fl(a),
        Inst::Call(k, args) => k < fs.len() && args@.len() == fs[k as int].params@.len() && forall|
            j: int,
        | 0 <= j < args@.len() ==> fl(#[trigger] args@[j]),
        Inst::Phi(a, x, b, y) => fl(a) && fl(b) && x < body.blocks@.len() && y < body.blocks@.len(),
    }
}

/// Every block of `body` ends in a terminator whose operand is a value of
/// the function and whose targets are blocks of it.
pub open spec fn terms_ok(f: IrFunction, body: FnBody) -> bool {
    let insts = body.insts@;
    let n = f.params@.len();
    let nb = body.blocks@.len();
    forall|b: int|
        0 <= b < nb ==> match (#[trigger] body.blocks@[b]).term {
            Some(Terminator::Ret(v)) => operand_is(insts, n, insts.len() as int, v, Kind::Float),
            Some(Terminator::Br(t)) => t < nb,
            Some(Terminator::CondBr(c, t, e)) => operand_is(
                insts,
                n,
                insts.len() as int,
                c,
                Kind::Truth,
            ) && t < nb && e < nb,
            None => false,
        }
}

pub open spec fn has_values<'ctx>(cs: Seq<Option<FloatValue<'ctx>>>) -> Seq<bool> {
    cs.map_values(|c: Option<FloatValue<'ctx>>| c is Some)
}

/// The code of `f` can be handed to LLVM as it is.
pub open spec fn body_ok<'ctx>(fs: Seq<IrFunction>, f: IrFunction, cs: Seq<Option<FloatValue<'ctx>>>) -> bool {
    match f.body {
        None => true,
        Some(body) => {
            &&& body.inst_block@.len() == body.insts@.len()
            &&& cs.len() == body.insts@.len()
            &&& forall|i: int|
                0 <= i < body.insts@.len() ==> #[trigger] body.inst_block@[i] < body.blocks@.len()
                    && inst_ok(fs, f, body, has_values(cs), i)
            &&& terms_ok(f, body)
        },
    }
}

/// Every function of `ir` can be handed to LLVM, with a constant for each
/// of its `Constant` instructions in `constants`.
pub open spec fn module_ok<'ctx>(ir: ModuleIr, constants: Seq<Vec<Option<FloatValue<'ctx>>>>) -> bool {
    &&& constants.len() == ir.functions@.len()
    &&& forall|f: int|
        0 <= f < ir.functions@.len() ==> body_ok(
            ir.functions@,
            #[trigger] ir.functions@[f],
            constants[f]@,
        )
}

fn operand_ok(insts: &Vec<Inst>, nparams: usize, at: usize, v: Val, k: Kind) -> (r: bool)
    ensures
        r == operand_is(insts@, nparams as nat, at as int, v, k),
{
    match v {
        Val::Param(p) => k == Kind::Float && p < nparams,
        Val::Inst(j) => j < at && j < insts.len() && kind_of(&insts[j]) == k,
    }
}

fn inst_check<'ctx>(
    fs: &Vec<IrFunction>,
    f: &IrFunction,
    body: &FnBody,
    cs: &Vec<Option<FloatValue<'ctx>>>,
    i: usize,
) -> (r: bool)
    requires
        i < body.insts@.len(),
        cs@.len() == body.insts@.len(),
    ensures
        r == inst_ok(fs@, *f, *body, has_values(cs@), i as int),
{
    let insts = &body.insts;
    let n = f.params.len();
    let fl = |v: Val| -> (r: bool)
        ensures
            r == operand_is(insts@, n as nat, i as int, v, Kind::Float),
        { operand_ok(insts, n, i, v, Kind::Float) };
    match &insts[i] {
        Inst::Constant(_) => cs[i].is_some(),
        Inst::Alloca(p) => *p < n,
        Inst::Store(v, s) => fl(*v) && operand_ok(insts, n, i, *s, Kind::Slot),
        Inst::Load(s, p) => operand_ok(insts, n, i, *s, Kind::Slot) && *p < n,
        Inst::Add(a, b) | Inst::Sub(a, b) | Inst::Mul(a, b) | Inst::Div(a, b) | Inst::LessThan(
            a,
            b,
        ) => fl(*a) && fl(*b),
        Inst::ToFloat(a) => operand_ok(insts, n, i, *a, Kind::Truth),
        Inst::NonZero(a) => fl(*a),
        Inst::Call(k, args) => {
            if *k >= fs.len() || args.len() != fs[*k].params.len() {
                return false;
            }
            let mut j: usize = 0;
            while j < args.len()
                invariant
                    j <= args.len(),
                    i < insts@.len(),
                    insts@ == body.insts@,
                    insts@[i as int] == Inst::Call(*k, *args),
                    n == f.params@.len(),
                    forall|m: int|
                        0 <= m < j ==> operand_is(insts@, n as nat, i as int, #[trigger] args@[m], Kind::Float),
                decreases args.len() - j,
            {
                if !operand_ok(insts, n, i, args[j], Kind::Float) {
                    return false;
                }
                j += 1;
            }
            true
        },
        Inst::Phi(a, x, b, y) => fl(*a) && fl(*b) && *x < body.blocks.len() && *y < body.blocks.len(),
    }
}

fn body_check<'ctx>(fs: &Vec<IrFunction>, f: &IrFunction, cs: &Vec<Option<FloatValue<'ctx>>>) -> (r: bool)
    ensures
        r == body_ok(fs@, *f, cs@),
{
    let body = match &f.body {
        None => return true,
        Some(b) => b,
    };
    if body.inst_block.len() != body.insts.len() || cs.len() != body.insts.len() {
        return false;
    }
    let mut i: usize = 0;
    while i < body.insts.len()
        invariant
            f.body == Some(*body),
            body.inst_block@.len() == body.insts@.len() == cs@.len(),
            forall|m: int|
                0 <= m < i ==> #[trigger] body.inst_block@[m] < body.blocks@.len() && inst_ok(
                    fs@,
                    *f,
                    *body,
                    has_values(cs@),
                    m,
                ),
        decreases body.insts.len() - i,
    {
        if body.inst_block[i] >= body.blocks.len() || !inst_check(fs, f, body, cs, i) {
            return false;
        }
        i += 1;
    }
    let n = f.params.len();
    let len = body.insts.len();
    let nb = body.blocks.len();
    let mut b: usize = 0;
    while b < nb
        invariant
            f.body == Some(*body),
            n == f.params@.len(),
            len == body.insts@.len(),
            nb == body.blocks@.len(),
            b <= nb,
            forall|m: int|
                0 <= m < body.insts@.len() ==> #[trigger] body.inst_block@[m] < body.blocks@.len()
                    && inst_ok(fs@, *f, *body, has_values(cs@), m),
            forall|m: int|
                0 <= m < b ==> match (#[trigger] body.blocks@[m]).term {
                    Some(Terminator::Ret(v)) => operand_is(body.insts@, n as nat, len as int, v, Kind::Float),
                    Some(Terminator::Br(t)) => t < nb,
                    Some(Terminator::CondBr(c, t, e)) => operand_is(
                        body.insts@,
                        n as nat,
                        len as int,
                        c,
                        Kind::Truth,
                    ) && t < nb && e < nb,
                    None => false,
                },
        decreases nb - b,
    {
        let ok = match body.blocks[b].term {
            Some(Terminator::Ret(v)) => operand_ok(&body.insts, n, len, v, Kind::Float),
            Some(Terminator::Br(t)) => t < nb,
            Some(Terminator::CondBr(c, t, e)) => operand_ok(&body.insts, n, len, c, Kind::Truth)
                && t < nb && e < nb,
            None => false,
        };
        if !ok {
            return false;
        }
        b += 1;
    }
    true
}

/// Whether `ir` can be handed to LLVM with these constants.
pub fn module_check<'ctx>(ir: &ModuleIr, constants: &Vec<Vec<Option<FloatValue<'ctx>>>>) -> (r: bool)
    ensures
        r == module_ok(*ir, constants@),
{
    let fs = &ir.functions;
    if constants.len() != fs.len() {
        return false;
    }
    let mut i: usize = 0;
    while i < fs.len()
        invariant
            fs@ == ir.functions@,
            constants@.len() == fs@.len(),
            i <= fs.len(),
            forall|m: int| 0 <= m < i ==> body_ok(fs@, #[trigger] fs@[m], constants@[m]@),
        decreases fs.len() - i,
    {
        if !body_check(fs, &fs[i], &constants[i]) {
            return false;
        }
        i += 1;
    }
    true
}

/// A function pass of LLVM.
#[derive(Clone, Copy, PartialEq, Eq, Structural)]
pub enum Pass {
    InstructionCombining,
    Reassociate,
    Gvn,
    CfgSimplification,
    BasicAliasAnalysis,
    PromoteMemoryToRegister,
}

/// The four float operations.
#[derive(Clone, Copy, PartialEq, Eq, Structural)]
pub enum Arith {
    Add,
    Sub,
    Mul,
    Div,
}

/// An LLVM instruction, with the values of the generated code it operates on.
pub enum LlvmOp {
    /// A constant handed in with the code; no instruction is built.
    Constant,
    /// `alloca double` for the parameter with this index.
    Alloca(usize),
    /// `store` of the first value into the slot.
    Store(Val, Val),
    /// `load double` from the slot, named after the parameter.
    Load(Val, usize),
    /// `fadd`, `fsub`, `fmul` or `fdiv`.
    Float(Arith, Val, Val),
    /// `fcmp` with this predicate, against the second value or against 0.0.
    Compare(FloatPredicate, Val, Option<Val>),
    /// `uitofp` to `double`.
    UnsignedToFloat(Val),
    /// `call` of the function with this index.
    Call(usize, Seq<Val>),
    /// `phi double` of two incoming values and their blocks.
    Phi(Val, usize, Val, usize),
}

/// One thing handed to LLVM.
pub enum LlvmStep {
    AddPass(Pass),
    InitializePasses,
    /// A function with this name and this number of float parameters.
    AddFunction(Seq<char>, nat),
    /// An instruction built at the end of a block of a function.
    Build(usize, usize, LlvmOp),
    /// The terminator of a block of a function.
    End(usize, usize, Terminator),
    Verify(usize),
    Optimise(usize),
}

/// What an instruction of the generated code becomes: `<` an unordered
/// less-than, a condition an ordered not-equal to 0.0, a truth value a
/// float through `uitofp`.
pub open spec fn llvm_op(i: InstView) -> LlvmOp {
    match i {
        InstView::Constant(_) => LlvmOp::Constant,
        InstView::Alloca(p) => LlvmOp::Alloca(p),
        InstView::Store(v, s) => LlvmOp::Store(v, s),
        InstView::Load(s, p) => LlvmOp::Load(s, p),
        InstView::Add(a, b) => LlvmOp::Float(Arith::Add, a, b),
        InstView::Sub(a, b) => LlvmOp::Float(Arith::Sub, a, b),
        InstView::Mul(a, b) => LlvmOp::Float(Arith::Mul, a, b),
        InstView::Div(a, b) => LlvmOp::Float(Arith::Div, a, b),
        InstView::LessThan(a, b) => LlvmOp::Compare(FloatPredicate::ULT, a, Some(b)),
        InstView::ToFloat(a) => LlvmOp::UnsignedToFloat(a),
        InstView::NonZero(a) => LlvmOp::Compare(FloatPredicate::ONE, a, None),
        InstView::Call(k, args) => LlvmOp::Call(k, args),
        InstView::Phi(a, x, b, y) => LlvmOp::Phi(a, x, b, y),
    }
}

/// The function passes, in the order they run.
pub open spec fn pass_steps() -> Seq<LlvmStep> {
    seq![
        LlvmStep::AddPass(Pass::InstructionCombining),
        LlvmStep::AddPass(Pass::Reassociate),
        LlvmStep::AddPass(Pass::Gvn),
        LlvmStep::AddPass(Pass::CfgSimplification),
        LlvmStep::AddPass(Pass::BasicAliasAnalysis),
        LlvmStep::AddPass(Pass::PromoteMemoryToRegister),
        LlvmStep::AddPass(Pass::InstructionCombining),
        LlvmStep::AddPass(Pass::Reassociate),
        LlvmStep::InitializePasses,
    ]
}

/// The first `n` functions added, each with its name and arity.
pub open spec fn declare_steps(fs: Seq<IrFunction>, n: nat) -> Seq<LlvmStep>
    decreases n,
{
    if n == 0 || n > fs.len() {
        Seq::empty()
    } else {
        declare_steps(fs, (n - 1) as nat).push(
            LlvmStep::AddFunction(fs[n - 1].name@, fs[n - 1].params@.len()),
        )
    }
}

/// The first `n` instructions of function `fi`, each built in its block.
pub open spec fn inst_steps(fi: usize, body: FnBody, n: nat) -> Seq<LlvmStep>
    decreases n,
{
    if n == 0 || n > body.insts@.len() {
        Seq::empty()
    } else {
        inst_steps(fi, body, (n - 1) as nat).push(
            LlvmStep::Build(fi, body.inst_block@[n - 1], llvm_op(body.insts@[n - 1]@)),
        )
    }
}

/// The terminators of the first `n` blocks of function `fi`.
pub open spec fn end_steps(fi: usize, body: FnBody, n: nat) -> Seq<LlvmStep>
    decreases n,
{
    if n == 0 || n > body.blocks@.len() {
        Seq::empty()
    } else {
        end_steps(fi, body, (n - 1) as nat).push(
            LlvmStep::End(fi, (n - 1) as usize, body.blocks@[n - 1].term->0),
        )
    }
}

/// The definition of function `fi`: its instructions, its terminators, the
/// verifier, then the passes.
pub open spec fn body_steps(fi: usize, body: FnBody) -> Seq<LlvmStep> {
    inst_steps(fi, body, body.insts@.len()) + end_steps(fi, body, body.blocks@.len()) + seq![
        LlvmStep::Verify(fi),
        LlvmStep::Optimise(fi),
    ]
}

/// The definitions among the first `n` functions, in order.
pub open spec fn define_steps(fs: Seq<IrFunction>, n: nat) -> Seq<LlvmStep>
    decreases n,
{
    if n == 0 || n > fs.len() {
        Seq::empty()
    } else {
        define_steps(fs, (n - 1) as nat) + match fs[n - 1].body {
            Some(b) => body_steps((n - 1) as usize, b),
            None => Seq::empty(),
        }
    }
}

/// Everything handed to LLVM for `ir`, in order.
pub open spec fn emission(ir: ModuleIr) -> Seq<LlvmStep> {
    pass_steps() + declare_steps(ir.functions@, ir.functions@.len()) + define_steps(
        ir.functions@,
        ir.functions@.len(),
    )
}

/// An LLVM module under construction, with a record of every step handed
/// to LLVM so far and of the function and block the builder is at.
pub struct Llvm<'ctx> {
    pub module: Module<'ctx>,
    pub builder: Builder<'ctx>,
    pub passes: PassManager<FunctionValue<'ctx>>,
    pub steps: Ghost<Seq<LlvmStep>>,
    pub at: Ghost<(usize, usize)>,
}

/// The module for a whole compilation, and what was handed to LLVM for it.
pub struct Emission<'ctx> {
    pub module: Module<'ctx>,
    pub steps: Ghost<Seq<LlvmStep>>,
}

impl<'ctx> Llvm<'ctx> {
    fn record(&mut self, step: Ghost<LlvmStep>)
        ensures
            final(self).steps@ == old(self).steps@.push(step@),
            final(self).at == old(self).at,
    {
        self.steps = Ghost(self.steps@.push(step@));
    }

    fn add_pass(&mut self, p: Pass)
        ensures
            final(self).steps@ == old(self).steps@.push(LlvmStep::AddPass(p)),
    {
        match p {
            Pass::InstructionCombining => add_instruction_combining(&self.passes),
            Pass::Reassociate => add_reassociate(&self.passes),
            Pass::Gvn => add_gvn(&self.passes),
            Pass::CfgSimplification => add_cfg_simplification(&self.passes),
            Pass::BasicAliasAnalysis => add_basic_alias_analysis(&self.passes),
            Pass::PromoteMemoryToRegister => add_promote_memory_to_register(&self.passes),
        }
        self.record(Ghost(LlvmStep::AddPass(p)));
    }

    fn initialize(&mut self)
        ensures
            final(self).steps@ == old(self).steps@.push(LlvmStep::InitializePasses),
    {
        initialize_passes(&self.passes);
        self.record(Ghost(LlvmStep::InitializePasses));
    }

    fn declare(&mut self, t: FloatType<'ctx>, name: &String, arity: usize) -> (f: FunctionValue<'ctx>)
        ensures
            final(self).steps@ == old(self).steps@.push(LlvmStep::AddFunction(name@, arity as nat)),
    {
        let f = add_function(&self.module, name.as_str(), function_type(t, arity));
        self.record(Ghost(LlvmStep::AddFunction(name@, arity as nat)));
        f
    }

    fn position(&mut self, block: BasicBlock<'ctx>, Ghost(fi): Ghost<usize>, Ghost(b): Ghost<usize>)
        ensures
            final(self).steps == old(self).steps,
            final(self).at@ == (fi, b),
    {
        position_at_end(&self.builder, block);
        self.at = Ghost((fi, b));
    }

    fn build_step(&mut self, op: Ghost<LlvmOp>)
        ensures
            final(self).steps@ == old(self).steps@.push(LlvmStep::Build(old(self).at@.0, old(self).at@.1, op@)),
            final(self).at == old(self).at,
    {
        let ghost at = self.at@;
        self.record(Ghost(LlvmStep::Build(at.0, at.1, op@)));
    }

    fn end_step(&mut self, t: Ghost<Terminator>)
        ensures
            final(self).steps@ == old(self).steps@.push(LlvmStep::End(old(self).at@.0, old(self).at@.1, t@)),
            final(self).at == old(self).at,
    {
        let ghost at = self.at@;
        self.record(Ghost(LlvmStep::End(at.0, at.1, t@)));
    }

    fn alloca(&mut self, t: FloatType<'ctx>, name: &str, Ghost(p): Ghost<usize>) -> (r: Option<PointerValue<'ctx>>)
        ensures
            final(self).at == old(self).at,
            r is Some ==> final(self).steps@ == old(self).steps@.push(
                LlvmStep::Build(old(self).at@.0, old(self).at@.1, LlvmOp::Alloca(p)),
            ),
    {
        let r = build_slot(&self.builder, t, name);
        if r.is_some() {
            self.build_step(Ghost(LlvmOp::Alloca(p)));
        }
        r
    }

    fn store(&mut self, slot: PointerValue<'ctx>, x: FloatValue<'ctx>, Ghost(v): Ghost<Val>, Ghost(s): Ghost<Val>) -> (r: bool)
        ensures
            final(self).at == old(self).at,
            r ==> final(self).steps@ == old(self).steps@.push(
                LlvmStep::Build(old(self).at@.0, old(self).at@.1, LlvmOp::Store(v, s)),
            ),
    {
        let r = build_store(&self.builder, slot, x);
        if r {
            self.build_step(Ghost(LlvmOp::Store(v, s)));
        }
        r
    }

    fn load(&mut self, slot: PointerValue<'ctx>, name: &str, Ghost(s): Ghost<Val>, Ghost(p): Ghost<usize>) -> (r: Option<FloatValue<'ctx>>)
        ensures
            final(self).at == old(self).at,
            r is Some ==> final(self).steps@ == old(self).steps@.push(
                LlvmStep::Build(old(self).at@.0, old(self).at@.1, LlvmOp::Load(s, p)),
            ),
    {
        let r = build_load(&self.builder, slot, name);
        if r.is_some() {
            self.build_step(Ghost(LlvmOp::Load(s, p)));
        }
        r
    }

    fn float(&mut self, op: Arith, x: FloatValue<'ctx>, y: FloatValue<'ctx>, Ghost(a): Ghost<Val>, Ghost(b): Ghost<Val>) -> (r: Option<FloatValue<'ctx>>)
        ensures
            final(self).at == old(self).at,
            r is Some ==> final(self).steps@ == old(self).steps@.push(
                LlvmStep::Build(old(self).at@.0, old(self).at@.1, LlvmOp::Float(op, a, b)),
            ),
    {
        let r = match op {
            Arith::Add => build_add(&self.builder, x, y),
            Arith::Sub => build_sub(&self.builder, x, y),
            Arith::Mul => build_mul(&self.builder, x, y),
            Arith::Div => build_div(&self.builder, x, y),
        };
        if r.is_some() {
            self.build_step(Ghost(LlvmOp::Float(op, a, b)));
        }
        r
    }

    fn compare(
        &mut self,
        predicate: FloatPredicate,
        x: FloatValue<'ctx>,
        y: FloatValue<'ctx>,
        name: &str,
        Ghost(a): Ghost<Val>,
        Ghost(b): Ghost<Option<Val>>,
    ) -> (r: Option<IntValue<'ctx>>)
        ensures
            final(self).at == old(self).at,
            r is Some ==> final(self).steps@ == old(self).steps@.push(
                LlvmStep::Build(old(self).at@.0, old(self).at@.1, LlvmOp::Compare(predicate, a, b)),
            ),
    {
        let r = build_compare(&self.builder, predicate, x, y, name);
        if r.is_some() {
            self.build_step(Ghost(LlvmOp::Compare(predicate, a, b)));
        }
        r
    }

    fn to_float(&mut self, c: IntValue<'ctx>, t: FloatType<'ctx>, Ghost(a): Ghost<Val>) -> (r: Option<FloatValue<'ctx>>)
        ensures
            final(self).at == old(self).at,
            r is Some ==> final(self).steps@ == old(self).steps@.push(
                LlvmStep::Build(old(self).at@.0, old(self).at@.1, LlvmOp::UnsignedToFloat(a)),
            ),
    {
        let r = build_to_float(&self.builder, c, t);
        if r.is_some() {
            self.build_step(Ghost(LlvmOp::UnsignedToFloat(a)));
        }
        r
    }

    fn call(&mut self, f: FunctionValue<'ctx>, values: &Vec<FloatValue<'ctx>>, Ghost(k): Ghost<usize>, Ghost(args): Ghost<Seq<Val>>) -> (r: Option<FloatValue<'ctx>>)
        ensures
            final(self).at == old(self).at,
            r is Some ==> final(self).steps@ == old(self).steps@.push(
                LlvmStep::Build(old(self).at@.0, old(self).at@.1, LlvmOp::Call(k, args)),
            ),
    {
        let r = build_call(&self.builder, f, values);
        if r.is_some() {
            self.build_step(Ghost(LlvmOp::Call(k, args)));
        }
        r
    }

    fn phi(
        &mut self,
        t: FloatType<'ctx>,
        x: FloatValue<'ctx>,
        from_x: BasicBlock<'ctx>,
        y: FloatValue<'ctx>,
        from_y: BasicBlock<'ctx>,
        Ghost(a): Ghost<Val>,
        Ghost(i): Ghost<usize>,
        Ghost(b): Ghost<Val>,
        Ghost(j): Ghost<usize>,
    ) -> (r: Option<FloatValue<'ctx>>)
        ensures
            final(self).at == old(self).at,
            r is Some ==> final(self).steps@ == old(self).steps@.push(
                LlvmStep::Build(old(self).at@.0, old(self).at@.1, LlvmOp::Phi(a, i, b, j)),
            ),
    {
        let phi = match build_phi(&self.builder, t) {
            Some(phi) => phi,
            None => return None,
        };
        add_incoming(phi, x, from_x, y, from_y);
        let r = phi_value(phi);
        if r.is_some() {
            self.build_step(Ghost(LlvmOp::Phi(a, i, b, j)));
        }
        r
    }

    fn ret(&mut self, x: FloatValue<'ctx>, Ghost(v): Ghost<Val>) -> (r: bool)
        ensures
            final(self).at == old(self).at,
            r ==> final(self).steps@ == old(self).steps@.push(
                LlvmStep::End(old(self).at@.0, old(self).at@.1, Terminator::Ret(v)),
            ),
    {
        let r = build_return(&self.builder, x);
        if r {
            self.end_step(Ghost(Terminator::Ret(v)));
        }
        r
    }

    fn br(&mut self, to: BasicBlock<'ctx>, t: usize) -> (r: bool)
        ensures
            final(self).at == old(self).at,
            r ==> final(self).steps@ == old(self).steps@.push(
                LlvmStep::End(old(self).at@.0, old(self).at@.1, Terminator::Br(t)),
            ),
    {
        let r = build_branch(&self.builder, to);
        if r {
            self.end_step(Ghost(Terminator::Br(t)));
        }
        r
    }

    fn cond_br(
        &mut self,
        c: IntValue<'ctx>,
        then_block: BasicBlock<'ctx>,
        else_block: BasicBlock<'ctx>,
        Ghost(cv): Ghost<Val>,
        t: usize,
        e: usize,
    ) -> (r: bool)
        ensures
            final(self).at == old(self).at,
            r ==> final(self).steps@ == old(self).steps@.push(
                LlvmStep::End(old(self).at@.0, old(self).at@.1, Terminator::CondBr(cv, t, e)),
            ),
    {
        let r = build_cond_branch(&self.builder, c, then_block, else_block);
        if r {
            self.end_step(Ghost(Terminator::CondBr(cv, t, e)));
        }
        r
    }

    fn verify(&mut self, f: FunctionValue<'ctx>, Ghost(fi): Ghost<usize>) -> (r: bool)
        ensures
            r ==> final(self).steps@ == old(self).steps@.push(LlvmStep::Verify(fi)),
    {
        let r = verify_function(f);
        if r {
            self.record(Ghost(LlvmStep::Verify(fi)));
        }
        r
    }

    fn optimise(&mut self, f: FunctionValue<'ctx>, Ghost(fi): Ghost<usize>)
        ensures
            final(self).steps@ == old(self).steps@.push(LlvmStep::Optimise(fi)),
    {
        run_passes(&self.passes, f);
        self.record(Ghost(LlvmStep::Optimise(fi)));
    }
}

/// A value built so far for an instruction.
pub enum Built<'ctx> {
    Float(FloatValue<'ctx>),
    Slot(PointerValue<'ctx>),
    Truth(IntValue<'ctx>),
    Nothing,
}

/// The float value `v` refers to, if it refers to one.
fn float_of<'ctx>(f: FunctionValue<'ctx>, built: &Vec<Built<'ctx>>, v: Val) -> Option<FloatValue<'ctx>> {
    match v {
        Val::Param(i) => param(f, i),
        Val::Inst(i) => if i < built.len() {
            match &built[i] {
                Built::Float(x) => Some(*x),
                _ => None,
            }
        } else {
            None
        },
    }
}

fn slot_of<'ctx>(built: &Vec<Built<'ctx>>, v: Val) -> Option<PointerValue<'ctx>> {
    match v {
        Val::Inst(i) => if i < built.len() {
            match &built[i] {
                Built::Slot(x) => Some(*x),
                _ => None,
            }
        } else {
            None
        },
        Val::Param(_) => None,
    }
}

fn truth_of<'ctx>(built: &Vec<Built<'ctx>>, v: Val) -> Option<IntValue<'ctx>> {
    match v {
        Val::Inst(i) => if i < built.len() {
            match &built[i] {
                Built::Truth(x) => Some(*x),
                _ => None,
            }
        } else {
            None
        },
        Val::Param(_) => None,
    }
}

fn block_name(k: BlockKind) -> &'static str {
    match k {
        BlockKind::Entry => "entry",
        BlockKind::Then => "ifblock",
        BlockKind::Else => "elseblock",
        BlockKind::Join => "rest",
    }
}

fn invalid<T>() -> (r: Result<T, String>)
    ensures
        r matches Err(e) && e@ == "Invalid generated function."@,
{
    Err(String::from_str("Invalid generated function."))
}

fn float_result<'ctx>(x: Option<FloatValue<'ctx>>) -> (r: Result<Built<'ctx>, String>)
    ensures
        r matches Err(e) ==> e@ == "Invalid generated function."@,
        r is Ok <==> x is Some,
{
    match x {
        Some(x) => Ok(Built::Float(x)),
        None => invalid(),
    }
}

fn truth_result<'ctx>(x: Option<IntValue<'ctx>>) -> (r: Result<Built<'ctx>, String>)
    ensures
        r matches Err(e) ==> e@ == "Invalid generated function."@,
        r is Ok <==> x is Some,
{
    match x {
        Some(x) => Ok(Built::Truth(x)),
        None => invalid(),
    }
}

/// The float type, its zero, and the functions of the module with their
/// numbers of parameters.
pub struct Target<'ctx> {
    pub float: FloatType<'ctx>,
    pub zero: FloatValue<'ctx>,
    pub functions: Vec<FunctionValue<'ctx>>,
    pub arities: Vec<usize>,
}

pub open spec fn built_one(llvm: Llvm, old_llvm: Llvm, inst: Inst) -> bool {
    &&& llvm.at == old_llvm.at
    &&& llvm.steps@ == old_llvm.steps@.push(
        LlvmStep::Build(old_llvm.at@.0, old_llvm.at@.1, llvm_op(inst@)),
    )
}

/// Builds one instruction as `llvm_op` says. Fails when an operand is
/// missing or of the wrong kind, when a call passes a wrong number of
/// arguments, or when it yields no value.
fn build_inst<'ctx>(
    llvm: &mut Llvm<'ctx>,
    target: &Target<'ctx>,
    f: FunctionValue<'ctx>,
    params: &Vec<String>,
    blocks: &Vec<BasicBlock<'ctx>>,
    built: &Vec<Built<'ctx>>,
    constant: Option<FloatValue<'ctx>>,
    inst: &Inst,
) -> (r: Result<Built<'ctx>, String>)
    ensures
        r matches Err(e) ==> e@ == "Invalid generated function."@ || e@ == "Invalid call produced."@,
        r is Ok ==> built_one(*final(llvm), *old(llvm), *inst),
{
    match inst {
        Inst::Constant(_) => match constant {
            Some(c) => {
                llvm.build_step(Ghost(LlvmOp::Constant));
                Ok(Built::Float(c))
            },
            None => invalid(),
        },
        Inst::Alloca(i) => {
            if *i >= params.len() {
                return invalid();
            }
            match llvm.alloca(target.float, params[*i].as_str(), Ghost(*i)) {
                Some(p) => Ok(Built::Slot(p)),
                None => invalid(),
            }
        },
        Inst::Store(v, s) => match (float_of(f, built, *v), slot_of(built, *s)) {
            (Some(x), Some(p)) => if llvm.store(p, x, Ghost(*v), Ghost(*s)) {
                Ok(Built::Nothing)
            } else {
                invalid()
            },
            _ => invalid(),
        },
        Inst::Load(s, i) => {
            if *i >= params.len() {
                return invalid();
            }
            match slot_of(built, *s) {
                Some(p) => match llvm.load(p, params[*i].as_str(), Ghost(*s), Ghost(*i)) {
                    Some(x) => Ok(Built::Float(x)),
                    None => invalid(),
                },
                None => invalid(),
            }
        },
        Inst::Add(a, b) | Inst::Sub(a, b) | Inst::Mul(a, b) | Inst::Div(a, b) => {
            let op = match inst {
                Inst::Add(_, _) => Arith::Add,
                Inst::Sub(_, _) => Arith::Sub,
                Inst::Mul(_, _) => Arith::Mul,
                _ => Arith::Div,
            };
            match (float_of(f, built, *a), float_of(f, built, *b)) {
                (Some(x), Some(y)) => float_result(llvm.float(op, x, y, Ghost(*a), Ghost(*b))),
                _ => invalid(),
            }
        },
        Inst::LessThan(a, b) => match (float_of(f, built, *a), float_of(f, built, *b)) {
            (Some(x), Some(y)) => truth_result(
                llvm.compare(FloatPredicate::ULT, x, y, "tmpcmp", Ghost(*a), Ghost(Some(*b))),
            ),
            _ => invalid(),
        },
        Inst::ToFloat(a) => match truth_of(built, *a) {
            Some(c) => float_result(llvm.to_float(c, target.float, Ghost(*a))),
            None => invalid(),
        },
        Inst::NonZero(a) => match float_of(f, built, *a) {
            Some(x) => truth_result(
                llvm.compare(FloatPredicate::ONE, x, target.zero, "ifcond", Ghost(*a), Ghost(None)),
            ),
            None => invalid(),
        },
        Inst::Call(k, args) => {
            if *k >= target.functions.len() || *k >= target.arities.len() || args.len()
                != target.arities[*k] {
                return invalid();
            }
            let mut values: Vec<FloatValue<'ctx>> = Vec::new();
            let mut j: usize = 0;
            while j < args.len()
                invariant
                    j <= args.len(),
                decreases args.len() - j,
            {
                match float_of(f, built, args[j]) {
                    Some(x) => values.push(x),
                    None => return invalid(),
                }
                j += 1;
            }
            match llvm.call(target.functions[*k], &values, Ghost(*k), Ghost(args@)) {
                Some(x) => Ok(Built::Float(x)),
                None => Err(String::from_str("Invalid call produced.")),
            }
        },
        Inst::Phi(a, x, b, y) => {
            if *x >= blocks.len() || *y >= blocks.len() {
                return invalid();
            }
            match (float_of(f, built, *a), float_of(f, built, *b)) {
                (Some(va), Some(vb)) => float_result(
                    llvm.phi(
                        target.float,
                        va,
                        blocks[*x],
                        vb,
                        blocks[*y],
                        Ghost(*a),
                        Ghost(*x),
                        Ghost(*b),
                        Ghost(*y),
                    ),
                ),
                _ => invalid(),
            }
        },
    }
}

/// Builds the body of function `fi` from `body`: its instructions in order,
/// each in its block, then the terminator of each block.
fn emit_body<'ctx>(
    context: &'ctx Context,
    llvm: &mut Llvm<'ctx>,
    target: &Target<'ctx>,
    fi: usize,
    f: FunctionValue<'ctx>,
    params: &Vec<String>,
    body: &FnBody,
    constants: &Vec<Option<FloatValue<'ctx>>>,
) -> (r: Result<(), String>)
    ensures
        r matches Err(e) ==> e@ == "Invalid generated function."@ || e@ == "Invalid call produced."@,
        r is Ok ==> final(llvm).steps@ == old(llvm).steps@ + inst_steps(
            fi,
            *body,
            body.insts@.len(),
        ) + end_steps(fi, *body, body.blocks@.len()),
{
    let ghost start = llvm.steps@;
    let mut blocks: Vec<BasicBlock<'ctx>> = Vec::new();
    let mut b: usize = 0;
    while b < body.blocks.len()
        invariant
            b <= body.blocks.len(),
            blocks.len() == b,
        decreases body.blocks.len() - b,
    {
        blocks.push(append_block(context, f, block_name(body.blocks[b].kind)));
        b += 1;
    }
    if body.inst_block.len() != body.insts.len() || constants.len() != body.insts.len() {
        return invalid();
    }
    let mut built: Vec<Built<'ctx>> = Vec::new();
    let mut i: usize = 0;
    assert(start =~= start + inst_steps(fi, *body, 0));
    while i < body.insts.len()
        invariant
            i <= body.insts.len() == body.inst_block.len() == constants.len(),
            blocks.len() == body.blocks.len(),
            llvm.steps@ == start + inst_steps(fi, *body, i as nat),
        decreases body.insts.len() - i,
    {
        let home = body.inst_block[i];
        if home >= blocks.len() {
            return invalid();
        }
        llvm.position(blocks[home], Ghost(fi), Ghost(home));
        match build_inst(llvm, target, f, params, &blocks, &built, constants[i], &body.insts[i]) {
            Ok(v) => built.push(v),
            Err(e) => return Err(e),
        }
        assert(llvm.steps@ =~= start + inst_steps(fi, *body, (i + 1) as nat));
        i += 1;
    }
    let ghost mid = llvm.steps@;
    assert(mid =~= mid + end_steps(fi, *body, 0));
    let mut b: usize = 0;
    while b < body.blocks.len()
        invariant
            b <= body.blocks.len() == blocks.len(),
            mid == start + inst_steps(fi, *body, body.insts@.len()),
            llvm.steps@ == mid + end_steps(fi, *body, b as nat),
        decreases body.blocks.len() - b,
    {
        llvm.position(blocks[b], Ghost(fi), Ghost(b));
        let done = match body.blocks[b].term {
            Some(Terminator::Ret(v)) => match float_of(f, &built, v) {
                Some(x) => llvm.ret(x, Ghost(v)),
                None => false,
            },
            Some(Terminator::Br(t)) => t < blocks.len() && llvm.br(blocks[t], t),
            Some(Terminator::CondBr(c, t, e)) => match truth_of(&built, c) {
                Some(x) => t < blocks.len() && e < blocks.len() && llvm.cond_br(
                    x,
                    blocks[t],
                    blocks[e],
                    Ghost(c),
                    t,
                    e,
                ),
                None => false,
            },
            None => false,
        };
        if !done {
            return invalid();
        }
        assert(llvm.steps@ =~= mid + end_steps(fi, *body, (b + 1) as nat));
        b += 1;
    }
    Ok(())
}

/// The LLVM module `main` for `ir`, and the record `emission(ir)` of what
/// was handed to LLVM: the eight function passes in order, each function
/// added with the type `f64(f64, ..., f64)`, then for each definition its
/// instructions as `llvm_op` says, its terminators, LLVM's verifier, and
/// the passes.
///
/// `constants[f][i]` is the LLVM constant for instruction `i` of function `f`
/// when that instruction is a `Constant`: a numeral becomes a float there.
///
/// Code that is not well formed (`module_ok`) is refused, and only it, with
/// "Generated code is not well formed." before LLVM sees any of it. A module
/// of declarations alone is always built. Otherwise LLVM decides: a call
/// that yields no value gives "Invalid call produced.", and a definition
/// that cannot be built or that the verifier rejects gives "Invalid
/// generated function.".
pub fn emit_llvm<'ctx>(
    context: &'ctx Context,
    ir: &ModuleIr,
    constants: &Vec<Vec<Option<FloatValue<'ctx>>>>,
) -> (r: Result<Emission<'ctx>, String>)
    ensures
        r matches Err(e) ==> e@ == "Invalid generated function."@ || e@ == "Invalid call produced."@
            || e@ == "Generated code is not well formed."@,
        (r matches Err(e) && e@ == "Generated code is not well formed."@) <==> !module_ok(
            *ir,
            constants@,
        ),
        (constants@.len() == ir.functions@.len() && forall|i: int|
            0 <= i < ir.functions@.len() ==> (#[trigger] ir.functions@[i]).body is None) ==> r is Ok,
        r matches Ok(em) ==> em.steps@ == emission(*ir),
{
    proof {
        reveal_strlit("Invalid generated function.");
        reveal_strlit("Invalid call produced.");
        reveal_strlit("Generated code is not well formed.");
    }
    if !module_check(ir, constants) {
        return Err(String::from_str("Generated code is not well formed."));
    }
    let module = new_module(context, "main");
    let passes = new_pass_manager(&module);
    let mut llvm = Llvm {
        module,
        builder: new_builder(context),
        passes,
        steps: Ghost(Seq::empty()),
        at: Ghost((0, 0)),
    };
    llvm.add_pass(Pass::InstructionCombining);
    llvm.add_pass(Pass::Reassociate);
    llvm.add_pass(Pass::Gvn);
    llvm.add_pass(Pass::CfgSimplification);
    llvm.add_pass(Pass::BasicAliasAnalysis);
    llvm.add_pass(Pass::PromoteMemoryToRegister);
    llvm.add_pass(Pass::InstructionCombining);
    llvm.add_pass(Pass::Reassociate);
    llvm.initialize();
    assert(llvm.steps@ =~= pass_steps() + declare_steps(ir.functions@, 0));
    let float = float_type(context);
    let fs = &ir.functions;
    let mut functions: Vec<FunctionValue<'ctx>> = Vec::new();
    let mut arities: Vec<usize> = Vec::new();
    let mut i: usize = 0;
    while i < fs.len()
        invariant
            fs@ == ir.functions@,
            module_ok(*ir, constants@),
            i <= fs.len(),
            functions.len() == i,
            arities.len() == i,
            llvm.steps@ == pass_steps() + declare_steps(fs@, i as nat),
        decreases fs.len() - i,
    {
        let params = &fs[i].params;
        let f = llvm.declare(float, &fs[i].name, params.len());
        let mut j: usize = 0;
        while j < params.len()
            invariant
                j <= params.len(),
            decreases params.len() - j,
        {
            match param(f, j) {
                Some(p) => set_value_name(p, params[j].as_str()),
                None => {},
            }
            j += 1;
        }
        assert(llvm.steps@ =~= pass_steps() + declare_steps(fs@, (i + 1) as nat));
        functions.push(f);
        arities.push(params.len());
        i += 1;
    }
    let target = Target { float, zero: float_zero(float), functions, arities };
    proof {
        reveal_strlit("Invalid generated function.");
        reveal_strlit("Invalid call produced.");
        reveal_strlit("Generated code is not well formed.");
        assert("Invalid generated function."@.len() != "Generated code is not well formed."@.len());
        assert("Invalid call produced."@.len() != "Generated code is not well formed."@.len());
    }
    let ghost declared = llvm.steps@;
    assert(declared =~= declared + define_steps(fs@, 0));
    let mut i: usize = 0;
    while i < fs.len()
        invariant
            fs@ == ir.functions@,
            module_ok(*ir, constants@),
            i <= fs.len() == target.functions.len() == constants.len(),
            declared == pass_steps() + declare_steps(fs@, fs@.len()),
            "Invalid generated function."@ != "Generated code is not well formed."@,
            "Invalid call produced."@ != "Generated code is not well formed."@,
            llvm.steps@ == declared + define_steps(fs@, i as nat),
        decreases fs.len() - i,
    {
        let ghost before = llvm.steps@;
        match &fs[i].body {
            Some(body) => {
                let f = target.functions[i];
                match emit_body(context, &mut llvm, &target, i, f, &fs[i].params, body, &constants[i]) {
                    Ok(()) => {},
                    Err(e) => return Err(e),
                }
                if !llvm.verify(f, Ghost(i)) {
                    return invalid();
                }
                llvm.optimise(f, Ghost(i));
                assert(llvm.steps@ =~= before + body_steps(i, *body));
            },
            None => {},
        }
        assert(llvm.steps@ =~= declared + define_steps(fs@, (i + 1) as nat));
        i += 1;
    }
    Ok(Emission { module: llvm.module, steps: llvm.steps })
}

} // verus!
