//! The generated code: functions of instructions in basic blocks, in SSA form
//! over one numeric type, a 64-bit float.
use vstd::prelude::*;

verus! {

/// A value of generated code: an incoming parameter, or the result of an
/// instruction of the same function, by its number.
#[derive(Clone, Copy, Debug, PartialEq, Eq, Structural)]
pub enum Val {
    Param(usize),
    Inst(usize),
}

/// An instruction. Its result is a float, but for `Alloca` (a stack slot)
/// and for `LessThan` and `NonZero` (a one-bit truth value); `Store` has none.
#[derive(Debug, PartialEq)]
pub enum Inst {
    /// A constant, written as a canonical decimal numeral.
    Constant(String),
    /// The stack slot of the parameter with this index.
    Alloca(usize),
    /// Stores the value (first) into the slot (second).
    Store(Val, Val),
    /// Loads from the slot the value of the parameter with this index.
    Load(Val, usize),
    Add(Val, Val),
    Sub(Val, Val),
    Mul(Val, Val),
    Div(Val, Val),
    /// Unordered less-than.
    LessThan(Val, Val),
    /// A truth value as the float 0 or 1.
    ToFloat(Val),
    /// Ordered not-equal to zero.
    NonZero(Val),
    /// Calls the function with this index in the module.
    Call(usize, Vec<Val>),
    /// The first value when control came from the first block, else the second.
    Phi(Val, usize, Val, usize),
}

pub enum InstView {
    Constant(Seq<char>),
    Alloca(usize),
    Store(Val, Val),
    Load(Val, usize),
    Add(Val, Val),
    Sub(Val, Val),
    Mul(Val, Val),
    Div(Val, Val),
    LessThan(Val, Val),
    ToFloat(Val),
    NonZero(Val),
    Call(usize, Seq<Val>),
    Phi(Val, usize, Val, usize),
}

impl View for Inst {
    type V = InstView;

    open spec fn view(&self) -> InstView {
        match self {
            Inst::Constant(s) => InstView::Constant(s@),
            Inst::Alloca(i) => InstView::Alloca(*i),
            Inst::Store(v, s) => InstView::Store(*v, *s),
            Inst::Load(s, i) => InstView::Load(*s, *i),
            Inst::Add(a, b) => InstView::Add(*a, *b),
            Inst::Sub(a, b) => InstView::Sub(*a, *b),
            Inst::Mul(a, b) => InstView::Mul(*a, *b),
            Inst::Div(a, b) => InstView::Div(*a, *b),
            Inst::LessThan(a, b) => InstView::LessThan(*a, *b),
            Inst::ToFloat(a) => InstView::ToFloat(*a),
            Inst::NonZero(a) => InstView::NonZero(*a),
            Inst::Call(f, args) => InstView::Call(*f, args@),
            Inst::Phi(a, x, b, y) => InstView::Phi(*a, *x, *b, *y),
        }
    }
}

pub open spec fn insts_view(s: Seq<Inst>) -> Seq<InstView> {
    s.map_values(|i: Inst| i@)
}

/// What a basic block is for.
#[derive(Clone, Copy, Debug, PartialEq, Eq, Structural)]
pub enum BlockKind {
    Entry,
    Then,
    Else,
    Join,
}

/// How a basic block ends.
#[derive(Clone, Copy, Debug, PartialEq, Eq, Structural)]
pub enum Terminator {
    Ret(Val),
    Br(usize),
    /// To the first block when the truth value holds, else to the second.
    CondBr(Val, usize, usize),
}

#[derive(Clone, Copy, Debug, PartialEq, Eq, Structural)]
pub struct Block {
    pub kind: BlockKind,
    pub term: Option<Terminator>,
}

/// The code of a function: instruction `i` stands in block `inst_block[i]`,
/// after the instructions of that block with smaller numbers.
#[derive(Debug, PartialEq)]
pub struct FnBody {
    pub insts: Vec<Inst>,
    pub inst_block: Vec<usize>,
    pub blocks: Vec<Block>,
}

pub struct BodyView {
    pub insts: Seq<InstView>,
    pub inst_block: Seq<usize>,
    pub blocks: Seq<Block>,
}

impl View for FnBody {
    type V = BodyView;

    open spec fn view(&self) -> BodyView {
        BodyView {
            insts: insts_view(self.insts@),
            inst_block: self.inst_block@,
            blocks: self.blocks@,
        }
    }
}

/// A function of the module: a declaration when it has no body.
#[derive(Debug, PartialEq)]
pub struct IrFunction {
    pub name: String,
    pub params: Vec<String>,
    pub body: Option<FnBody>,
}

pub struct FunctionView {
    pub name: Seq<char>,
    pub params: Seq<Seq<char>>,
    pub body: Option<BodyView>,
}

impl View for IrFunction {
    type V = FunctionView;

    open spec fn view(&self) -> FunctionView {
        FunctionView {
            name: self.name@,
            params: crate::ast::names_view(self.params@),
            body: match self.body {
                Some(b) => Some(b@),
                None => None,
            },
        }
    }
}

/// The functions of one compilation, in the order they were first declared.
#[derive(Debug, PartialEq)]
pub struct ModuleIr {
    pub functions: Vec<IrFunction>,
}

pub open spec fn functions_view(fs: Seq<IrFunction>) -> Seq<FunctionView> {
    fs.map_values(|f: IrFunction| f@)
}

impl View for ModuleIr {
    type V = Seq<FunctionView>;

    open spec fn view(&self) -> Seq<FunctionView> {
        functions_view(self.functions@)
    }
}

} // verus!
