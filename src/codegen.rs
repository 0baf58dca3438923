//! Lowering of expressions to SSA code: parameters live in stack slots of the
//! entry block, and a conditional joins its branches with a phi.
use vstd::prelude::*;

use crate::ast::{copy_names, names_view, ASTNode, Expression, ProtoView};
use crate::ir::{
    functions_view, insts_view, Block, BlockKind, BodyView, FnBody, FunctionView, Inst, InstView,
    IrFunction, ModuleIr, Terminator, Val,
};

verus! {

/// The state of the function being generated: its code so far, the block
/// that code is added to, and whether every call so far passes its callee
/// as many arguments as it has parameters.
pub struct GenView {
    pub insts: Seq<InstView>,
    pub inst_block: Seq<usize>,
    pub blocks: Seq<Block>,
    pub current: usize,
    pub valid: bool,
}

/// The names the body of a function sees: its parameters, and the functions
/// of the module with their numbers of parameters.
pub struct Env {
    pub params: Seq<Seq<char>>,
    pub callees: Seq<(Seq<char>, nat)>,
}

/// The index of the first parameter called `n`.
pub open spec fn find_param(params: Seq<Seq<char>>, n: Seq<char>) -> Option<nat>
    decreases params.len(),
{
    if params.len() == 0 {
        None
    } else if params.last() == n {
        match find_param(params.drop_last(), n) {
            Some(i) => Some(i),
            None => Some((params.len() - 1) as nat),
        }
    } else {
        find_param(params.drop_last(), n)
    }
}

/// The index of the function called `n`; a nameless function is never found.
pub open spec fn find_callee(callees: Seq<(Seq<char>, nat)>, n: Seq<char>) -> Option<nat>
    decreases callees.len(),
{
    if callees.len() == 0 || n.len() == 0 {
        None
    } else if callees.last().0 == n {
        match find_callee(callees.drop_last(), n) {
            Some(i) => Some(i),
            None => Some((callees.len() - 1) as nat),
        }
    } else {
        find_callee(callees.drop_last(), n)
    }
}

/// Adds an instruction to the current block; its result.
pub open spec fn emit(g: GenView, i: InstView) -> (GenView, Val) {
    (
        GenView {
            insts: g.insts.push(i),
            inst_block: g.inst_block.push(g.current),
            blocks: g.blocks,
            current: g.current,
            valid: g.valid,
        },
        Val::Inst(g.insts.len() as usize),
    )
}

/// Adds an empty block; its number.
pub open spec fn add_block(g: GenView, k: BlockKind) -> (GenView, usize) {
    (
        GenView {
            insts: g.insts,
            inst_block: g.inst_block,
            blocks: g.blocks.push(Block { kind: k, term: None }),
            current: g.current,
            valid: g.valid,
        },
        g.blocks.len() as usize,
    )
}

/// Ends the current block.
pub open spec fn terminate(g: GenView, t: Terminator) -> GenView {
    GenView {
        insts: g.insts,
        inst_block: g.inst_block,
        blocks: if g.current < g.blocks.len() {
            g.blocks.update(
                g.current as int,
                Block { kind: g.blocks[g.current as int].kind, term: Some(t) },
            )
        } else {
            g.blocks
        },
        current: g.current,
        valid: g.valid,
    }
}

pub open spec fn move_to(g: GenView, b: usize) -> GenView {
    GenView {
        insts: g.insts,
        inst_block: g.inst_block,
        blocks: g.blocks,
        current: b,
        valid: g.valid,
    }
}

pub open spec fn invalidate(g: GenView) -> GenView {
    GenView {
        insts: g.insts,
        inst_block: g.inst_block,
        blocks: g.blocks,
        current: g.current,
        valid: false,
    }
}

/// The code for an operator applied to two lowered operands.
pub open spec fn lower_operator(g: GenView, op: Seq<char>, a: Val, b: Val) -> (
    GenView,
    Result<Val, Seq<char>>,
) {
    if op == seq!['+'] {
        let (g1, x) = emit(g, InstView::Add(a, b));
        (g1, Ok(x))
    } else if op == seq!['-'] {
        let (g1, x) = emit(g, InstView::Sub(a, b));
        (g1, Ok(x))
    } else if op == seq!['*'] {
        let (g1, x) = emit(g, InstView::Mul(a, b));
        (g1, Ok(x))
    } else if op == seq!['/'] {
        let (g1, x) = emit(g, InstView::Div(a, b));
        (g1, Ok(x))
    } else if op == seq!['<'] {
        let (g1, c) = emit(g, InstView::LessThan(a, b));
        let (g2, x) = emit(g1, InstView::ToFloat(c));
        (g2, Ok(x))
    } else if op == seq!['>'] {
        let (g1, c) = emit(g, InstView::LessThan(b, a));
        let (g2, x) = emit(g1, InstView::ToFloat(c));
        (g2, Ok(x))
    } else {
        (g, Err("Undefined binary operator."@))
    }
}

/// The code for an expression, added to `g`: the new state and the value
/// of the expression, or the first error.
pub open spec fn lower(e: Expression, g: GenView, env: Env) -> (GenView, Result<Val, Seq<char>>)
    decreases e, 0nat,
{
    match e {
        Expression::Literal(v) => {
            let (g1, x) = emit(g, InstView::Constant(v@));
            (g1, Ok(x))
        },
        Expression::Variable(n) => match find_param(env.params, n@) {
            Some(i) => {
                let (g1, x) = emit(g, InstView::Load(Val::Inst(i as usize), i as usize));
                (g1, Ok(x))
            },
            None => (g, Err("Could not find a matching variable."@)),
        },
        Expression::Binary(op, l, r) => {
            if op@ == seq!['='] {
                match *l {
                    Expression::Variable(n) => {
                        let (g1, rv) = lower(*r, g, env);
                        match rv {
                            Ok(v) => match find_param(env.params, n@) {
                                Some(i) => {
                                    let (g2, _) = emit(g1, InstView::Store(v, Val::Inst(i as usize)));
                                    (g2, Ok(v))
                                },
                                None => (g1, Err("Undefined variable."@)),
                            },
                            Err(m) => (g1, Err(m)),
                        }
                    },
                    _ => (g, Err("Expected variable as left-hand operator of assignment."@)),
                }
            } else {
                let (g1, lv) = lower(*l, g, env);
                match lv {
                    Ok(a) => {
                        let (g2, rv) = lower(*r, g1, env);
                        match rv {
                            Ok(b) => lower_operator(g2, op@, a, b),
                            Err(m) => (g2, Err(m)),
                        }
                    },
                    Err(m) => (g1, Err(m)),
                }
            }
        },
        Expression::Call(n, args) => match find_callee(env.callees, n@) {
            None => (g, Err("Unknown function."@)),
            Some(k) => {
                let (g1, av) = lower_args(args, args.len() as nat, g, env);
                match av {
                    Ok(vs) => {
                        let g2 = if vs.len() == env.callees[k as int].1 {
                            g1
                        } else {
                            invalidate(g1)
                        };
                        let (g3, x) = emit(g2, InstView::Call(k as usize, vs));
                        (g3, Ok(x))
                    },
                    Err(m) => (g1, Err(m)),
                }
            },
        },
        Expression::Conditional { cond_expr, if_block_expr, else_block_expr } => {
            let (g1, cv) = lower(*cond_expr, g, env);
            match cv {
                Ok(c) => {
                    let (g2, test) = emit(g1, InstView::NonZero(c));
                    let (g3, bt) = add_block(g2, BlockKind::Then);
                    let (g4, be) = add_block(g3, BlockKind::Else);
                    let (g5, bj) = add_block(g4, BlockKind::Join);
                    let g6 = terminate(g5, Terminator::CondBr(test, bt, be));
                    let (g7, tv) = lower(*if_block_expr, move_to(g6, bt), env);
                    match tv {
                        Ok(a) => {
                            let then_end = g7.current;
                            let g8 = terminate(g7, Terminator::Br(bj));
                            let (g9, ev) = lower(*else_block_expr, move_to(g8, be), env);
                            match ev {
                                Ok(b) => {
                                    let else_end = g9.current;
                                    let g10 = terminate(g9, Terminator::Br(bj));
                                    let (g11, x) = emit(
                                        move_to(g10, bj),
                                        InstView::Phi(a, then_end, b, else_end),
                                    );
                                    (g11, Ok(x))
                                },
                                Err(m) => (g9, Err(m)),
                            }
                        },
                        Err(m) => (g7, Err(m)),
                    }
                },
                Err(m) => (g1, Err(m)),
            }
        },
    }
}

/// The code for the first `n` arguments, left to right.
pub open spec fn lower_args(args: Vec<Expression>, n: nat, g: GenView, env: Env) -> (
    GenView,
    Result<Seq<Val>, Seq<char>>,
)
    decreases args, n,
{
    if n == 0 || n > args.len() {
        (g, Ok(Seq::empty()))
    } else {
        proof {
            vstd::std_specs::vec::axiom_vec_index_decreases(args, n - 1);
        }
        let (g1, front) = lower_args(args, (n - 1) as nat, g, env);
        match front {
            Ok(vs) => {
                let (g2, v) = lower(args[n - 1], g1, env);
                match v {
                    Ok(x) => (g2, Ok(vs.push(x))),
                    Err(m) => (g2, Err(m)),
                }
            },
            Err(m) => (g1, Err(m)),
        }
    }
}

pub proof fn lemma_find_param(ps: Seq<Seq<char>>, n: Seq<char>)
    ensures
        match find_param(ps, n) {
            Some(i) => i < ps.len() && ps[i as int] == n && forall|j: int|
                0 <= j < i ==> ps[j] != n,
            None => forall|j: int| 0 <= j < ps.len() ==> ps[j] != n,
        },
    decreases ps.len(),
{
    if ps.len() > 0 {
        let front = ps.drop_last();
        lemma_find_param(front, n);
        assert(forall|j: int| 0 <= j < front.len() ==> front[j] == ps[j]);
    }
}

pub proof fn lemma_find_callee(cs: Seq<(Seq<char>, nat)>, n: Seq<char>)
    ensures
        match find_callee(cs, n) {
            Some(i) => n.len() > 0 && i < cs.len() && cs[i as int].0 == n && forall|j: int|
                0 <= j < i ==> cs[j].0 != n,
            None => n.len() == 0 || forall|j: int| 0 <= j < cs.len() ==> cs[j].0 != n,
        },
    decreases cs.len(),
{
    if cs.len() > 0 && n.len() > 0 {
        let front = cs.drop_last();
        lemma_find_callee(front, n);
        assert(forall|j: int| 0 <= j < front.len() ==> front[j] == cs[j]);
    }
}

/// The functions a body can call: each name with its number of parameters.
pub open spec fn callees_view(cs: Seq<(String, usize)>) -> Seq<(Seq<char>, nat)> {
    cs.map_values(|c: (String, usize)| (c.0@, c.1 as nat))
}

pub open spec fn env_of(params: Seq<String>, callees: Seq<(String, usize)>) -> Env {
    Env { params: names_view(params), callees: callees_view(callees) }
}

pub open spec fn result_view<T>(r: Result<T, String>) -> Result<T, Seq<char>> {
    match r {
        Ok(v) => Ok(v),
        Err(m) => Err(m@),
    }
}

pub proof fn lemma_single_char(s: Seq<char>, c: char)
    ensures
        (s == seq![c]) == (s.len() == 1 && s[0] == c),
{
    if s.len() == 1 && s[0] == c {
        assert(s =~= seq![c]);
    }
}

/// The only character of `s`, if it has one character.
fn single_char(s: &String) -> (r: Option<char>)
    ensures
        r == (if s@.len() == 1 {
            Some(s@[0])
        } else {
            None::<char>
        }),
{
    let st = s.as_str();
    if st.unicode_len() == 1 {
        Some(st.get_char(0))
    } else {
        None
    }
}

fn position_of_param(params: &Vec<String>, n: &String) -> (r: Option<usize>)
    ensures
        r matches Some(i) ==> find_param(names_view(params@), n@) == Some(i as nat),
        r is None ==> find_param(names_view(params@), n@) is None,
{
    let ghost ps = names_view(params@);
    proof {
        lemma_find_param(ps, n@);
    }
    let mut i: usize = 0;
    while i < params.len()
        invariant
            i <= params.len(),
            ps == names_view(params@),
            forall|j: int| 0 <= j < i ==> ps[j] != n@,
        decreases params.len() - i,
    {
        assert(ps[i as int] == params@[i as int]@);
        if params[i].eq(n) {
            proof {
                lemma_find_param(ps, n@);
            }
            return Some(i);
        }
        i += 1;
    }
    None
}

fn position_of_callee(callees: &Vec<(String, usize)>, n: &String) -> (r: Option<usize>)
    ensures
        r matches Some(i) ==> find_callee(callees_view(callees@), n@) == Some(i as nat) && i
            < callees.len(),
        r is None ==> find_callee(callees_view(callees@), n@) is None,
{
    let ghost cs = callees_view(callees@);
    proof {
        lemma_find_callee(cs, n@);
    }
    if n.as_str().unicode_len() == 0 {
        return None;
    }
    let mut i: usize = 0;
    while i < callees.len()
        invariant
            i <= callees.len(),
            n@.len() > 0,
            cs == callees_view(callees@),
            forall|j: int| 0 <= j < i ==> cs[j].0 != n@,
        decreases callees.len() - i,
    {
        assert(cs[i as int].0 == callees@[i as int].0@);
        if callees[i].0.eq(n) {
            proof {
                lemma_find_callee(cs, n@);
            }
            return Some(i);
        }
        i += 1;
    }
    None
}

/// The function being generated.
pub struct Compiler {
    pub body: FnBody,
    pub current: usize,
    pub valid: bool,
}

impl View for Compiler {
    type V = GenView;

    open spec fn view(&self) -> GenView {
        GenView {
            insts: insts_view(self.body.insts@),
            inst_block: self.body.inst_block@,
            blocks: self.body.blocks@,
            current: self.current,
            valid: self.valid,
        }
    }
}

impl Compiler {
    pub open spec fn wf(&self) -> bool {
        self.body.insts@.len() == self.body.inst_block@.len() && self.current
            < self.body.blocks@.len()
    }

    fn emit(&mut self, i: Inst) -> (r: Val)
        requires
            old(self).wf(),
        ensures
            final(self).wf(),
            (final(self)@, r) == emit(old(self)@, i@),
    {
        let id = self.body.insts.len();
        let ghost before = self.body.insts@;
        let ghost iv = i@;
        self.body.insts.push(i);
        self.body.inst_block.push(self.current);
        assert(insts_view(self.body.insts@) =~= insts_view(before).push(iv));
        Val::Inst(id)
    }

    fn add_block(&mut self, k: BlockKind) -> (r: usize)
        requires
            old(self).wf(),
        ensures
            final(self).wf(),
            (final(self)@, r) == add_block(old(self)@, k),
            r == old(self).body.blocks@.len(),
    {
        let id = self.body.blocks.len();
        self.body.blocks.push(Block { kind: k, term: None });
        id
    }

    fn terminate(&mut self, t: Terminator)
        requires
            old(self).wf(),
        ensures
            final(self).wf(),
            final(self)@ == terminate(old(self)@, t),
    {
        let k = self.body.blocks[self.current].kind;
        self.body.blocks.set(self.current, Block { kind: k, term: Some(t) });
    }
}

fn lower_operator_exec(g: &mut Compiler, op: &String, a: Val, b: Val) -> (r: Result<Val, String>)
    requires
        old(g).wf(),
    ensures
        final(g).wf(),
        (final(g)@, result_view(r)) == lower_operator(old(g)@, op@, a, b),
{
    proof {
        lemma_single_char(op@, '+');
        lemma_single_char(op@, '-');
        lemma_single_char(op@, '*');
        lemma_single_char(op@, '/');
        lemma_single_char(op@, '<');
        lemma_single_char(op@, '>');
    }
    match single_char(op) {
        Some('+') => Ok(g.emit(Inst::Add(a, b))),
        Some('-') => Ok(g.emit(Inst::Sub(a, b))),
        Some('*') => Ok(g.emit(Inst::Mul(a, b))),
        Some('/') => Ok(g.emit(Inst::Div(a, b))),
        Some('<') => {
            let c = g.emit(Inst::LessThan(a, b));
            Ok(g.emit(Inst::ToFloat(c)))
        },
        Some('>') => {
            let c = g.emit(Inst::LessThan(b, a));
            Ok(g.emit(Inst::ToFloat(c)))
        },
        _ => Err(String::from_str("Undefined binary operator.")),
    }
}

/// Adds the code for `e` to `g`; its value, or the first error.
pub fn lower_expr(
    g: &mut Compiler,
    e: &Expression,
    params: &Vec<String>,
    callees: &Vec<(String, usize)>,
) -> (r: Result<Val, String>)
    requires
        old(g).wf(),
    ensures
        final(g).wf(),
        final(g).body.blocks@.len() >= old(g).body.blocks@.len(),
        (final(g)@, result_view(r)) == lower(*e, old(g)@, env_of(params@, callees@)),
    decreases e, 0nat,
{
    let ghost env = env_of(params@, callees@);
    match e {
        Expression::Literal(v) => Ok(g.emit(Inst::Constant(v.clone()))),
        Expression::Variable(n) => match position_of_param(params, n) {
            Some(i) => Ok(g.emit(Inst::Load(Val::Inst(i), i))),
            None => Err(String::from_str("Could not find a matching variable.")),
        },
        Expression::Binary(op, l, r) => {
            proof {
                lemma_single_char(op@, '=');
            }
            if single_char(op) == Some('=') {
                match &**l {
                    Expression::Variable(n) => {
                        let v = match lower_expr(g, r, params, callees) {
                            Ok(v) => v,
                            Err(m) => return Err(m),
                        };
                        match position_of_param(params, n) {
                            Some(i) => {
                                g.emit(Inst::Store(v, Val::Inst(i)));
                                Ok(v)
                            },
                            None => Err(String::from_str("Undefined variable.")),
                        }
                    },
                    _ => Err(
                        String::from_str("Expected variable as left-hand operator of assignment."),
                    ),
                }
            } else {
                let a = match lower_expr(g, l, params, callees) {
                    Ok(v) => v,
                    Err(m) => return Err(m),
                };
                let b = match lower_expr(g, r, params, callees) {
                    Ok(v) => v,
                    Err(m) => return Err(m),
                };
                lower_operator_exec(g, op, a, b)
            }
        },
        Expression::Call(n, args) => match position_of_callee(callees, n) {
            None => Err(String::from_str("Unknown function.")),
            Some(k) => {
                let vs = match lower_args_exec(g, args, args.len(), params, callees) {
                    Ok(vs) => vs,
                    Err(m) => return Err(m),
                };
                if vs.len() != callees[k].1 {
                    g.valid = false;
                }
                Ok(g.emit(Inst::Call(k, vs)))
            },
        },
        Expression::Conditional { cond_expr, if_block_expr, else_block_expr } => {
            let c = match lower_expr(g, cond_expr, params, callees) {
                Ok(v) => v,
                Err(m) => return Err(m),
            };
            let test = g.emit(Inst::NonZero(c));
            let bt = g.add_block(BlockKind::Then);
            let be = g.add_block(BlockKind::Else);
            let bj = g.add_block(BlockKind::Join);
            g.terminate(Terminator::CondBr(test, bt, be));
            g.current = bt;
            let a = match lower_expr(g, if_block_expr, params, callees) {
                Ok(v) => v,
                Err(m) => return Err(m),
            };
            let then_end = g.current;
            g.terminate(Terminator::Br(bj));
            g.current = be;
            let b = match lower_expr(g, else_block_expr, params, callees) {
                Ok(v) => v,
                Err(m) => return Err(m),
            };
            let else_end = g.current;
            g.terminate(Terminator::Br(bj));
            g.current = bj;
            Ok(g.emit(Inst::Phi(a, then_end, b, else_end)))
        },
    }
}

/// Adds the code for the first `n` arguments, left to right; their values.
fn lower_args_exec(
    g: &mut Compiler,
    args: &Vec<Expression>,
    n: usize,
    params: &Vec<String>,
    callees: &Vec<(String, usize)>,
) -> (r: Result<Vec<Val>, String>)
    requires
        old(g).wf(),
        n <= args.len(),
    ensures
        final(g).wf(),
        final(g).body.blocks@.len() >= old(g).body.blocks@.len(),
        final(g)@ == lower_args(*args, n as nat, old(g)@, env_of(params@, callees@)).0,
        match lower_args(*args, n as nat, old(g)@, env_of(params@, callees@)).1 {
            Ok(vs) => r matches Ok(v) && v@ == vs,
            Err(m) => r matches Err(e) && e@ == m,
        },
    decreases args, n,
{
    if n == 0 {
        return Ok(Vec::new());
    }
    let mut vs = match lower_args_exec(g, args, n - 1, params, callees) {
        Ok(vs) => vs,
        Err(m) => return Err(m),
    };
    proof {
        vstd::std_specs::vec::axiom_vec_index_decreases(*args, n - 1);
    }
    match lower_expr(g, &args[n - 1], params, callees) {
        Ok(x) => {
            vs.push(x);
            Ok(vs)
        },
        Err(m) => Err(m),
    }
}

/// Each function of the module by name, with its number of parameters.
pub open spec fn callees_of(m: Seq<FunctionView>) -> Seq<(Seq<char>, nat)> {
    m.map_values(|f: FunctionView| (f.name, f.params.len()))
}

pub open spec fn all_distinct(names: Seq<Seq<char>>) -> bool {
    forall|i: int, j: int| 0 <= i < j < names.len() ==> names[i] != names[j]
}

/// The entry block of a function with `n` parameters: a stack slot for each
/// parameter, then the store of each parameter into its slot.
pub open spec fn entry_state(n: nat) -> GenView {
    GenView {
        insts: Seq::new(
            2 * n,
            |j: int|
                if j < n {
                    InstView::Alloca(j as usize)
                } else {
                    InstView::Store(Val::Param((j - n) as usize), Val::Inst((j - n) as usize))
                },
        ),
        inst_block: Seq::new(2 * n, |j: int| 0usize),
        blocks: seq![Block { kind: BlockKind::Entry, term: None }],
        current: 0,
        valid: true,
    }
}

/// Adds a declaration; one of a name already declared must agree on the
/// number of parameters.
pub open spec fn declare(m: Seq<FunctionView>, p: ProtoView) -> Result<Seq<FunctionView>, Seq<char>> {
    match find_callee(callees_of(m), p.name) {
        Some(k) => if m[k as int].params.len() == p.args.len() {
            Ok(m)
        } else {
            Err("Function redeclared with a different number of parameters."@)
        },
        None => Ok(m.push(FunctionView { name: p.name, params: p.args, body: None })),
    }
}

/// Adds a definition, in place of a declaration of the same name if there is
/// one: the body lowered after the entry block, then a return of its value.
pub open spec fn define(m: Seq<FunctionView>, p: ProtoView, body: Expression) -> Result<
    Seq<FunctionView>,
    Seq<char>,
> {
    let slot = find_callee(callees_of(m), p.name);
    if slot matches Some(k) && m[k as int].body is Some {
        Err("Function redefined."@)
    } else if slot matches Some(k) && m[k as int].params.len() != p.args.len() {
        Err("Function redeclared with a different number of parameters."@)
    } else if !all_distinct(p.args) {
        Err("Duplicate parameter name."@)
    } else {
        let k = match slot {
            Some(k) => k,
            None => m.len(),
        };
        let callees = if k < m.len() {
            callees_of(m)
        } else {
            callees_of(m).push((p.name, p.args.len()))
        };
        let (g, r) = lower(body, entry_state(p.args.len()), Env { params: p.args, callees });
        match r {
            Err(msg) => Err(msg),
            Ok(v) => {
                let g1 = terminate(g, Terminator::Ret(v));
                if !g1.valid {
                    Err("Invalid generated function."@)
                } else {
                    let f = FunctionView {
                        name: p.name,
                        params: p.args,
                        body: Some(
                            BodyView { insts: g1.insts, inst_block: g1.inst_block, blocks: g1.blocks },
                        ),
                    };
                    Ok(
                        if k < m.len() {
                            m.update(k as int, f)
                        } else {
                            m.push(f)
                        },
                    )
                }
            },
        }
    }
}

/// The module after compiling one top-level item, or the error.
pub open spec fn compile_node(m: Seq<FunctionView>, node: ASTNode) -> Result<
    Seq<FunctionView>,
    Seq<char>,
> {
    match node {
        ASTNode::ExternNode(p) => declare(m, p@),
        ASTNode::FunctionNode(f) => match f.body {
            Some(b) => define(m, f.prototype@, b),
            None => declare(m, f.prototype@),
        },
    }
}

/// The module after compiling items in order, or the first error.
pub open spec fn compile_nodes(m: Seq<FunctionView>, nodes: Seq<ASTNode>) -> Result<
    Seq<FunctionView>,
    Seq<char>,
>
    decreases nodes.len(),
{
    if nodes.len() == 0 {
        Ok(m)
    } else {
        match compile_node(m, nodes[0]) {
            Ok(m1) => compile_nodes(m1, nodes.drop_first()),
            Err(e) => Err(e),
        }
    }
}

fn callee_table(module: &ModuleIr) -> (r: Vec<(String, usize)>)
    ensures
        callees_view(r@) == callees_of(module@),
{
    let fs = &module.functions;
    let mut r: Vec<(String, usize)> = Vec::new();
    let mut i: usize = 0;
    while i < fs.len()
        invariant
            i <= fs.len(),
            fs@ == module.functions@,
            callees_view(r@) == callees_of(functions_view(fs@.take(i as int))),
        decreases fs.len() - i,
    {
        let ghost before = r@;
        r.push((fs[i].name.clone(), fs[i].params.len()));
        assert(fs@.take(i + 1) =~= fs@.take(i as int).push(fs@[i as int]));
        assert(functions_view(fs@.take(i + 1)) =~= functions_view(fs@.take(i as int)).push(
            fs@[i as int]@,
        ));
        assert(callees_view(r@) =~= callees_view(before).push((fs@[i as int].name@, fs@[i as int].params@.len() as nat)));
        assert(callees_of(functions_view(fs@.take(i + 1))) =~= callees_of(
            functions_view(fs@.take(i as int)),
        ).push((fs@[i as int].name@, fs@[i as int].params@.len() as nat)));
        i += 1;
    }
    assert(fs@.take(fs.len() as int) =~= fs@);
    r
}

fn distinct_names(names: &Vec<String>) -> (r: bool)
    ensures
        r == all_distinct(names_view(names@)),
{
    let ghost ns = names_view(names@);
    let mut j: usize = 0;
    while j < names.len()
        invariant
            j <= names.len(),
            ns == names_view(names@),
            forall|a: int, b: int| 0 <= a < b < j ==> ns[a] != ns[b],
        decreases names.len() - j,
    {
        let mut i: usize = 0;
        while i < j
            invariant
                i <= j < names.len(),
                ns == names_view(names@),
                forall|a: int| 0 <= a < i ==> ns[a] != ns[j as int],
            decreases j - i,
        {
            assert(ns[i as int] == names@[i as int]@ && ns[j as int] == names@[j as int]@);
            if names[i].eq(&names[j]) {
                return false;
            }
            i += 1;
        }
        j += 1;
    }
    true
}

/// The generator for a function with `n` parameters, at the end of its entry block.
fn entry_gen(n: usize) -> (g: Compiler)
    ensures
        g.wf(),
        g@ == entry_state(n as nat),
{
    let ghost target = entry_state(n as nat);
    let mut insts: Vec<Inst> = Vec::new();
    let mut inst_block: Vec<usize> = Vec::new();
    let mut i: usize = 0;
    while i < n
        invariant
            i <= n,
            target == entry_state(n as nat),
            insts@.len() == i,
            inst_block@.len() == i,
            forall|j: int| 0 <= j < i ==> inst_block@[j] == 0usize,
            forall|j: int| 0 <= j < i ==> #[trigger] insts@[j]@ == target.insts[j],
        decreases n - i,
    {
        insts.push(Inst::Alloca(i));
        inst_block.push(0);
        i += 1;
    }
    let mut i: usize = 0;
    while i < n
        invariant
            i <= n,
            target == entry_state(n as nat),
            insts@.len() == n + i,
            inst_block@.len() == n + i,
            forall|j: int| 0 <= j < n + i ==> inst_block@[j] == 0usize,
            forall|j: int| 0 <= j < n + i ==> #[trigger] insts@[j]@ == target.insts[j],
        decreases n - i,
    {
        insts.push(Inst::Store(Val::Param(i), Val::Inst(i)));
        inst_block.push(0);
        i += 1;
    }
    let mut blocks: Vec<Block> = Vec::new();
    blocks.push(Block { kind: BlockKind::Entry, term: None });
    let g = Compiler { body: FnBody { insts, inst_block, blocks }, current: 0, valid: true };
    assert(insts_view(g.body.insts@) =~= target.insts);
    assert(g.body.inst_block@ =~= target.inst_block);
    assert(g.body.blocks@ =~= target.blocks);
    g
}

impl Compiler {
    /// Compiles one top-level item into `module`. On an error the module is
    /// left as it was.
    pub fn compile(module: &mut ModuleIr, node: &ASTNode) -> (r: Result<(), String>)
        ensures
            match compile_node(old(module)@, *node) {
                Ok(m) => r is Ok && final(module)@ == m,
                Err(e) => r matches Err(x) && x@ == e && final(module)@ == old(module)@,
            },
    {
        match node {
            ASTNode::ExternNode(p) => declare_exec(module, &p.name, &p.args),
            ASTNode::FunctionNode(f) => match &f.body {
                Some(b) => define_exec(module, &f.prototype.name, &f.prototype.args, b),
                None => declare_exec(module, &f.prototype.name, &f.prototype.args),
            },
        }
    }
}

fn declare_exec(module: &mut ModuleIr, name: &String, params: &Vec<String>) -> (r: Result<(), String>)
    ensures
        match declare(old(module)@, ProtoView { name: name@, args: names_view(params@) }) {
            Ok(m) => r is Ok && final(module)@ == m,
            Err(e) => r matches Err(x) && x@ == e && final(module)@ == old(module)@,
        },
{
    let table = callee_table(module);
    proof {
        lemma_find_callee(callees_of(module@), name@);
    }
    match position_of_callee(&table, name) {
        Some(k) => {
            assert(callees_of(module@)[k as int].1 == module@[k as int].params.len());
            if module.functions[k].params.len() == params.len() {
                Ok(())
            } else {
                Err(String::from_str("Function redeclared with a different number of parameters."))
            }
        },
        None => {
            let f = IrFunction { name: name.clone(), params: copy_names(params), body: None };
            let ghost before = module.functions@;
            module.functions.push(f);
            assert(functions_view(module.functions@) =~= functions_view(before).push(f@));
            Ok(())
        },
    }
}

fn define_exec(module: &mut ModuleIr, name: &String, params: &Vec<String>, body: &Expression) -> (r:
    Result<(), String>)
    ensures
        match define(old(module)@, ProtoView { name: name@, args: names_view(params@) }, *body) {
            Ok(m) => r is Ok && final(module)@ == m,
            Err(e) => r matches Err(x) && x@ == e && final(module)@ == old(module)@,
        },
{
    let ghost m = module@;
    let mut table = callee_table(module);
    let slot = position_of_callee(&table, name);
    let k = match slot {
        Some(k) => {
            assert(callees_of(m)[k as int].1 == m[k as int].params.len());
            if module.functions[k].body.is_some() {
                return Err(String::from_str("Function redefined."));
            }
            if module.functions[k].params.len() != params.len() {
                return Err(
                    String::from_str("Function redeclared with a different number of parameters."),
                );
            }
            k
        },
        None => module.functions.len(),
    };
    if !distinct_names(params) {
        return Err(String::from_str("Duplicate parameter name."));
    }
    if k == module.functions.len() {
        let ghost before = table@;
        table.push((name.clone(), params.len()));
        assert(callees_view(table@) =~= callees_view(before).push((name@, params@.len() as nat)));
    }
    let mut g = entry_gen(params.len());
    let v = match lower_expr(&mut g, body, params, &table) {
        Ok(v) => v,
        Err(e) => return Err(e),
    };
    g.terminate(Terminator::Ret(v));
    if !g.valid {
        return Err(String::from_str("Invalid generated function."));
    }
    let f = IrFunction { name: name.clone(), params: copy_names(params), body: Some(g.body) };
    let ghost before = module.functions@;
    if k < module.functions.len() {
        module.functions.set(k, f);
        assert(functions_view(module.functions@) =~= functions_view(before).update(k as int, f@));
    } else {
        module.functions.push(f);
        assert(functions_view(module.functions@) =~= functions_view(before).push(f@));
    }
    Ok(())
}

/// The state is consistent: every instruction stands in an existing block,
/// and the current block exists.
pub open spec fn full_wf(g: GenView) -> bool {
    &&& g.insts.len() == g.inst_block.len()
    &&& g.current < g.blocks.len()
    &&& forall|j: int| 0 <= j < g.inst_block.len() ==> g.inst_block[j] < g.blocks.len()
}

/// A load reads the slot of the parameter it names, one of `n`.
pub open spec fn reads_own_slot(i: InstView, n: nat) -> bool {
    i matches InstView::Load(s, k) ==> s == Val::Inst(k) && k < n
}

/// What generating code from `g` on may do to reach `g2`: add instructions
/// to the current block or to new blocks, end the current block, add
/// blocks, and move on to a new block; every load added reads its own slot.
pub open spec fn extends(g: GenView, g2: GenView, n: nat) -> bool {
    &&& full_wf(g2)
    &&& g.insts.len() <= g2.insts.len()
    &&& g.blocks.len() <= g2.blocks.len()
    &&& forall|j: int|
        0 <= j < g.insts.len() ==> g2.insts[j] == g.insts[j] && g2.inst_block[j] == g.inst_block[j]
    &&& forall|j: int|
        g.insts.len() <= j < g2.insts.len() ==> (g2.inst_block[j] == g.current
            || g2.inst_block[j] >= g.blocks.len()) && reads_own_slot(g2.insts[j], n)
    &&& forall|i: int| 0 <= i < g.blocks.len() && i != g.current ==> g2.blocks[i] == g.blocks[i]
    &&& forall|i: int| 0 <= i < g.blocks.len() ==> g2.blocks[i].kind == g.blocks[i].kind
    &&& (g2.current == g.current || g2.current >= g.blocks.len())
}

proof fn lemma_extends_trans(g: GenView, g1: GenView, g2: GenView, n: nat)
    requires
        full_wf(g),
        extends(g, g1, n),
        extends(g1, g2, n),
    ensures
        extends(g, g2, n),
{
}

proof fn lemma_emit_extends(g: GenView, i: InstView, n: nat)
    requires
        full_wf(g),
        reads_own_slot(i, n),
    ensures
        extends(g, emit(g, i).0, n),
{
}

proof fn lemma_operator_extends(g: GenView, op: Seq<char>, a: Val, b: Val, n: nat)
    requires
        full_wf(g),
    ensures
        extends(g, lower_operator(g, op, a, b).0, n),
{
    let (g1, c) = emit(g, InstView::LessThan(a, b));
    let (h1, d) = emit(g, InstView::LessThan(b, a));
    lemma_emit_extends(g1, InstView::ToFloat(c), n);
    lemma_emit_extends(h1, InstView::ToFloat(d), n);
}

/// The code fits in memory: every instruction and block number is a `usize`.
pub open spec fn fits(g: GenView) -> bool {
    g.insts.len() <= usize::MAX && g.blocks.len() <= usize::MAX
}

pub open spec fn grows(g: GenView, g2: GenView) -> bool {
    g.insts.len() <= g2.insts.len() && g.blocks.len() <= g2.blocks.len()
}

proof fn lemma_operator_grows(g: GenView, op: Seq<char>, a: Val, b: Val)
    ensures
        grows(g, lower_operator(g, op, a, b).0),
{
}

/// Lowering never removes instructions or blocks.
pub proof fn lemma_lower_grows(e: Expression, g: GenView, env: Env)
    ensures
        grows(g, lower(e, g, env).0),
    decreases e, 0nat,
{
    match e {
        Expression::Binary(op, l, r) => {
            lemma_lower_grows(*r, g, env);
            let (g1, lv) = lower(*l, g, env);
            lemma_lower_grows(*l, g, env);
            lemma_lower_grows(*r, g1, env);
            if let Ok(a) = lv {
                if let Ok(b) = lower(*r, g1, env).1 {
                    lemma_operator_grows(lower(*r, g1, env).0, op@, a, b);
                }
            }
        },
        Expression::Call(f, args) => {
            lemma_lower_args_grows(args, args.len() as nat, g, env);
        },
        Expression::Conditional { cond_expr, if_block_expr, else_block_expr } => {
            let (g1, cv) = lower(*cond_expr, g, env);
            lemma_lower_grows(*cond_expr, g, env);
            if let Ok(c) = cv {
                let (g2, test) = emit(g1, InstView::NonZero(c));
                let (g3, bt) = add_block(g2, BlockKind::Then);
                let (g4, be) = add_block(g3, BlockKind::Else);
                let (g5, bj) = add_block(g4, BlockKind::Join);
                let g6 = terminate(g5, Terminator::CondBr(test, bt, be));
                let g6m = move_to(g6, bt);
                lemma_lower_grows(*if_block_expr, g6m, env);
                let g7 = lower(*if_block_expr, g6m, env).0;
                let g8m = move_to(terminate(g7, Terminator::Br(bj)), be);
                lemma_lower_grows(*else_block_expr, g8m, env);
            }
        },
        _ => {},
    }
}

pub proof fn lemma_lower_args_grows(args: Vec<Expression>, k: nat, g: GenView, env: Env)
    ensures
        grows(g, lower_args(args, k, g, env).0),
    decreases args, k,
{
    if k > 0 && k <= args.len() {
        vstd::std_specs::vec::axiom_vec_index_decreases(args, k - 1);
        lemma_lower_args_grows(args, (k - 1) as nat, g, env);
        let g1 = lower_args(args, (k - 1) as nat, g, env).0;
        lemma_lower_grows(args[k - 1], g1, env);
    }
}

/// Lowering an expression only extends the state.
pub proof fn lemma_lower_extends(e: Expression, g: GenView, env: Env)
    requires
        full_wf(g),
        env.params.len() <= usize::MAX,
        fits(lower(e, g, env).0),
    ensures
        extends(g, lower(e, g, env).0, env.params.len()),
    decreases e, 0nat,
{
    let n = env.params.len();
    match e {
        Expression::Literal(v) => {},
        Expression::Variable(x) => {
            lemma_find_param(env.params, x@);
        },
        Expression::Binary(op, l, r) => {
            if op@ == seq!['='] {
                match *l {
                    Expression::Variable(x) => {
                        let (g1, rv) = lower(*r, g, env);
                        lemma_find_param(env.params, x@);
                        lemma_lower_extends(*r, g, env);
                        if let Ok(v) = rv {
                            if let Some(i) = find_param(env.params, x@) {
                                let st = InstView::Store(v, Val::Inst(i as usize));
                                lemma_emit_extends(g1, st, n);
                                lemma_extends_trans(g, g1, emit(g1, st).0, n);
                            }
                        }
                    },
                    _ => {},
                }
            } else {
                let (g1, lv) = lower(*l, g, env);
                if let Ok(a) = lv {
                    let (g2, rv) = lower(*r, g1, env);
                    lemma_lower_grows(*r, g1, env);
                    lemma_lower_extends(*l, g, env);
                    lemma_lower_extends(*r, g1, env);
                    lemma_extends_trans(g, g1, g2, n);
                    if let Ok(b) = rv {
                        lemma_operator_extends(g2, op@, a, b, n);
                        lemma_extends_trans(g, g2, lower_operator(g2, op@, a, b).0, n);
                    }
                } else {
                    lemma_lower_extends(*l, g, env);
                }
            }
        },
        Expression::Call(f, args) => {
            if let Some(k) = find_callee(env.callees, f@) {
                let (g1, av) = lower_args(args, args.len() as nat, g, env);
                lemma_lower_args_extends(args, args.len() as nat, g, env);
                if let Ok(vs) = av {
                    let g2 = if vs.len() == env.callees[k as int].1 {
                        g1
                    } else {
                        invalidate(g1)
                    };
                    lemma_emit_extends(g2, InstView::Call(k as usize, vs), n);
                    lemma_extends_trans(g, g2, emit(g2, InstView::Call(k as usize, vs)).0, n);
                }
            }
        },
        Expression::Conditional { cond_expr, if_block_expr, else_block_expr } => {
            let (g1, cv) = lower(*cond_expr, g, env);
            if let Ok(c) = cv {
                let (g2, test) = emit(g1, InstView::NonZero(c));
                let (g3, bt) = add_block(g2, BlockKind::Then);
                let (g4, be) = add_block(g3, BlockKind::Else);
                let (g5, bj) = add_block(g4, BlockKind::Join);
                let g6 = terminate(g5, Terminator::CondBr(test, bt, be));
                let g6m = move_to(g6, bt);
                let (g7, tv) = lower(*if_block_expr, g6m, env);
                lemma_lower_grows(*if_block_expr, g6m, env);
                if let Ok(a) = tv {
                    let g8 = terminate(g7, Terminator::Br(bj));
                    let g8m = move_to(g8, be);
                    lemma_lower_grows(*else_block_expr, g8m, env);
                }
                assert(fits(g7));
                lemma_lower_extends(*cond_expr, g, env);
                lemma_emit_extends(g1, InstView::NonZero(c), n);
                lemma_extends_trans(g, g1, g2, n);
                assert(extends(g, g6m, n));
                lemma_lower_extends(*if_block_expr, g6m, env);
                lemma_extends_trans(g, g6m, g7, n);
                if let Ok(a) = tv {
                    let g8 = terminate(g7, Terminator::Br(bj));
                    assert(extends(g7, g8, n));
                    lemma_extends_trans(g, g7, g8, n);
                    let g8m = move_to(g8, be);
                    assert(extends(g, g8m, n));
                    let (g9, ev) = lower(*else_block_expr, g8m, env);
                    lemma_lower_extends(*else_block_expr, g8m, env);
                    lemma_extends_trans(g, g8m, g9, n);
                    if let Ok(b) = ev {
                        let g10 = terminate(g9, Terminator::Br(bj));
                        assert(extends(g9, g10, n));
                        lemma_extends_trans(g, g9, g10, n);
                        let g10m = move_to(g10, bj);
                        assert(extends(g, g10m, n));
                        let phi = InstView::Phi(a, g7.current, b, g9.current);
                        lemma_emit_extends(g10m, phi, n);
                        lemma_extends_trans(g, g10m, emit(g10m, phi).0, n);
                    }
                }
            } else {
                lemma_lower_extends(*cond_expr, g, env);
            }
        },
    }
}

/// Lowering call arguments only extends the state.
pub proof fn lemma_lower_args_extends(args: Vec<Expression>, k: nat, g: GenView, env: Env)
    requires
        full_wf(g),
        env.params.len() <= usize::MAX,
        fits(lower_args(args, k, g, env).0),
    ensures
        extends(g, lower_args(args, k, g, env).0, env.params.len()),
    decreases args, k,
{
    if k > 0 && k <= args.len() {
        vstd::std_specs::vec::axiom_vec_index_decreases(args, k - 1);
        let (g1, front) = lower_args(args, (k - 1) as nat, g, env);
        if front is Ok {
            lemma_lower_grows(args[k - 1], g1, env);
        }
        lemma_lower_args_extends(args, (k - 1) as nat, g, env);
        if front is Ok {
            lemma_lower_extends(args[k - 1], g1, env);
            lemma_extends_trans(g, g1, lower(args[k - 1], g1, env).0, env.params.len());
        }
    }
}

/// The code for a conditional ends in its join block, which then holds one
/// instruction alone: a phi of the two branch values, each coming from the
/// block that its branch ended in, and both of those blocks branch to the
/// join block.
pub proof fn lemma_conditional_phi(
    cond_expr: Box<Expression>,
    if_block_expr: Box<Expression>,
    else_block_expr: Box<Expression>,
    g: GenView,
    env: Env,
)
    requires
        full_wf(g),
        env.params.len() <= usize::MAX,
        fits(
            lower(Expression::Conditional { cond_expr, if_block_expr, else_block_expr }, g, env).0,
        ),
    ensures
        ({
            let (g2, r) = lower(
                Expression::Conditional { cond_expr, if_block_expr, else_block_expr },
                g,
                env,
            );
            let k = g2.insts.len() - 1;
            r is Ok ==> {
                &&& r == Ok::<Val, Seq<char>>(Val::Inst(k as usize))
                &&& g2.inst_block[k] == g2.current
                &&& g2.blocks[g2.current as int].kind == BlockKind::Join
                &&& forall|j: int| 0 <= j < k ==> g2.inst_block[j] != g2.current
                &&& g2.insts[k] matches InstView::Phi(_, b1, _, b2) && b1 != b2
                    && g2.blocks[b1 as int].term == Some(Terminator::Br(g2.current))
                    && g2.blocks[b2 as int].term == Some(Terminator::Br(g2.current))
            }
        }),
{
    let n = env.params.len();
    let (g1, cv) = lower(*cond_expr, g, env);
    if let Ok(c) = cv {
        let (g2, test) = emit(g1, InstView::NonZero(c));
        let (g3, bt) = add_block(g2, BlockKind::Then);
        let (g4, be) = add_block(g3, BlockKind::Else);
        let (g5, bj) = add_block(g4, BlockKind::Join);
        let g6 = terminate(g5, Terminator::CondBr(test, bt, be));
        let g6m = move_to(g6, bt);
        let (g7, tv) = lower(*if_block_expr, g6m, env);
        lemma_lower_grows(*if_block_expr, g6m, env);
        if let Ok(a) = tv {
            let g8m = move_to(terminate(g7, Terminator::Br(bj)), be);
            lemma_lower_grows(*else_block_expr, g8m, env);
        }
        assert(fits(g7));
        lemma_lower_extends(*cond_expr, g, env);
        assert(full_wf(g6m));
        lemma_lower_extends(*if_block_expr, g6m, env);
        if let Ok(a) = tv {
            let then_end = g7.current;
            let g8 = terminate(g7, Terminator::Br(bj));
            let g8m = move_to(g8, be);
            assert(full_wf(g8m));
            lemma_lower_extends(*else_block_expr, g8m, env);
            let (g9, ev) = lower(*else_block_expr, g8m, env);
            if let Ok(b) = ev {
                let else_end = g9.current;
                let g10 = terminate(g9, Terminator::Br(bj));
                let g10m = move_to(g10, bj);
                let (g11, x) = emit(g10m, InstView::Phi(a, then_end, b, else_end));
                assert(then_end == bt || then_end > bj);
                assert(else_end == be || else_end >= g8.blocks.len());
                assert(g8.blocks[then_end as int].term == Some(Terminator::Br(bj)));
                assert(g9.blocks[then_end as int] == g8.blocks[then_end as int]);
                assert(g11.blocks[bj as int].kind == BlockKind::Join);
                assert forall|j: int| 0 <= j < g10.insts.len() implies g11.inst_block[j] != bj by {
                    if j < g2.insts.len() {
                        assert(g2.inst_block[j] < g2.blocks.len());
                    } else if j < g7.insts.len() {
                        assert(g7.inst_block[j] == bt || g7.inst_block[j] >= g6m.blocks.len());
                    } else {
                        assert(g9.inst_block[j] == be || g9.inst_block[j] >= g8m.blocks.len());
                    }
                }
            }
        }
    }
}

/// In a compiled definition each parameter has a stack slot, an `Alloca` at
/// the top of the entry block, and every load reads the slot of the
/// parameter it names; a name that is no parameter cannot be read.
pub proof fn lemma_parameter_scoping(m: Seq<FunctionView>, p: ProtoView, body: Expression, x: String)
    requires
        p.args.len() <= usize::MAX,
    ensures
        define(m, p, body) matches Ok(m2) ==> ({
            let k = match find_callee(callees_of(m), p.name) {
                Some(k) => k as int,
                None => m.len() as int,
            };
            let b = m2[k].body->0;
            b.insts.len() <= usize::MAX && b.blocks.len() <= usize::MAX ==> {
            &&& m2[k].params == p.args
            &&& b.blocks[0].kind == BlockKind::Entry
            &&& forall|i: int|
                0 <= i < p.args.len() ==> b.insts[i] == InstView::Alloca(i as usize)
                    && b.inst_block[i] == 0
            &&& forall|j: int| 0 <= j < b.insts.len() ==> reads_own_slot(b.insts[j], p.args.len())
            }
        }),
        find_param(p.args, x@) is None ==> forall|g: GenView, env: Env|
            env.params == p.args ==> #[trigger] lower(Expression::Variable(x), g, env).1 == Err::<
                Val,
                Seq<char>,
            >("Could not find a matching variable."@),
{
    let n = p.args.len();
    let g0 = entry_state(n);
    assert(full_wf(g0));
    let slot = find_callee(callees_of(m), p.name);
    let k = match slot {
        Some(k) => k as int,
        None => m.len() as int,
    };
    let callees = if k < m.len() {
        callees_of(m)
    } else {
        callees_of(m).push((p.name, p.args.len()))
    };
    let env = Env { params: p.args, callees };
    lemma_find_callee(callees_of(m), p.name);
    let (g, r) = lower(body, g0, env);
    if define(m, p, body) is Ok && fits(g) {
        lemma_lower_extends(body, g0, env);
        assert(extends(g0, g, p.args.len()));
        let v = r->Ok_0;
        let g1 = terminate(g, Terminator::Ret(v));
        let f = FunctionView {
            name: p.name,
            params: p.args,
            body: Some(BodyView { insts: g1.insts, inst_block: g1.inst_block, blocks: g1.blocks }),
        };
        let m2 = if k < m.len() {
            m.update(k, f)
        } else {
            m.push(f)
        };
        assert(define(m, p, body) == Ok::<Seq<FunctionView>, Seq<char>>(m2));
        assert(m2[k] == f);
        assert(g1.blocks[0].kind == BlockKind::Entry);
        assert forall|i: int| 0 <= i < p.args.len() implies g1.insts[i] == InstView::Alloca(
            i as usize,
        ) && g1.inst_block[i] == 0 by {
            assert(g0.insts[i] == InstView::Alloca(i as usize));
        }
        assert forall|j: int| 0 <= j < g1.insts.len() implies reads_own_slot(
            g1.insts[j],
            p.args.len(),
        ) by {
            if j < g0.insts.len() {
                assert(g1.insts[j] == g0.insts[j]);
            } else {
                assert(g1.insts[j] == g.insts[j]);
                assert(g.inst_block[j] == g0.current || g.inst_block[j] >= g0.blocks.len());
            }
        }
    }
}

/// Every function body starts consistent: the entry state meets `full_wf`,
/// and by `lemma_lower_extends` lowering keeps it so, which is what
/// `lemma_conditional_phi` asks of the state it starts from.
pub proof fn lemma_entry_full_wf(n: nat)
    ensures
        full_wf(entry_state(n)),
{
}

} // verus!
