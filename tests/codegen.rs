use std::collections::HashMap;

use klang::ast::{ASTNode, Expression, Function, Prototype};
use klang::codegen::Compiler;
use klang::driver::{run_cli, Command, Destination};
use klang::ir::{BlockKind, Inst, IrFunction, ModuleIr, Terminator, Val};
use klang::pipeline::{ast_to_ir, parse_to_ast};

fn compile(src: &str) -> Result<ModuleIr, String> {
    let (items, rest) = parse_to_ast(src).unwrap();
    assert!(rest.is_empty());
    ast_to_ir(&items)
}

fn function<'a>(m: &'a ModuleIr, name: &str) -> &'a IrFunction {
    m.functions.iter().find(|f| f.name == name).unwrap()
}

/// Runs generated code on floats; `printd` and `putchard` write to `out`.
fn eval(m: &ModuleIr, f: usize, args: &[f64], out: &mut String) -> f64 {
    let func = &m.functions[f];
    let body = match &func.body {
        Some(b) => b,
        None => {
            let x = args[0];
            match func.name.as_str() {
                "printd" => out.push_str(&format!("> {} <\n", x)),
                "putchard" => out.push(x as u8 as char),
                other => panic!("no such function {}", other),
            }
            return x;
        }
    };
    let mut vals: Vec<f64> = vec![0.0; body.insts.len()];
    let mut slots: HashMap<usize, f64> = HashMap::new();
    let get = |vals: &Vec<f64>, v: Val| match v {
        Val::Param(i) => args[i],
        Val::Inst(i) => vals[i],
    };
    let mut block = 0;
    let mut came_from = usize::MAX;
    loop {
        for i in 0..body.insts.len() {
            if body.inst_block[i] != block {
                continue;
            }
            vals[i] = match &body.insts[i] {
                Inst::Constant(s) => s.parse::<f64>().unwrap(),
                Inst::Alloca(_) => 0.0,
                Inst::Store(v, Val::Inst(s)) => {
                    let x = get(&vals, *v);
                    slots.insert(*s, x);
                    x
                }
                Inst::Store(_, _) => panic!("store to a parameter"),
                Inst::Load(Val::Inst(s), _) => slots[s],
                Inst::Load(_, _) => panic!("load from a parameter"),
                Inst::Add(a, b) => get(&vals, *a) + get(&vals, *b),
                Inst::Sub(a, b) => get(&vals, *a) - get(&vals, *b),
                Inst::Mul(a, b) => get(&vals, *a) * get(&vals, *b),
                Inst::Div(a, b) => get(&vals, *a) / get(&vals, *b),
                Inst::LessThan(a, b) => {
                    let (x, y) = (get(&vals, *a), get(&vals, *b));
                    if x < y || x.is_nan() || y.is_nan() { 1.0 } else { 0.0 }
                }
                Inst::ToFloat(a) => get(&vals, *a),
                Inst::NonZero(a) => {
                    let x = get(&vals, *a);
                    if !x.is_nan() && x != 0.0 { 1.0 } else { 0.0 }
                }
                Inst::Call(k, vs) => {
                    let xs: Vec<f64> = vs.iter().map(|v| get(&vals, *v)).collect();
                    eval(m, *k, &xs, out)
                }
                Inst::Phi(a, x, b, y) => {
                    if came_from == *x {
                        get(&vals, *a)
                    } else {
                        assert_eq!(came_from, *y);
                        get(&vals, *b)
                    }
                }
            };
        }
        match body.blocks[block].term.unwrap() {
            Terminator::Ret(v) => return get(&vals, v),
            Terminator::Br(b) => {
                came_from = block;
                block = b;
            }
            Terminator::CondBr(c, t, e) => {
                came_from = block;
                block = if get(&vals, c) != 0.0 { t } else { e };
            }
        }
    }
}

fn run_main(m: &ModuleIr) -> (f64, String) {
    let k = m.functions.iter().position(|f| f.name == "main").unwrap();
    let mut out = String::new();
    let r = eval(m, k, &[], &mut out);
    (r, out)
}

#[test]
fn main_with_conditional_returns_then_value() {
    let m = compile("fun main() { if 1 { 42 } else { 0 } }").unwrap();
    assert_eq!(run_main(&m).0, 42.0);
}

#[test]
fn printd_of_conditional_prints_value() {
    let m = compile("use printd(x); fun main() { printd(if 1 { 42 } else { 0 }) }").unwrap();
    let (r, out) = run_main(&m);
    assert_eq!(r, 42.0);
    assert_eq!(out, "> 42 <\n");
}

#[test]
fn conditional_join_block_holds_one_phi() {
    let m = compile("fun main() { if 1 { 42 } else { 0 } }").unwrap();
    let body = function(&m, "main").body.as_ref().unwrap();
    let phis: Vec<usize> =
        (0..body.insts.len()).filter(|&i| matches!(body.insts[i], Inst::Phi(..))).collect();
    assert_eq!(phis.len(), 1);
    let join = body.inst_block[phis[0]];
    assert_eq!(body.blocks[join].kind, BlockKind::Join);
    assert_eq!((0..body.insts.len()).filter(|&i| body.inst_block[i] == join).count(), 1);
    if let Inst::Phi(_, a, _, b) = body.insts[phis[0]] {
        assert_ne!(a, b);
        assert_eq!(body.blocks[a].term, Some(Terminator::Br(join)));
        assert_eq!(body.blocks[b].term, Some(Terminator::Br(join)));
    }
    assert_eq!(body.blocks[join].term, Some(Terminator::Ret(Val::Inst(phis[0]))));
}

#[test]
fn nested_conditionals_and_arithmetic() {
    let src = "fun pick(a, b) { if a < b { if b < 10 { b * 2 } else { b - 1 } } else { a / 4 } } \
               fun main() { pick(1, 3) + pick(1, 20) + pick(8, 2) }";
    let m = compile(src).unwrap();
    assert_eq!(run_main(&m).0, 6.0 + 19.0 + 2.0);
}

#[test]
fn recursion_through_the_function_table() {
    let src = "fun fib(n) { if n < 2 { n } else { fib(n - 1) + fib(n - 2) } } fun main() { fib(10) }";
    let m = compile(src).unwrap();
    assert_eq!(run_main(&m).0, 55.0);
}

#[test]
fn parameters_live_in_entry_slots() {
    let m = compile("fun second(x, y) { y }").unwrap();
    let body = function(&m, "second").body.as_ref().unwrap();
    assert_eq!(body.blocks[0].kind, BlockKind::Entry);
    assert_eq!(body.insts[0], Inst::Alloca(0));
    assert_eq!(body.insts[1], Inst::Alloca(1));
    assert_eq!(body.insts[2], Inst::Store(Val::Param(0), Val::Inst(0)));
    assert_eq!(body.insts[3], Inst::Store(Val::Param(1), Val::Inst(1)));
    assert_eq!(body.insts[4], Inst::Load(Val::Inst(1), 1));
    assert!(body.inst_block[..5].iter().all(|&b| b == 0));
}

#[test]
fn unbound_name_is_an_error() {
    assert_eq!(compile("fun f(x) { y }").unwrap_err(), "Could not find a matching variable.");
}

#[test]
fn unknown_callee_is_an_error() {
    assert_eq!(compile("fun f() { g(1) }").unwrap_err(), "Unknown function.");
}

#[test]
fn wrong_number_of_arguments_is_invalid() {
    assert_eq!(compile("use g(a, b); fun f() { g(1) }").unwrap_err(), "Invalid generated function.");
}

#[test]
fn definition_rules() {
    assert_eq!(compile("fun f() { 1 } fun f() { 2 }").unwrap_err(), "Function redefined.");
    assert_eq!(
        compile("use f(a); fun f(a, b) { a }").unwrap_err(),
        "Function redeclared with a different number of parameters."
    );
    assert_eq!(
        compile("use f(a); use f(a, b)").unwrap_err(),
        "Function redeclared with a different number of parameters."
    );
    assert_eq!(compile("fun f(a, a) { a }").unwrap_err(), "Duplicate parameter name.");
    let m = compile("use f(a); use f(b); fun f(c) { c }").unwrap();
    assert_eq!(m.functions.len(), 1);
    assert_eq!(m.functions[0].params, vec!["c".to_string()]);
    assert!(m.functions[0].body.is_some());
}

#[test]
fn top_level_expressions_become_nameless_functions() {
    let m = compile("1; 2").unwrap();
    assert_eq!(m.functions.len(), 2);
    assert!(m.functions.iter().all(|f| f.name.is_empty() && f.body.is_some()));
}

fn proto(name: &str, args: &[&str]) -> Prototype {
    Prototype { name: name.to_string(), args: args.iter().map(|a| a.to_string()).collect() }
}

fn define(name: &str, args: &[&str], body: Expression) -> ASTNode {
    ASTNode::FunctionNode(Function { prototype: proto(name, args), body: Some(body) })
}

fn bin(op: &str, l: Expression, r: Expression) -> Expression {
    Expression::Binary(op.to_string(), Box::new(l), Box::new(r))
}

#[test]
fn operators_of_code_generation() {
    let x = || Expression::Variable("x".to_string());
    let n = |v: &str| Expression::Literal(v.to_string());
    let mut module = ModuleIr { functions: vec![] };
    let node = define("f", &["x"], bin("%", x(), n("1")));
    assert_eq!(Compiler::compile(&mut module, &node), Err("Undefined binary operator.".to_string()));
    let node = define("f", &["x"], bin("=", n("1"), n("2")));
    assert_eq!(
        Compiler::compile(&mut module, &node),
        Err("Expected variable as left-hand operator of assignment.".to_string())
    );
    let node = define("f", &["x"], bin("=", Expression::Variable("y".to_string()), n("2")));
    assert_eq!(Compiler::compile(&mut module, &node), Err("Undefined variable.".to_string()));
    assert!(module.functions.is_empty());
    let node = define("f", &["x"], bin("+", bin("=", x(), bin(">", x(), n("3"))), x()));
    assert_eq!(Compiler::compile(&mut module, &node), Ok(()));
    let mut out = String::new();
    assert_eq!(eval(&module, 0, &[5.0], &mut out), 2.0);
    assert_eq!(eval(&module, 0, &[1.0], &mut out), 0.0);
}

#[test]
fn literal_value_reaches_the_code() {
    let m = compile("fun main() { 2.50 }").unwrap();
    let body = function(&m, "main").body.as_ref().unwrap();
    assert_eq!(body.insts[0], Inst::Constant("2.5".to_string()));
    assert_eq!(run_main(&m).0, 2.5);
}

#[test]
fn run_rejects_repl() {
    let cmd = Command { repl: true, ..Command::default() };
    let run = run_cli(&cmd, "fun main() { 1 }");
    assert_eq!(run.error, Some("REPL is not supported yet!".to_string()));
    assert!(run.parsed.is_none() && run.module.is_none());
}

#[test]
fn run_stops_at_parse_error() {
    let cmd = Command { ast: true, ..Command::default() };
    let run = run_cli(&cmd, "fun main( { 1 }");
    assert_eq!(run.error, Some("expected ')' in prototype".to_string()));
    assert!(run.parsed.is_none() && run.ast_output.is_none());
}

#[test]
fn run_shows_tree_even_when_codegen_fails() {
    let cmd = Command { ast: true, file_out: true, ..Command::default() };
    let run = run_cli(&cmd, "fun main() { y }");
    assert_eq!(run.ast_output, Some(Destination::File));
    assert!(run.parsed.is_some());
    assert_eq!(run.error, Some("Could not find a matching variable.".to_string()));
    assert!(run.module.is_none());
}

#[test]
fn run_with_ir_flag_shows_code() {
    let cmd = Command { ir: true, ..Command::default() };
    let run = run_cli(&cmd, "fun main() { 1 + 2 }");
    assert_eq!(run.error, None);
    assert_eq!(run.ir_output, Some(Destination::Terminal));
    assert_eq!(run.ast_output, None);
    let m = run.module.unwrap();
    assert_eq!(run_main(&m).0, 3.0);
    let run = run_cli(&Command::default(), "fun main() { 1 + 2 }");
    assert_eq!(run.ir_output, None);
    assert!(run.module.is_some());
}
