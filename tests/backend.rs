use inkwell::context::Context;
use inkwell::values::FloatValue;

use klang::backend::{emit_llvm, module_check};
use klang::ir::{Inst, ModuleIr};
use klang::pipeline::{ast_to_ir, parse_to_ast};

fn compile(src: &str) -> ModuleIr {
    let (items, _) = parse_to_ast(src).unwrap();
    ast_to_ir(&items).unwrap()
}

fn constants<'ctx>(context: &'ctx Context, ir: &ModuleIr) -> Vec<Vec<Option<FloatValue<'ctx>>>> {
    ir.functions
        .iter()
        .map(|f| match &f.body {
            Some(b) => b
                .insts
                .iter()
                .map(|i| match i {
                    Inst::Constant(s) => Some(context.f64_type().const_float(s.parse::<f64>().unwrap())),
                    _ => None,
                })
                .collect(),
            None => vec![],
        })
        .collect()
}

#[test]
fn llvm_main_of_conditional_returns_42() {
    let context = Context::create();
    let ir = compile("fun main() { if 1 { 42 } else { 0 } }");
    let module = emit_llvm(&context, &ir, &constants(&context, &ir)).unwrap().module;
    assert!(module.verify().is_ok());
    let text = module.print_to_string().to_string();
    assert!(text.contains("define double @main()"), "{}", text);
    assert!(text.contains("ret double 4.200000e+01"), "{}", text);
}

#[test]
fn llvm_call_to_printd_is_kept() {
    let context = Context::create();
    let ir = compile("use printd(x); fun main() { printd(if 1 { 42 } else { 0 }) }");
    let module = emit_llvm(&context, &ir, &constants(&context, &ir)).unwrap().module;
    assert!(module.verify().is_ok());
    let text = module.print_to_string().to_string();
    assert!(text.contains("declare double @printd(double"), "{}", text);
    assert!(text.contains("call double @printd(double 4.200000e+01)"), "{}", text);
}

#[test]
fn llvm_parameters_and_arithmetic() {
    let context = Context::create();
    let ir = compile("fun f(a, b) { if a < b { a * b } else { a - b / 2 } } fun g() { f(1, 2) + f(3, 1) }");
    let module = emit_llvm(&context, &ir, &constants(&context, &ir)).unwrap().module;
    assert!(module.verify().is_ok());
    let f = module.get_function("f").unwrap();
    assert_eq!(f.count_params(), 2);
    assert!(module.get_function("g").is_some());
}

#[test]
fn llvm_rejects_missing_constants() {
    let context = Context::create();
    let ir = compile("fun main() { 1 }");
    assert_eq!(emit_llvm(&context, &ir, &vec![]).err().unwrap(), "Generated code is not well formed.");
}

#[test]
fn llvm_declarations_alone_always_build() {
    let context = Context::create();
    let ir = compile("use printd(x); use putchard(c)");
    let module = emit_llvm(&context, &ir, &vec![vec![], vec![]]).unwrap().module;
    assert!(module.get_function("printd").is_some());
    assert_eq!(module.get_function("putchard").unwrap().count_params(), 1);
}

#[test]
fn llvm_refuses_ill_formed_code() {
    let context = Context::create();
    let mut ir = compile("use g(a, b); fun f() { g(1, 2) }");
    let cs = constants(&context, &ir);
    assert!(module_check(&ir, &cs));
    // drop one argument of the call: the callee has two parameters
    let body = ir.functions[1].body.as_mut().unwrap();
    let call = body.insts.iter_mut().find(|i| matches!(i, Inst::Call(..))).unwrap();
    if let Inst::Call(_, args) = call {
        args.pop();
    }
    assert!(!module_check(&ir, &cs));
    assert_eq!(emit_llvm(&context, &ir, &cs).err().unwrap(), "Generated code is not well formed.");
}

#[test]
fn llvm_refuses_missing_constant_value() {
    let context = Context::create();
    let ir = compile("fun main() { 1 }");
    let cs = vec![vec![None; ir.functions[0].body.as_ref().unwrap().insts.len()]];
    assert!(!module_check(&ir, &cs));
    assert_eq!(emit_llvm(&context, &ir, &cs).err().unwrap(), "Generated code is not well formed.");
}

#[test]
fn code_from_the_compiler_is_well_formed() {
    let context = Context::create();
    let ir = compile(
        "use printd(x); fun f(a, b) { if a < b { printd(a) } else { (if b { 1 } else { 2 }) * a } } fun main() { f(1, 2) }",
    );
    assert!(module_check(&ir, &constants(&context, &ir)));
}
