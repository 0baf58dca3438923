//! The compiler's stages put together: text to items, items to code.
use vstd::prelude::*;

use crate::ast::{nodes_view, ASTNode, NodeView};
use crate::codegen::{compile_nodes, Compiler};
use crate::grammar::parse_tokens;
use crate::ir::{FunctionView, ModuleIr};
use crate::lexer::{lex, numbers_readable, tokenize};
use crate::parser::parse;
use crate::token::{tokens_view, Token};

verus! {

/// Parses source text into items, and the tokens of an incomplete last item.
pub fn parse_to_ast(input_str: &str) -> (r: Result<(Vec<ASTNode>, Vec<Token>), String>)
    ensures
        !numbers_readable(lex(input_str@)) ==> (r matches Err(e) && e@
            == "Lexer failed trying to parse number"@),
        numbers_readable(lex(input_str@)) ==> match parse_tokens(lex(input_str@), Seq::<NodeView>::empty()) {
            Ok((items, rest)) => r matches Ok((ns, ts)) && nodes_view(ns@) == items
                && tokens_view(ts@) == rest,
            Err(m) => r matches Err(e) && e@ == m,
        },
{
    let tokens = match tokenize(input_str) {
        Ok(ts) => ts,
        Err(e) => return Err(e),
    };
    let none: Vec<ASTNode> = Vec::new();
    assert(nodes_view(none@) =~= Seq::<NodeView>::empty());
    parse(tokens.as_slice(), none.as_slice())
}

/// Compiles items in order into one module, or stops at the first error.
pub fn ast_to_ir(ast: &[ASTNode]) -> (r: Result<ModuleIr, String>)
    ensures
        match compile_nodes(Seq::<FunctionView>::empty(), ast@) {
            Ok(m) => r matches Ok(module) && module@ == m,
            Err(e) => r matches Err(x) && x@ == e,
        },
{
    let mut module = ModuleIr { functions: Vec::new() };
    assert(module@ =~= Seq::<FunctionView>::empty());
    assert(ast@.skip(0) =~= ast@);
    let mut i: usize = 0;
    while i < ast.len()
        invariant
            i <= ast.len(),
            compile_nodes(module@, ast@.skip(i as int)) == compile_nodes(
                Seq::<FunctionView>::empty(),
                ast@,
            ),
        decreases ast.len() - i,
    {
        assert(ast@.skip(i as int).drop_first() =~= ast@.skip(i + 1));
        assert(ast@.skip(i as int)[0] == ast@[i as int]);
        match Compiler::compile(&mut module, &ast[i]) {
            Ok(()) => {},
            Err(e) => return Err(e),
        }
        i += 1;
    }
    assert(ast@.skip(ast.len() as int).len() == 0);
    Ok(module)
}

} // verus!
