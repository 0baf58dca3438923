//! What a run of the compiler does, given its flags and the source text:
//! which stages run, what is shown and where, and whether `main` is run.
use vstd::prelude::*;

use crate::ast::{nodes_view, ASTNode, NodeView};
use crate::codegen::compile_nodes;
use crate::grammar::parse_tokens;
use crate::ir::{FunctionView, ModuleIr};
use crate::lexer::{lex, numbers_readable};
use crate::pipeline::{ast_to_ir, parse_to_ast};
use crate::token::{tokens_view, Token};

verus! {

/// The source file, in the current directory.
pub const SOURCE_FILE: &'static str = "main.kl";

/// Where the syntax tree goes with `file_out`.
pub const AST_FILE: &'static str = ".ast";

/// Where the bitcode goes with `file_out`.
pub const BITCODE_FILE: &'static str = "main.bc";

/// The function a run calls.
pub const ENTRY_NAME: &'static str = "main";

/// The flags of `korc run`.
#[derive(Debug, Clone, Copy, Default)]
pub struct Command {
    /// Start an interactive session; not supported.
    pub repl: bool,
    /// Show the syntax tree.
    pub ast: bool,
    /// Show the generated code instead of running it.
    pub ir: bool,
    /// Write what is shown to a file instead of the terminal.
    pub file_out: bool,
}

/// Where something is shown.
#[derive(Debug, Clone, Copy, PartialEq, Eq, Structural)]
pub enum Destination {
    /// The terminal: the tree on standard output, code on standard error.
    Terminal,
    /// `AST_FILE` for the tree, `BITCODE_FILE` for code.
    File,
}

/// The outcome of a run: each stage's result, up to the first error.
pub struct Run {
    /// The items and leftover tokens, when parsing succeeded.
    pub parsed: Option<(Vec<ASTNode>, Vec<Token>)>,
    /// Where to show `parsed`.
    pub ast_output: Option<Destination>,
    /// The generated code, when code generation succeeded.
    pub module: Option<ModuleIr>,
    /// Where to show `module`; when `None` and there is a module, `main` is run.
    pub ir_output: Option<Destination>,
    /// The first error.
    pub error: Option<String>,
}

pub open spec fn destination(file_out: bool) -> Destination {
    if file_out {
        Destination::File
    } else {
        Destination::Terminal
    }
}

/// Runs the stages that `command` asks for on `source`.
///
/// With `repl` nothing runs and the error says so. Otherwise the source is
/// parsed and, with `ast`, the result is shown; then the items are compiled,
/// and the code is shown with `ir`, else `main` is to be run. The first
/// error stops the run; what the stages before it produced stays shown.
pub fn run_cli(command: &Command, source: &str) -> (r: Run)
    ensures
        command.repl ==> (r.error matches Some(e) && e@ == "REPL is not supported yet!"@
            && r.parsed is None && r.module is None),
        !command.repl && !numbers_readable(lex(source@)) ==> (r.error matches Some(e) && e@
            == "Lexer failed trying to parse number"@ && r.parsed is None && r.module is None),
        !command.repl && numbers_readable(lex(source@)) ==> match parse_tokens(
            lex(source@),
            Seq::<NodeView>::empty(),
        ) {
            Err(m) => r.error matches Some(e) && e@ == m && r.parsed is None && r.module is None,
            Ok((items, rest)) => {
                &&& r.parsed matches Some(p) && nodes_view(p.0@) == items && tokens_view(p.1@)
                    == rest
                &&& r.ast_output == (if command.ast {
                    Some(destination(command.file_out))
                } else {
                    None
                })
                &&& match compile_nodes(Seq::<FunctionView>::empty(), (r.parsed->0).0@) {
                    Err(m) => r.error matches Some(e) && e@ == m && r.module is None,
                    Ok(fs) => r.error is None && (r.module matches Some(module) && module@ == fs
                        && r.ir_output == (if command.ir {
                        Some(destination(command.file_out))
                    } else {
                        None
                    })),
                }
            },
        },
{
    let mut run = Run { parsed: None, ast_output: None, module: None, ir_output: None, error: None };
    if command.repl {
        run.error = Some(String::from_str("REPL is not supported yet!"));
        return run;
    }
    let destination = if command.file_out {
        Destination::File
    } else {
        Destination::Terminal
    };
    let (items, rest) = match parse_to_ast(source) {
        Ok(p) => p,
        Err(e) => {
            run.error = Some(e);
            return run;
        },
    };
    if command.ast {
        run.ast_output = Some(destination);
    }
    let compiled = ast_to_ir(items.as_slice());
    run.parsed = Some((items, rest));
    match compiled {
        Ok(module) => {
            run.module = Some(module);
            if command.ir {
                run.ir_output = Some(destination);
            }
        },
        Err(e) => {
            run.error = Some(e);
        },
    }
    run
}

} // verus!
