//! The driver pipeline: compile source text into a chunk and hand it to the
//! virtual machine. The front end's expression grammar is a stub, so a clean
//! parse emits only the terminating `Return`; running that chunk pops an
//! empty stack, which the machine reports as a runtime error.
use vstd::prelude::*;

use crate::chunk::{Chunk, Op};
use crate::compiler::{IssueModel, Parser, ParserModel, SyntaxTrait, TokenModel};
use crate::compiler::{advance_model, consume_model};
use crate::lexer::{Scanner, TokenType};
use crate::vm::{InterpretResult, VirtualMachine, chunk_outcome, exec_from, step_once};

verus! {

/// The parser state after the whole (stub) parse pass over `src`: scan the
/// first token, parse the empty expression, then demand the end of input.
pub open spec fn spec_compile_pass(src: Seq<char>) -> ParserModel {
    let m0 = ParserModel {
        curr: None::<TokenModel>,
        prev: None::<TokenModel>,
        src,
        scur: 0,
        sline: 0,
        had_error: false,
        panic: false,
        issues: Seq::<IssueModel>::empty(),
    };
    let m1 = advance_model(m0);
    consume_model(m1, TokenType::Eof, "Expect end of expression."@)
}

/// Whether compiling `src` succeeds: the stub grammar accepts exactly the
/// sources that scan to an immediate end of input.
pub open spec fn spec_compile_ok(src: Seq<char>) -> bool {
    !spec_compile_pass(src).had_error
}

/// Compiles `source` into `bytes`: on a clean parse the chunk gains the
/// terminating `Return` on the last token's line and the call reports
/// success; on any lexical or syntax error the chunk is left untouched.
pub fn compile(source: &str, bytes: &mut Chunk) -> (ok: bool)
    requires
        source@.len() + 2 <= usize::MAX,
        old(bytes).wf(),
        old(bytes).code_view().len() < usize::MAX,
        old(bytes).flat_lines().len() < usize::MAX,
    ensures
        final(bytes).wf(),
        ok == spec_compile_ok(source@),
        ok ==> {
            &&& final(bytes).code_view() == old(bytes).code_view().push(Op::Return)
            &&& final(bytes).flat_lines() == old(bytes).flat_lines().push(
                spec_compile_pass(source@).prev->0.line as usize)
            &&& final(bytes).consts_view() == old(bytes).consts_view()
        },
        !ok ==> *final(bytes) == *old(bytes),
{
    let scanner = Scanner::new(source);
    let mut parser = Parser::new(scanner);
    parser.advance();
    parser.expression();
    parser.consume(TokenType::Eof, "Expect end of expression.");
    if parser.had_error {
        false
    } else {
        proof {
            assert(parser.prev is Some);
        }
        parser.end_compile(bytes);
        true
    }
}

/// Compiles and runs one piece of source text: a front-end failure is a
/// compile error; otherwise the stub front end emits only `Return`, whose
/// run pops an empty stack, so the machine reports a runtime error.
pub fn interpret(source: &str) -> (res: InterpretResult)
    requires
        source@.len() + 2 <= usize::MAX,
    ensures
        (res == InterpretResult::CompileError) == !spec_compile_ok(source@),
        spec_compile_ok(source@) ==> res == InterpretResult::RuntimeError,
{
    let mut chk = Chunk::new();
    if !compile(source, &mut chk) {
        return InterpretResult::CompileError;
    }
    let mut vm = VirtualMachine::new();
    let res = vm.interpret(&chk);
    proof {
        assert(chk.code_view() =~= seq![Op::Return]);
        assert(step_once(chk.code_view(), chk.consts_view(), 0, Seq::empty())
            matches crate::vm::StepState::Ended { .. });
        assert(chunk_outcome(chk.code_view(), chk.consts_view()) matches
            crate::vm::Outcome::Underflow { .. });
    }
    res
}

} // verus!
