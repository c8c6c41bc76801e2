//! The parser front end: a single-pass compiler skeleton that owns the
//! scanner, keeps the current and previous token, collects syntax errors
//! instead of recovering, and emits the terminating instruction when a parse
//! ends cleanly. Its expression grammar is a stub that emits no bytecode
//! yet; each state change is pinned to a model transition function.
use vstd::prelude::*;

use crate::chunk::{Chunk, Op};
use crate::lexer::{Scanner, Token, TokenType, next_at};

verus! {

/// One recorded syntax error: the line it was found on, the text of the
/// token it was found at, and the message.
#[derive(Debug, Clone)]
pub struct ParseIssue {
    pub line: usize,
    pub token_text: String,
    pub message: String,
}

/// A token, abstractly: kind, text and line.
pub ghost struct TokenModel {
    pub tt: TokenType,
    pub text: Seq<char>,
    pub line: nat,
}

/// A recorded error, abstractly.
pub ghost struct IssueModel {
    pub line: nat,
    pub text: Seq<char>,
    pub message: Seq<char>,
}

/// The parser's abstract state: the two token slots, the scanner's state,
/// the error flags, and every error recorded so far.
pub ghost struct ParserModel {
    pub curr: Option<TokenModel>,
    pub prev: Option<TokenModel>,
    pub src: Seq<char>,
    pub scur: nat,
    pub sline: nat,
    pub had_error: bool,
    pub panic: bool,
    pub issues: Seq<IssueModel>,
}

/// Recording a syntax error at the current token: the first error raises
/// both flags and is recorded; once panicking, further errors are ignored.
pub open spec fn error_model(m: ParserModel, msg: Seq<char>) -> ParserModel
    recommends
        m.curr is Some,
{
    if m.panic {
        m
    } else {
        match m.curr {
            Some(t) => ParserModel {
                panic: true,
                had_error: true,
                issues: m.issues.push(IssueModel { line: t.line, text: t.text, message: msg }),
                ..m
            },
            None => m,
        }
    }
}

/// Advancing: the current token moves to the previous slot, the scanner
/// yields the next token, and a lexical error token is reported at once.
pub open spec fn advance_model(m: ParserModel) -> ParserModel {
    let st = next_at(m.src, m.scur, m.sline);
    let tok = TokenModel { tt: st.tt, text: st.text, line: st.tline };
    let stepped = ParserModel {
        prev: m.curr,
        curr: Some(tok),
        scur: st.cur,
        sline: st.line,
        ..m
    };
    if st.tt == TokenType::Error {
        error_model(stepped, "Unexpected token."@)
    } else {
        stepped
    }
}

/// Consuming an expected token: advance when the current token matches,
/// else record the given error.
pub open spec fn consume_model(m: ParserModel, tt: TokenType, msg: Seq<char>) -> ParserModel
    recommends
        m.curr is Some,
{
    if m.curr matches Some(t) && t.tt == tt {
        advance_model(m)
    } else {
        error_model(m, msg)
    }
}

/// The parse pass: the compiler skeleton that drives scanning and, for now,
/// parses the empty expression grammar.
pub trait SyntaxTrait {
    /// The abstract state this implementation carries.
    spec fn syn_model(&self) -> ParserModel;

    /// The representation invariant this implementation maintains.
    spec fn syn_inv(&self) -> bool;

    fn expression(&mut self)
        requires
            old(self).syn_inv(),
        ensures
            final(self).syn_inv(),
            final(self).syn_model() == old(self).syn_model(),
    ;

    fn consume(&mut self, tt: TokenType, msg: &str)
        requires
            old(self).syn_inv(),
            old(self).syn_model().curr is Some,
        ensures
            final(self).syn_inv(),
            final(self).syn_model() == consume_model(old(self).syn_model(), tt, msg@),
    ;
}

/// The parser: current and previous token, the scanner it owns, and the
/// error state.
#[derive(Debug)]
pub struct Parser {
    pub curr: Option<Token>,
    pub prev: Option<Token>,
    pub scanner: Scanner,
    pub had_error: bool,
    pub panic: bool,
    pub issues: Vec<ParseIssue>,
}

/// A token slot, abstractly.
pub open spec fn token_model(t: Token) -> TokenModel {
    TokenModel { tt: t.tt, text: t.value@, line: t.line as nat }
}

/// An optional token slot, abstractly.
pub open spec fn opt_token_model(t: Option<Token>) -> Option<TokenModel> {
    match t {
        Some(t) => Some(token_model(t)),
        None => None,
    }
}

impl Parser {
    /// The parser's abstract state.
    pub open spec fn model(&self) -> ParserModel {
        ParserModel {
            curr: opt_token_model(self.curr),
            prev: opt_token_model(self.prev),
            src: self.scanner.source@,
            scur: self.scanner.current as nat,
            sline: self.scanner.line as nat,
            had_error: self.had_error,
            panic: self.panic,
            issues: self.issues@.map_values(
                |i: ParseIssue|
                    IssueModel { line: i.line as nat, text: i.token_text@, message: i.message@ },
            ),
        }
    }

    /// The representation invariant: the scanner is well formed.
    pub open spec fn wf(&self) -> bool {
        self.scanner.wf()
    }

    /// A parser over the given scanner, with empty token slots and no
    /// errors.
    pub fn new(scanner: Scanner) -> (p: Parser)
        requires
            scanner.wf(),
        ensures
            p.wf(),
            p.model() == (ParserModel {
                curr: None::<TokenModel>,
                prev: None::<TokenModel>,
                src: scanner.source@,
                scur: scanner.current as nat,
                sline: scanner.line as nat,
                had_error: false,
                panic: false,
                issues: Seq::<IssueModel>::empty(),
            }),
    {
        let p = Parser {
            curr: None,
            prev: None,
            scanner,
            had_error: false,
            panic: false,
            issues: Vec::new(),
        };
        proof {
            assert(p.model().issues =~= Seq::<IssueModel>::empty());
        }
        p
    }

    /// Moves the current token to the previous slot and scans the next one,
    /// reporting a lexical error token as soon as it appears.
    pub fn advance(&mut self)
        requires
            old(self).wf(),
        ensures
            final(self).wf(),
            final(self).model() == advance_model(old(self).model()),
    {
        self.prev = self.curr.take();
        let tok = self.scanner.next();
        let is_err = matches!(tok.tt, TokenType::Error);
        self.curr = Some(tok);
        if is_err {
            self.lexic_error();
        }
    }

    /// The current token.
    pub fn curr_token(&self) -> (t: &Token)
        requires
            self.curr is Some,
        ensures
            *t == self.curr->0,
    {
        self.curr.as_ref().unwrap()
    }

    /// The previous token.
    pub fn prev_token(&self) -> (t: &Token)
        requires
            self.prev is Some,
        ensures
            *t == self.prev->0,
    {
        self.prev.as_ref().unwrap()
    }

    /// Appends one instruction to the chunk, on the previous token's line.
    fn emit_byte(&mut self, op: Op, bytes: &mut Chunk)
        requires
            old(self).wf(),
            old(self).prev is Some,
            old(bytes).wf(),
            old(bytes).code_view().len() < usize::MAX,
            old(bytes).flat_lines().len() < usize::MAX,
        ensures
            final(self).wf(),
            *final(self) == *old(self),
            final(bytes).wf(),
            final(bytes).code_view() == old(bytes).code_view().push(op),
            final(bytes).flat_lines() == old(bytes).flat_lines().push(
                old(self).prev->0.line),
            final(bytes).consts_view() == old(bytes).consts_view(),
    {
        let line = self.prev_token().line;
        bytes.write(op, line);
    }

    /// Appends the terminating `Return` instruction.
    fn emit_return(&mut self, bytes: &mut Chunk)
        requires
            old(self).wf(),
            old(self).prev is Some,
            old(bytes).wf(),
            old(bytes).code_view().len() < usize::MAX,
            old(bytes).flat_lines().len() < usize::MAX,
        ensures
            final(self).wf(),
            *final(self) == *old(self),
            final(bytes).wf(),
            final(bytes).code_view() == old(bytes).code_view().push(Op::Return),
            final(bytes).flat_lines() == old(bytes).flat_lines().push(
                old(self).prev->0.line),
            final(bytes).consts_view() == old(bytes).consts_view(),
    {
        self.emit_byte(Op::Return, bytes);
    }

    /// Ends a clean compile by terminating the chunk with `Return`.
    pub fn end_compile(&mut self, bytes: &mut Chunk)
        requires
            old(self).wf(),
            old(self).prev is Some,
            old(bytes).wf(),
            old(bytes).code_view().len() < usize::MAX,
            old(bytes).flat_lines().len() < usize::MAX,
        ensures
            final(self).wf(),
            *final(self) == *old(self),
            final(bytes).wf(),
            final(bytes).code_view() == old(bytes).code_view().push(Op::Return),
            final(bytes).flat_lines() == old(bytes).flat_lines().push(
                old(self).prev->0.line),
            final(bytes).consts_view() == old(bytes).consts_view(),
    {
        self.emit_return(bytes);
    }

    /// Records a lexical error at the current token.
    fn lexic_error(&mut self)
        requires
            old(self).wf(),
            old(self).curr is Some,
        ensures
            final(self).wf(),
            final(self).model() == error_model(old(self).model(), "Unexpected token."@),
    {
        self.syntax_error("Unexpected token.");
    }

    /// Records a syntax error at the current token, unless already
    /// panicking: raises both error flags and keeps the error's line, token
    /// text and message.
    fn syntax_error(&mut self, msg: &str)
        requires
            old(self).wf(),
            old(self).curr is Some,
        ensures
            final(self).wf(),
            final(self).model() == error_model(old(self).model(), msg@),
    {
        if self.panic {
            return ;
        }
        self.panic = true;
        let token = self.curr_token();
        let issue = ParseIssue {
            line: token.line,
            token_text: token.value.clone(),
            message: msg.to_owned(),
        };
        self.issues.push(issue);
        self.had_error = true;
        proof {
            assert(final(self).model().issues =~= error_model(old(self).model(), msg@).issues);
        }
    }
}

impl SyntaxTrait for Parser {
    open spec fn syn_model(&self) -> ParserModel {
        self.model()
    }

    open spec fn syn_inv(&self) -> bool {
        self.wf()
    }

    /// The expression grammar: a stub that emits no bytecode yet.
    fn expression(&mut self) {
    }

    /// Advances over the expected token, or records the given error.
    fn consume(&mut self, tt: TokenType, msg: &str) {
        let matches_tt = match &self.curr {
            Some(t) => t.tt == tt,
            None => false,
        };
        if matches_tt {
            self.advance();
            return ;
        }
        self.syntax_error(msg);
    }
}

} // verus!
