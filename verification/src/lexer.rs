//! The lexical scanner: turns source text into tokens, one call per token.
//! Every helper is pinned to a specification twin written over the source's
//! character sequence, so what `next` returns — token kind, lexeme, line,
//! and the cursor's advance — is stated exactly.
use vstd::prelude::*;

verus! {

/// The kinds of token the language distinguishes.
#[derive(Debug, Clone, Copy, PartialEq, Eq, Structural)]
pub enum TokenType {
    LeftParen,
    RightParen,
    LeftBrace,
    RightBrace,
    Comma,
    Dot,
    Minus,
    Plus,
    Semicolon,
    Slash,
    Star,
    Bang,
    BangEqual,
    Equal,
    EqualEqual,
    Greater,
    GreaterEqual,
    Less,
    LessEqual,
    Identifier,
    Str,
    Number,
    And,
    Class,
    Else,
    False,
    For,
    Fun,
    If,
    Nil,
    Or,
    Print,
    Return,
    Super,
    This,
    True,
    Var,
    While,
    Error,
    Eof,
}

/// One token: its kind, its text, and the line it was scanned on.
#[derive(Debug, Clone)]
pub struct Token {
    pub tt: TokenType,
    pub value: String,
    pub line: usize,
}

/// The scanner: the source text, the cursor, and the current line count.
#[derive(Debug)]
pub struct Scanner {
    pub source: String,
    pub current: usize,
    pub line: usize,
}

/// A decimal digit.
pub open spec fn is_digit_char(c: char) -> bool {
    '0' <= c <= '9'
}

/// A letter or an underscore.
pub open spec fn is_alpha_char(c: char) -> bool {
    ('A' <= c <= 'Z') || ('a' <= c <= 'z') || c == '_'
}

/// The character under the cursor, or NUL at or past the end.
pub open spec fn peek_at(src: Seq<char>, cur: nat) -> char {
    if cur >= src.len() {
        '\0'
    } else {
        src[cur as int]
    }
}

/// The character after the cursor, or NUL at or past the end.
pub open spec fn peek_next_at(src: Seq<char>, cur: nat) -> char {
    if cur + 1 >= src.len() {
        '\0'
    } else {
        src[cur as int + 1]
    }
}

/// Where the comment skipper stops: it consumes up to and including the
/// newline — or a NUL character, or one step past the end — counting one
/// line either way.
pub open spec fn skip_comment_at(src: Seq<char>, cur: nat, line: nat) -> (nat, nat)
    decreases src.len() + 1 - cur,
    when cur <= src.len()
{
    if cur >= src.len() || src[cur as int] == '\n' || src[cur as int] == '\0' {
        ((cur + 1) as nat, (line + 1) as nat)
    } else {
        skip_comment_at(src, (cur + 1) as nat, line)
    }
}

/// The comment skipper moves the cursor strictly forward, at most one step
/// past the end.
pub proof fn lemma_skip_comment_advances(src: Seq<char>, cur: nat, line: nat)
    requires
        cur <= src.len(),
    ensures
        cur < skip_comment_at(src, cur, line).0 <= src.len() + 1,
    decreases src.len() + 1 - cur,
{
    if !(cur >= src.len() || src[cur as int] == '\n' || src[cur as int] == '\0') {
        lemma_skip_comment_advances(src, (cur + 1) as nat, line);
    }
}

/// Where whitespace skipping stops: blanks and tabs advance, newlines also
/// count a line, a `//` comment is skipped whole, anything else stops.
pub open spec fn skip_ws_at(src: Seq<char>, cur: nat, line: nat) -> (nat, nat)
    decreases src.len() + 1 - cur,
    when cur <= src.len() + 1
    via skip_ws_at_decreases
{
    if cur >= src.len() {
        (cur, line)
    } else {
        let c = src[cur as int];
        if c == '\r' || c == '\t' || c == ' ' {
            skip_ws_at(src, (cur + 1) as nat, line)
        } else if c == '\n' {
            skip_ws_at(src, (cur + 1) as nat, (line + 1) as nat)
        } else if c == '/' && peek_next_at(src, cur) == '/' {
            let r = skip_comment_at(src, cur, line);
            skip_ws_at(src, r.0, r.1)
        } else {
            (cur, line)
        }
    }
}

#[via_fn]
proof fn skip_ws_at_decreases(src: Seq<char>, cur: nat, line: nat) {
    if cur < src.len() {
        let c = src[cur as int];
        if c == '/' && peek_next_at(src, cur) == '/' {
            lemma_skip_comment_advances(src, cur, line);
        }
    }
}

/// Where a run of decimal digits ends.
pub open spec fn scan_digits(src: Seq<char>, cur: nat) -> nat
    decreases src.len() + 1 - cur,
    when cur <= src.len()
{
    if cur < src.len() && is_digit_char(src[cur as int]) {
        scan_digits(src, (cur + 1) as nat)
    } else {
        cur
    }
}

/// A digit run ends within the source and no earlier than it began.
pub proof fn lemma_scan_digits_bounds(src: Seq<char>, cur: nat)
    requires
        cur <= src.len(),
    ensures
        cur <= scan_digits(src, cur) <= src.len(),
    decreases src.len() + 1 - cur,
{
    if cur < src.len() && is_digit_char(src[cur as int]) {
        lemma_scan_digits_bounds(src, (cur + 1) as nat);
    }
}

/// Where a number token ends, the cursor standing just past its first
/// digit: the whole digit run, and a fractional part when a dot is followed
/// by a digit.
pub open spec fn number_end(src: Seq<char>, cur: nat) -> nat
    recommends
        cur <= src.len(),
{
    let d1 = scan_digits(src, cur);
    if peek_at(src, d1) == '.' && is_digit_char(peek_next_at(src, d1)) {
        scan_digits(src, (d1 + 1) as nat)
    } else {
        d1
    }
}

/// Where an identifier ends, the cursor standing just past its first
/// character.
pub open spec fn scan_ident(src: Seq<char>, cur: nat) -> nat
    decreases src.len() + 1 - cur,
    when cur <= src.len()
{
    if cur < src.len() && (is_alpha_char(src[cur as int]) || is_digit_char(src[cur as int])) {
        scan_ident(src, (cur + 1) as nat)
    } else {
        cur
    }
}

/// An identifier run ends within the source and no earlier than it began.
pub proof fn lemma_scan_ident_bounds(src: Seq<char>, cur: nat)
    requires
        cur <= src.len(),
    ensures
        cur <= scan_ident(src, cur) <= src.len(),
    decreases src.len() + 1 - cur,
{
    if cur < src.len() && (is_alpha_char(src[cur as int]) || is_digit_char(src[cur as int])) {
        lemma_scan_ident_bounds(src, (cur + 1) as nat);
    }
}

/// Where a string literal's body ends — the closing quote or the end of the
/// source — and the line count after its newlines.
pub open spec fn scan_string(src: Seq<char>, cur: nat, line: nat) -> (nat, nat)
    decreases src.len() + 1 - cur,
    when cur <= src.len()
{
    if cur >= src.len() || src[cur as int] == '"' {
        (cur, line)
    } else if src[cur as int] == '\n' {
        scan_string(src, (cur + 1) as nat, (line + 1) as nat)
    } else {
        scan_string(src, (cur + 1) as nat, line)
    }
}

/// A string body ends within the source and no earlier than it began.
pub proof fn lemma_scan_string_bounds(src: Seq<char>, cur: nat, line: nat)
    requires
        cur <= src.len(),
    ensures
        cur <= scan_string(src, cur, line).0 <= src.len(),
    decreases src.len() + 1 - cur,
{
    if !(cur >= src.len() || src[cur as int] == '"') {
        if src[cur as int] == '\n' {
            lemma_scan_string_bounds(src, (cur + 1) as nat, (line + 1) as nat);
        } else {
            lemma_scan_string_bounds(src, (cur + 1) as nat, line);
        }
    }
}

/// The keyword a lexeme spells, or `Identifier` when it spells none.
pub open spec fn keyword_type(s: Seq<char>) -> TokenType {
    if s == "and"@ {
        TokenType::And
    } else if s == "class"@ {
        TokenType::Class
    } else if s == "else"@ {
        TokenType::Else
    } else if s == "false"@ {
        TokenType::False
    } else if s == "for"@ {
        TokenType::For
    } else if s == "fun"@ {
        TokenType::Fun
    } else if s == "if"@ {
        TokenType::If
    } else if s == "nil"@ {
        TokenType::Nil
    } else if s == "or"@ {
        TokenType::Or
    } else if s == "print"@ {
        TokenType::Print
    } else if s == "return"@ {
        TokenType::Return
    } else if s == "super"@ {
        TokenType::Super
    } else if s == "this"@ {
        TokenType::This
    } else if s == "true"@ {
        TokenType::True
    } else if s == "var"@ {
        TokenType::Var
    } else if s == "while"@ {
        TokenType::While
    } else {
        TokenType::Identifier
    }
}

/// What one scan yields: the token's pieces and the scanner state after it.
pub ghost struct ScanStep {
    pub tt: TokenType,
    pub text: Seq<char>,
    pub tline: nat,
    pub cur: nat,
    pub line: nat,
}

/// A single-character token at `cur`, which the cursor has already passed.
pub open spec fn simple_step(tt: TokenType, text: Seq<char>, cur: nat, line: nat) -> ScanStep {
    ScanStep { tt, text, tline: line, cur, line }
}

/// A one-or-two character token: takes the second character when it matches.
pub open spec fn two_char_step(
    src: Seq<char>,
    cur: nat,
    line: nat,
    second: char,
    then_tt: TokenType,
    then_text: Seq<char>,
    else_tt: TokenType,
    else_text: Seq<char>,
) -> ScanStep {
    if peek_at(src, cur) == second {
        simple_step(then_tt, then_text, (cur + 1) as nat, line)
    } else {
        simple_step(else_tt, else_text, cur, line)
    }
}

/// What scanning one token from state (`cur0`, `line0`) yields.
pub open spec fn next_at(src: Seq<char>, cur0: nat, line0: nat) -> ScanStep {
    let ws = skip_ws_at(src, cur0, line0);
    let start = ws.0;
    let line = ws.1;
    if start >= src.len() {
        simple_step(TokenType::Eof, "EOF"@, start, line)
    } else {
        let c = src[start as int];
        let cur = (start + 1) as nat;
        if c == '(' {
            simple_step(TokenType::LeftParen, "("@, cur, line)
        } else if c == ')' {
            simple_step(TokenType::RightParen, ")"@, cur, line)
        } else if c == '{' {
            simple_step(TokenType::LeftBrace, "{"@, cur, line)
        } else if c == '}' {
            simple_step(TokenType::RightBrace, "}"@, cur, line)
        } else if c == ';' {
            simple_step(TokenType::Semicolon, ";"@, cur, line)
        } else if c == ',' {
            simple_step(TokenType::Comma, ","@, cur, line)
        } else if c == '.' {
            simple_step(TokenType::Dot, "."@, cur, line)
        } else if c == '-' {
            simple_step(TokenType::Minus, "-"@, cur, line)
        } else if c == '+' {
            simple_step(TokenType::Plus, "+"@, cur, line)
        } else if c == '/' {
            simple_step(TokenType::Slash, "/"@, cur, line)
        } else if c == '*' {
            simple_step(TokenType::Star, "*"@, cur, line)
        } else if c == '!' {
            two_char_step(src, cur, line, '=', TokenType::BangEqual, "!="@, TokenType::Bang, "!"@)
        } else if c == '=' {
            two_char_step(src, cur, line, '=', TokenType::EqualEqual, "=="@, TokenType::Equal, "="@)
        } else if c == '<' {
            two_char_step(src, cur, line, '=', TokenType::LessEqual, "<="@, TokenType::Less, "<"@)
        } else if c == '>' {
            two_char_step(
                src,
                cur,
                line,
                '=',
                TokenType::GreaterEqual,
                ">="@,
                TokenType::Greater,
                ">"@,
            )
        } else if c == '"' {
            string_at(src, cur, line)
        } else if is_digit_char(c) {
            number_at(src, cur, line)
        } else if is_alpha_char(c) {
            ident_at(src, cur, line)
        } else {
            simple_step(TokenType::Error, "UNK"@, cur, line)
        }
    }
}

/// What scanning a string literal yields, the cursor standing just past the
/// opening quote: its body up to the closing quote, or an error when the
/// source ends first.
pub open spec fn string_at(src: Seq<char>, cur: nat, line: nat) -> ScanStep
    recommends
        cur <= src.len(),
{
    let r = scan_string(src, cur, line);
    if r.0 >= src.len() {
        simple_step(TokenType::Error, "Unterminated string"@, r.0, r.1)
    } else {
        simple_step(TokenType::Str, src.subrange(cur as int, r.0 as int), (r.0 + 1) as nat, r.1)
    }
}

/// What scanning a number yields, the cursor standing just past its first
/// digit.
pub open spec fn number_at(src: Seq<char>, cur: nat, line: nat) -> ScanStep
    recommends
        1 <= cur <= src.len(),
{
    let end = number_end(src, cur);
    simple_step(TokenType::Number, src.subrange(cur - 1, end as int), end, line)
}

/// What scanning an identifier or keyword yields, the cursor standing just
/// past its first character.
pub open spec fn ident_at(src: Seq<char>, cur: nat, line: nat) -> ScanStep
    recommends
        1 <= cur <= src.len(),
{
    let end = scan_ident(src, cur);
    let text = src.subrange(cur - 1, end as int);
    simple_step(keyword_type(text), text, end, line)
}

impl Scanner {
    /// The scanner's representation invariant: the cursor sits in the source
    /// or at most one step past it, and the source leaves the address space
    /// room for that step.
    pub open spec fn wf(&self) -> bool {
        &&& self.source@.len() + 2 <= usize::MAX
        &&& self.current <= self.source@.len() + 1
        &&& self.line <= self.current
    }

    /// A scanner at the start of `text`, on line 0.
    pub fn new(text: &str) -> (s: Scanner)
        requires
            text@.len() + 2 <= usize::MAX,
        ensures
            s.wf(),
            s.source@ == text@,
            s.current == 0,
            s.line == 0,
    {
        Scanner { source: text.to_owned(), current: 0, line: 0 }
    }

    /// The number of characters in the source.
    fn src_len(&self) -> (n: usize)
        ensures
            n == self.source@.len(),
    {
        self.source.as_str().unicode_len()
    }

    /// Whether the cursor stands at or past the end of the source.
    fn at_end(&self) -> (r: bool)
        ensures
            r == (self.current >= self.source@.len()),
    {
        self.current >= self.src_len()
    }

    /// The character under the cursor, or NUL at the end.
    fn peek(&self) -> (c: char)
        ensures
            c == peek_at(self.source@, self.current as nat),
    {
        if self.at_end() {
            return '\0';
        }
        self.source.as_str().get_char(self.current)
    }

    /// The character after the cursor, or NUL at the end.
    fn peek_next(&self) -> (c: char)
        requires
            self.wf(),
        ensures
            c == peek_next_at(self.source@, self.current as nat),
    {
        if self.current + 1 >= self.src_len() {
            return '\0';
        }
        self.source.as_str().get_char(self.current + 1)
    }

    /// Advances over the next character exactly when it is `expect` and is
    /// not NUL.
    fn expect(&mut self, expect: char) -> (r: bool)
        requires
            old(self).wf(),
        ensures
            final(self).wf(),
            final(self).source@ == old(self).source@,
            final(self).line == old(self).line,
            r == (expect != '\0' && peek_at(old(self).source@, old(self).current as nat)
                == expect),
            r ==> final(self).current == old(self).current + 1,
            !r ==> final(self).current == old(self).current,
    {
        if expect == '\0' || self.peek() != expect {
            return false;
        }
        self.current = self.current + 1;
        true
    }

    /// Skips the rest of a `//` comment, through its newline.
    fn skip_comment(&mut self)
        requires
            old(self).wf(),
            old(self).current <= old(self).source@.len(),
        ensures
            final(self).wf(),
            final(self).source@ == old(self).source@,
            (final(self).current as nat, final(self).line as nat) == skip_comment_at(
                old(self).source@, old(self).current as nat, old(self).line as nat),
    {
        let ghost src = self.source@;
        let ghost goal = skip_comment_at(src, old(self).current as nat, old(self).line as nat);
        loop
            invariant_except_break
                self.current <= src.len(),
                goal == skip_comment_at(src, self.current as nat, self.line as nat),
            invariant
                self.wf(),
                self.source@ == src,
            ensures
                self.wf(),
                self.source@ == src,
                (self.current as nat, self.line as nat) == goal,
            decreases src.len() - self.current,
        {
            let cur = self.peek();
            match cur {
                '\n' | '\0' => {
                    self.line = self.line + 1;
                    self.current = self.current + 1;
                    break ;
                },
                _ => {
                    self.current = self.current + 1;
                },
            }
        }
    }

    /// Skips blanks, tabs, carriage returns, newlines (counting lines) and
    /// `//` comments, stopping at the first character of the next token.
    fn skip_white_space(&mut self)
        requires
            old(self).wf(),
        ensures
            final(self).wf(),
            final(self).source@ == old(self).source@,
            (final(self).current as nat, final(self).line as nat) == skip_ws_at(
                old(self).source@, old(self).current as nat, old(self).line as nat),
    {
        let ghost src = self.source@;
        let ghost goal = skip_ws_at(src, old(self).current as nat, old(self).line as nat);
        loop
            invariant_except_break
                goal == skip_ws_at(src, self.current as nat, self.line as nat),
            invariant
                self.wf(),
                self.source@ == src,
            ensures
                self.wf(),
                self.source@ == src,
                (self.current as nat, self.line as nat) == goal,
            decreases src.len() + 1 - self.current,
        {
            let cur = self.peek();
            match cur {
                '\r' | '\t' | ' ' => {
                    self.current = self.current + 1;
                },
                '\n' => {
                    self.line = self.line + 1;
                    self.current = self.current + 1;
                },
                '/' => {
                    if self.peek_next() != '/' {
                        break ;
                    }
                    proof {
                        lemma_skip_comment_advances(src, self.current as nat, self.line as nat);
                    }
                    self.skip_comment();
                },
                _ => {
                    break ;
                },
            }
        }
    }

    /// The source text between two character positions.
    fn _string(&self, start: usize, end: usize) -> (r: String)
        requires
            start <= end <= self.source@.len(),
        ensures
            r@ == self.source@.subrange(start as int, end as int),
    {
        self.source.as_str().substring_char(start, end).to_owned()
    }

    /// Scans a string literal, the cursor standing just past the opening
    /// quote: its body becomes the token's text, newlines inside it count,
    /// and a source that ends before the closing quote is an error token.
    #[verifier::loop_isolation(false)]
    fn string(&mut self) -> (t: Token)
        requires
            old(self).wf(),
            old(self).current <= old(self).source@.len(),
        ensures
            final(self).wf(),
            final(self).source@ == old(self).source@,
            ({
                let st = string_at(old(self).source@, old(self).current as nat,
                    old(self).line as nat);
                &&& t.tt == st.tt
                &&& t.value@ == st.text
                &&& t.line == st.tline
                &&& final(self).current == st.cur
                &&& final(self).line == st.line
            }),
    {
        let ghost src = self.source@;
        let ghost goal = scan_string(src, old(self).current as nat, old(self).line as nat);
        let start = self.current;
        while self.peek() != '"' && !self.at_end()
            invariant
                self.wf(),
                self.source@ == src,
                start <= self.current <= src.len(),
                goal == scan_string(src, self.current as nat, self.line as nat),
            decreases src.len() - self.current,
        {
            if self.peek() == '\n' {
                self.line = self.line + 1;
            }
            self.current = self.current + 1;
        }
        if self.at_end() {
            return Token { tt: TokenType::Error, value: "Unterminated string".to_owned(),
                line: self.line };
        }
        let end = self.current;
        self.current = self.current + 1;
        let value = self._string(start, end);
        Token { tt: TokenType::Str, value, line: self.line }
    }

    /// Scans a number, the cursor standing just past its first digit: the
    /// whole digit run and, when a dot is followed by a digit, the
    /// fractional run.
    #[verifier::loop_isolation(false)]
    fn number(&mut self) -> (t: Token)
        requires
            old(self).wf(),
            1 <= old(self).current <= old(self).source@.len(),
        ensures
            final(self).wf(),
            final(self).source@ == old(self).source@,
            final(self).line == old(self).line,
            ({
                let st = number_at(old(self).source@, old(self).current as nat,
                    old(self).line as nat);
                &&& t.tt == st.tt
                &&& t.value@ == st.text
                &&& t.line == st.tline
                &&& final(self).current == st.cur
            }),
    {
        let ghost src = self.source@;
        let start = self.current - 1;
        let ghost d1 = scan_digits(src, old(self).current as nat);
        proof {
            lemma_scan_digits_bounds(src, old(self).current as nat);
        }
        while self._is_digit(self.peek())
            invariant
                self.wf(),
                self.source@ == src,
                1 <= self.current <= src.len(),
                d1 == scan_digits(src, self.current as nat),
                self.line == old(self).line,
            decreases src.len() + 1 - self.current,
        {
            self.current = self.current + 1;
        }
        proof {
            assert(self.current == d1);
        }
        if self.peek() == '.' && self._is_digit(self.peek_next()) {
            self.current = self.current + 1;
            let ghost d2 = scan_digits(src, self.current as nat);
            proof {
                lemma_scan_digits_bounds(src, self.current as nat);
            }
            while self._is_digit(self.peek())
                invariant
                    self.wf(),
                    self.source@ == src,
                    self.current <= src.len(),
                    d2 == scan_digits(src, self.current as nat),
                    self.line == old(self).line,
                decreases src.len() + 1 - self.current,
            {
                self.current = self.current + 1;
            }
            proof {
                assert(self.current == d2);
            }
        }
        let end = self.current;
        let value = self._string(start, end);
        Token { tt: TokenType::Number, value, line: self.line }
    }

    /// Scans an identifier, the cursor standing just past its first
    /// character, and classifies it as a keyword where it spells one.
    #[verifier::loop_isolation(false)]
    fn identifier(&mut self) -> (t: Token)
        requires
            old(self).wf(),
            1 <= old(self).current <= old(self).source@.len(),
        ensures
            final(self).wf(),
            final(self).source@ == old(self).source@,
            final(self).line == old(self).line,
            ({
                let st = ident_at(old(self).source@, old(self).current as nat,
                    old(self).line as nat);
                &&& t.tt == st.tt
                &&& t.value@ == st.text
                &&& t.line == st.tline
                &&& final(self).current == st.cur
            }),
    {
        let ghost src = self.source@;
        let start = self.current - 1;
        let ghost e = scan_ident(src, old(self).current as nat);
        proof {
            lemma_scan_ident_bounds(src, old(self).current as nat);
        }
        while self._is_alpha(self.peek()) || self._is_digit(self.peek())
            invariant
                self.wf(),
                self.source@ == src,
                1 <= self.current <= src.len(),
                e == scan_ident(src, self.current as nat),
                self.line == old(self).line,
            decreases src.len() + 1 - self.current,
        {
            self.current = self.current + 1;
        }
        proof {
            assert(self.current == e);
        }
        let end = self.current;
        let val = self._string(start, end);
        let typ = self._identifier_type(val.as_str());
        Token { tt: typ, value: val, line: self.line }
    }

    /// The keyword a lexeme spells, or `Identifier`.
    fn _identifier_type(&self, id: &str) -> (tt: TokenType)
        ensures
            tt == keyword_type(id@),
    {
        if str_eq(id, "and") {
            TokenType::And
        } else if str_eq(id, "class") {
            TokenType::Class
        } else if str_eq(id, "else") {
            TokenType::Else
        } else if str_eq(id, "false") {
            TokenType::False
        } else if str_eq(id, "for") {
            TokenType::For
        } else if str_eq(id, "fun") {
            TokenType::Fun
        } else if str_eq(id, "if") {
            TokenType::If
        } else if str_eq(id, "nil") {
            TokenType::Nil
        } else if str_eq(id, "or") {
            TokenType::Or
        } else if str_eq(id, "print") {
            TokenType::Print
        } else if str_eq(id, "return") {
            TokenType::Return
        } else if str_eq(id, "super") {
            TokenType::Super
        } else if str_eq(id, "this") {
            TokenType::This
        } else if str_eq(id, "true") {
            TokenType::True
        } else if str_eq(id, "var") {
            TokenType::Var
        } else if str_eq(id, "while") {
            TokenType::While
        } else {
            TokenType::Identifier
        }
    }

    /// A letter or an underscore.
    fn _is_alpha(&self, cur: char) -> (r: bool)
        ensures
            r == is_alpha_char(cur),
    {
        (cur >= 'A' && cur <= 'Z') || (cur >= 'a' && cur <= 'z') || cur == '_'
    }

    /// A decimal digit.
    fn _is_digit(&self, cur: char) -> (r: bool)
        ensures
            r == is_digit_char(cur),
    {
        cur >= '0' && cur <= '9'
    }

    /// Scans and returns the next token, advancing past it.
    pub fn next(&mut self) -> (t: Token)
        requires
            old(self).wf(),
        ensures
            final(self).wf(),
            final(self).source@ == old(self).source@,
            ({
                let st = next_at(old(self).source@, old(self).current as nat,
                    old(self).line as nat);
                &&& t.tt == st.tt
                &&& t.value@ == st.text
                &&& t.line == st.tline
                &&& final(self).current == st.cur
                &&& final(self).line == st.line
            }),
    {
        self.skip_white_space();
        if self.at_end() {
            return Token { tt: TokenType::Eof, value: "EOF".to_owned(), line: self.line };
        }
        self.current = self.current + 1;
        let cur = self.source.as_str().get_char(self.current - 1);
        if cur == '(' {
            Token { tt: TokenType::LeftParen, value: "(".to_owned(), line: self.line }
        } else if cur == ')' {
            Token { tt: TokenType::RightParen, value: ")".to_owned(), line: self.line }
        } else if cur == '{' {
            Token { tt: TokenType::LeftBrace, value: "{".to_owned(), line: self.line }
        } else if cur == '}' {
            Token { tt: TokenType::RightBrace, value: "}".to_owned(), line: self.line }
        } else if cur == ';' {
            Token { tt: TokenType::Semicolon, value: ";".to_owned(), line: self.line }
        } else if cur == ',' {
            Token { tt: TokenType::Comma, value: ",".to_owned(), line: self.line }
        } else if cur == '.' {
            Token { tt: TokenType::Dot, value: ".".to_owned(), line: self.line }
        } else if cur == '-' {
            Token { tt: TokenType::Minus, value: "-".to_owned(), line: self.line }
        } else if cur == '+' {
            Token { tt: TokenType::Plus, value: "+".to_owned(), line: self.line }
        } else if cur == '/' {
            Token { tt: TokenType::Slash, value: "/".to_owned(), line: self.line }
        } else if cur == '*' {
            Token { tt: TokenType::Star, value: "*".to_owned(), line: self.line }
        } else if cur == '!' {
            if self.expect('=') {
                Token { tt: TokenType::BangEqual, value: "!=".to_owned(), line: self.line }
            } else {
                Token { tt: TokenType::Bang, value: "!".to_owned(), line: self.line }
            }
        } else if cur == '=' {
            if self.expect('=') {
                Token { tt: TokenType::EqualEqual, value: "==".to_owned(), line: self.line }
            } else {
                Token { tt: TokenType::Equal, value: "=".to_owned(), line: self.line }
            }
        } else if cur == '<' {
            if self.expect('=') {
                Token { tt: TokenType::LessEqual, value: "<=".to_owned(), line: self.line }
            } else {
                Token { tt: TokenType::Less, value: "<".to_owned(), line: self.line }
            }
        } else if cur == '>' {
            if self.expect('=') {
                Token { tt: TokenType::GreaterEqual, value: ">=".to_owned(), line: self.line }
            } else {
                Token { tt: TokenType::Greater, value: ">".to_owned(), line: self.line }
            }
        } else if cur == '"' {
            self.string()
        } else if self._is_digit(cur) {
            self.number()
        } else if self._is_alpha(cur) {
            self.identifier()
        } else {
            Token { tt: TokenType::Error, value: "UNK".to_owned(), line: self.line }
        }
    }
}

impl Default for Scanner {
    /// A scanner over empty source text.
    fn default() -> (s: Scanner)
        ensures
            s.wf(),
            s.source@ == Seq::<char>::empty(),
            s.current == 0,
            s.line == 0,
    {
        proof {
            reveal_strlit("");
        }
        let s = Scanner::new("");
        proof {
            assert(s.source@ =~= Seq::<char>::empty());
        }
        s
    }
}

/// Whether two pieces of text spell the same characters.
#[verifier::loop_isolation(false)]
fn str_eq(a: &str, b: &str) -> (r: bool)
    ensures
        r == (a@ == b@),
{
    let n = a.unicode_len();
    if n != b.unicode_len() {
        proof {
            assert(a@.len() != b@.len());
        }
        return false;
    }
    let mut i: usize = 0;
    while i < n
        invariant
            n == a@.len(),
            n == b@.len(),
            i <= n,
            forall|j: int| 0 <= j < i ==> a@[j] == b@[j],
        decreases n - i,
    {
        if a.get_char(i) != b.get_char(i) {
            return false;
        }
        i = i + 1;
    }
    proof {
        assert(i == n);
        assert(forall|j: int| 0 <= j < a@.len() ==> a@[j] == b@[j]);
        assert(a@ =~= b@);
    }
    true
}

} // verus!
