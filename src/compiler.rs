use vstd::prelude::*;
use crate::chunk::{Chunk, ConstantOp, OpCode, constant_instruction, operand_fits};
use crate::token::{SourceLocation, Token, TokenKind, kind_of};
use crate::value::Value;

verus! {

/// Binding strength of an operator, lowest first.
pub type Precedence = u8;

pub const PREC_NONE: Precedence = 0;
pub const PREC_ASSIGNMENT: Precedence = 1;
pub const PREC_OR: Precedence = 2;
pub const PREC_AND: Precedence = 3;
pub const PREC_EQUALITY: Precedence = 4;
pub const PREC_COMPARISON: Precedence = 5;
pub const PREC_TERM: Precedence = 6;
pub const PREC_FACTOR: Precedence = 7;
pub const PREC_UNARY: Precedence = 8;
pub const PREC_CALL: Precedence = 9;
pub const PREC_PRIMARY: Precedence = 10;

/// What a syntax error is about.
#[derive(Debug, Clone, Copy, PartialEq, Eq, Structural)]
pub enum SyntaxError {
    /// No expression can start with the token found.
    ExpectedExpression,
    /// The token found is not the one the grammar requires here.
    Expected(TokenKind),
    /// The token found is an operator with no binary form.
    UnsupportedOperator,
}

/// A syntax error, with the token it was found at.
#[derive(Debug, Clone, Copy, PartialEq, Eq, Structural)]
pub struct CompileError {
    pub error: SyntaxError,
    pub found: TokenKind,
    pub location: SourceLocation,
}

/// The result of a compilation: the chunk, and the syntax errors reported.
/// The chunk is meant to be run only when there are no errors.
#[derive(Debug)]
pub struct Compiled {
    pub chunk: Chunk,
    pub errors: Vec<CompileError>,
}

/// How a token behaves at the start of an expression.
#[derive(Debug, Clone, Copy, PartialEq, Eq, Structural)]
pub enum PrefixRule {
    Literal,
    Number,
    Variable,
    Unary,
    Grouping,
}

pub open spec fn precedence_of(k: TokenKind) -> Precedence {
    match k {
        TokenKind::Assign => PREC_ASSIGNMENT,
        TokenKind::Equal | TokenKind::NotEqual => PREC_EQUALITY,
        TokenKind::GreaterThan | TokenKind::LessThan | TokenKind::GreaterThanOrEqual
        | TokenKind::LessThanOrEqual => PREC_COMPARISON,
        TokenKind::Plus | TokenKind::Minus => PREC_TERM,
        TokenKind::Star | TokenKind::Slash => PREC_FACTOR,
        _ => PREC_NONE,
    }
}

/// The prefix dispatch table.
pub open spec fn prefix_rule_of(k: TokenKind) -> Option<PrefixRule> {
    match k {
        TokenKind::True | TokenKind::False | TokenKind::Nil => Some(PrefixRule::Literal),
        TokenKind::Number => Some(PrefixRule::Number),
        TokenKind::Identifier => Some(PrefixRule::Variable),
        TokenKind::Minus => Some(PrefixRule::Unary),
        TokenKind::LeftParen => Some(PrefixRule::Grouping),
        _ => None,
    }
}

/// The infix dispatch table: the instruction each binary operator emits.
pub open spec fn infix_rule_of(k: TokenKind) -> Option<OpCode> {
    match k {
        TokenKind::Plus => Some(OpCode::Add),
        TokenKind::Minus => Some(OpCode::Subtract),
        TokenKind::Star => Some(OpCode::Multiply),
        TokenKind::Slash => Some(OpCode::Divide),
        _ => None,
    }
}

/// The keywords at which error recovery resumes.
pub open spec fn is_boundary(k: TokenKind) -> bool {
    k == TokenKind::Class || k == TokenKind::Function || k == TokenKind::Let || k == TokenKind::For
        || k == TokenKind::If || k == TokenKind::While || k == TokenKind::Print || k
        == TokenKind::Return
}

fn token_precedence(k: TokenKind) -> (p: Precedence)
    ensures
        p == precedence_of(k),
{
    match k {
        TokenKind::Assign => PREC_ASSIGNMENT,
        TokenKind::Equal | TokenKind::NotEqual => PREC_EQUALITY,
        TokenKind::GreaterThan | TokenKind::LessThan | TokenKind::GreaterThanOrEqual
        | TokenKind::LessThanOrEqual => PREC_COMPARISON,
        TokenKind::Plus | TokenKind::Minus => PREC_TERM,
        TokenKind::Star | TokenKind::Slash => PREC_FACTOR,
        _ => PREC_NONE,
    }
}

fn prefix_rule(k: TokenKind) -> (r: Option<PrefixRule>)
    ensures
        r == prefix_rule_of(k),
{
    match k {
        TokenKind::True | TokenKind::False | TokenKind::Nil => Some(PrefixRule::Literal),
        TokenKind::Number => Some(PrefixRule::Number),
        TokenKind::Identifier => Some(PrefixRule::Variable),
        TokenKind::Minus => Some(PrefixRule::Unary),
        TokenKind::LeftParen => Some(PrefixRule::Grouping),
        _ => None,
    }
}

fn infix_rule(k: TokenKind) -> (r: Option<OpCode>)
    ensures
        r == infix_rule_of(k),
{
    match k {
        TokenKind::Plus => Some(OpCode::Add),
        TokenKind::Minus => Some(OpCode::Subtract),
        TokenKind::Star => Some(OpCode::Multiply),
        TokenKind::Slash => Some(OpCode::Divide),
        _ => None,
    }
}

fn boundary(k: TokenKind) -> (r: bool)
    ensures
        r == is_boundary(k),
{
    match k {
        TokenKind::Class | TokenKind::Function | TokenKind::Let | TokenKind::For | TokenKind::If
        | TokenKind::While | TokenKind::Print | TokenKind::Return => true,
        _ => false,
    }
}

/// The compiler's state: the token cursor, whether an error is being
/// recovered from, the code emitted so far and the errors reported.
pub struct Emit {
    pub pos: int,
    pub panicking: bool,
    pub code: Seq<OpCode>,
    pub constants: Seq<Value>,
    pub lines: Seq<usize>,
    pub errors: Seq<CompileError>,
}

/// The kind of token `i`; past the end, the end of input.
pub open spec fn kind_at(toks: Seq<(Token, SourceLocation)>, i: int) -> TokenKind {
    if 0 <= i < toks.len() {
        kind_of(toks[i].0)
    } else {
        TokenKind::Eof
    }
}

/// The location of token `i`; past the end, line 0 and column 0.
pub open spec fn loc_at(toks: Seq<(Token, SourceLocation)>, i: int) -> SourceLocation {
    if 0 <= i < toks.len() {
        toks[i].1
    } else {
        SourceLocation { line: 0, column: 0 }
    }
}

/// The name an identifier token carries.
pub open spec fn name_at(toks: Seq<(Token, SourceLocation)>, i: int) -> String {
    match toks[i].0 {
        Token::Identifier(name) => name,
        _ => arbitrary(),
    }
}

pub open spec fn advance(s: Emit) -> Emit {
    Emit { pos: s.pos + 1, ..s }
}

/// Reports error `e` at the current token, unless an error is already being
/// recovered from.
pub open spec fn error(toks: Seq<(Token, SourceLocation)>, s: Emit, e: SyntaxError) -> Emit {
    if s.panicking {
        s
    } else {
        Emit {
            panicking: true,
            errors: s.errors.push(
                CompileError { error: e, found: kind_at(toks, s.pos), location: loc_at(toks, s.pos) },
            ),
            ..s
        }
    }
}

pub open spec fn emit(s: Emit, op: OpCode, line: usize) -> Emit {
    Emit { code: s.code.push(op), lines: s.lines.push(line), ..s }
}

pub open spec fn emit_constant(s: Emit, op: ConstantOp, value: Value, line: usize) -> Emit {
    Emit {
        code: s.code.push(constant_instruction(op, s.constants.len() as usize)),
        constants: s.constants.push(value),
        lines: s.lines.push(line),
        ..s
    }
}

/// Moves past the current token if it is of kind `k`; reports an error
/// otherwise.
pub open spec fn consume(toks: Seq<(Token, SourceLocation)>, s: Emit, k: TokenKind) -> Emit {
    if kind_at(toks, s.pos) == k {
        advance(s)
    } else {
        error(toks, s, SyntaxError::Expected(k))
    }
}

/// Compiles an expression whose operators bind at least as tightly as
/// `min`.
pub open spec fn parse_precedence(
    toks: Seq<(Token, SourceLocation)>,
    nums: Seq<u64>,
    s: Emit,
    min: Precedence,
) -> Emit
    decreases toks.len() - s.pos, 2int,
{
    if s.pos < 0 || s.pos > toks.len() {
        s
    } else {
        match prefix_rule_of(kind_at(toks, s.pos)) {
            None => error(toks, s, SyntaxError::ExpectedExpression),
            Some(rule) => {
                let s1 = prefix(toks, nums, s, rule);
                if s.pos <= s1.pos <= toks.len() {
                    infix_loop(toks, nums, s1, min)
                } else {
                    s1
                }
            },
        }
    }
}

/// Compiles the expression that starts with the current token, by its
/// prefix rule.
pub open spec fn prefix(
    toks: Seq<(Token, SourceLocation)>,
    nums: Seq<u64>,
    s: Emit,
    rule: PrefixRule,
) -> Emit
    decreases toks.len() - s.pos, 1int,
{
    if s.pos < 0 || s.pos >= toks.len() {
        s
    } else {
        let line = loc_at(toks, s.pos).line;
        let t = advance(s);
        match rule {
            PrefixRule::Literal => match kind_at(toks, s.pos) {
                TokenKind::True => emit(t, OpCode::Boolean(true), line),
                TokenKind::False => emit(t, OpCode::Boolean(false), line),
                _ => emit(t, OpCode::Nil, line),
            },
            PrefixRule::Number => emit_constant(t, ConstantOp::Load, Value::Number(nums[s.pos]), line),
            PrefixRule::Variable => emit_constant(
                t,
                ConstantOp::AccessGlobal,
                Value::Identifier(name_at(toks, s.pos)),
                line,
            ),
            PrefixRule::Unary => emit(parse_precedence(toks, nums, t, PREC_UNARY), OpCode::Negate, line),
            PrefixRule::Grouping => consume(
                toks,
                parse_precedence(toks, nums, t, PREC_ASSIGNMENT),
                TokenKind::RightParen,
            ),
        }
    }
}

/// Continues an expression with binary operators binding at least as
/// tightly as `min`. The right operand of an operator is compiled one level
/// tighter than the operator, so operators of one level group to the left.
pub open spec fn infix_loop(
    toks: Seq<(Token, SourceLocation)>,
    nums: Seq<u64>,
    s: Emit,
    min: Precedence,
) -> Emit
    decreases toks.len() - s.pos, 0int,
{
    if s.pos < 0 || s.pos >= toks.len() {
        s
    } else {
        let k = kind_at(toks, s.pos);
        if precedence_of(k) < min {
            s
        } else {
            match infix_rule_of(k) {
                None => error(toks, s, SyntaxError::UnsupportedOperator),
                Some(op) => {
                    let line = loc_at(toks, s.pos).line;
                    let s1 = parse_precedence(toks, nums, advance(s), (precedence_of(k) + 1) as u8);
                    let s2 = emit(s1, op, line);
                    if s.pos < s2.pos <= toks.len() {
                        infix_loop(toks, nums, s2, min)
                    } else {
                        s2
                    }
                },
            }
        }
    }
}

pub open spec fn expression(toks: Seq<(Token, SourceLocation)>, nums: Seq<u64>, s: Emit) -> Emit {
    parse_precedence(toks, nums, s, PREC_ASSIGNMENT)
}

/// Ends a statement: a `;` is consumed; at the end of input none is needed.
pub open spec fn end_statement(toks: Seq<(Token, SourceLocation)>, s: Emit) -> Emit {
    let k = kind_at(toks, s.pos);
    if k == TokenKind::Semicolon {
        advance(s)
    } else if k == TokenKind::Eof {
        s
    } else {
        error(toks, s, SyntaxError::Expected(TokenKind::Semicolon))
    }
}

/// `print expression`: the value is printed.
pub open spec fn print_statement(toks: Seq<(Token, SourceLocation)>, nums: Seq<u64>, s: Emit) -> Emit {
    let line = loc_at(toks, s.pos).line;
    end_statement(toks, emit(expression(toks, nums, advance(s)), OpCode::Print, line))
}

/// `let name = expression`: the value is bound to the global `name`.
pub open spec fn let_declaration(toks: Seq<(Token, SourceLocation)>, nums: Seq<u64>, s: Emit) -> Emit {
    let s1 = advance(s);
    if kind_at(toks, s1.pos) != TokenKind::Identifier {
        error(toks, s1, SyntaxError::Expected(TokenKind::Identifier))
    } else {
        let name = name_at(toks, s1.pos);
        let line = loc_at(toks, s1.pos).line;
        let s2 = consume(toks, advance(s1), TokenKind::Assign);
        let s3 = expression(toks, nums, s2);
        end_statement(
            toks,
            emit_constant(s3, ConstantOp::DefineGlobal, Value::Identifier(name), line),
        )
    }
}

/// An expression whose value is discarded.
pub open spec fn expression_statement(
    toks: Seq<(Token, SourceLocation)>,
    nums: Seq<u64>,
    s: Emit,
) -> Emit {
    let line = loc_at(toks, s.pos).line;
    end_statement(toks, emit(expression(toks, nums, s), OpCode::Pop, line))
}

pub open spec fn statement(toks: Seq<(Token, SourceLocation)>, nums: Seq<u64>, s: Emit) -> Emit {
    let k = kind_at(toks, s.pos);
    if k == TokenKind::Print {
        print_statement(toks, nums, s)
    } else if k == TokenKind::Let {
        let_declaration(toks, nums, s)
    } else {
        expression_statement(toks, nums, s)
    }
}

/// Skips tokens up to a statement boundary keyword or the end of input.
pub open spec fn skip_to_boundary(toks: Seq<(Token, SourceLocation)>, s: Emit) -> Emit
    decreases toks.len() - s.pos,
{
    if s.pos < 0 || s.pos >= toks.len() {
        s
    } else {
        let k = kind_at(toks, s.pos);
        if k == TokenKind::Eof || is_boundary(k) {
            s
        } else {
            skip_to_boundary(toks, advance(s))
        }
    }
}

/// Recovery after an error in a statement that began at `start`: a
/// statement that consumed nothing loses its first token, then tokens are
/// skipped to a boundary, and error reporting resumes.
pub open spec fn recover(toks: Seq<(Token, SourceLocation)>, s: Emit, start: int) -> Emit {
    let s1 = if s.pos == start && kind_at(toks, s.pos) != TokenKind::Eof {
        advance(s)
    } else {
        s
    };
    Emit { panicking: false, ..skip_to_boundary(toks, s1) }
}

/// Compiles statements until the end of input.
pub open spec fn statements(toks: Seq<(Token, SourceLocation)>, nums: Seq<u64>, s: Emit) -> Emit
    decreases toks.len() - s.pos,
{
    if s.pos < 0 || s.pos >= toks.len() || kind_at(toks, s.pos) == TokenKind::Eof {
        s
    } else {
        let s1 = statement(toks, nums, s);
        let s2 = if s1.panicking {
            recover(toks, s1, s.pos)
        } else {
            s1
        };
        if s.pos < s2.pos <= toks.len() {
            statements(toks, nums, s2)
        } else {
            s2
        }
    }
}

/// From `s` to `r` at most one error was reported, and only if none was
/// being recovered from at `s`: an error sets the error state, and while it
/// is set no further error is reported.
pub open spec fn reports_at_most_once(s: Emit, r: Emit) -> bool {
    &&& s.panicking ==> r.panicking && r.errors == s.errors
    &&& !s.panicking && !r.panicking ==> r.errors == s.errors
    &&& !s.panicking && r.panicking ==> r.errors.len() == s.errors.len() + 1 && r.errors.drop_last()
        == s.errors
}

/// At most one error reported, and the cursor not moved back.
spec fn steady(s: Emit, r: Emit) -> bool {
    reports_at_most_once(s, r) && s.pos <= r.pos
}

proof fn lemma_once_error(toks: Seq<(Token, SourceLocation)>, s: Emit, e: SyntaxError)
    ensures
        steady(s, error(toks, s, e)),
        forall|k: TokenKind| steady(s, #[trigger] consume(toks, s, k)),
{
    if !s.panicking {
        let r = error(toks, s, e);
        assert(r.errors.drop_last() =~= s.errors);
        assert forall|k: TokenKind| steady(s, #[trigger] consume(toks, s, k)) by {
            if kind_at(toks, s.pos) != k {
                let c = consume(toks, s, k);
                assert(c.errors.drop_last() =~= s.errors);
            }
        }
    }
}

proof fn lemma_once_trans(a: Emit, b: Emit, c: Emit)
    requires
        steady(a, b),
        steady(b, c),
    ensures
        steady(a, c),
{
}

proof fn lemma_once_parse_precedence(
    toks: Seq<(Token, SourceLocation)>,
    nums: Seq<u64>,
    s: Emit,
    min: Precedence,
)
    ensures
        steady(s, parse_precedence(toks, nums, s, min)),
    decreases toks.len() - s.pos, 2int,
{
    if 0 <= s.pos <= toks.len() {
        match prefix_rule_of(kind_at(toks, s.pos)) {
            None => {
                lemma_once_error(toks, s, SyntaxError::ExpectedExpression);
            },
            Some(rule) => {
                let s1 = prefix(toks, nums, s, rule);
                lemma_once_prefix(toks, nums, s, rule);
                if s.pos <= s1.pos <= toks.len() {
                    lemma_once_infix_loop(toks, nums, s1, min);
                    lemma_once_trans(s, s1, infix_loop(toks, nums, s1, min));
                }
            },
        }
    }
}

proof fn lemma_once_prefix(
    toks: Seq<(Token, SourceLocation)>,
    nums: Seq<u64>,
    s: Emit,
    rule: PrefixRule,
)
    ensures
        steady(s, prefix(toks, nums, s, rule)),
    decreases toks.len() - s.pos, 1int,
{
    if 0 <= s.pos < toks.len() {
        let t = advance(s);
        match rule {
            PrefixRule::Unary => {
                lemma_once_parse_precedence(toks, nums, t, PREC_UNARY);
            },
            PrefixRule::Grouping => {
                let s1 = parse_precedence(toks, nums, t, PREC_ASSIGNMENT);
                lemma_once_parse_precedence(toks, nums, t, PREC_ASSIGNMENT);
                lemma_once_error(toks, s1, SyntaxError::ExpectedExpression);
                lemma_once_trans(s, s1, consume(toks, s1, TokenKind::RightParen));
            },
            _ => {},
        }
    }
}

proof fn lemma_once_infix_loop(
    toks: Seq<(Token, SourceLocation)>,
    nums: Seq<u64>,
    s: Emit,
    min: Precedence,
)
    ensures
        steady(s, infix_loop(toks, nums, s, min)),
    decreases toks.len() - s.pos, 0int,
{
    if 0 <= s.pos < toks.len() {
        let k = kind_at(toks, s.pos);
        if precedence_of(k) >= min {
            match infix_rule_of(k) {
                None => {
                    lemma_once_error(toks, s, SyntaxError::UnsupportedOperator);
                },
                Some(op) => {
                    let line = loc_at(toks, s.pos).line;
                    let p = (precedence_of(k) + 1) as u8;
                    let s1 = parse_precedence(toks, nums, advance(s), p);
                    lemma_once_parse_precedence(toks, nums, advance(s), p);
                    let s2 = emit(s1, op, line);
                    if s.pos < s2.pos <= toks.len() {
                        lemma_once_infix_loop(toks, nums, s2, min);
                        lemma_once_trans(s, s2, infix_loop(toks, nums, s2, min));
                    }
                },
            }
        }
    }
}

proof fn lemma_once_end_statement(toks: Seq<(Token, SourceLocation)>, s: Emit)
    ensures
        steady(s, end_statement(toks, s)),
{
    lemma_once_error(toks, s, SyntaxError::Expected(TokenKind::Semicolon));
}

proof fn lemma_once_statement(toks: Seq<(Token, SourceLocation)>, nums: Seq<u64>, s: Emit)
    ensures
        steady(s, statement(toks, nums, s)),
{
    let k = kind_at(toks, s.pos);
    if k == TokenKind::Print {
        let line = loc_at(toks, s.pos).line;
        let s1 = expression(toks, nums, advance(s));
        lemma_once_parse_precedence(toks, nums, advance(s), PREC_ASSIGNMENT);
        let s2 = emit(s1, OpCode::Print, line);
        lemma_once_end_statement(toks, s2);
        lemma_once_trans(s, s2, end_statement(toks, s2));
    } else if k == TokenKind::Let {
        let s1 = advance(s);
        lemma_once_error(toks, s1, SyntaxError::Expected(TokenKind::Identifier));
        if kind_at(toks, s1.pos) == TokenKind::Identifier {
            let name = name_at(toks, s1.pos);
            let line = loc_at(toks, s1.pos).line;
            let s2 = consume(toks, advance(s1), TokenKind::Assign);
            lemma_once_error(toks, advance(s1), SyntaxError::Expected(TokenKind::Assign));
            let s3 = expression(toks, nums, s2);
            lemma_once_parse_precedence(toks, nums, s2, PREC_ASSIGNMENT);
            lemma_once_trans(s, s2, s3);
            let s4 = emit_constant(s3, ConstantOp::DefineGlobal, Value::Identifier(name), line);
            lemma_once_end_statement(toks, s4);
            lemma_once_trans(s, s4, end_statement(toks, s4));
        }
    } else {
        let line = loc_at(toks, s.pos).line;
        let s1 = expression(toks, nums, s);
        lemma_once_parse_precedence(toks, nums, s, PREC_ASSIGNMENT);
        let s2 = emit(s1, OpCode::Pop, line);
        lemma_once_end_statement(toks, s2);
        lemma_once_trans(s, s2, end_statement(toks, s2));
    }
}

proof fn lemma_skip_to_boundary(toks: Seq<(Token, SourceLocation)>, s: Emit)
    requires
        0 <= s.pos,
    ensures
        ({
            let r = skip_to_boundary(toks, s);
            &&& r.errors == s.errors
            &&& r.pos >= toks.len() || kind_at(toks, r.pos) == TokenKind::Eof || is_boundary(
                kind_at(toks, r.pos),
            )
        }),
    decreases toks.len() - s.pos,
{
    if s.pos < toks.len() {
        let k = kind_at(toks, s.pos);
        if !(k == TokenKind::Eof || is_boundary(k)) {
            lemma_skip_to_boundary(toks, advance(s));
        }
    }
}

/// A syntax error in a statement sets the error state and is the only error
/// the statement reports; recovery then resumes reporting at a statement
/// boundary keyword or at the end of input, with no error added.
pub proof fn syntax_errors_are_reported_once(
    toks: Seq<(Token, SourceLocation)>,
    nums: Seq<u64>,
    s: Emit,
)
    requires
        !s.panicking,
        0 <= s.pos,
    ensures
        ({
            let r = statement(toks, nums, s);
            let q = recover(toks, r, s.pos);
            &&& r.errors.len() <= s.errors.len() + 1
            &&& r.errors.subrange(0, s.errors.len() as int) == s.errors
            &&& r.panicking <==> r.errors.len() == s.errors.len() + 1
            &&& !q.panicking
            &&& q.errors == r.errors
            &&& q.pos >= toks.len() || kind_at(toks, q.pos) == TokenKind::Eof || is_boundary(
                kind_at(toks, q.pos),
            )
        }),
{
    let r = statement(toks, nums, s);
    lemma_once_statement(toks, nums, s);
    assert(r.errors.subrange(0, s.errors.len() as int) =~= s.errors) by {
        if r.panicking {
            assert(r.errors.drop_last() =~= r.errors.subrange(0, s.errors.len() as int));
        }
    }
    let s1 = if r.pos == s.pos && kind_at(toks, r.pos) != TokenKind::Eof {
        advance(r)
    } else {
        r
    };
    lemma_skip_to_boundary(toks, s1);
}

/// The state a compilation starts in.
pub open spec fn start() -> Emit {
    Emit {
        pos: 0,
        panicking: false,
        code: Seq::empty(),
        constants: Seq::empty(),
        lines: Seq::empty(),
        errors: Seq::empty(),
    }
}

pub open spec fn emitted(c: Compiled, s: Emit) -> bool {
    &&& c.chunk.code@ == s.code
    &&& c.chunk.constants@ == s.constants
    &&& c.chunk.lines@ == s.lines
    &&& c.errors@ == s.errors
}

struct Compiler {
    tokens: Vec<(Token, SourceLocation)>,
    numbers: Vec<u64>,
    position: usize,
    is_in_error_state: bool,
    chunk: Chunk,
    errors: Vec<CompileError>,
}

impl Compiler {
    spec fn view(&self) -> Emit {
        Emit {
            pos: self.position as int,
            panicking: self.is_in_error_state,
            code: self.chunk.code@,
            constants: self.chunk.constants@,
            lines: self.chunk.lines@,
            errors: self.errors@,
        }
    }

    spec fn toks(&self) -> Seq<(Token, SourceLocation)> {
        self.tokens@
    }

    spec fn nums(&self) -> Seq<u64> {
        self.numbers@
    }

    spec fn well_formed(&self) -> bool {
        &&& self.numbers@.len() == self.tokens@.len()
        &&& self.position <= self.tokens@.len()
        &&& self.chunk.well_formed()
    }

    spec fn same_input(&self, other: &Compiler) -> bool {
        &&& self.tokens@ == other.tokens@
        &&& self.numbers@ == other.numbers@
    }

    fn new(tokens: Vec<(Token, SourceLocation)>, numbers: Vec<u64>) -> (c: Compiler)
        requires
            numbers@.len() == tokens@.len(),
        ensures
            c.well_formed(),
            c.view() == start(),
            c.tokens@ == tokens@,
            c.numbers@ == numbers@,
    {
        Compiler {
            tokens,
            numbers,
            position: 0,
            is_in_error_state: false,
            chunk: Chunk::new(),
            errors: Vec::new(),
        }
    }

    fn current_kind(&self) -> (k: TokenKind)
        requires
            self.well_formed(),
        ensures
            k == kind_at(self.toks(), self.position as int),
    {
        if self.position < self.tokens.len() {
            self.tokens[self.position].0.kind()
        } else {
            TokenKind::Eof
        }
    }

    fn current_location(&self) -> (l: SourceLocation)
        requires
            self.well_formed(),
        ensures
            l == loc_at(self.toks(), self.position as int),
    {
        if self.position < self.tokens.len() {
            self.tokens[self.position].1
        } else {
            SourceLocation { line: 0, column: 0 }
        }
    }

    fn advance(&mut self)
        requires
            old(self).well_formed(),
            kind_at(old(self).toks(), old(self).position as int) != TokenKind::Eof,
        ensures
            final(self).well_formed(),
            final(self).same_input(old(self)),
            final(self).view() == advance(old(self).view()),
    {
        let n = self.tokens.len();
        assert(self.position < n);
        self.position = self.position + 1;
    }

    fn error(&mut self, e: SyntaxError)
        requires
            old(self).well_formed(),
        ensures
            final(self).well_formed(),
            final(self).same_input(old(self)),
            final(self).view() == error(old(self).toks(), old(self).view(), e),
    {
        if self.is_in_error_state {
            return;
        }
        self.is_in_error_state = true;
        let found = self.current_kind();
        let location = self.current_location();
        self.errors.push(CompileError { error: e, found, location });
    }

    fn emit(&mut self, op: OpCode, line: usize)
        requires
            old(self).well_formed(),
            operand_fits(op, 0),
        ensures
            final(self).well_formed(),
            final(self).same_input(old(self)),
            final(self).view() == emit(old(self).view(), op, line),
    {
        self.chunk.write(op, line);
    }

    fn emit_constant(&mut self, op: ConstantOp, value: Value, line: usize)
        requires
            old(self).well_formed(),
        ensures
            final(self).well_formed(),
            final(self).same_input(old(self)),
            final(self).view() == emit_constant(old(self).view(), op, value, line),
    {
        self.chunk.write_constant_op(op, value, line);
    }

    fn consume(&mut self, k: TokenKind)
        requires
            old(self).well_formed(),
            k != TokenKind::Eof,
        ensures
            final(self).well_formed(),
            final(self).same_input(old(self)),
            final(self).view() == consume(old(self).toks(), old(self).view(), k),
    {
        if self.current_kind() == k {
            self.advance();
        } else {
            self.error(SyntaxError::Expected(k));
        }
    }

    fn parse_precedence(&mut self, min: Precedence)
        requires
            old(self).well_formed(),
        ensures
            final(self).well_formed(),
            final(self).same_input(old(self)),
            final(self).view() == parse_precedence(old(self).toks(), old(self).nums(), old(self).view(), min),
            final(self).position > old(self).position || final(self).is_in_error_state,
            final(self).position >= old(self).position,
        decreases old(self).toks().len() - old(self).position, 2int,
    {
        match prefix_rule(self.current_kind()) {
            None => self.error(SyntaxError::ExpectedExpression),
            Some(rule) => {
                self.prefix(rule);
                self.infix_loop(min);
            },
        }
    }

    fn prefix(&mut self, rule: PrefixRule)
        requires
            old(self).well_formed(),
            prefix_rule_of(kind_at(old(self).toks(), old(self).position as int)) == Some(rule),
        ensures
            final(self).well_formed(),
            final(self).same_input(old(self)),
            final(self).view() == prefix(old(self).toks(), old(self).nums(), old(self).view(), rule),
            final(self).position > old(self).position,
        decreases old(self).toks().len() - old(self).position, 1int,
    {
        let kind = self.current_kind();
        let line = self.current_location().line;
        let at = self.position;
        self.advance();
        match rule {
            PrefixRule::Literal => {
                match kind {
                    TokenKind::True => self.emit(OpCode::Boolean(true), line),
                    TokenKind::False => self.emit(OpCode::Boolean(false), line),
                    _ => self.emit(OpCode::Nil, line),
                }
            },
            PrefixRule::Number => {
                let bits = self.numbers[at];
                self.emit_constant(ConstantOp::Load, Value::Number(bits), line);
            },
            PrefixRule::Variable => {
                let name = match &self.tokens[at].0 {
                    Token::Identifier(name) => name.clone(),
                    _ => String::new(),
                };
                self.emit_constant(ConstantOp::AccessGlobal, Value::Identifier(name), line);
            },
            PrefixRule::Unary => {
                self.parse_precedence(PREC_UNARY);
                self.emit(OpCode::Negate, line);
            },
            PrefixRule::Grouping => {
                self.parse_precedence(PREC_ASSIGNMENT);
                self.consume(TokenKind::RightParen);
            },
        }
    }

    fn infix_loop(&mut self, min: Precedence)
        requires
            old(self).well_formed(),
        ensures
            final(self).well_formed(),
            final(self).same_input(old(self)),
            final(self).view() == infix_loop(old(self).toks(), old(self).nums(), old(self).view(), min),
            final(self).position >= old(self).position,
        decreases old(self).toks().len() - old(self).position, 0int,
    {
        if self.position >= self.tokens.len() {
            return;
        }
        let kind = self.current_kind();
        let precedence = token_precedence(kind);
        if precedence < min {
            return;
        }
        match infix_rule(kind) {
            None => self.error(SyntaxError::UnsupportedOperator),
            Some(op) => {
                let line = self.current_location().line;
                self.advance();
                self.parse_precedence(precedence + 1);
                self.emit(op, line);
                self.infix_loop(min);
            },
        }
    }

    fn expression(&mut self)
        requires
            old(self).well_formed(),
        ensures
            final(self).well_formed(),
            final(self).same_input(old(self)),
            final(self).view() == expression(old(self).toks(), old(self).nums(), old(self).view()),
            final(self).position > old(self).position || final(self).is_in_error_state,
            final(self).position >= old(self).position,
    {
        self.parse_precedence(PREC_ASSIGNMENT);
    }

    fn end_statement(&mut self)
        requires
            old(self).well_formed(),
        ensures
            final(self).well_formed(),
            final(self).same_input(old(self)),
            final(self).view() == end_statement(old(self).toks(), old(self).view()),
            final(self).position >= old(self).position,
            old(self).is_in_error_state ==> final(self).is_in_error_state,
    {
        let kind = self.current_kind();
        if kind == TokenKind::Semicolon {
            self.advance();
        } else if kind != TokenKind::Eof {
            self.error(SyntaxError::Expected(TokenKind::Semicolon));
        }
    }

    fn print_statement(&mut self)
        requires
            old(self).well_formed(),
            kind_at(old(self).toks(), old(self).position as int) == TokenKind::Print,
        ensures
            final(self).well_formed(),
            final(self).same_input(old(self)),
            final(self).view() == print_statement(old(self).toks(), old(self).nums(), old(self).view()),
            final(self).position > old(self).position,
    {
        let line = self.current_location().line;
        self.advance();
        self.expression();
        self.emit(OpCode::Print, line);
        self.end_statement();
    }

    fn let_declaration(&mut self)
        requires
            old(self).well_formed(),
            kind_at(old(self).toks(), old(self).position as int) == TokenKind::Let,
        ensures
            final(self).well_formed(),
            final(self).same_input(old(self)),
            final(self).view() == let_declaration(old(self).toks(), old(self).nums(), old(self).view()),
            final(self).position > old(self).position,
    {
        self.advance();
        if self.current_kind() != TokenKind::Identifier {
            self.error(SyntaxError::Expected(TokenKind::Identifier));
            return;
        }
        let name = match &self.tokens[self.position].0 {
            Token::Identifier(name) => name.clone(),
            _ => String::new(),
        };
        let line = self.current_location().line;
        self.advance();
        self.consume(TokenKind::Assign);
        self.expression();
        self.emit_constant(ConstantOp::DefineGlobal, Value::Identifier(name), line);
        self.end_statement();
    }

    fn expression_statement(&mut self)
        requires
            old(self).well_formed(),
        ensures
            final(self).well_formed(),
            final(self).same_input(old(self)),
            final(self).view() == expression_statement(old(self).toks(), old(self).nums(), old(self).view()),
            final(self).position > old(self).position || final(self).is_in_error_state,
            final(self).position >= old(self).position,
    {
        let line = self.current_location().line;
        self.expression();
        self.emit(OpCode::Pop, line);
        self.end_statement();
    }

    fn statement(&mut self)
        requires
            old(self).well_formed(),
        ensures
            final(self).well_formed(),
            final(self).same_input(old(self)),
            final(self).view() == statement(old(self).toks(), old(self).nums(), old(self).view()),
            final(self).position > old(self).position || final(self).is_in_error_state,
            final(self).position >= old(self).position,
    {
        let kind = self.current_kind();
        if kind == TokenKind::Print {
            self.print_statement();
        } else if kind == TokenKind::Let {
            self.let_declaration();
        } else {
            self.expression_statement();
        }
    }

    fn skip_to_boundary(&mut self)
        requires
            old(self).well_formed(),
        ensures
            final(self).well_formed(),
            final(self).same_input(old(self)),
            final(self).view() == skip_to_boundary(old(self).toks(), old(self).view()),
            final(self).position >= old(self).position,
        decreases old(self).toks().len() - old(self).position,
    {
        if self.position >= self.tokens.len() {
            return;
        }
        let kind = self.current_kind();
        if kind == TokenKind::Eof || boundary(kind) {
            return;
        }
        self.advance();
        self.skip_to_boundary();
    }

    fn recover(&mut self, start: usize)
        requires
            old(self).well_formed(),
        ensures
            final(self).well_formed(),
            final(self).same_input(old(self)),
            final(self).view() == recover(old(self).toks(), old(self).view(), start as int),
            final(self).position >= old(self).position,
            old(self).position == start && kind_at(old(self).toks(), start as int) != TokenKind::Eof
                ==> final(self).position > start,
    {
        if self.position == start && self.current_kind() != TokenKind::Eof {
            self.advance();
        }
        self.skip_to_boundary();
        self.is_in_error_state = false;
    }

    fn statements(&mut self)
        requires
            old(self).well_formed(),
            !old(self).is_in_error_state,
        ensures
            final(self).well_formed(),
            final(self).same_input(old(self)),
            final(self).view() == statements(old(self).toks(), old(self).nums(), old(self).view()),
        decreases old(self).toks().len() - old(self).position,
    {
        if self.position >= self.tokens.len() || self.current_kind() == TokenKind::Eof {
            return;
        }
        let start = self.position;
        self.statement();
        if self.is_in_error_state {
            self.recover(start);
        }
        self.statements();
    }
}

/// Compiles a program: statements up to the end of input. `numbers[i]` is
/// the binary64 value of token `i`'s text where that token is a number; its
/// other entries are not read.
pub fn compile(tokens: Vec<(Token, SourceLocation)>, numbers: Vec<u64>) -> (r: Compiled)
    requires
        numbers@.len() == tokens@.len(),
    ensures
        emitted(r, statements(tokens@, numbers@, start())),
        r.chunk.well_formed(),
{
    let mut compiler = Compiler::new(tokens, numbers);
    compiler.statements();
    Compiled { chunk: compiler.chunk, errors: compiler.errors }
}

/// Compiles a single expression that must make up the whole input; its
/// value is left on the stack.
pub fn compile_expression(tokens: Vec<(Token, SourceLocation)>, numbers: Vec<u64>) -> (r: Compiled)
    requires
        numbers@.len() == tokens@.len(),
    ensures
        ({
            let s = expression(tokens@, numbers@, start());
            emitted(
                r,
                if kind_at(tokens@, s.pos) == TokenKind::Eof {
                    s
                } else {
                    error(tokens@, s, SyntaxError::Expected(TokenKind::Eof))
                },
            )
        }),
        r.chunk.well_formed(),
{
    let mut compiler = Compiler::new(tokens, numbers);
    compiler.expression();
    if compiler.current_kind() != TokenKind::Eof {
        compiler.error(SyntaxError::Expected(TokenKind::Eof));
    }
    Compiled { chunk: compiler.chunk, errors: compiler.errors }
}

} // verus!
