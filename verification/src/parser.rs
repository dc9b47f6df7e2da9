use vstd::prelude::*;
use vstd::seq_lib::*;
use vstd::string::StringExecFns;
use crate::ast::{
    exprs_view, idents_view, opt_block_view, stmts_view, BlockStatement, BlockV, Expression,
    ExprV, Identifier, IdentV, Program, Statement, StmtV, Sticky,
};
use crate::ast::{lemma_exprs_view, lemma_stmts_view, sticky_lt, sticky_rank};
use crate::lexer::{spec_next_token, Lexer, ScanError};
use crate::render::{dec_int, int_to_string};
use crate::token::{Token, TokenV};

verus! {

// ---------------------------------------------------------------------------
// The parser's model: the scanned token stream, the cursor into it, and the
// error list accumulated so far.
// ---------------------------------------------------------------------------

pub struct PState {
    pub toks: Seq<TokenV>,
    pub pos: int,
    pub errors: Seq<Seq<char>>,
}

/// A well-formed parser state: at least one token, `EOF` exactly at the end,
/// and the cursor inside the stream.
pub open spec fn pwf(st: PState) -> bool {
    &&& st.toks.len() >= 1
    &&& st.toks[st.toks.len() - 1] == TokenV::EOF
    &&& forall|i: int| 0 <= i < st.toks.len() - 1 ==> st.toks[i] != TokenV::EOF
    &&& 0 <= st.pos < st.toks.len()
}

pub open spec fn pcur(st: PState) -> TokenV {
    st.toks[st.pos]
}

pub open spec fn ppeek(st: PState) -> TokenV {
    if st.pos + 1 < st.toks.len() {
        st.toks[st.pos + 1]
    } else {
        st.toks[st.toks.len() - 1]
    }
}

/// Advance: the peeked token becomes current; the cursor never leaves the
/// final `EOF`.
pub open spec fn padv(st: PState) -> PState {
    if st.pos + 1 < st.toks.len() {
        PState { toks: st.toks, pos: st.pos + 1, errors: st.errors }
    } else {
        st
    }
}

/// Record one error message; parsing continues.
pub open spec fn plog(st: PState, msg: Seq<char>) -> PState {
    PState { toks: st.toks, pos: st.pos, errors: st.errors.push(msg) }
}

/// Tokens left before the trailing `EOF`: the measure that every parsing step
/// consumes from.
pub open spec fn pmeasure(st: PState) -> int {
    st.toks.len() - 1 - st.pos
}

/// What every parsing step preserves: the token stream, forward-only motion
/// of the cursor, and the error list extended only at its end — errors are
/// accumulated in order and never dropped.
pub open spec fn pframe(pre: PState, post: PState) -> bool {
    &&& post.toks == pre.toks
    &&& post.pos >= pre.pos
    &&& post.errors.len() >= pre.errors.len()
    &&& forall|i: int| 0 <= i < pre.errors.len() ==> post.errors[i] == pre.errors[i]
}

/// Binding power of the token when it stands as an operator.
pub open spec fn spec_sticky(t: TokenV) -> Sticky {
    match t {
        TokenV::LParen => Sticky::CALL,
        TokenV::Plus => Sticky::SUM,
        TokenV::Minus => Sticky::SUM,
        TokenV::Asterisk => Sticky::PRODUCT,
        TokenV::Slash => Sticky::PRODUCT,
        TokenV::Lt => Sticky::LESSGREATER,
        TokenV::Gt => Sticky::LESSGREATER,
        TokenV::Eq => Sticky::EQUALS,
        TokenV::NotEq => Sticky::EQUALS,
        _ => Sticky::LOWEST,
    }
}

/// The display name of a token in an error message.
pub open spec fn token_text(t: TokenV) -> Seq<char> {
    match t {
        TokenV::Illegal => "Illegal"@,
        TokenV::EOF => "EOF"@,
        TokenV::Ident(s) => "Ident("@ + s + ")"@,
        TokenV::Int(x) => "Int("@ + dec_int(x as int) + ")"@,
        TokenV::Assign => "Assign"@,
        TokenV::Plus => "Plus"@,
        TokenV::Minus => "Minus"@,
        TokenV::Bang => "Bang"@,
        TokenV::Asterisk => "Asterisk"@,
        TokenV::Slash => "Slash"@,
        TokenV::Lt => "Lt"@,
        TokenV::Gt => "Gt"@,
        TokenV::Eq => "Eq"@,
        TokenV::NotEq => "NotEq"@,
        TokenV::Comma => "Comma"@,
        TokenV::Semicolon => "Semicolon"@,
        TokenV::LParen => "LParen"@,
        TokenV::RParen => "RParen"@,
        TokenV::LBrace => "LBrace"@,
        TokenV::RBrace => "RBrace"@,
        TokenV::Function => "Function"@,
        TokenV::Let => "Let"@,
        TokenV::True => "True"@,
        TokenV::False => "False"@,
        TokenV::If => "If"@,
        TokenV::Else => "Else"@,
        TokenV::Return => "Return"@,
    }
}

/// The message recorded when an expected token is missing.
pub open spec fn peek_error_text(expected: TokenV, got: TokenV) -> Seq<char> {
    "Expected "@ + token_text(expected) + ", Got "@ + token_text(got)
}

/// If the peeked token is the expected one, step over it (two advances);
/// otherwise record the mismatch and stay put.
pub open spec fn spec_expect_peek(st: PState, expected: TokenV) -> (bool, PState) {
    if ppeek(st) == expected {
        (true, padv(padv(st)))
    } else {
        (false, plog(st, peek_error_text(expected, ppeek(st))))
    }
}

pub open spec fn opt_expr_view(o: Option<Expression>) -> Option<ExprV> {
    match o {
        Some(e) => Some(e@),
        None => None,
    }
}

pub open spec fn opt_stmt_view(o: Option<Statement>) -> Option<StmtV> {
    match o {
        Some(s) => Some(s@),
        None => None,
    }
}

// ---------------------------------------------------------------------------
// The specification parser. Each function takes a fuel that every recursive
// step after at least one consumed token decrements; a caller that hands in
// more fuel than there are tokens left never reaches the exhausted branch,
// and the executable parser's contracts quantify over exactly those fuels.
// ---------------------------------------------------------------------------

pub open spec fn spec_parse_identifier(st: PState) -> Option<ExprV> {
    match pcur(st) {
        TokenV::Ident(x) => Some(ExprV::Ident(x)),
        _ => None,
    }
}

pub open spec fn spec_parse_integer(st: PState) -> Option<ExprV> {
    match pcur(st) {
        TokenV::Int(x) => Some(ExprV::Integer(x)),
        _ => None,
    }
}

pub open spec fn spec_parse_bool(st: PState) -> Option<ExprV> {
    if pcur(st) == TokenV::True {
        Some(ExprV::Boolean(true))
    } else {
        Some(ExprV::Boolean(false))
    }
}

/// `(`: parse the inner expression at the lowest binding power, then require
/// the matching `)`; failure to find it is a recorded error, and the parse
/// skips two tokens and yields nothing.
pub open spec fn spec_parse_grouped(st: PState, fuel: nat) -> (Option<ExprV>, PState)
    decreases fuel, 2int,
{
    if fuel == 0 {
        (None, st)
    } else {
        let st1 = padv(st);
        let (e, st2) = spec_parse_expression(st1, Sticky::LOWEST, (fuel - 1) as nat);
        if ppeek(st2) != TokenV::RParen {
            (
                None,
                plog(padv(padv(st2)), peek_error_text(TokenV::RParen, ppeek(st2))),
            )
        } else {
            (e, padv(st2))
        }
    }
}

/// `if`: requires `(`, a condition, `)`, a consequence block, and consumes an
/// `else` with its alternative block when one follows.
pub open spec fn spec_parse_if(st: PState, fuel: nat) -> (Option<ExprV>, PState)
    decreases fuel, 2int,
{
    if fuel == 0 {
        (None, st)
    } else {
        let (ok1, st1) = spec_expect_peek(st, TokenV::LParen);
        if ok1 {
            let (c, st2) = spec_parse_expression(st1, Sticky::LOWEST, (fuel - 1) as nat);
            match c {
                Some(cond) => {
                    let (ok2, st3) = spec_expect_peek(st2, TokenV::RParen);
                    if ok2 {
                        let (cons, st4) = spec_parse_block(st3, (fuel - 1) as nat);
                        if ppeek(st4) == TokenV::Else {
                            let (oke, st5) = spec_expect_peek(st4, TokenV::Else);
                            let (alt, st6) = spec_parse_block(st5, (fuel - 1) as nat);
                            (Some(ExprV::If(Box::new(cond), cons, alt)), st6)
                        } else {
                            (Some(ExprV::If(Box::new(cond), cons, None)), st4)
                        }
                    } else {
                        (None, st3)
                    }
                },
                None => (None, plog(st2, "Invalid IF condition"@)),
            }
        } else {
            (None, st1)
        }
    }
}

/// One step of the `if` rule, written out: with `(`, a condition, `)`, a
/// consequence block and an `else` with its block all found, the parse yields
/// the conditional node and the state after the alternative block.
proof fn lemma_parse_if_else_compose(
    st0: PState,
    st1: PState,
    cv: Option<ExprV>,
    st2: PState,
    st3: PState,
    consv: Option<BlockV>,
    st4: PState,
    st5: PState,
    altv: Option<BlockV>,
    st6: PState,
    f: nat,
)
    requires
        f >= 1,
        spec_expect_peek(st0, TokenV::LParen) == (true, st1),
        spec_parse_expression(st1, Sticky::LOWEST, (f - 1) as nat) == (cv, st2),
        cv is Some,
        spec_expect_peek(st2, TokenV::RParen) == (true, st3),
        spec_parse_block(st3, (f - 1) as nat) == (consv, st4),
        ppeek(st4) == TokenV::Else,
        spec_expect_peek(st4, TokenV::Else) == (true, st5),
        spec_parse_block(st5, (f - 1) as nat) == (altv, st6),
    ensures
        spec_parse_if(st0, f) == (
            Some(ExprV::If(Box::new(cv->Some_0), consv, altv)),
            st6,
        ),
{
}

/// The `if` rule without an `else`: the conditional node keeps no
/// alternative and the parse ends after the consequence block.
proof fn lemma_parse_if_no_else_compose(
    st0: PState,
    st1: PState,
    cv: Option<ExprV>,
    st2: PState,
    st3: PState,
    consv: Option<BlockV>,
    st4: PState,
    f: nat,
)
    requires
        f >= 1,
        spec_expect_peek(st0, TokenV::LParen) == (true, st1),
        spec_parse_expression(st1, Sticky::LOWEST, (f - 1) as nat) == (cv, st2),
        cv is Some,
        spec_expect_peek(st2, TokenV::RParen) == (true, st3),
        spec_parse_block(st3, (f - 1) as nat) == (consv, st4),
        ppeek(st4) != TokenV::Else,
    ensures
        spec_parse_if(st0, f) == (Some(ExprV::If(Box::new(cv->Some_0), consv, None)), st4),
{
}

/// A brace-delimited block: statements until `}` or the end of the input;
/// statements that fail to parse are omitted rather than aborting the block.
pub open spec fn spec_parse_block(st: PState, fuel: nat) -> (Option<BlockV>, PState)
    decreases fuel, 1int,
{
    if pcur(st) == TokenV::LBrace {
        if fuel == 0 {
            (None, st)
        } else {
            let st1 = padv(st);
            let (ss, st2) = spec_parse_block_loop(st1, (fuel - 1) as nat);
            (Some(BlockV { statements: ss }), st2)
        }
    } else {
        (None, st)
    }
}

pub open spec fn spec_parse_block_loop(st: PState, fuel: nat) -> (Seq<StmtV>, PState)
    decreases fuel, 7int,
{
    if pcur(st) == TokenV::RBrace || pcur(st) == TokenV::EOF {
        (Seq::empty(), st)
    } else if fuel == 0 {
        (Seq::empty(), st)
    } else {
        let (s, st1) = spec_parse_statement(st, fuel);
        let st2 = padv(st1);
        let (rest, st3) = spec_parse_block_loop(st2, (fuel - 1) as nat);
        (
            match s {
                Some(x) => seq![x] + rest,
                None => rest,
            },
            st3,
        )
    }
}

/// The comma-separated parameter names of a function literal; trailing
/// content that is neither a comma nor `)` after a parameter, or a parameter
/// that is not a bare identifier, is a recorded error.
pub open spec fn spec_parse_params(st: PState, fuel: nat) -> (Seq<IdentV>, PState)
    decreases fuel, 1int,
{
    if pcur(st) == TokenV::RParen {
        (Seq::empty(), st)
    } else {
        spec_params_loop(st, fuel)
    }
}

pub open spec fn spec_params_loop(st: PState, fuel: nat) -> (Seq<IdentV>, PState)
    decreases fuel, 0int,
{
    match pcur(st) {
        TokenV::Ident(x) => {
            let id = IdentV { token: TokenV::Ident(x), name: x };
            match ppeek(st) {
                TokenV::Comma => if fuel == 0 {
                    (seq![id], st)
                } else {
                    let (ok, st1) = spec_expect_peek(st, TokenV::Comma);
                    let (rest, st2) = spec_params_loop(st1, (fuel - 1) as nat);
                    (seq![id] + rest, st2)
                },
                TokenV::RParen => (seq![id], st),
                _ => (seq![id], plog(st, "Error parsing function parameters"@)),
            }
        },
        _ => (Seq::empty(), plog(st, "Error parsing function parameters"@)),
    }
}

/// `fn`: requires `(`, the parameter list, `)`, then the body block. With no
/// parameters the `)` is already the current token and is stepped over.
pub open spec fn spec_parse_function(st: PState, fuel: nat) -> (Option<ExprV>, PState)
    decreases fuel, 2int,
{
    if fuel == 0 {
        (None, st)
    } else {
        let (ok1, st1) = spec_expect_peek(st, TokenV::LParen);
        if ok1 {
            let (ps, st2) = spec_parse_params(st1, (fuel - 1) as nat);
            if pcur(st1) == TokenV::RParen {
                let st3 = padv(st2);
                let (blk, st4) = spec_parse_block(st3, (fuel - 1) as nat);
                (Some(ExprV::Function(ps, blk)), st4)
            } else {
                let (ok2, st3) = spec_expect_peek(st2, TokenV::RParen);
                if ok2 {
                    let (blk, st4) = spec_parse_block(st3, (fuel - 1) as nat);
                    (Some(ExprV::Function(ps, blk)), st4)
                } else {
                    (None, st3)
                }
            }
        } else {
            (None, st1)
        }
    }
}

/// The comma-separated argument expressions of a call, each at the lowest
/// binding power. The terminating `)` is required and becomes the current
/// token, so that a call can stand as an operand of an enclosing expression;
/// a missing `)` is a recorded error.
pub open spec fn spec_parse_call_args(st: PState, fuel: nat) -> (Seq<ExprV>, PState)
    decreases fuel, 1int,
{
    if ppeek(st) != TokenV::RParen {
        if fuel == 0 {
            (Seq::empty(), st)
        } else {
            let st1 = padv(st);
            let (args, st2) = spec_args_loop(st1, (fuel - 1) as nat);
            if ppeek(st2) == TokenV::RParen {
                (args, padv(st2))
            } else {
                (args, plog(st2, peek_error_text(TokenV::RParen, ppeek(st2))))
            }
        }
    } else {
        (Seq::empty(), padv(st))
    }
}

pub open spec fn spec_args_loop(st: PState, fuel: nat) -> (Seq<ExprV>, PState)
    decreases fuel, 5int,
{
    if fuel == 0 {
        (Seq::empty(), st)
    } else {
        let (e, st1) = spec_parse_expression(st, Sticky::LOWEST, fuel);
        let st1e = if e is Some {
            st1
        } else {
            plog(st1, "Error parsing function arguments"@)
        };
        match ppeek(st1e) {
            TokenV::Comma => {
                let (ok, st2) = spec_expect_peek(st1e, TokenV::Comma);
                let (rest, st3) = spec_args_loop(st2, (fuel - 1) as nat);
                (
                    match e {
                        Some(x) => seq![x] + rest,
                        None => rest,
                    },
                    st3,
                )
            },
            TokenV::RParen => (
                match e {
                    Some(x) => seq![x],
                    None => Seq::empty(),
                },
                st1e,
            ),
            _ => (
                match e {
                    Some(x) => seq![x],
                    None => Seq::empty(),
                },
                plog(st1e, "Error parsing function parameters"@),
            ),
        }
    }
}

/// An infix node: the current token is the operator, and the right operand is
/// parsed at the operator's own binding power, which makes equal-precedence
/// operators chain to the left.
pub open spec fn spec_parse_infix(st: PState, left: ExprV, fuel: nat) -> (Option<ExprV>, PState)
    decreases fuel, 1int,
{
    if fuel == 0 {
        (None, st)
    } else {
        let op = pcur(st);
        let stick = spec_sticky(pcur(st));
        let st1 = padv(st);
        let (r, st2) = spec_parse_expression(st1, stick, (fuel - 1) as nat);
        match r {
            Some(rh) => (Some(ExprV::Infix(op, Box::new(left), Box::new(rh))), st2),
            None => (None, st2),
        }
    }
}

/// The precedence-climbing loop: while the peeked token is not `;` and binds
/// strictly tighter than `stick`, extend the expression built so far with a
/// call-argument list after `(` or with an infix node after an operator.
pub open spec fn spec_infix_loop(st: PState, left: Option<ExprV>, stick: Sticky, fuel: nat) -> (
    Option<ExprV>,
    PState,
)
    decreases fuel, 1int,
{
    if left is None {
        (left, st)
    } else if ppeek(st) == TokenV::Semicolon || !(sticky_rank(stick) < sticky_rank(
        spec_sticky(ppeek(st)),
    )) {
        (left, st)
    } else if fuel == 0 {
        (left, st)
    } else {
        match ppeek(st) {
            TokenV::LParen => {
                let st1 = padv(st);
                let (args, st2) = spec_parse_call_args(st1, (fuel - 1) as nat);
                let e2 = Some(ExprV::Call(Box::new(left->Some_0), args));
                spec_infix_loop(st2, e2, stick, (fuel - 1) as nat)
            },
            TokenV::Asterisk | TokenV::Plus | TokenV::Minus | TokenV::Slash | TokenV::Eq
                | TokenV::NotEq | TokenV::Gt | TokenV::Lt => {
                let st1 = padv(st);
                let (e2, st2) = spec_parse_infix(st1, left->Some_0, (fuel - 1) as nat);
                spec_infix_loop(st2, e2, stick, (fuel - 1) as nat)
            },
            _ => (left, st),
        }
    }
}

/// One expression at minimum binding power `stick`: a prefix rule selected by
/// the current token, then the precedence-climbing loop.
pub open spec fn spec_parse_expression(st: PState, stick: Sticky, fuel: nat) -> (
    Option<ExprV>,
    PState,
)
    decreases fuel, 4int,
{
    if fuel == 0 {
        (None, st)
    } else {
        let (left, st1) = spec_parse_prefix(st, fuel);
        spec_infix_loop(st1, left, stick, fuel)
    }
}

/// The prefix rule of the current token; a token without one is a recorded
/// error and yields no expression.
pub open spec fn spec_parse_prefix(st: PState, fuel: nat) -> (Option<ExprV>, PState)
    decreases fuel, 3int,
{
    if fuel == 0 {
        (None, st)
    } else {
        match pcur(st) {
            TokenV::Function => spec_parse_function(st, fuel),
            TokenV::Ident(x) => (spec_parse_identifier(st), st),
            TokenV::If => spec_parse_if(st, fuel),
            TokenV::Int(x) => (spec_parse_integer(st), st),
            TokenV::Bang | TokenV::Minus => {
                let op = pcur(st);
                let st1 = padv(st);
                let (r, st2) = spec_parse_expression(st1, Sticky::PREFIX, (fuel - 1) as nat);
                match r {
                    Some(e) => (Some(ExprV::Prefix(op, Box::new(e))), st2),
                    None => (None, st2),
                }
            },
            TokenV::True | TokenV::False => (spec_parse_bool(st), st),
            TokenV::LParen => spec_parse_grouped(st, fuel),
            _ => (None, plog(st, "Unknown expression"@)),
        }
    }
}

/// After a `return` expression: advance up to the statement's semicolon.
pub open spec fn spec_skip_semi(st: PState, fuel: nat) -> PState
    decreases fuel, 0int,
{
    if pcur(st) != TokenV::Semicolon && pcur(st) != TokenV::EOF {
        if fuel == 0 {
            st
        } else {
            spec_skip_semi(padv(st), (fuel - 1) as nat)
        }
    } else {
        st
    }
}

pub open spec fn spec_parse_expr_statement(st: PState, stick: Sticky, fuel: nat) -> (
    Option<StmtV>,
    PState,
)
    decreases fuel, 5int,
{
    let (e, st1) = spec_parse_expression(st, Sticky::LOWEST, fuel);
    match e {
        Some(x) => (Some(StmtV::ExpressionStatement(x)), st1),
        None => (None, st1),
    }
}

/// One statement, dispatched on the current token: `let`, `return`, or an
/// expression statement. A malformed statement records an error and yields
/// nothing; parsing then continues with the next statement.
pub open spec fn spec_parse_statement(st: PState, fuel: nat) -> (Option<StmtV>, PState)
    decreases fuel, 6int,
{
    match pcur(st) {
        TokenV::Illegal => (None, st),
        TokenV::Semicolon => (None, st),
        TokenV::Let => {
            if fuel == 0 {
                (None, st)
            } else {
                let st1 = padv(st);
                match pcur(st1) {
                    TokenV::Ident(name) => {
                        let id = IdentV { token: TokenV::Ident(name), name: name };
                        let (ok, st2) = spec_expect_peek(st1, TokenV::Assign);
                        let (e, st3) = spec_parse_expression(st2, Sticky::LOWEST, (fuel - 1) as nat);
                        match e {
                            Some(x) => (Some(StmtV::LetStatement(id, x)), st3),
                            None => (None, st3),
                        }
                    },
                    _ => (
                        None,
                        plog(st1, peek_error_text(TokenV::Ident("IDEN"@), ppeek(st1))),
                    ),
                }
            }
        },
        TokenV::Return => {
            if fuel == 0 {
                (None, st)
            } else {
                let st1 = padv(st);
                let (e, st2) = spec_parse_expression(st1, Sticky::LOWEST, (fuel - 1) as nat);
                match e {
                    Some(x) => (Some(StmtV::ReturnStatement(x)), spec_skip_semi(st2, (fuel - 1) as nat)),
                    None => (None, st2),
                }
            }
        },
        _ => spec_parse_expr_statement(st, Sticky::LOWEST, fuel),
    }
}

/// The top-level loop: statements until the end of the input; statements that
/// fail to parse are omitted, their errors kept.
pub open spec fn spec_program_loop(st: PState, fuel: nat) -> (Seq<StmtV>, PState)
    decreases fuel, 7int,
{
    if pcur(st) == TokenV::EOF {
        (Seq::empty(), st)
    } else if fuel == 0 {
        (Seq::empty(), st)
    } else {
        let (s, st1) = spec_parse_statement(st, fuel);
        let st2 = padv(st1);
        let (rest, st3) = spec_program_loop(st2, (fuel - 1) as nat);
        (
            match s {
                Some(x) => seq![x] + rest,
                None => rest,
            },
            st3,
        )
    }
}

// ---------------------------------------------------------------------------
// The executable parser.
// ---------------------------------------------------------------------------

/// The parser: the scanned token stream, a cursor giving the current token
/// and one token of lookahead, and the ordered error list.
pub struct Parser {
    toks: Vec<Token>,
    pos: usize,
    errors: Vec<String>,
}

impl View for Parser {
    type V = PState;

    closed spec fn view(&self) -> PState {
        PState {
            toks: self.toks@.map_values(|t: Token| t@),
            pos: self.pos as int,
            errors: self.errors@.map_values(|s: String| s@),
        }
    }
}

impl Parser {
    pub open spec fn inv(&self) -> bool {
        pwf(self@)
    }

    /// Scans the whole input up front: the token stream that the parser will
    /// walk with its two tokens of lookahead. A fatal scan error is recorded
    /// as an error message and ends the stream early.
    pub fn new(l: Lexer) -> (p: Parser)
        requires
            l.wf(),
        ensures
            p.inv(),
            p@.pos == 0,
            p@.toks == spec_scan(l.inp(), l.pos()).0,
            p@.errors == spec_scan(l.inp(), l.pos()).1,
    {
        let mut lx = l;
        let mut toks: Vec<Token> = Vec::new();
        let mut errors: Vec<String> = Vec::new();
        loop
            invariant_except_break
                lx.wf(),
                lx.inp() == l.inp(),
                errors@.len() == 0,
                forall|i: int| 0 <= i < toks@.len() ==> toks@[i]@ != TokenV::EOF,
                spec_scan(l.inp(), l.pos()).0 == toks@.map_values(|t: Token| t@) + spec_scan(
                    lx.inp(),
                    lx.pos(),
                ).0,
                spec_scan(l.inp(), l.pos()).1 == spec_scan(lx.inp(), lx.pos()).1,
            ensures
                toks@.len() >= 1,
                toks@[toks@.len() - 1]@ == TokenV::EOF,
                forall|i: int| 0 <= i < toks@.len() - 1 ==> toks@[i]@ != TokenV::EOF,
                toks@.map_values(|t: Token| t@) == spec_scan(l.inp(), l.pos()).0,
                errors@.map_values(|s: String| s@) == spec_scan(l.inp(), l.pos()).1,
            decreases lx.inp().len() - lx.pos(),
        {
            let ghost pre = lx.pos();
            let ghost oldtoks = toks@;
            proof {
                lemma_next_token_advances(lx.inp(), pre);
            }
            match lx.next_token() {
                Ok(t) => {
                    let is_eof = match t {
                        Token::EOF => true,
                        _ => false,
                    };
                    if is_eof {
                        toks.push(t);
                        proof {
                            assert(toks@.map_values(|t2: Token| t2@) =~= oldtoks.map_values(
                                |t2: Token| t2@,
                            ).push(TokenV::EOF));
                            assert(errors@.map_values(|s: String| s@) =~= Seq::<Seq<char>>::empty());
                        }
                        break ;
                    } else {
                        toks.push(t);
                        proof {
                            assert(toks@.map_values(|t2: Token| t2@) =~= oldtoks.map_values(
                                |t2: Token| t2@,
                            ).push(t@));
                        }
                    }
                },
                Err(e) => {
                    errors.push(String::from_str("integer literal out of range"));
                    toks.push(Token::EOF);
                    proof {
                        assert(toks@.map_values(|t2: Token| t2@) =~= oldtoks.map_values(
                            |t2: Token| t2@,
                        ).push(TokenV::EOF));
                        assert(errors@.map_values(|s: String| s@) =~= seq![
                            "integer literal out of range"@,
                        ]);
                    }
                    break ;
                },
            }
        }
        let p = Parser { toks, pos: 0, errors };
        p
    }

    fn cur_ref(&self) -> (t: &Token)
        requires
            self.inv(),
        ensures
            t@ == pcur(self@),
    {
        &self.toks[self.pos]
    }

    fn peek_ref(&self) -> (t: &Token)
        requires
            self.inv(),
        ensures
            t@ == ppeek(self@),
    {
        proof {
            assert(self@.toks.len() == self.toks@.len());
        }
        if self.pos < self.toks.len() - 1 {
            &self.toks[self.pos + 1]
        } else {
            &self.toks[self.toks.len() - 1]
        }
    }

    /// Shifts the lookahead: the peeked token becomes the current one.
    fn next_token(&mut self)
        requires
            old(self).inv(),
        ensures
            final(self).inv(),
            final(self)@ == padv(old(self)@),
    {
        proof {
            assert(self@.toks.len() == self.toks@.len());
        }
        if self.pos < self.toks.len() - 1 {
            self.pos = self.pos + 1;
        }
    }

    /// Records one error message; parsing continues past it.
    pub fn log_error(&mut self, err: String)
        requires
            old(self).inv(),
        ensures
            final(self).inv(),
            final(self)@ == plog(old(self)@, err@),
    {
        self.errors.push(err);
        proof {
            assert(self@.errors =~= old(self)@.errors.push(self.errors@[self.errors@.len() - 1]@));
        }
    }

    /// The message for an expected token that was not found.
    pub fn peek_error(expected: &Token, received: &Token) -> (r: String)
        ensures
            r@ == peek_error_text(expected@, received@),
    {
        let mut s = String::from_str("Expected ");
        let e = token_text_string(expected);
        s.append(e.as_str());
        s.append(", Got ");
        let g = token_text_string(received);
        s.append(g.as_str());
        proof {
            assert(s@ =~= peek_error_text(expected@, received@));
        }
        s
    }

    /// If the peeked token is the expected one, steps over it; otherwise
    /// records the mismatch and stays put.
    fn expect_peek(&mut self, expected_token: Token) -> (r: bool)
        requires
            old(self).inv(),
            expected_token@ != TokenV::EOF,
        ensures
            final(self).inv(),
            final(self)@.toks == old(self)@.toks,
            final(self)@.pos >= old(self)@.pos,
            old(self)@.errors.is_prefix_of(final(self)@.errors),
            (r, final(self)@) == spec_expect_peek(old(self)@, expected_token@),
            r ==> pmeasure(final(self)@) <= pmeasure(old(self)@) - 1,
        decreases 0int,
    {
        let same = *self.peek_ref() == expected_token;
        if same {
            proof {
                assert(pcur(self@) != TokenV::EOF);
            }
            self.next_token();
            self.next_token();
            true
        } else {
            let pk = self.peek_ref().clone();
            let msg = Parser::peek_error(&expected_token, &pk);
            self.log_error(msg);
            false
        }
    }

    fn exp_to_sticky(token: &Token) -> (r: Sticky)
        ensures
            r == spec_sticky(token@),
    {
        match token {
            Token::LParen => Sticky::CALL,
            Token::Plus | Token::Minus => Sticky::SUM,
            Token::Asterisk | Token::Slash => Sticky::PRODUCT,
            Token::Lt | Token::Gt => Sticky::LESSGREATER,
            Token::Eq | Token::NotEq => Sticky::EQUALS,
            _ => Sticky::LOWEST,
        }
    }

    fn peek_stickiness(&self) -> (r: Sticky)
        requires
            self.inv(),
        ensures
            r == spec_sticky(ppeek(self@)),
    {
        Self::exp_to_sticky(self.peek_ref())
    }

    fn cur_stickiness(&self) -> (r: Sticky)
        requires
            self.inv(),
        ensures
            r == spec_sticky(pcur(self@)),
    {
        Self::exp_to_sticky(self.cur_ref())
    }

    fn parse_identifier(&self) -> (r: Option<Expression>)
        requires
            self.inv(),
        ensures
            opt_expr_view(r) == spec_parse_identifier(self@),
    {
        match self.cur_ref() {
            Token::Ident(x) => Some(Expression::Ident(x.clone())),
            _ => None,
        }
    }

    fn parse_integer_literal(&self) -> (r: Option<Expression>)
        requires
            self.inv(),
        ensures
            opt_expr_view(r) == spec_parse_integer(self@),
    {
        match self.cur_ref() {
            Token::Int(x) => Some(Expression::Integer(*x)),
            _ => None,
        }
    }

    fn parse_bool_literal(&self) -> (r: Option<Expression>)
        requires
            self.inv(),
        ensures
            opt_expr_view(r) == spec_parse_bool(self@),
    {
        match self.cur_ref() {
            Token::True => Some(Expression::Boolean(true)),
            _ => Some(Expression::Boolean(false)),
        }
    }

    fn parse_grouped_expression(&mut self) -> (r: Option<Expression>)
        requires
            old(self).inv(),
            pcur(old(self)@) == TokenV::LParen,
        ensures
            final(self).inv(),
            pframe(old(self)@, final(self)@),
            forall|f: nat|
                f > pmeasure(old(self)@) ==> #[trigger] spec_parse_grouped(old(self)@, f) == (
                    opt_expr_view(r),
                    final(self)@,
                ),
        decreases pmeasure(self@), 2int,
    {
        self.next_token();
        let ghost st1 = self@;
        let e = self.parse_expression(Sticky::LOWEST);
        let ghost st2 = self@;
        let ghost ev = opt_expr_view(e);
        let pk = self.peek_ref().clone();
        let matched = pk == Token::RParen;
        if !matched {
            self.next_token();
            self.next_token();
            let msg = Parser::peek_error(&Token::RParen, &pk);
            self.log_error(msg);
            proof {
                assert forall|f: nat| f > pmeasure(old(self)@) implies #[trigger]
                spec_parse_grouped(old(self)@, f) == (None::<ExprV>, self@) by {
                    assert(spec_parse_expression(st1, Sticky::LOWEST, (f - 1) as nat) == (
                        ev,
                        st2,
                    ));
                }
            }
            None
        } else {
            self.next_token();
            proof {
                assert forall|f: nat| f > pmeasure(old(self)@) implies #[trigger]
                spec_parse_grouped(old(self)@, f) == (ev, self@) by {
                    assert(spec_parse_expression(st1, Sticky::LOWEST, (f - 1) as nat) == (
                        ev,
                        st2,
                    ));
                }
            }
            e
        }
    }

    #[verifier::rlimit(100)]
    #[verifier::spinoff_prover]
    fn parse_if_expression(&mut self) -> (r: Option<Expression>)
        requires
            old(self).inv(),
        ensures
            final(self).inv(),
            pframe(old(self)@, final(self)@),
            forall|f: nat|
                f > pmeasure(old(self)@) ==> #[trigger] spec_parse_if(old(self)@, f) == (
                    opt_expr_view(r),
                    final(self)@,
                ),
        decreases pmeasure(self@), 2int,
    {
        if self.expect_peek(Token::LParen) {
            let ghost st1 = self@;
            let c = self.parse_expression(Sticky::LOWEST);
            let ghost st2 = self@;
            let ghost cv = opt_expr_view(c);
            match c {
                Some(condition) => {
                    let ghost condv = condition@;
                    if self.expect_peek(Token::RParen) {
                        let ghost st3 = self@;
                        let consequence = self.parse_block_expression();
                        let ghost st4 = self@;
                        let ghost consv = opt_block_view(consequence);
                        let has_else = *self.peek_ref() == Token::Else;
                        if has_else {
                            self.expect_peek(Token::Else);
                            let ghost st5 = self@;
                            let alternative = self.parse_block_expression();
                            let ghost altv = opt_block_view(alternative);
                            let r1 = Some(
                                Expression::If(Box::new(condition), consequence, alternative),
                            );
                            proof {
                                assert forall|f: nat| f > pmeasure(old(self)@) implies #[trigger]
                                spec_parse_if(old(self)@, f) == (opt_expr_view(r1), self@) by {
                                    assert(spec_parse_expression(
                                        st1,
                                        Sticky::LOWEST,
                                        (f - 1) as nat,
                                    ) == (cv, st2));
                                    assert(spec_parse_block(st3, (f - 1) as nat) == (consv, st4));
                                    assert(spec_parse_block(st5, (f - 1) as nat) == (altv, self@));
                                    lemma_parse_if_else_compose(
                                        old(self)@,
                                        st1,
                                        cv,
                                        st2,
                                        st3,
                                        consv,
                                        st4,
                                        st5,
                                        altv,
                                        self@,
                                        f,
                                    );
                                }
                            }
                            r1
                        } else {
                            let r1 = Some(Expression::If(Box::new(condition), consequence, None));
                            proof {
                                assert(self@ == st4);
                                assert(cv == Some(condv));
                                assert(r1->Some_0 is If);
                                assert(crate::ast::expr_view(r1->Some_0) == ExprV::If(
                                    Box::new(crate::ast::expr_view(*r1->Some_0->If_0)),
                                    opt_block_view(r1->Some_0->If_1),
                                    opt_block_view(r1->Some_0->If_2),
                                ));
                                assert(crate::ast::expr_view(*r1->Some_0->If_0) == condv);
                                assert(opt_block_view(r1->Some_0->If_1) == consv);
                                assert(opt_block_view(r1->Some_0->If_2) == None::<BlockV>);
                                assert(opt_expr_view(r1) == Some(
                                    ExprV::If(Box::new(condv), consv, None),
                                ));
                                assert forall|f: nat| f > pmeasure(old(self)@) implies #[trigger]
                                spec_parse_if(old(self)@, f) == (opt_expr_view(r1), self@) by {
                                    assert(spec_parse_expression(
                                        st1,
                                        Sticky::LOWEST,
                                        (f - 1) as nat,
                                    ) == (cv, st2));
                                    assert(spec_parse_block(st3, (f - 1) as nat) == (consv, st4));
                                    lemma_parse_if_no_else_compose(
                                        old(self)@,
                                        st1,
                                        cv,
                                        st2,
                                        st3,
                                        consv,
                                        st4,
                                        f,
                                    );
                                }
                            }
                            r1
                        }
                    } else {
                        proof {
                            assert forall|f: nat| f > pmeasure(old(self)@) implies #[trigger]
                            spec_parse_if(old(self)@, f) == (None::<ExprV>, self@) by {
                                assert(spec_parse_expression(st1, Sticky::LOWEST, (f - 1) as nat)
                                    == (cv, st2));
                            }
                        }
                        None
                    }
                },
                None => {
                    self.log_error(String::from_str("Invalid IF condition"));
                    proof {
                        assert forall|f: nat| f > pmeasure(old(self)@) implies #[trigger]
                        spec_parse_if(old(self)@, f) == (None::<ExprV>, self@) by {
                            assert(spec_parse_expression(st1, Sticky::LOWEST, (f - 1) as nat) == (
                                cv,
                                st2,
                            ));
                        }
                    }
                    None
                },
            }
        } else {
            None
        }
    }

    fn parse_block_expression(&mut self) -> (r: Option<BlockStatement>)
        requires
            old(self).inv(),
        ensures
            final(self).inv(),
            pframe(old(self)@, final(self)@),
            forall|f: nat|
                f > pmeasure(old(self)@) ==> #[trigger] spec_parse_block(old(self)@, f) == (
                    opt_block_view(r),
                    final(self)@,
                ),
        decreases pmeasure(self@), 1int,
    {
        let is_brace = *self.cur_ref() == Token::LBrace;
        if is_brace {
            self.next_token();
            let ghost st1 = self@;
            let stmts = self.parse_block_stmts();
            let r1 = Some(BlockStatement { statements: stmts });
            proof {
                assert forall|f: nat| f > pmeasure(old(self)@) implies #[trigger] spec_parse_block(
                    old(self)@,
                    f,
                ) == (opt_block_view(r1), self@) by {
                    assert(spec_parse_block_loop(st1, (f - 1) as nat) == (
                        r1->Some_0@.statements,
                        self@,
                    ));
                }
            }
            r1
        } else {
            None
        }
    }

    fn parse_block_stmts(&mut self) -> (r: Vec<Statement>)
        requires
            old(self).inv(),
        ensures
            final(self).inv(),
            pframe(old(self)@, final(self)@),
            forall|f: nat|
                f > pmeasure(old(self)@) ==> #[trigger] spec_parse_block_loop(old(self)@, f) == (
                    stmts_view(r@),
                    final(self)@,
                ),
        decreases pmeasure(self@), 7int,
    {
        let done = *self.cur_ref() == Token::RBrace || *self.cur_ref() == Token::EOF;
        if done {
            let r: Vec<Statement> = Vec::new();
            proof {
                assert(stmts_view(r@) =~= Seq::<StmtV>::empty());
            }
            r
        } else {
            let s = self.parse_statement();
            let ghost sv = opt_stmt_view(s);
            let ghost st1 = self@;
            self.next_token();
            let ghost st2 = self@;
            let mut rest = self.parse_block_stmts();
            let ghost st3 = self@;
            let ghost restv0 = stmts_view(rest@);
            proof {
                assert forall|f: nat| f > pmeasure(old(self)@) implies #[trigger]
                spec_parse_block_loop(old(self)@, f) == (
                    match sv {
                        Some(x) => seq![x] + restv0,
                        None => restv0,
                    },
                    st3,
                ) by {
                    assert(spec_parse_statement(old(self)@, f) == (sv, st1));
                    assert(spec_parse_block_loop(st2, (f - 1) as nat) == (restv0, st3));
                }
            }
            match s {
                Some(x) => {
                    let ghost restv = rest@;
                    rest.insert(0, x);
                    proof {
                        lemma_stmts_view(restv);
                        lemma_stmts_view(rest@);
                        assert(stmts_view(rest@) =~= seq![x@] + stmts_view(restv));
                    }
                    rest
                },
                None => rest,
            }
        }
    }

    fn parse_function_params(&mut self) -> (r: Vec<Identifier>)
        requires
            old(self).inv(),
        ensures
            final(self).inv(),
            pframe(old(self)@, final(self)@),
            forall|f: nat|
                f > pmeasure(old(self)@) ==> #[trigger] spec_parse_params(old(self)@, f) == (
                    idents_view(r@),
                    final(self)@,
                ),
        decreases pmeasure(self@), 1int,
    {
        let empty = *self.cur_ref() == Token::RParen;
        if empty {
            let r: Vec<Identifier> = Vec::new();
            proof {
                assert(idents_view(r@) =~= Seq::<IdentV>::empty());
            }
            r
        } else {
            self.parse_params_list()
        }
    }

    fn parse_params_list(&mut self) -> (r: Vec<Identifier>)
        requires
            old(self).inv(),
        ensures
            final(self).inv(),
            pframe(old(self)@, final(self)@),
            forall|f: nat|
                f > pmeasure(old(self)@) ==> #[trigger] spec_params_loop(old(self)@, f) == (
                    idents_view(r@),
                    final(self)@,
                ),
        decreases pmeasure(self@), 0int,
    {
        let t = self.cur_ref().clone();
        match t {
            Token::Ident(x) => {
                let iden = Identifier { token: Token::Ident(x.clone()), value: x };
                let pk = self.peek_ref().clone();
                match pk {
                    Token::Comma => {
                        self.expect_peek(Token::Comma);
                        let ghost st1 = self@;
                        let ghost idv = iden@;
                        let mut rest = self.parse_params_list();
                        let ghost st2 = self@;
                        let ghost restv0 = idents_view(rest@);
                        proof {
                            assert forall|f: nat| f > pmeasure(old(self)@) implies #[trigger]
                            spec_params_loop(old(self)@, f) == (seq![idv] + restv0, st2) by {
                                assert(spec_params_loop(st1, (f - 1) as nat) == (restv0, st2));
                            }
                        }
                        let ghost restv = rest@;
                        rest.insert(0, iden);
                        proof {
                            assert(idents_view(rest@) =~= seq![ident_at(rest@, 0)] + idents_view(
                                restv,
                            ));
                            assert(idents_view(rest@) =~= seq![idv] + restv0);
                        }
                        rest
                    },
                    Token::RParen => {
                        let r = vec![iden];
                        proof {
                            assert(idents_view(r@) =~= seq![ident_at(r@, 0)]);
                        }
                        r
                    },
                    _ => {
                        self.log_error(String::from_str("Error parsing function parameters"));
                        let r = vec![iden];
                        proof {
                            assert(idents_view(r@) =~= seq![ident_at(r@, 0)]);
                        }
                        r
                    },
                }
            },
            _ => {
                self.log_error(String::from_str("Error parsing function parameters"));
                let r: Vec<Identifier> = Vec::new();
                proof {
                    assert(idents_view(r@) =~= Seq::<IdentV>::empty());
                }
                r
            },
        }
    }

    fn parse_function(&mut self) -> (r: Option<Expression>)
        requires
            old(self).inv(),
        ensures
            final(self).inv(),
            pframe(old(self)@, final(self)@),
            forall|f: nat|
                f > pmeasure(old(self)@) ==> #[trigger] spec_parse_function(old(self)@, f) == (
                    opt_expr_view(r),
                    final(self)@,
                ),
        decreases pmeasure(self@), 2int,
    {
        if self.expect_peek(Token::LParen) {
            let ghost st1 = self@;
            let empty_list = *self.cur_ref() == Token::RParen;
            let params = self.parse_function_params();
            let ghost st2 = self@;
            let ghost psv = idents_view(params@);
            if empty_list {
                self.next_token();
                let ghost st3 = self@;
                let block = self.parse_block_expression();
                let ghost blkv = opt_block_view(block);
                let r1 = Some(Expression::Function(params, block));
                proof {
                    assert forall|f: nat| f > pmeasure(old(self)@) implies #[trigger]
                    spec_parse_function(old(self)@, f) == (opt_expr_view(r1), self@) by {
                        assert(spec_parse_params(st1, (f - 1) as nat) == (psv, st2));
                        assert(spec_parse_block(st3, (f - 1) as nat) == (blkv, self@));
                    }
                }
                r1
            } else {
                if self.expect_peek(Token::RParen) {
                    let ghost st3 = self@;
                    let block = self.parse_block_expression();
                    let ghost blkv = opt_block_view(block);
                    let r1 = Some(Expression::Function(params, block));
                    proof {
                        assert forall|f: nat| f > pmeasure(old(self)@) implies #[trigger]
                        spec_parse_function(old(self)@, f) == (opt_expr_view(r1), self@) by {
                            assert(spec_parse_params(st1, (f - 1) as nat) == (psv, st2));
                            assert(spec_parse_block(st3, (f - 1) as nat) == (blkv, self@));
                        }
                    }
                    r1
                } else {
                    proof {
                        assert forall|f: nat| f > pmeasure(old(self)@) implies #[trigger]
                        spec_parse_function(old(self)@, f) == (None::<ExprV>, self@) by {
                            assert(spec_parse_params(st1, (f - 1) as nat) == (psv, st2));
                        }
                    }
                    None
                }
            }
        } else {
            None
        }
    }

    fn parse_call_arguments(&mut self, identifier: Expression) -> (r: Option<Expression>)
        requires
            old(self).inv(),
            pcur(old(self)@) != TokenV::EOF,
        ensures
            final(self).inv(),
            pframe(old(self)@, final(self)@),
            forall|f: nat|
                f > pmeasure(old(self)@) ==> #[trigger] spec_parse_call_args(old(self)@, f).1
                    == final(self)@ && opt_expr_view(r) == Some(
                    ExprV::Call(Box::new(identifier@), spec_parse_call_args(old(self)@, f).0),
                ),
        decreases pmeasure(self@), 1int,
    {
        let immediate = *self.peek_ref() == Token::RParen;
        if !immediate {
            self.next_token();
            let ghost st1 = self@;
            let args = self.parse_call_args_list();
            let ghost st2 = self@;
            let ghost argsv = exprs_view(args@);
            let closed = *self.peek_ref() == Token::RParen;
            if closed {
                self.next_token();
            } else {
                let pk = self.peek_ref().clone();
                let msg = Parser::peek_error(&Token::RParen, &pk);
                self.log_error(msg);
            }
            let r1 = Some(Expression::Call(Box::new(identifier), args));
            proof {
                assert forall|f: nat| f > pmeasure(old(self)@) implies #[trigger]
                spec_parse_call_args(old(self)@, f) == (argsv, self@) && opt_expr_view(r1) == Some(
                    ExprV::Call(Box::new(identifier@), spec_parse_call_args(old(self)@, f).0),
                ) by {
                    assert(spec_args_loop(st1, (f - 1) as nat) == (argsv, st2));
                }
            }
            r1
        } else {
            self.next_token();
            let args: Vec<Expression> = Vec::new();
            proof {
                assert(exprs_view(args@) =~= Seq::<ExprV>::empty());
            }
            Some(Expression::Call(Box::new(identifier), args))
        }
    }

    fn parse_call_args_list(&mut self) -> (r: Vec<Expression>)
        requires
            old(self).inv(),
        ensures
            final(self).inv(),
            pframe(old(self)@, final(self)@),
            forall|f: nat|
                f > pmeasure(old(self)@) ==> #[trigger] spec_args_loop(old(self)@, f) == (
                    exprs_view(r@),
                    final(self)@,
                ),
        decreases pmeasure(self@), 5int,
    {
        let e = self.parse_expression(Sticky::LOWEST);
        let ghost st1 = self@;
        let ghost ev = opt_expr_view(e);
        if e.is_none() {
            self.log_error(String::from_str("Error parsing function arguments"));
        }
        let ghost st1e = self@;
        let pk = self.peek_ref().clone();
        match pk {
            Token::Comma => {
                self.expect_peek(Token::Comma);
                let ghost st2 = self@;
                let mut rest = self.parse_call_args_list();
                let ghost st3 = self@;
                let ghost restv0 = exprs_view(rest@);
                proof {
                    assert forall|f: nat| f > pmeasure(old(self)@) implies #[trigger]
                    spec_args_loop(old(self)@, f) == (
                        match ev {
                            Some(x) => seq![x] + restv0,
                            None => restv0,
                        },
                        st3,
                    ) by {
                        assert(spec_parse_expression(old(self)@, Sticky::LOWEST, f) == (ev, st1));
                        assert(spec_args_loop(st2, (f - 1) as nat) == (restv0, st3));
                    }
                }
                match e {
                    Some(x) => {
                        let ghost restv = rest@;
                        rest.insert(0, x);
                        proof {
                            lemma_exprs_view(restv);
                            lemma_exprs_view(rest@);
                            assert(exprs_view(rest@) =~= seq![x@] + exprs_view(restv));
                        }
                        rest
                    },
                    None => rest,
                }
            },
            Token::RParen => {
                proof {
                    assert forall|f: nat| f > pmeasure(old(self)@) implies #[trigger]
                    spec_args_loop(old(self)@, f).1 == self@ by {
                        assert(spec_parse_expression(old(self)@, Sticky::LOWEST, f) == (ev, st1));
                    }
                }
                match e {
                    Some(x) => {
                        let r = vec![x];
                        proof {
                            lemma_exprs_view(r@);
                            assert(exprs_view(r@) =~= seq![r@[0]@]);
                            assert forall|f: nat| f > pmeasure(old(self)@) implies #[trigger]
                            spec_args_loop(old(self)@, f).0 == exprs_view(r@) by {
                                assert(spec_parse_expression(old(self)@, Sticky::LOWEST, f) == (
                                    ev,
                                    st1,
                                ));
                            }
                        }
                        r
                    },
                    None => {
                        let r: Vec<Expression> = Vec::new();
                        proof {
                            assert(exprs_view(r@) =~= Seq::<ExprV>::empty());
                            assert forall|f: nat| f > pmeasure(old(self)@) implies #[trigger]
                            spec_args_loop(old(self)@, f).0 == exprs_view(r@) by {
                                assert(spec_parse_expression(old(self)@, Sticky::LOWEST, f) == (
                                    ev,
                                    st1,
                                ));
                            }
                        }
                        r
                    },
                }
            },
            _ => {
                self.log_error(String::from_str("Error parsing function parameters"));
                proof {
                    assert forall|f: nat| f > pmeasure(old(self)@) implies #[trigger]
                    spec_args_loop(old(self)@, f).1 == self@ by {
                        assert(spec_parse_expression(old(self)@, Sticky::LOWEST, f) == (ev, st1));
                    }
                }
                match e {
                    Some(x) => {
                        let r = vec![x];
                        proof {
                            lemma_exprs_view(r@);
                            assert(exprs_view(r@) =~= seq![r@[0]@]);
                            assert forall|f: nat| f > pmeasure(old(self)@) implies #[trigger]
                            spec_args_loop(old(self)@, f).0 == exprs_view(r@) by {
                                assert(spec_parse_expression(old(self)@, Sticky::LOWEST, f) == (
                                    ev,
                                    st1,
                                ));
                            }
                        }
                        r
                    },
                    None => {
                        let r: Vec<Expression> = Vec::new();
                        proof {
                            assert(exprs_view(r@) =~= Seq::<ExprV>::empty());
                            assert forall|f: nat| f > pmeasure(old(self)@) implies #[trigger]
                            spec_args_loop(old(self)@, f).0 == exprs_view(r@) by {
                                assert(spec_parse_expression(old(self)@, Sticky::LOWEST, f) == (
                                    ev,
                                    st1,
                                ));
                            }
                        }
                        r
                    },
                }
            },
        }
    }

    fn parse_infix_expression(&mut self, left: Expression) -> (r: Option<Expression>)
        requires
            old(self).inv(),
            pcur(old(self)@) != TokenV::EOF,
        ensures
            final(self).inv(),
            pframe(old(self)@, final(self)@),
            forall|f: nat|
                f > pmeasure(old(self)@) ==> #[trigger] spec_parse_infix(old(self)@, left@, f)
                    == (opt_expr_view(r), final(self)@),
        decreases pmeasure(self@), 1int,
    {
        let ghost lv = left@;
        let operator = self.cur_ref().clone();
        let stick = self.cur_stickiness();
        self.next_token();
        let ghost st1 = self@;
        let e = self.parse_expression(stick);
        let ghost ev = opt_expr_view(e);
        let r = match e {
            Some(right) => Some(Expression::Infix(operator, Box::new(left), Box::new(right))),
            None => None,
        };
        proof {
            assert forall|f: nat| f > pmeasure(old(self)@) implies #[trigger] spec_parse_infix(
                old(self)@,
                lv,
                f,
            ) == (opt_expr_view(r), self@) by {
                assert(spec_parse_expression(st1, spec_sticky(pcur(old(self)@)), (f - 1) as nat)
                    == (ev, self@));
            }
        }
        r
    }

    fn parse_infix_loop(&mut self, left: Option<Expression>, stick: Sticky) -> (r: Option<
        Expression,
    >)
        requires
            old(self).inv(),
        ensures
            final(self).inv(),
            pframe(old(self)@, final(self)@),
            forall|f: nat|
                f > pmeasure(old(self)@) ==> #[trigger] spec_infix_loop(
                    old(self)@,
                    opt_expr_view(left),
                    stick,
                    f,
                ) == (opt_expr_view(r), final(self)@),
        decreases pmeasure(self@), 1int,
    {
        if left.is_none() {
            return left;
        }
        let at_semi = *self.peek_ref() == Token::Semicolon;
        let climbs = sticky_lt(stick, self.peek_stickiness());
        if at_semi || !climbs {
            return left;
        }
        let ghost leftv = opt_expr_view(left);
        let pk = self.peek_ref().clone();
        match pk {
            Token::LParen => {
                self.next_token();
                let ghost st1 = self@;
                let lv = left.unwrap();
                let ghost lvv = lv@;
                let e2 = self.parse_call_arguments(lv);
                let ghost st2 = self@;
                let ghost e2v = opt_expr_view(e2);
                let r = self.parse_infix_loop(e2, stick);
                proof {
                    assert forall|f: nat| f > pmeasure(old(self)@) implies #[trigger]
                    spec_infix_loop(old(self)@, leftv, stick, f) == (opt_expr_view(r), self@) by {
                        assert(spec_parse_call_args(st1, (f - 1) as nat).1 == st2);
                        assert(e2v == Some(
                            ExprV::Call(
                                Box::new(lvv),
                                spec_parse_call_args(st1, (f - 1) as nat).0,
                            ),
                        ));
                        assert(spec_infix_loop(st2, e2v, stick, (f - 1) as nat) == (
                            opt_expr_view(r),
                            self@,
                        ));
                    }
                }
                r
            },
            Token::Asterisk | Token::Plus | Token::Minus | Token::Slash | Token::Eq
                | Token::NotEq | Token::Gt | Token::Lt => {
                self.next_token();
                let ghost st1 = self@;
                let lv = left.unwrap();
                let ghost lvv = lv@;
                let e2 = self.parse_infix_expression(lv);
                let ghost st2 = self@;
                let ghost e2v = opt_expr_view(e2);
                let r = self.parse_infix_loop(e2, stick);
                proof {
                    assert forall|f: nat| f > pmeasure(old(self)@) implies #[trigger]
                    spec_infix_loop(old(self)@, leftv, stick, f) == (opt_expr_view(r), self@) by {
                        assert(spec_parse_infix(st1, lvv, (f - 1) as nat) == (e2v, st2));
                        assert(spec_infix_loop(st2, e2v, stick, (f - 1) as nat) == (
                            opt_expr_view(r),
                            self@,
                        ));
                    }
                }
                r
            },
            _ => {
                proof {
                    assert(false);
                }
                left
            },
        }
    }

    fn parse_expression(&mut self, stick: Sticky) -> (r: Option<Expression>)
        requires
            old(self).inv(),
        ensures
            final(self).inv(),
            pframe(old(self)@, final(self)@),
            forall|f: nat|
                f > pmeasure(old(self)@) ==> #[trigger] spec_parse_expression(
                    old(self)@,
                    stick,
                    f,
                ) == (opt_expr_view(r), final(self)@),
        decreases pmeasure(self@), 4int,
    {
        let left = self.parse_prefix();
        let ghost st1 = self@;
        let ghost leftv = opt_expr_view(left);
        let r = self.parse_infix_loop(left, stick);
        proof {
            assert forall|f: nat| f > pmeasure(old(self)@) implies #[trigger]
            spec_parse_expression(old(self)@, stick, f) == (opt_expr_view(r), self@) by {
                assert(spec_parse_prefix(old(self)@, f) == (leftv, st1));
                assert(spec_infix_loop(st1, leftv, stick, f) == (opt_expr_view(r), self@));
            }
        }
        r
    }

    fn parse_prefix(&mut self) -> (r: Option<Expression>)
        requires
            old(self).inv(),
        ensures
            final(self).inv(),
            pframe(old(self)@, final(self)@),
            forall|f: nat|
                f > pmeasure(old(self)@) ==> #[trigger] spec_parse_prefix(old(self)@, f) == (
                    opt_expr_view(r),
                    final(self)@,
                ),
        decreases pmeasure(self@), 3int,
    {
        let t = self.cur_ref().clone();
        match t {
            Token::Function => {
                let r = self.parse_function();
                proof {
                    assert forall|f: nat| f > pmeasure(old(self)@) implies #[trigger]
                    spec_parse_prefix(old(self)@, f) == (opt_expr_view(r), self@) by {
                        assert(spec_parse_function(old(self)@, f) == (opt_expr_view(r), self@));
                    }
                }
                r
            },
            Token::Ident(_) => self.parse_identifier(),
            Token::If => {
                let r = self.parse_if_expression();
                proof {
                    assert forall|f: nat| f > pmeasure(old(self)@) implies #[trigger]
                    spec_parse_prefix(old(self)@, f) == (opt_expr_view(r), self@) by {
                        assert(spec_parse_if(old(self)@, f) == (opt_expr_view(r), self@));
                    }
                }
                r
            },
            Token::Int(_) => self.parse_integer_literal(),
            Token::Bang | Token::Minus => {
                self.next_token();
                let ghost st1 = self@;
                let right = self.parse_expression(Sticky::PREFIX);
                let ghost rv = opt_expr_view(right);
                let r = match right {
                    Some(exp) => Some(Expression::Prefix(t, Box::new(exp))),
                    None => None,
                };
                proof {
                    assert forall|f: nat| f > pmeasure(old(self)@) implies #[trigger]
                    spec_parse_prefix(old(self)@, f) == (opt_expr_view(r), self@) by {
                        assert(spec_parse_expression(st1, Sticky::PREFIX, (f - 1) as nat) == (
                            rv,
                            self@,
                        ));
                    }
                }
                r
            },
            Token::True | Token::False => self.parse_bool_literal(),
            Token::LParen => {
                let r = self.parse_grouped_expression();
                proof {
                    assert forall|f: nat| f > pmeasure(old(self)@) implies #[trigger]
                    spec_parse_prefix(old(self)@, f) == (opt_expr_view(r), self@) by {
                        assert(spec_parse_grouped(old(self)@, f) == (opt_expr_view(r), self@));
                    }
                }
                r
            },
            _ => {
                self.log_error(String::from_str("Unknown expression"));
                None
            },
        }
    }

    fn skip_to_semicolon(&mut self)
        requires
            old(self).inv(),
        ensures
            final(self).inv(),
            pframe(old(self)@, final(self)@),
            forall|f: nat|
                f > pmeasure(old(self)@) ==> #[trigger] spec_skip_semi(old(self)@, f)
                    == final(self)@,
        decreases pmeasure(self@), 0int,
    {
        let stop = *self.cur_ref() == Token::Semicolon || *self.cur_ref() == Token::EOF;
        if !stop {
            self.next_token();
            let ghost st1 = self@;
            self.skip_to_semicolon();
            proof {
                assert forall|f: nat| f > pmeasure(old(self)@) implies #[trigger] spec_skip_semi(
                    old(self)@,
                    f,
                ) == self@ by {
                    assert(pmeasure(st1) == pmeasure(old(self)@) - 1);
                    assert(spec_skip_semi(st1, (f - 1) as nat) == self@);
                }
            }
        }
    }

    fn parse_expression_statement(&mut self) -> (r: Option<Statement>)
        requires
            old(self).inv(),
        ensures
            final(self).inv(),
            pframe(old(self)@, final(self)@),
            forall|f: nat|
                f > pmeasure(old(self)@) ==> #[trigger] spec_parse_expr_statement(
                    old(self)@,
                    Sticky::LOWEST,
                    f,
                ) == (opt_stmt_view(r), final(self)@),
        decreases pmeasure(self@), 5int,
    {
        let e = self.parse_expression(Sticky::LOWEST);
        let ghost ev = opt_expr_view(e);
        let r = if let Some(expr) = e {
            Some(Statement::ExpressionStatement(expr))
        } else {
            None
        };
        proof {
            assert forall|f: nat| f > pmeasure(old(self)@) implies #[trigger]
            spec_parse_expr_statement(old(self)@, Sticky::LOWEST, f) == (opt_stmt_view(r), self@)
            by {
                assert(spec_parse_expression(old(self)@, Sticky::LOWEST, f) == (ev, self@));
            }
        }
        r
    }

    #[verifier::rlimit(100)]
    fn parse_statement(&mut self) -> (r: Option<Statement>)
        requires
            old(self).inv(),
        ensures
            final(self).inv(),
            pframe(old(self)@, final(self)@),
            forall|f: nat|
                f > pmeasure(old(self)@) ==> #[trigger] spec_parse_statement(old(self)@, f) == (
                    opt_stmt_view(r),
                    final(self)@,
                ),
        decreases pmeasure(self@), 6int,
    {
        let t = self.cur_ref().clone();
        match t {
            Token::Illegal => None,
            Token::Semicolon => None,
            Token::Let => {
                self.next_token();
                let t1 = self.cur_ref().clone();
                match t1 {
                    Token::Ident(val) => {
                        let iden = Identifier { token: Token::Ident(val.clone()), value: val };
                        let ghost idv = iden@;
                        self.expect_peek(Token::Assign);
                        let ghost st2 = self@;
                        let e = self.parse_expression(Sticky::LOWEST);
                        let ghost ev = opt_expr_view(e);
                        let r = match e {
                            Some(expr) => Some(Statement::LetStatement(iden, expr)),
                            None => None,
                        };
                        proof {
                            assert forall|f: nat| f > pmeasure(old(self)@) implies #[trigger]
                            spec_parse_statement(old(self)@, f) == (opt_stmt_view(r), self@) by {
                                assert(spec_parse_expression(st2, Sticky::LOWEST, (f - 1) as nat)
                                    == (ev, self@));
                            }
                        }
                        r
                    },
                    _ => {
                        let pk = self.peek_ref().clone();
                        let msg = Parser::peek_error(
                            &Token::Ident(String::from_str("IDEN")),
                            &pk,
                        );
                        self.log_error(msg);
                        None
                    },
                }
            },
            Token::Return => {
                self.next_token();
                let ghost st1 = self@;
                let e = self.parse_expression(Sticky::LOWEST);
                let ghost st2 = self@;
                let ghost ev = opt_expr_view(e);
                match e {
                    Some(expr) => {
                        self.skip_to_semicolon();
                        proof {
                            assert forall|f: nat| f > pmeasure(old(self)@) implies #[trigger]
                            spec_parse_statement(old(self)@, f) == (
                                Some(StmtV::ReturnStatement(expr@)),
                                self@,
                            ) by {
                                assert(spec_parse_expression(st1, Sticky::LOWEST, (f - 1) as nat)
                                    == (ev, st2));
                                assert(spec_skip_semi(st2, (f - 1) as nat) == self@);
                            }
                        }
                        Some(Statement::ReturnStatement(expr))
                    },
                    None => {
                        proof {
                            assert forall|f: nat| f > pmeasure(old(self)@) implies #[trigger]
                            spec_parse_statement(old(self)@, f) == (None::<StmtV>, self@) by {
                                assert(spec_parse_expression(st1, Sticky::LOWEST, (f - 1) as nat)
                                    == (ev, st2));
                            }
                        }
                        None
                    },
                }
            },
            _ => {
                let r = self.parse_expression_statement();
                proof {
                    assert forall|f: nat| f > pmeasure(old(self)@) implies #[trigger]
                    spec_parse_statement(old(self)@, f) == (opt_stmt_view(r), self@) by {
                        assert(spec_parse_expr_statement(old(self)@, Sticky::LOWEST, f) == (
                            opt_stmt_view(r),
                            self@,
                        ));
                    }
                }
                r
            },
        }
    }

    fn parse_program_rest(&mut self) -> (r: Vec<Statement>)
        requires
            old(self).inv(),
        ensures
            final(self).inv(),
            pframe(old(self)@, final(self)@),
            forall|f: nat|
                f > pmeasure(old(self)@) ==> #[trigger] spec_program_loop(old(self)@, f) == (
                    stmts_view(r@),
                    final(self)@,
                ),
        decreases pmeasure(self@), 7int,
    {
        let at_end = *self.cur_ref() == Token::EOF;
        if at_end {
            let r: Vec<Statement> = Vec::new();
            proof {
                assert(stmts_view(r@) =~= Seq::<StmtV>::empty());
            }
            r
        } else {
            let s = self.parse_statement();
            let ghost sv = opt_stmt_view(s);
            let ghost st1 = self@;
            self.next_token();
            let ghost st2 = self@;
            let mut rest = self.parse_program_rest();
            let ghost st3 = self@;
            let ghost restv0 = stmts_view(rest@);
            proof {
                assert forall|f: nat| f > pmeasure(old(self)@) implies #[trigger]
                spec_program_loop(old(self)@, f) == (
                    match sv {
                        Some(x) => seq![x] + restv0,
                        None => restv0,
                    },
                    st3,
                ) by {
                    assert(spec_parse_statement(old(self)@, f) == (sv, st1));
                    assert(spec_program_loop(st2, (f - 1) as nat) == (restv0, st3));
                }
            }
            match s {
                Some(x) => {
                    let ghost restv = rest@;
                    rest.insert(0, x);
                    proof {
                        lemma_stmts_view(restv);
                        lemma_stmts_view(rest@);
                        assert(stmts_view(rest@) =~= seq![x@] + stmts_view(restv));
                    }
                    rest
                },
                None => rest,
            }
        }
    }

    /// Parses the whole program: the statements in order, with statements
    /// that fail to parse omitted; returns the accumulated error list instead
    /// exactly when at least one error was recorded.
    pub fn parse_program(&mut self) -> (r: Result<Program, Vec<String>>)
        requires
            old(self).inv(),
        ensures
            final(self).inv(),
            pframe(old(self)@, final(self)@),
            forall|f: nat|
                f > pmeasure(old(self)@) ==> #[trigger] spec_program_loop(old(self)@, f).1
                    == final(self)@,
            forall|f: nat|
                f > pmeasure(old(self)@) ==> (match r {
                    Ok(p) => final(self)@.errors.len() == 0 && p@.statements
                        == #[trigger] spec_program_loop(old(self)@, f).0,
                    Err(es) => final(self)@.errors.len() > 0 && es@.map_values(|s: String| s@)
                        == final(self)@.errors,
                }),
    {
        let stmts = self.parse_program_rest();
        if self.errors.len() > 0 {
            proof {
                assert(self@.errors.len() == self.errors@.len());
            }
            Err(strings_clone(&self.errors))
        } else {
            proof {
                assert(self@.errors.len() == self.errors@.len());
            }
            Ok(Program { statements: stmts })
        }
    }
}

/// `idents_view` at one index.
pub open spec fn ident_at(v: Seq<Identifier>, i: int) -> IdentV {
    crate::ast::ident_view(v[i])
}

fn strings_clone(v: &Vec<String>) -> (r: Vec<String>)
    ensures
        r@.map_values(|s: String| s@) == v@.map_values(|s: String| s@),
{
    let mut out: Vec<String> = Vec::new();
    let mut i: usize = 0;
    while i < v.len()
        invariant
            i <= v@.len(),
            out@.len() == i,
            forall|j: int| 0 <= j < i ==> out@[j]@ == v@[j]@,
        decreases v@.len() - i,
    {
        out.push(v[i].clone());
        i += 1;
    }
    proof {
        assert(out@.map_values(|s: String| s@) =~= v@.map_values(|s: String| s@));
    }
    out
}

/// The display name of a token.
fn token_text_string(t: &Token) -> (r: String)
    ensures
        r@ == token_text(t@),
{
    match t {
        Token::Illegal => String::from_str("Illegal"),
        Token::EOF => String::from_str("EOF"),
        Token::Ident(s) => {
            let mut out = String::from_str("Ident(");
            out.append(s.as_str());
            out.append(")");
            proof {
                assert(out@ =~= token_text(t@));
            }
            out
        },
        Token::Int(x) => {
            let mut out = String::from_str("Int(");
            let d = int_to_string(*x);
            out.append(d.as_str());
            out.append(")");
            proof {
                assert(out@ =~= token_text(t@));
            }
            out
        },
        Token::Assign => String::from_str("Assign"),
        Token::Plus => String::from_str("Plus"),
        Token::Minus => String::from_str("Minus"),
        Token::Bang => String::from_str("Bang"),
        Token::Asterisk => String::from_str("Asterisk"),
        Token::Slash => String::from_str("Slash"),
        Token::Lt => String::from_str("Lt"),
        Token::Gt => String::from_str("Gt"),
        Token::Eq => String::from_str("Eq"),
        Token::NotEq => String::from_str("NotEq"),
        Token::Comma => String::from_str("Comma"),
        Token::Semicolon => String::from_str("Semicolon"),
        Token::LParen => String::from_str("LParen"),
        Token::RParen => String::from_str("RParen"),
        Token::LBrace => String::from_str("LBrace"),
        Token::RBrace => String::from_str("RBrace"),
        Token::Function => String::from_str("Function"),
        Token::Let => String::from_str("Let"),
        Token::True => String::from_str("True"),
        Token::False => String::from_str("False"),
        Token::If => String::from_str("If"),
        Token::Else => String::from_str("Else"),
        Token::Return => String::from_str("Return"),
    }
}

/// The token stream of a whole input, ending with its single `EOF`, together
/// with the error of a fatal scan, which ends the stream early.
pub open spec fn spec_scan(input: Seq<u8>, pos: int) -> (Seq<TokenV>, Seq<Seq<char>>)
    decreases input.len() - pos,
    via spec_scan_decreases
{
    let (r, p2) = spec_next_token(input, pos);
    match r {
        Ok(t) => {
            if t == TokenV::EOF {
                (seq![TokenV::EOF], Seq::empty())
            } else {
                let (ts, es) = spec_scan(input, p2);
                (seq![t] + ts, es)
            }
        },
        Err(e) => (seq![TokenV::EOF], seq!["integer literal out of range"@]),
    }
}

#[via_fn]
proof fn spec_scan_decreases(input: Seq<u8>, pos: int) {
    lemma_next_token_advances(input, pos);
}

proof fn lemma_ws_end_bounds(input: Seq<u8>, pos: int)
    ensures
        crate::lexer::ws_end(input, pos) >= pos,
        pos <= input.len() ==> crate::lexer::ws_end(input, pos) <= input.len(),
    decreases input.len() - pos,
{
    if 0 <= pos < input.len() && crate::lexer::is_ws_b(input[pos]) {
        lemma_ws_end_bounds(input, pos + 1);
    }
}

proof fn lemma_ident_end_bounds(input: Seq<u8>, pos: int)
    ensures
        crate::lexer::ident_end(input, pos) >= pos,
        pos <= input.len() ==> crate::lexer::ident_end(input, pos) <= input.len(),
    decreases input.len() - pos,
{
    if 0 <= pos < input.len() && crate::lexer::is_letter_b(input[pos]) {
        lemma_ident_end_bounds(input, pos + 1);
    }
}

proof fn lemma_digits_end_bounds(input: Seq<u8>, pos: int)
    ensures
        crate::lexer::digits_end(input, pos) >= pos,
        pos <= input.len() ==> crate::lexer::digits_end(input, pos) <= input.len(),
    decreases input.len() - pos,
{
    if 0 <= pos < input.len() && crate::lexer::is_digit_b(input[pos]) {
        lemma_digits_end_bounds(input, pos + 1);
    }
}

/// Every scanning step but the one that returns `EOF` moves strictly forward,
/// and never past the end of the input.
pub proof fn lemma_next_token_advances(input: Seq<u8>, pos: int)
    ensures
        spec_next_token(input, pos).0 == Ok::<TokenV, ScanError>(TokenV::EOF) || (
        spec_next_token(input, pos).1 > pos && spec_next_token(input, pos).1 <= input.len()),
{
    lemma_ws_end_bounds(input, pos);
    let p = crate::lexer::ws_end(input, pos);
    let c = crate::lexer::char_at(input, p);
    if c != 0 {
        assert(0 <= p < input.len());
        if crate::lexer::is_letter_b(c) {
            lemma_ident_end_bounds(input, p + 1);
            assert(crate::lexer::ident_end(input, p) == crate::lexer::ident_end(input, p + 1));
        } else if !(c == 61u8 || c == 59u8 || c == 40u8 || c == 41u8 || c == 44u8 || c == 43u8
            || c == 123u8 || c == 125u8 || c == 45u8 || c == 33u8 || c == 42u8 || c == 47u8 || c
            == 60u8 || c == 62u8) && crate::lexer::is_digit_b(c) {
            lemma_digits_end_bounds(input, p + 1);
            assert(crate::lexer::digits_end(input, p) == crate::lexer::digits_end(input, p + 1));
        }
    }
}

} // verus!
