//! The parser reads tokens and builds the syntax tree (recursive descent).
//!
//! Precedence from loosest to tightest: `or`, `and`, `== !=`,
//! `< > <= >=`, `+ -`, `* /`, unary `not -`; all binary operators group to
//! the left. A block is an indented run of statements, or (after `if`,
//! `else` and `while`) a single statement.

use vstd::prelude::*;
use crate::ast::{BinaryOp, Expr, ExprKind, ExprView, ExprViewKind, Program, Stmt, StmtKind, StmtView, StmtViewKind, UnaryOp, exprs_view, names_view, stmts_view};
use crate::error::{lemma_merge_covers, spec_error, spec_span, ErrorPhase, ErrorView, GupError, Span};
use crate::token::{spec_describe, push_describe, tokens_view, KindView, Token, TokenKind, TokenView};

verus! {

broadcast use vstd::string::group_string_axioms;

// ---------------------------------------------------------------------------
// Specification
// ---------------------------------------------------------------------------

/// A parse error: where, and what was expected.
pub struct SynErr {
    pub span: Span,
    pub message: Seq<char>,
}

pub open spec fn syn_error_view(e: SynErr) -> ErrorView {
    spec_error(ErrorPhase::Parse, e.span, e.message)
}

/// The token the parser looks at: the one at `p`, else the last one, else an
/// end of file at line 1.
pub open spec fn cur(t: Seq<TokenView>, p: int) -> TokenView {
    if 0 <= p < t.len() {
        t[p]
    } else if t.len() > 0 {
        t.last()
    } else {
        TokenView { kind: KindView::EOF, span: spec_span(1, 1, 1) }
    }
}

/// The position after taking the current token (it stays at the end).
pub open spec fn adv(t: Seq<TokenView>, p: int) -> int {
    if p < t.len() { p + 1 } else { p }
}

pub open spec fn peek(t: Seq<TokenView>, p: int, offset: int) -> Option<KindView> {
    if 0 <= p + offset < t.len() { Some(t[p + offset].kind) } else { None }
}

/// Every token's span is well formed: column and width at least 1, as
/// `Span::new` makes them.
pub open spec fn all_spans_wf(t: Seq<TokenView>) -> bool {
    forall|i: int| 0 <= i < t.len() ==> (#[trigger] t[i]).span.well_formed()
}

/// Tokens the parser accepts: none at all, or a list that ends with `EOF`
/// (as the lexer makes them). Either every span is well formed, or every
/// span leaves room after its end for one column per token: merging a span
/// that starts at column 0 or has no width moves the end one column on.
pub open spec fn tokens_wf(t: Seq<TokenView>) -> bool {
    &&& (t.len() == 0 || t.last().kind == KindView::EOF)
    &&& (all_spans_wf(t) || forall|i: int|
        0 <= i < t.len() ==> (#[trigger] t[i]).span.column + t[i].span.length + t.len() <= usize::MAX)
}

/// A span built from `used` of the tokens `t` ends where its merges could
/// take it: well formed when every token span is, else at most `used`
/// columns past the room the tokens leave.
pub open spec fn fits(t: Seq<TokenView>, s: Span, used: int) -> bool {
    if all_spans_wf(t) {
        s.well_formed()
    } else {
        s.column + s.length + t.len() <= usize::MAX + used
    }
}

/// Merging spans built from two runs of tokens gives a span that fits the
/// tokens of both runs, and both ends can be computed.
proof fn lemma_merge_fits(t: Seq<TokenView>, a: Span, b: Span, ua: int, ub: int)
    requires
        fits(t, a, ua),
        fits(t, b, ub),
        tokens_wf(t),
        1 <= ua,
        1 <= ub,
        ua + ub <= t.len(),
    ensures
        a.column + a.length <= usize::MAX,
        b.column + b.length <= usize::MAX,
        fits(t, a.spec_merge(b), ua + ub),
{
    if all_spans_wf(t) {
        lemma_merge_covers(a, b);
    } else {
        assert(t[0].span.column + t[0].span.length + t.len() <= usize::MAX);
    }
}

pub open spec fn expected_message(expected: KindView, found: KindView) -> Seq<char> {
    "Expected "@ + spec_describe(expected) + " but found "@ + spec_describe(found) + "."@
}

/// Takes a token of the `expected` kind, or fails pointing at the current one.
pub open spec fn expect(t: Seq<TokenView>, p: int, expected: KindView) -> Result<(TokenView, int), SynErr> {
    let c = cur(t, p);
    if c.kind == expected {
        Ok((c, adv(t, p)))
    } else {
        Err(SynErr { span: c.span, message: expected_message(expected, c.kind) })
    }
}

/// The position after any `Newline` tokens at `p`.
pub open spec fn skip_newlines(t: Seq<TokenView>, p: int) -> int
    decreases t.len() - p,
{
    if 0 <= p < t.len() && t[p].kind == KindView::Newline {
        skip_newlines(t, p + 1)
    } else {
        p
    }
}

/// An optional `;` and then an optional line end, with the span of the last one taken.
pub open spec fn opt_semicolon(t: Seq<TokenView>, p: int) -> (Option<Span>, int) {
    let (e1, p1) = if cur(t, p).kind == KindView::Semicolon {
        (Some(cur(t, p).span), adv(t, p))
    } else {
        (None, p)
    };
    if cur(t, p1).kind == KindView::Newline {
        (Some(cur(t, p1).span), adv(t, p1))
    } else {
        (e1, p1)
    }
}

pub open spec fn merge_opt(span: Span, end: Option<Span>) -> Span {
    match end {
        Some(e) => span.spec_merge(e),
        None => span,
    }
}

pub open spec fn is_expression_start(k: KindView) -> bool {
    match k {
        KindView::StringLiteral(_) | KindView::CharLiteral(_) | KindView::NumberLiteral(_)
        | KindView::FloatLiteral(_) | KindView::True | KindView::False | KindView::LeftParen
        | KindView::LeftBracket | KindView::Range | KindView::Minus | KindView::Not
        | KindView::Identifier(_) => true,
        _ => false,
    }
}

/// The tokens a primary expression can start with: a literal, `(`, `[`,
/// `range` or a name.
pub open spec fn starts_primary(k: KindView) -> bool {
    match k {
        KindView::StringLiteral(_) | KindView::CharLiteral(_) | KindView::NumberLiteral(_)
        | KindView::FloatLiteral(_) | KindView::True | KindView::False | KindView::LeftParen
        | KindView::LeftBracket | KindView::Range | KindView::Identifier(_) => true,
        _ => false,
    }
}

pub open spec fn bin(left: ExprView, op: BinaryOp, right: ExprView) -> ExprView {
    ExprView {
        kind: ExprViewKind::BinaryOp { left: Box::new(left), op, right: Box::new(right) },
        span: left.span.spec_merge(right.span),
    }
}

pub open spec fn dead<T>() -> Result<T, SynErr> {
    Err(SynErr { span: spec_span(1, 1, 1), message: Seq::empty() })
}

pub open spec fn or_op(k: KindView) -> Option<BinaryOp> {
    if k == KindView::Or { Some(BinaryOp::Or) } else { None }
}

pub open spec fn and_op(k: KindView) -> Option<BinaryOp> {
    if k == KindView::And { Some(BinaryOp::And) } else { None }
}

pub open spec fn equality_op(k: KindView) -> Option<BinaryOp> {
    if k == KindView::EqualEqual {
        Some(BinaryOp::Equal)
    } else if k == KindView::BangEqual {
        Some(BinaryOp::NotEqual)
    } else {
        None
    }
}

pub open spec fn comparison_op(k: KindView) -> Option<BinaryOp> {
    if k == KindView::Less {
        Some(BinaryOp::Less)
    } else if k == KindView::Greater {
        Some(BinaryOp::Greater)
    } else if k == KindView::LessEqual {
        Some(BinaryOp::LessEqual)
    } else if k == KindView::GreaterEqual {
        Some(BinaryOp::GreaterEqual)
    } else {
        None
    }
}

pub open spec fn additive_op(k: KindView) -> Option<BinaryOp> {
    if k == KindView::Plus {
        Some(BinaryOp::Add)
    } else if k == KindView::Minus {
        Some(BinaryOp::Sub)
    } else {
        None
    }
}

pub open spec fn multiplicative_op(k: KindView) -> Option<BinaryOp> {
    if k == KindView::Star {
        Some(BinaryOp::Mul)
    } else if k == KindView::Slash {
        Some(BinaryOp::Div)
    } else {
        None
    }
}

/// The binary-operator levels, loosest first.
#[derive(Clone, Copy, PartialEq, Eq, Structural)]
pub enum Level {
    Or,
    And,
    Equality,
    Comparison,
    Additive,
    Multiplicative,
}

pub open spec fn level_op(level: Level, k: KindView) -> Option<BinaryOp> {
    match level {
        Level::Or => or_op(k),
        Level::And => and_op(k),
        Level::Equality => equality_op(k),
        Level::Comparison => comparison_op(k),
        Level::Additive => additive_op(k),
        Level::Multiplicative => multiplicative_op(k),
    }
}

pub open spec fn level_rank(level: Level) -> nat {
    match level {
        Level::Or => 6,
        Level::And => 5,
        Level::Equality => 4,
        Level::Comparison => 3,
        Level::Additive => 2,
        Level::Multiplicative => 1,
    }
}

pub open spec fn operand_level(level: Level) -> Option<Level> {
    match level {
        Level::Or => Some(Level::And),
        Level::And => Some(Level::Equality),
        Level::Equality => Some(Level::Comparison),
        Level::Comparison => Some(Level::Additive),
        Level::Additive => Some(Level::Multiplicative),
        Level::Multiplicative => None,
    }
}

pub type ExprResult = Result<(ExprView, int), SynErr>;

/// Which binary operator a token is, and how tightly it binds: `or`, then
/// `and`, then `==` `!=`, then `<` `>` `<=` `>=`, then `+` `-`, then `*` `/`.
pub open spec fn operator_token(k: KindView) -> Option<(Level, BinaryOp)> {
    match k {
        KindView::Or => Some((Level::Or, BinaryOp::Or)),
        KindView::And => Some((Level::And, BinaryOp::And)),
        KindView::EqualEqual => Some((Level::Equality, BinaryOp::Equal)),
        KindView::BangEqual => Some((Level::Equality, BinaryOp::NotEqual)),
        KindView::Less => Some((Level::Comparison, BinaryOp::Less)),
        KindView::Greater => Some((Level::Comparison, BinaryOp::Greater)),
        KindView::LessEqual => Some((Level::Comparison, BinaryOp::LessEqual)),
        KindView::GreaterEqual => Some((Level::Comparison, BinaryOp::GreaterEqual)),
        KindView::Plus => Some((Level::Additive, BinaryOp::Add)),
        KindView::Minus => Some((Level::Additive, BinaryOp::Sub)),
        KindView::Star => Some((Level::Multiplicative, BinaryOp::Mul)),
        KindView::Slash => Some((Level::Multiplicative, BinaryOp::Div)),
        _ => None,
    }
}

/// A `-` token before an operand makes a negation of it, and a `not` token
/// a logical not, spanning the token and the operand; the operand is itself
/// a prefixed or primary expression.
pub proof fn lemma_prefix_operator_tokens(t: Seq<TokenView>, p: int)
    requires
        0 <= p < t.len(),
    ensures
        cur(t, p).kind == KindView::Minus || cur(t, p).kind == KindView::Not ==> match p_unary(
            t,
            p + 1,
        ) {
            Ok((operand, q)) => p_unary(t, p) == Ok::<(ExprView, int), SynErr>(
                (
                    ExprView {
                        kind: ExprViewKind::UnaryOp {
                            op: match cur(t, p).kind {
                                KindView::Minus => UnaryOp::Negate,
                                _ => UnaryOp::Not,
                            },
                            operand: Box::new(operand),
                        },
                        span: cur(t, p).span.spec_merge(operand.span),
                    },
                    q,
                ),
            ),
            Err(x) => p_unary(t, p) == Err::<(ExprView, int), SynErr>(x),
        },
{
}

/// After a left operand, an operator token of the level being parsed makes
/// a node with that token's own operator, the left operand and the operand
/// after the token, spanning both, and parsing of the level goes on after
/// it; any other token ends the level there, with the left operand.
pub proof fn lemma_operator_tokens(t: Seq<TokenView>, p: int, level: Level, left: ExprView)
    requires
        0 <= p < t.len(),
    ensures
        match operator_token(cur(t, p).kind) {
            Some((l, o)) if l == level => match p_operand(t, p + 1, level) {
                Ok((right, q)) => p + 1 < q <= t.len() ==> binary_tail(t, p, level, left)
                    == binary_tail(
                    t,
                    q,
                    level,
                    ExprView {
                        kind: ExprViewKind::BinaryOp {
                            left: Box::new(left),
                            op: o,
                            right: Box::new(right),
                        },
                        span: left.span.spec_merge(right.span),
                    },
                ),
                Err(x) => binary_tail(t, p, level, left) == Err::<(ExprView, int), SynErr>(x),
            },
            _ => binary_tail(t, p, level, left) == Ok::<(ExprView, int), SynErr>((left, p)),
        },
{
}

/// An expression: the loosest binary level.
pub open spec fn p_expr(t: Seq<TokenView>, p: int) -> ExprResult
    decreases t.len() - p, 20nat,
{
    p_binary(t, p, Level::Or)
}

/// The operands of a binary level: the next tighter level, or unary at the tightest.
pub open spec fn p_operand(t: Seq<TokenView>, p: int, level: Level) -> ExprResult
    decreases t.len() - p, 2 * level_rank(level) + 2,
{
    match level {
        Level::Or => p_binary(t, p, Level::And),
        Level::And => p_binary(t, p, Level::Equality),
        Level::Equality => p_binary(t, p, Level::Comparison),
        Level::Comparison => p_binary(t, p, Level::Additive),
        Level::Additive => p_binary(t, p, Level::Multiplicative),
        Level::Multiplicative => p_unary(t, p),
    }
}

/// `operand (op operand)*`, grouped to the left.
pub open spec fn p_binary(t: Seq<TokenView>, p: int, level: Level) -> ExprResult
    decreases t.len() - p, 2 * level_rank(level) + 3,
{
    match p_operand(t, p, level) {
        Ok((e, p1)) => if p < p1 <= t.len() {
            binary_tail(t, p1, level, e)
        } else {
            dead()
        },
        Err(x) => Err(x),
    }
}

/// The rest of a binary level after its first operand `left`.
pub open spec fn binary_tail(t: Seq<TokenView>, p: int, level: Level, left: ExprView) -> ExprResult
    decreases t.len() - p, 2 * level_rank(level) + 1,
{
    match level_op(level, cur(t, p).kind) {
        Some(op) => if p < t.len() {
            match p_operand(t, p + 1, level) {
                Ok((right, p2)) => if p < p2 <= t.len() {
                    binary_tail(t, p2, level, bin(left, op, right))
                } else {
                    dead()
                },
                Err(x) => Err(x),
            }
        } else {
            dead()
        },
        None => Ok((left, p)),
    }
}

/// `not` and `-` in front of an operand.
pub open spec fn p_unary(t: Seq<TokenView>, p: int) -> ExprResult
    decreases t.len() - p, 1nat,
{
    let c = cur(t, p);
    if c.kind == KindView::Not || c.kind == KindView::Minus {
        if p < t.len() {
            match p_unary(t, p + 1) {
                Ok((operand, p2)) => Ok(
                    (
                        ExprView {
                            kind: ExprViewKind::UnaryOp {
                                op: if c.kind == KindView::Not {
                                    UnaryOp::Not
                                } else {
                                    UnaryOp::Negate
                                },
                                operand: Box::new(operand),
                            },
                            span: c.span.spec_merge(operand.span),
                        },
                        p2,
                    ),
                ),
                Err(x) => Err(x),
            }
        } else {
            dead()
        }
    } else {
        p_primary(t, p)
    }
}

pub open spec fn leaf(kind: ExprViewKind, c: TokenView, t: Seq<TokenView>, p: int) -> ExprResult {
    Ok((ExprView { kind, span: c.span }, adv(t, p)))
}

/// Literals, names, calls, `( … )`, `[]` and `range(a through b)`.
pub open spec fn p_primary(t: Seq<TokenView>, p: int) -> ExprResult
    decreases t.len() - p, 0nat,
{
    let c = cur(t, p);
    match c.kind {
        KindView::StringLiteral(s) => leaf(ExprViewKind::StringLiteral(s), c, t, p),
        KindView::CharLiteral(ch) => leaf(ExprViewKind::CharLiteral(ch), c, t, p),
        KindView::NumberLiteral(n) => leaf(ExprViewKind::NumberLiteral(n), c, t, p),
        KindView::FloatLiteral(s) => leaf(ExprViewKind::FloatLiteral(s), c, t, p),
        KindView::True => leaf(ExprViewKind::BoolLiteral(true), c, t, p),
        KindView::False => leaf(ExprViewKind::BoolLiteral(false), c, t, p),
        KindView::LeftParen => if p < t.len() {
            match p_expr(t, p + 1) {
                Ok((e, p2)) => match expect(t, p2, KindView::RightParen) {
                    Ok((close, p3)) => Ok(
                        (ExprView { kind: e.kind, span: c.span.spec_merge(close.span) }, p3),
                    ),
                    Err(x) => Err(x),
                },
                Err(x) => Err(x),
            }
        } else {
            dead()
        },
        KindView::LeftBracket => {
            let p1 = adv(t, p);
            let c1 = cur(t, p1);
            if c1.kind == KindView::RightBracket {
                Ok(
                    (
                        ExprView {
                            kind: ExprViewKind::ArrayLiteral(Seq::empty()),
                            span: c.span.spec_merge(c1.span),
                        },
                        adv(t, p1),
                    ),
                )
            } else {
                Err(SynErr { span: c1.span, message: "Only empty arrays [] are supported right now."@ })
            }
        },
        KindView::Range => if p < t.len() {
            p_range(t, p + 1, c.span)
        } else {
            dead()
        },
        KindView::Identifier(name) => {
            let p1 = adv(t, p);
            if cur(t, p1).kind == KindView::LeftParen {
                let p2 = adv(t, p1);
                let args = if cur(t, p2).kind == KindView::RightParen {
                    Ok((Seq::<ExprView>::empty(), p2))
                } else if p < p2 {
                    p_args(t, p2)
                } else {
                    dead()
                };
                match args {
                    Ok((args, p3)) => match expect(t, p3, KindView::RightParen) {
                        Ok((close, p4)) => Ok(
                            (
                                ExprView {
                                    kind: ExprViewKind::FunctionCall { name, args },
                                    span: c.span.spec_merge(close.span),
                                },
                                p4,
                            ),
                        ),
                        Err(x) => Err(x),
                    },
                    Err(x) => Err(x),
                }
            } else {
                Ok((ExprView { kind: ExprViewKind::Variable(name), span: c.span }, p1))
            }
        },
        _ => Err(
            SynErr {
                span: c.span,
                message: "I expected an expression but found "@ + spec_describe(c.kind) + "."@,
            },
        ),
    }
}

/// Call arguments: expressions separated by commas.
pub open spec fn p_args(t: Seq<TokenView>, p: int) -> Result<(Seq<ExprView>, int), SynErr>
    decreases t.len() - p, 21nat,
{
    match p_expr(t, p) {
        Ok((e, p1)) => if p < p1 <= t.len() {
            if cur(t, p1).kind == KindView::Comma && p1 < t.len() {
                match p_args(t, p1 + 1) {
                    Ok((rest, p2)) => Ok((seq![e] + rest, p2)),
                    Err(x) => Err(x),
                }
            } else {
                Ok((seq![e], p1))
            }
        } else {
            dead()
        },
        Err(x) => Err(x),
    }
}

/// `range( start through end )`, after the `range` word.
pub open spec fn p_range(t: Seq<TokenView>, p: int, range_span: Span) -> ExprResult
    decreases t.len() - p, 21nat,
{
    match expect(t, p, KindView::LeftParen) {
        Ok((_, p1)) => if p < p1 {
            match p_expr(t, p1) {
                Ok((start, p2)) => match expect(t, p2, KindView::Through) {
                    Ok((_, p3)) => if p < p3 <= t.len() {
                        match p_expr(t, p3) {
                            Ok((end, p4)) => match expect(t, p4, KindView::RightParen) {
                                Ok((close, p5)) => Ok(
                                    (
                                        ExprView {
                                            kind: ExprViewKind::Range {
                                                start: Box::new(start),
                                                end: Box::new(end),
                                            },
                                            span: range_span.spec_merge(close.span),
                                        },
                                        p5,
                                    ),
                                ),
                                Err(x) => Err(x),
                            },
                            Err(x) => Err(x),
                        }
                    } else {
                        dead()
                    },
                    Err(x) => Err(x),
                },
                Err(x) => Err(x),
            }
        } else {
            dead()
        },
        Err(x) => Err(x),
    }
}

} // verus!

verus! {

pub type StmtResult = Result<(StmtView, int), SynErr>;

pub type BlockResult = Result<(Seq<StmtView>, int), SynErr>;

/// The span a compound statement ends with: its last body statement, or `fallback`.
pub open spec fn last_span(body: Seq<StmtView>, fallback: Span) -> Span {
    if body.len() > 0 { body.last().span } else { fallback }
}

/// Scanning a `name(` … `)` for the matching `)` to see whether, after any
/// line ends, an indented block follows (then it is a function definition).
pub open spec fn def_scan(t: Seq<TokenView>, i: int, depth: int) -> bool
    decreases t.len() - i,
{
    if !(0 <= i < t.len()) {
        false
    } else if t[i].kind == KindView::LeftParen {
        def_scan(t, i + 1, depth + 1)
    } else if t[i].kind == KindView::RightParen {
        if depth - 1 == 0 {
            let j = skip_newlines(t, i + 1);
            0 <= j < t.len() && t[j].kind == KindView::Indent
        } else {
            def_scan(t, i + 1, depth - 1)
        }
    } else {
        def_scan(t, i + 1, depth)
    }
}

pub open spec fn looks_like_function_definition(t: Seq<TokenView>, p: int) -> bool {
    def_scan(t, p + 2, 1)
}

/// Function parameters: names separated by commas.
pub open spec fn p_params(t: Seq<TokenView>, p: int) -> Result<(Seq<Seq<char>>, int), SynErr>
    decreases t.len() - p,
{
    let c = cur(t, p);
    let p1 = adv(t, p);
    match c.kind {
        KindView::Identifier(name) => if cur(t, p1).kind == KindView::Comma && p1 < t.len()
            && p <= p1 {
            match p_params(t, p1 + 1) {
                Ok((rest, p2)) => Ok((seq![name] + rest, p2)),
                Err(x) => Err(x),
            }
        } else {
            Ok((seq![name], p1))
        },
        other => Err(
            SynErr {
                span: c.span,
                message: "Function parameters need names, but I found "@ + spec_describe(other)
                    + "."@,
            },
        ),
    }
}

/// A statement, chosen by its first tokens.
pub open spec fn p_stmt(t: Seq<TokenView>, p: int) -> StmtResult
    decreases t.len() - p, 3nat,
{
    let c = cur(t, p);
    if c.kind == KindView::Return {
        p_return(t, p)
    } else if c.kind == KindView::If {
        p_if(t, p)
    } else if c.kind == KindView::While {
        p_while(t, p)
    } else if c.kind == KindView::For {
        p_for(t, p)
    } else if c.kind is Identifier && peek(t, p, 1) == Some(KindView::Equal) {
        p_variable_declaration(t, p, c.kind->Identifier_0)
    } else if c.kind is Identifier && peek(t, p, 1) == Some(KindView::LeftParen)
        && looks_like_function_definition(t, p) {
        p_function_def(t, p, c.kind->Identifier_0)
    } else if !is_expression_start(c.kind) {
        Err(
            SynErr {
                span: c.span,
                message: "Expected a statement or expression but found "@ + spec_describe(c.kind)
                    + "."@,
            },
        )
    } else {
        match p_expr(t, p) {
            Ok((e, p1)) => {
                let (end, p2) = opt_semicolon(t, p1);
                Ok(
                    (
                        StmtView {
                            kind: StmtViewKind::ExpressionStatement(e),
                            span: merge_opt(e.span, end),
                        },
                        p2,
                    ),
                )
            },
            Err(x) => Err(x),
        }
    }
}

/// `name = value`.
pub open spec fn p_variable_declaration(t: Seq<TokenView>, p: int, name: Seq<char>) -> StmtResult
    decreases t.len() - p, 2nat,
{
    let start = cur(t, p).span;
    match expect(t, adv(t, p), KindView::Equal) {
        Ok((_, p1)) => match p_expr(t, p1) {
            Ok((value, p2)) => {
                let (end, p3) = opt_semicolon(t, p2);
                Ok(
                    (
                        StmtView {
                            kind: StmtViewKind::VariableDeclaration { name, value },
                            span: merge_opt(start.spec_merge(value.span), end),
                        },
                        p3,
                    ),
                )
            },
            Err(x) => Err(x),
        },
        Err(x) => Err(x),
    }
}

/// `return` with an optional value.
pub open spec fn p_return(t: Seq<TokenView>, p: int) -> StmtResult
    decreases t.len() - p, 2nat,
{
    match expect(t, p, KindView::Return) {
        Ok((kw, p1)) => {
            let value = if is_expression_start(cur(t, p1).kind) {
                match p_expr(t, p1) {
                    Ok((e, p2)) => Ok((Some(e), p2)),
                    Err(x) => Err(x),
                }
            } else {
                Ok((None, p1))
            };
            match value {
                Ok((value, p2)) => {
                    let span = match value {
                        Some(e) => kw.span.spec_merge(e.span),
                        None => kw.span,
                    };
                    let (end, p3) = opt_semicolon(t, p2);
                    Ok(
                        (
                            StmtView {
                                kind: StmtViewKind::ReturnStatement { value },
                                span: merge_opt(span, end),
                            },
                            p3,
                        ),
                    )
                },
                Err(x) => Err(x),
            }
        },
        Err(x) => Err(x),
    }
}

/// `if cond` block, then optionally `else` block.
pub open spec fn p_if(t: Seq<TokenView>, p: int) -> StmtResult
    decreases t.len() - p, 2nat,
{
    match expect(t, p, KindView::If) {
        Ok((kw, p1)) => match p_expr(t, p1) {
            Ok((condition, p2)) => {
                let p3 = skip_newlines(t, p2);
                if p < p3 <= t.len() {
                    match p_block_or_single(t, p3) {
                        Ok((then_branch, p4)) => {
                            let p5 = skip_newlines(t, p4);
                            if cur(t, p5).kind == KindView::Else {
                                let p6 = skip_newlines(t, adv(t, p5));
                                if p < p6 <= t.len() {
                                    match p_block_or_single(t, p6) {
                                        Ok((else_branch, p7)) => {
                                            let end = last_span(
                                                else_branch,
                                                last_span(then_branch, condition.span),
                                            );
                                            Ok(
                                                (
                                                    StmtView {
                                                        kind: StmtViewKind::IfStatement {
                                                            condition,
                                                            then_branch,
                                                            else_branch: Some(else_branch),
                                                        },
                                                        span: kw.span.spec_merge(end),
                                                    },
                                                    p7,
                                                ),
                                            )
                                        },
                                        Err(x) => Err(x),
                                    }
                                } else {
                                    dead()
                                }
                            } else {
                                let end = last_span(then_branch, condition.span);
                                Ok(
                                    (
                                        StmtView {
                                            kind: StmtViewKind::IfStatement {
                                                condition,
                                                then_branch,
                                                else_branch: None,
                                            },
                                            span: kw.span.spec_merge(end),
                                        },
                                        p5,
                                    ),
                                )
                            }
                        },
                        Err(x) => Err(x),
                    }
                } else {
                    dead()
                }
            },
            Err(x) => Err(x),
        },
        Err(x) => Err(x),
    }
}

/// `while cond` block.
pub open spec fn p_while(t: Seq<TokenView>, p: int) -> StmtResult
    decreases t.len() - p, 2nat,
{
    match expect(t, p, KindView::While) {
        Ok((kw, p1)) => match p_expr(t, p1) {
            Ok((condition, p2)) => {
                let p3 = skip_newlines(t, p2);
                if p < p3 <= t.len() {
                    match p_block_or_single(t, p3) {
                        Ok((body, p4)) => Ok(
                            (
                                StmtView {
                                    kind: StmtViewKind::WhileLoop { condition, body },
                                    span: kw.span.spec_merge(last_span(body, condition.span)),
                                },
                                p4,
                            ),
                        ),
                        Err(x) => Err(x),
                    }
                } else {
                    dead()
                }
            },
            Err(x) => Err(x),
        },
        Err(x) => Err(x),
    }
}

/// `for name in iterable` and an indented body (an absent body is empty).
pub open spec fn p_for(t: Seq<TokenView>, p: int) -> StmtResult
    decreases t.len() - p, 2nat,
{
    match expect(t, p, KindView::For) {
        Ok((kw, p1)) => {
            let v = cur(t, p1);
            let p2 = adv(t, p1);
            match v.kind {
                KindView::Identifier(variable) => match expect(t, p2, KindView::In) {
                    Ok((_, p3)) => match p_expr(t, p3) {
                        Ok((iterable, p4)) => {
                            let p5 = skip_newlines(t, p4);
                            let body = if cur(t, p5).kind == KindView::Indent {
                                if p < p5 <= t.len() {
                                    p_block(t, p5)
                                } else {
                                    dead()
                                }
                            } else {
                                Ok((Seq::empty(), p5))
                            };
                            match body {
                                Ok((body, p6)) => Ok(
                                    (
                                        StmtView {
                                            kind: StmtViewKind::ForLoop { variable, iterable, body },
                                            span: kw.span.spec_merge(last_span(body, iterable.span)),
                                        },
                                        p6,
                                    ),
                                ),
                                Err(x) => Err(x),
                            }
                        },
                        Err(x) => Err(x),
                    },
                    Err(x) => Err(x),
                },
                other => Err(
                    SynErr {
                        span: v.span,
                        message: "Expected a loop variable name, but I found "@ + spec_describe(
                            other,
                        ) + "."@,
                    },
                ),
            }
        },
        Err(x) => Err(x),
    }
}

/// `name(params)` and an indented body (an absent body is empty).
pub open spec fn p_function_def(t: Seq<TokenView>, p: int, name: Seq<char>) -> StmtResult
    decreases t.len() - p, 2nat,
{
    let start = cur(t, p).span;
    match expect(t, adv(t, p), KindView::LeftParen) {
        Ok((_, p1)) => {
            let params = if cur(t, p1).kind != KindView::RightParen {
                p_params(t, p1)
            } else {
                Ok((Seq::empty(), p1))
            };
            match params {
                Ok((params, p2)) => match expect(t, p2, KindView::RightParen) {
                    Ok((close, p3)) => {
                        let p4 = skip_newlines(t, p3);
                        let body = if cur(t, p4).kind == KindView::Indent {
                            if p < p4 <= t.len() {
                                p_block(t, p4)
                            } else {
                                dead()
                            }
                        } else {
                            Ok((Seq::empty(), p4))
                        };
                        match body {
                            Ok((body, p5)) => Ok(
                                (
                                    StmtView {
                                        kind: StmtViewKind::FunctionDef { name, params, body },
                                        span: start.spec_merge(last_span(body, close.span)),
                                    },
                                    p5,
                                ),
                            ),
                            Err(x) => Err(x),
                        }
                    },
                    Err(x) => Err(x),
                },
                Err(x) => Err(x),
            }
        },
        Err(x) => Err(x),
    }
}

/// The statements of a block, up to its `Dedent` (taken) or the end of file.
pub open spec fn p_block_items(t: Seq<TokenView>, p: int) -> BlockResult
    decreases t.len() - p, 4nat,
{
    let k = cur(t, p).kind;
    if k == KindView::Dedent {
        Ok((Seq::empty(), adv(t, p)))
    } else if k == KindView::EOF {
        Ok((Seq::empty(), p))
    } else {
        match p_stmt(t, p) {
            Ok((s, p1)) => {
                let p2 = skip_newlines(t, p1);
                if p < p2 <= t.len() {
                    match p_block_items(t, p2) {
                        Ok((rest, p3)) => Ok((seq![s] + rest, p3)),
                        Err(x) => Err(x),
                    }
                } else {
                    dead()
                }
            },
            Err(x) => Err(x),
        }
    }
}

/// An indented block.
pub open spec fn p_block(t: Seq<TokenView>, p: int) -> BlockResult
    decreases t.len() - p, 5nat,
{
    match expect(t, p, KindView::Indent) {
        Ok((_, p1)) => {
            let p2 = skip_newlines(t, p1);
            if p < p2 <= t.len() {
                p_block_items(t, p2)
            } else {
                dead()
            }
        },
        Err(x) => Err(x),
    }
}

/// An indented block, or else one statement.
pub open spec fn p_block_or_single(t: Seq<TokenView>, p: int) -> BlockResult
    decreases t.len() - p, 6nat,
{
    if cur(t, p).kind == KindView::Indent {
        p_block(t, p)
    } else {
        match p_stmt(t, p) {
            Ok((s, p1)) => Ok((seq![s], p1)),
            Err(x) => Err(x),
        }
    }
}

/// The statements of the program from `p` to the end of file.
#[verifier::opaque]
pub open spec fn p_program_items(t: Seq<TokenView>, p: int) -> Result<Seq<StmtView>, SynErr>
    decreases t.len() - p,
{
    if cur(t, p).kind == KindView::EOF {
        Ok(Seq::empty())
    } else {
        match p_stmt(t, p) {
            Ok((s, p1)) => {
                let p2 = skip_newlines(t, p1);
                if p < p2 <= t.len() {
                    match p_program_items(t, p2) {
                        Ok(rest) => Ok(seq![s] + rest),
                        Err(x) => Err(x),
                    }
                } else {
                    dead()
                }
            },
            Err(x) => Err(x),
        }
    }
}

/// The program the tokens spell, or the first parse error.
pub open spec fn spec_parse(t: Seq<TokenView>) -> Result<Seq<StmtView>, SynErr> {
    p_program_items(t, skip_newlines(t, 0))
}

} // verus!

verus! {

// ---------------------------------------------------------------------------
// Implementation
// ---------------------------------------------------------------------------

struct Parser {
    tokens: Vec<Token>,
    pos: usize,
    fallback: Token,
}

pub open spec fn fallback_view() -> TokenView {
    TokenView { kind: KindView::EOF, span: spec_span(1, 1, 1) }
}

impl Parser {
    spec fn tv(&self) -> Seq<TokenView> {
        tokens_view(self.tokens@)
    }

    spec fn wf(&self) -> bool {
        &&& tokens_wf(self.tv())
        &&& self.pos <= self.tokens@.len()
        &&& self.fallback@ == fallback_view()
    }

    /// What a call that parses one expression leaves behind.
    spec fn expr_outcome(&self, old_self: &Parser, r: Result<Expr, GupError>, s: ExprResult) -> bool {
        &&& self.tokens == old_self.tokens
        &&& self.wf()
        &&& match s {
            Ok((e, p)) => {
                &&& r matches Ok(x) && x@ == e && fits(self.tv(), x.span, p - old_self.pos)
                &&& self.pos == p
                &&& old_self.pos < p
            },
            Err(err) => r matches Err(g) && g@ == syn_error_view(err),
        }
    }

    fn current(&self) -> (t: &Token)
        requires
            self.wf(),
        ensures
            t@ == cur(self.tv(), self.pos as int),
            fits(self.tv(), t.span, 0),
    {
        if self.pos < self.tokens.len() {
            &self.tokens[self.pos]
        } else if self.tokens.len() == 0 {
            &self.fallback
        } else {
            let last = self.tokens.len() - 1;
            assert(self.tv()[last as int] == self.tokens@[last as int]@);
            &self.tokens[last]
        }
    }

    fn current_kind(&self) -> (k: &TokenKind)
        requires
            self.wf(),
        ensures
            k@ == cur(self.tv(), self.pos as int).kind,
    {
        &self.current().kind
    }

    fn current_span(&self) -> (s: Span)
        requires
            self.wf(),
        ensures
            s == cur(self.tv(), self.pos as int).span,
            fits(self.tv(), s, 0),
    {
        self.current().span
    }

    fn peek_kind(&self, offset: usize) -> (k: Option<&TokenKind>)
        requires
            self.wf(),
            offset <= 2,
        ensures
            match peek(self.tv(), self.pos as int, offset as int) {
                Some(kind) => k matches Some(x) && x@ == kind,
                None => k is None,
            },
    {
        if offset < self.tokens.len() - self.pos {
            Some(&self.tokens[self.pos + offset].kind)
        } else {
            None
        }
    }

    fn advance(&mut self) -> (t: Token)
        requires
            old(self).wf(),
        ensures
            t@ == cur(old(self).tv(), old(self).pos as int),
            fits(old(self).tv(), t.span, 0),
            final(self).pos == adv(old(self).tv(), old(self).pos as int),
            final(self).tokens == old(self).tokens,
            final(self).fallback == old(self).fallback,
            final(self).wf(),
    {
        let token = self.current().clone();
        if self.pos < self.tokens.len() {
            self.pos = self.pos + 1;
        }
        token
    }

    fn expect_kind(&mut self, expected: &TokenKind) -> (r: Result<Token, GupError>)
        requires
            old(self).wf(),
        ensures
            final(self).tokens == old(self).tokens,
            final(self).fallback == old(self).fallback,
            final(self).wf(),
            match expect(old(self).tv(), old(self).pos as int, expected@) {
                Ok((tok, p)) => r matches Ok(x) && x@ == tok && fits(old(self).tv(), x.span, 0)
                    && final(self).pos == p,
                Err(err) => r matches Err(g) && g@ == syn_error_view(err),
            },
    {
        let span = self.current_span();
        if self.current_kind().same_as(expected) {
            Ok(self.advance())
        } else {
            let mut message = String::from_str("Expected ");
            push_describe(&mut message, expected);
            message.append(" but found ");
            push_describe(&mut message, self.current_kind());
            message.append(".");
            assert(message@ =~= expected_message(expected@, cur(self.tv(), self.pos as int).kind));
            Err(GupError::parse(span, message.as_str()))
        }
    }

    fn skip_newlines(&mut self)
        requires
            old(self).wf(),
        ensures
            final(self).pos == skip_newlines(old(self).tv(), old(self).pos as int),
            final(self).pos >= old(self).pos,
            final(self).tokens == old(self).tokens,
            final(self).fallback == old(self).fallback,
            final(self).wf(),
    {
        while self.current_kind().same_as(&TokenKind::Newline)
            invariant
                self.wf(),
                self.tokens == old(self).tokens,
                self.fallback == old(self).fallback,
                skip_newlines(self.tv(), self.pos as int) == skip_newlines(
                    old(self).tv(),
                    old(self).pos as int,
                ),
                self.pos >= old(self).pos,
            decreases self.tokens@.len() - self.pos,
        {
            self.advance();
        }
    }

    fn level_op_of(&self, level: Level) -> (r: Option<BinaryOp>)
        requires
            self.wf(),
        ensures
            r == level_op(level, cur(self.tv(), self.pos as int).kind),
    {
        let k = self.current_kind();
        match level {
            Level::Or => match k {
                TokenKind::Or => Some(BinaryOp::Or),
                _ => None,
            },
            Level::And => match k {
                TokenKind::And => Some(BinaryOp::And),
                _ => None,
            },
            Level::Equality => match k {
                TokenKind::EqualEqual => Some(BinaryOp::Equal),
                TokenKind::BangEqual => Some(BinaryOp::NotEqual),
                _ => None,
            },
            Level::Comparison => match k {
                TokenKind::Less => Some(BinaryOp::Less),
                TokenKind::Greater => Some(BinaryOp::Greater),
                TokenKind::LessEqual => Some(BinaryOp::LessEqual),
                TokenKind::GreaterEqual => Some(BinaryOp::GreaterEqual),
                _ => None,
            },
            Level::Additive => match k {
                TokenKind::Plus => Some(BinaryOp::Add),
                TokenKind::Minus => Some(BinaryOp::Sub),
                _ => None,
            },
            Level::Multiplicative => match k {
                TokenKind::Star => Some(BinaryOp::Mul),
                TokenKind::Slash => Some(BinaryOp::Div),
                _ => None,
            },
        }
    }
}

} // verus!

verus! {

proof fn lemma_not_eof_in_range(t: Seq<TokenView>, p: int)
    requires
        tokens_wf(t),
        0 <= p <= t.len(),
        cur(t, p).kind != KindView::EOF,
    ensures
        p < t.len(),
{
}

impl Parser {
    spec fn tail_outcome(
        &self,
        old_self: &Parser,
        r: Result<Expr, GupError>,
        s: ExprResult,
        start: int,
    ) -> bool {
        &&& self.tokens == old_self.tokens
        &&& self.wf()
        &&& match s {
            Ok((e, p)) => {
                &&& r matches Ok(x) && x@ == e && fits(self.tv(), x.span, p - start)
                &&& self.pos == p
                &&& old_self.pos <= p
            },
            Err(err) => r matches Err(g) && g@ == syn_error_view(err),
        }
    }

    fn parse_expression(&mut self) -> (r: Result<Expr, GupError>)
        requires
            old(self).wf(),
        ensures
            final(self).expr_outcome(old(self), r, p_expr(old(self).tv(), old(self).pos as int)),
        decreases old(self).tokens@.len() - old(self).pos, 20nat,
    {
        self.parse_binary(Level::Or)
    }

    fn parse_operand(&mut self, level: Level) -> (r: Result<Expr, GupError>)
        requires
            old(self).wf(),
        ensures
            final(self).expr_outcome(old(self), r, p_operand(old(self).tv(), old(self).pos as int, level)),
        decreases old(self).tokens@.len() - old(self).pos, 2 * level_rank(level) + 2,
    {
        match level {
            Level::Or => self.parse_binary(Level::And),
            Level::And => self.parse_binary(Level::Equality),
            Level::Equality => self.parse_binary(Level::Comparison),
            Level::Comparison => self.parse_binary(Level::Additive),
            Level::Additive => self.parse_binary(Level::Multiplicative),
            Level::Multiplicative => self.parse_unary(),
        }
    }

    /// One binary level: `operand (op operand)*`, grouped to the left.
    fn parse_binary(&mut self, level: Level) -> (r: Result<Expr, GupError>)
        requires
            old(self).wf(),
        ensures
            final(self).expr_outcome(old(self), r, p_binary(old(self).tv(), old(self).pos as int, level)),
        decreases old(self).tokens@.len() - old(self).pos, 2 * level_rank(level) + 3,
    {
        let ghost start = self.pos as int;
        let left = self.parse_operand(level)?;
        self.binary_tail(level, left, Ghost(start))
    }

    /// The rest of one binary level after its first operand `left`, which
    /// was built from the tokens from `start` on.
    fn binary_tail(
        &mut self,
        level: Level,
        left: Expr,
        Ghost(start): Ghost<int>,
    ) -> (r: Result<Expr, GupError>)
        requires
            old(self).wf(),
            0 <= start < old(self).pos,
            fits(old(self).tv(), left.span, old(self).pos - start),
        ensures
            final(self).tail_outcome(
                old(self),
                r,
                binary_tail(old(self).tv(), old(self).pos as int, level, left@),
                start,
            ),
        decreases old(self).tokens@.len() - old(self).pos, 2 * level_rank(level) + 1,
    {
        match self.level_op_of(level) {
            Some(op) => {
                proof {
                    lemma_not_eof_in_range(self.tv(), self.pos as int);
                }
                self.advance();
                let ghost before_right = self.pos as int;
                let right = self.parse_operand(level)?;
                proof {
                    lemma_merge_fits(
                        self.tv(),
                        left.span,
                        right.span,
                        before_right - 1 - start,
                        self.pos - before_right,
                    );
                }
                let span = left.span.merge(right.span);
                let e = Expr::new(
                    ExprKind::BinaryOp { left: Box::new(left), op, right: Box::new(right) },
                    span,
                );
                self.binary_tail(level, e, Ghost(start))
            },
            None => Ok(left),
        }
    }

    fn parse_unary(&mut self) -> (r: Result<Expr, GupError>)
        requires
            old(self).wf(),
        ensures
            final(self).expr_outcome(old(self), r, p_unary(old(self).tv(), old(self).pos as int)),
        decreases old(self).tokens@.len() - old(self).pos, 2nat,
    {
        let is_not = match self.current_kind() {
            TokenKind::Not => true,
            _ => false,
        };
        let is_minus = match self.current_kind() {
            TokenKind::Minus => true,
            _ => false,
        };
        if is_not || is_minus {
            proof {
                lemma_not_eof_in_range(self.tv(), self.pos as int);
            }
            let op_token = self.advance();
            let ghost before_operand = self.pos as int;
            let operand = self.parse_unary()?;
            proof {
                lemma_merge_fits(self.tv(), op_token.span, operand.span, 1, self.pos - before_operand);
            }
            let span = op_token.span.merge(operand.span);
            let op = if is_not { UnaryOp::Not } else { UnaryOp::Negate };
            return Ok(Expr::new(ExprKind::UnaryOp { op, operand: Box::new(operand) }, span));
        }
        self.parse_primary()
    }
}

} // verus!

verus! {

impl Parser {
    fn parse_primary(&mut self) -> (r: Result<Expr, GupError>)
        requires
            old(self).wf(),
        ensures
            final(self).expr_outcome(old(self), r, p_primary(old(self).tv(), old(self).pos as int)),
            !starts_primary(cur(old(self).tv(), old(self).pos as int).kind) ==> final(self).pos
                == old(self).pos,
        decreases old(self).tokens@.len() - old(self).pos, 1nat,
    {
        let token = self.current().clone();
        proof {
            if token.kind@ != KindView::EOF {
                lemma_not_eof_in_range(self.tv(), self.pos as int);
            }
        }
        match token.kind {
            TokenKind::StringLiteral(s) => {
                self.advance();
                Ok(Expr::new(ExprKind::StringLiteral(s), token.span))
            },
            TokenKind::CharLiteral(ch) => {
                self.advance();
                Ok(Expr::new(ExprKind::CharLiteral(ch), token.span))
            },
            TokenKind::NumberLiteral(n) => {
                self.advance();
                Ok(Expr::new(ExprKind::NumberLiteral(n), token.span))
            },
            TokenKind::FloatLiteral(f) => {
                self.advance();
                Ok(Expr::new(ExprKind::FloatLiteral(f), token.span))
            },
            TokenKind::True => {
                self.advance();
                Ok(Expr::new(ExprKind::BoolLiteral(true), token.span))
            },
            TokenKind::False => {
                self.advance();
                Ok(Expr::new(ExprKind::BoolLiteral(false), token.span))
            },
            TokenKind::LeftParen => self.parse_group(),
            TokenKind::LeftBracket => self.parse_array(),
            TokenKind::Range => {
                let range = self.advance();
                self.parse_range_expr(range.span)
            },
            TokenKind::Identifier(name) => self.parse_name(name),
            other => {
                let mut message = String::from_str("I expected an expression but found ");
                push_describe(&mut message, &other);
                message.append(".");
                Err(GupError::parse(token.span, message.as_str()))
            },
        }
    }

    /// `( expression )`: the expression, with the span of the parentheses.
    fn parse_group(&mut self) -> (r: Result<Expr, GupError>)
        requires
            old(self).wf(),
            cur(old(self).tv(), old(self).pos as int).kind == KindView::LeftParen,
        ensures
            final(self).expr_outcome(old(self), r, p_primary(old(self).tv(), old(self).pos as int)),
        decreases old(self).tokens@.len() - old(self).pos, 0nat,
    {
        proof {
            lemma_not_eof_in_range(self.tv(), self.pos as int);
        }
        let open = self.advance();
        let mut expr = self.parse_expression()?;
        let close = self.expect_kind(&TokenKind::RightParen)?;
        proof {
            lemma_merge_fits(self.tv(), open.span, close.span, 1, 1);
        }
        expr.span = open.span.merge(close.span);
        Ok(expr)
    }

    /// `[]`: only the empty array is written this way.
    fn parse_array(&mut self) -> (r: Result<Expr, GupError>)
        requires
            old(self).wf(),
            cur(old(self).tv(), old(self).pos as int).kind == KindView::LeftBracket,
        ensures
            final(self).expr_outcome(old(self), r, p_primary(old(self).tv(), old(self).pos as int)),
    {
        proof {
            lemma_not_eof_in_range(self.tv(), self.pos as int);
        }
        let open = self.advance();
        let is_close = match self.current_kind() {
            TokenKind::RightBracket => true,
            _ => false,
        };
        if is_close {
            proof {
                lemma_not_eof_in_range(self.tv(), self.pos as int);
            }
            let close = self.advance();
            proof {
                lemma_merge_fits(self.tv(), open.span, close.span, 1, 1);
            }
            let e = Expr::new(ExprKind::ArrayLiteral(Vec::new()), open.span.merge(close.span));
            assert(e@.kind->ArrayLiteral_0 =~= Seq::<ExprView>::empty());
            Ok(e)
        } else {
            Err(GupError::parse(self.current_span(), "Only empty arrays [] are supported right now."))
        }
    }

    /// A name: a call when `(` follows, else a variable.
    fn parse_name(&mut self, name: String) -> (r: Result<Expr, GupError>)
        requires
            old(self).wf(),
            cur(old(self).tv(), old(self).pos as int).kind == KindView::Identifier(name@),
        ensures
            final(self).expr_outcome(old(self), r, p_primary(old(self).tv(), old(self).pos as int)),
        decreases old(self).tokens@.len() - old(self).pos, 0nat,
    {
        proof {
            lemma_not_eof_in_range(self.tv(), self.pos as int);
        }
        let name_token = self.advance();
        let is_call = match self.current_kind() {
            TokenKind::LeftParen => true,
            _ => false,
        };
        if !is_call {
            return Ok(Expr::new(ExprKind::Variable(name), name_token.span));
        }
        self.advance();
        let is_empty = match self.current_kind() {
            TokenKind::RightParen => true,
            _ => false,
        };
        let args = if is_empty {
            let v = Vec::new();
            assert(exprs_view(v@) =~= Seq::<ExprView>::empty());
            v
        } else {
            self.parse_args()?
        };
        let close = self.expect_kind(&TokenKind::RightParen)?;
        proof {
            lemma_merge_fits(self.tv(), name_token.span, close.span, 1, 1);
        }
        let span = name_token.span.merge(close.span);
        let ghost args_view = exprs_view(args@);
        let e = Expr::new(ExprKind::FunctionCall { name, args }, span);
        assert(e@.kind->FunctionCall_args =~= args_view);
        Ok(e)
    }

    fn parse_args(&mut self) -> (r: Result<Vec<Expr>, GupError>)
        requires
            old(self).wf(),
        ensures
            final(self).tokens == old(self).tokens,
            final(self).wf(),
            match p_args(old(self).tv(), old(self).pos as int) {
                Ok((v, p)) => {
                    &&& r matches Ok(x) && exprs_view(x@) == v
                    &&& final(self).pos == p
                    &&& old(self).pos < p
                },
                Err(err) => r matches Err(g) && g@ == syn_error_view(err),
            },
        decreases old(self).tokens@.len() - old(self).pos, 21nat,
    {
        let first = self.parse_expression()?;
        let is_comma = match self.current_kind() {
            TokenKind::Comma => true,
            _ => false,
        };
        if is_comma {
            proof {
                lemma_not_eof_in_range(self.tv(), self.pos as int);
            }
            self.advance();
            let mut rest = self.parse_args()?;
            let ghost rest_view = exprs_view(rest@);
            rest.insert(0, first);
            assert(exprs_view(rest@) =~= seq![rest@[0]@] + rest_view);
            Ok(rest)
        } else {
            let mut v = Vec::new();
            v.push(first);
            assert(exprs_view(v@) =~= seq![v@[0]@]);
            Ok(v)
        }
    }

    /// The rest of `range(start through end)`, after the `range` token.
    fn parse_range_expr(&mut self, range_span: Span) -> (r: Result<Expr, GupError>)
        requires
            old(self).wf(),
            1 <= old(self).pos,
            fits(old(self).tv(), range_span, 1),
        ensures
            final(self).tail_outcome(
                old(self),
                r,
                p_range(old(self).tv(), old(self).pos as int, range_span),
                old(self).pos - 1,
            ),
        decreases old(self).tokens@.len() - old(self).pos, 21nat,
    {
        self.expect_kind(&TokenKind::LeftParen)?;
        let start = self.parse_expression()?;
        self.expect_kind(&TokenKind::Through)?;
        let end = self.parse_expression()?;
        let close = self.expect_kind(&TokenKind::RightParen)?;
        proof {
            lemma_merge_fits(self.tv(), range_span, close.span, 1, 1);
        }
        Ok(
            Expr::new(
                ExprKind::Range { start: Box::new(start), end: Box::new(end) },
                range_span.merge(close.span),
            ),
        )
    }
}

} // verus!

verus! {

/// Every statement's span fits `used` of the tokens `t`.
pub open spec fn spans_fit(t: Seq<TokenView>, v: Seq<StmtView>, used: int) -> bool {
    forall|i: int| 0 <= i < v.len() ==> fits(t, (#[trigger] v[i]).span, used)
}

proof fn lemma_skip_newlines_bounds(t: Seq<TokenView>, p: int)
    requires
        0 <= p <= t.len(),
    ensures
        p <= skip_newlines(t, p) <= t.len(),
    decreases t.len() - p,
{
    if 0 <= p < t.len() && t[p].kind == KindView::Newline {
        lemma_skip_newlines_bounds(t, p + 1);
    }
}

impl Parser {
    spec fn stmt_outcome(&self, old_self: &Parser, r: Result<Stmt, GupError>, s: StmtResult) -> bool {
        &&& self.tokens == old_self.tokens
        &&& self.wf()
        &&& match s {
            Ok((st, p)) => {
                &&& r matches Ok(x) && x@ == st && fits(self.tv(), x.span, p - old_self.pos)
                &&& self.pos == p
                &&& old_self.pos < p
            },
            Err(err) => r matches Err(g) && g@ == syn_error_view(err),
        }
    }

    spec fn block_outcome(&self, old_self: &Parser, r: Result<Vec<Stmt>, GupError>, s: BlockResult) -> bool {
        &&& self.tokens == old_self.tokens
        &&& self.wf()
        &&& match s {
            Ok((v, p)) => {
                &&& r matches Ok(x) && stmts_view(x@) == v && spans_fit(self.tv(), v, p - old_self.pos)
                &&& self.pos == p
                &&& old_self.pos <= p
            },
            Err(err) => r matches Err(g) && g@ == syn_error_view(err),
        }
    }

    fn is_expression_start(&self) -> (b: bool)
        requires
            self.wf(),
        ensures
            b == is_expression_start(cur(self.tv(), self.pos as int).kind),
    {
        match self.current_kind() {
            TokenKind::StringLiteral(_) | TokenKind::CharLiteral(_) | TokenKind::NumberLiteral(_)
            | TokenKind::FloatLiteral(_) | TokenKind::True | TokenKind::False
            | TokenKind::LeftParen | TokenKind::LeftBracket | TokenKind::Range | TokenKind::Minus
            | TokenKind::Not | TokenKind::Identifier(_) => true,
            _ => false,
        }
    }

    fn consume_optional_semicolon(&mut self) -> (end: Option<Span>)
        requires
            old(self).wf(),
        ensures
            (end, final(self).pos as int) == opt_semicolon(old(self).tv(), old(self).pos as int),
            end matches Some(s) ==> fits(old(self).tv(), s, 0) && final(self).pos > old(self).pos,
            final(self).tokens == old(self).tokens,
            final(self).fallback == old(self).fallback,
            final(self).wf(),
            final(self).pos >= old(self).pos,
    {
        let mut end = None;
        if self.current_kind().same_as(&TokenKind::Semicolon) {
            proof {
                lemma_not_eof_in_range(self.tv(), self.pos as int);
            }
            end = Some(self.advance().span);
        }
        if self.current_kind().same_as(&TokenKind::Newline) {
            proof {
                lemma_not_eof_in_range(self.tv(), self.pos as int);
            }
            end = Some(self.advance().span);
        }
        end
    }

    fn looks_like_function_definition(&self) -> (b: bool)
        requires
            self.wf(),
        ensures
            b == looks_like_function_definition(self.tv(), self.pos as int),
    {
        let ghost t = self.tv();
        let len = self.tokens.len();
        if len - self.pos <= 2 {
            return false;
        }
        let mut index = self.pos + 2;
        let mut depth: usize = 1;
        while index < len
            invariant
                t == self.tv(),
                len == t.len(),
                self.pos + 2 <= index <= len,
                1 <= depth <= index,
                def_scan(t, index as int, depth as int) == def_scan(t, self.pos + 2, 1),
            decreases len - index,
        {
            assert(t[index as int] == self.tokens@[index as int]@);
            match &self.tokens[index].kind {
                TokenKind::LeftParen => {
                    depth = depth + 1;
                },
                TokenKind::RightParen => {
                    if depth == 1 {
                        let mut next = index + 1;
                        while next < len && self.tokens[next].kind.same_as(&TokenKind::Newline)
                            invariant
                                t == self.tv(),
                                len == t.len(),
                                index + 1 <= next <= len,
                                skip_newlines(t, next as int) == skip_newlines(t, index + 1),
                            decreases len - next,
                        {
                            assert(t[next as int] == self.tokens@[next as int]@);
                            next = next + 1;
                        }
                        if next < len {
                            assert(t[next as int] == self.tokens@[next as int]@);
                            return self.tokens[next].kind.same_as(&TokenKind::Indent);
                        }
                        return false;
                    }
                    depth = depth - 1;
                },
                _ => {},
            }
            index = index + 1;
        }
        false
    }

    fn parse_params(&mut self) -> (r: Result<Vec<String>, GupError>)
        requires
            old(self).wf(),
        ensures
            final(self).tokens == old(self).tokens,
            final(self).wf(),
            match p_params(old(self).tv(), old(self).pos as int) {
                Ok((v, p)) => r matches Ok(x) && names_view(x@) == v && final(self).pos == p
                    && old(self).pos <= p,
                Err(err) => r matches Err(g) && g@ == syn_error_view(err),
            },
        decreases old(self).tokens@.len() - old(self).pos,
    {
        let token = self.advance();
        match token.kind {
            TokenKind::Identifier(param) => {
                proof {
                    lemma_not_eof_in_range(old(self).tv(), old(self).pos as int);
                }
                let is_comma = match self.current_kind() {
                    TokenKind::Comma => true,
                    _ => false,
                };
                if is_comma {
                    proof {
                        lemma_not_eof_in_range(self.tv(), self.pos as int);
                    }
                    self.advance();
                    let mut rest = self.parse_params()?;
                    let ghost rest_view = names_view(rest@);
                    rest.insert(0, param);
                    assert(names_view(rest@) =~= seq![rest@[0]@] + rest_view);
                    Ok(rest)
                } else {
                    let mut v = Vec::new();
                    v.push(param);
                    assert(names_view(v@) =~= seq![v@[0]@]);
                    Ok(v)
                }
            },
            other => {
                let mut message = String::from_str("Function parameters need names, but I found ");
                push_describe(&mut message, &other);
                message.append(".");
                Err(GupError::parse(token.span, message.as_str()))
            },
        }
    }
}

} // verus!

verus! {

/// The span of the last statement, or `fallback` when there is none.
fn last_stmt_span(
    v: &Vec<Stmt>,
    fallback: Span,
    Ghost(t): Ghost<Seq<TokenView>>,
    Ghost(used): Ghost<int>,
) -> (s: Span)
    requires
        spans_fit(t, stmts_view(v@), used),
        fits(t, fallback, used),
    ensures
        s == last_span(stmts_view(v@), fallback),
        fits(t, s, used),
{
    if v.len() > 0 {
        assert(stmts_view(v@)[v@.len() - 1].span == v@[v@.len() - 1].span);
        v[v.len() - 1].span
    } else {
        fallback
    }
}

impl Parser {
    fn kind_is(&self, kind: TokenKind) -> (b: bool)
        requires
            self.wf(),
        ensures
            b == (cur(self.tv(), self.pos as int).kind == kind@),
    {
        self.current_kind().same_as(&kind)
    }

    fn parse_statement(&mut self) -> (r: Result<Stmt, GupError>)
        requires
            old(self).wf(),
        ensures
            final(self).stmt_outcome(old(self), r, p_stmt(old(self).tv(), old(self).pos as int)),
        decreases old(self).tokens@.len() - old(self).pos, 3nat,
    {
        if self.kind_is(TokenKind::Return) {
            return self.parse_return_statement();
        }
        if self.kind_is(TokenKind::If) {
            return self.parse_if_statement();
        }
        if self.kind_is(TokenKind::While) {
            return self.parse_while_loop();
        }
        if self.kind_is(TokenKind::For) {
            return self.parse_for_loop();
        }
        let ident = match self.current_kind() {
            TokenKind::Identifier(name) => Some(name.clone()),
            _ => None,
        };
        match ident {
            Some(name) => {
                let next_equal = match self.peek_kind(1) {
                    Some(TokenKind::Equal) => true,
                    _ => false,
                };
                if next_equal {
                    return self.parse_variable_declaration(name);
                }
                let next_paren = match self.peek_kind(1) {
                    Some(TokenKind::LeftParen) => true,
                    _ => false,
                };
                if next_paren && self.looks_like_function_definition() {
                    return self.parse_function_def(name);
                }
            },
            None => {},
        }
        if !self.is_expression_start() {
            let mut message = String::from_str("Expected a statement or expression but found ");
            push_describe(&mut message, self.current_kind());
            message.append(".");
            return Err(GupError::parse(self.current_span(), message.as_str()));
        }
        let ghost start = self.pos as int;
        let expr = self.parse_expression()?;
        let ghost after = self.pos as int;
        let mut span = expr.span;
        match self.consume_optional_semicolon() {
            Some(end) => {
                proof {
                    lemma_merge_fits(self.tv(), span, end, after - start, self.pos - after);
                }
                span = span.merge(end);
            },
            None => {},
        }
        Ok(Stmt::new(StmtKind::ExpressionStatement(expr), span))
    }

    fn parse_variable_declaration(&mut self, name: String) -> (r: Result<Stmt, GupError>)
        requires
            old(self).wf(),
            cur(old(self).tv(), old(self).pos as int).kind == KindView::Identifier(name@),
        ensures
            final(self).stmt_outcome(
                old(self),
                r,
                p_variable_declaration(old(self).tv(), old(self).pos as int, name@),
            ),
        decreases old(self).tokens@.len() - old(self).pos, 2nat,
    {
        proof {
            lemma_not_eof_in_range(self.tv(), self.pos as int);
        }
        let start = self.current_span();
        self.advance();
        self.expect_kind(&TokenKind::Equal)?;
        let ghost before_value = self.pos as int;
        let value = self.parse_expression()?;
        let ghost after = self.pos as int;
        proof {
            lemma_merge_fits(self.tv(), start, value.span, 1, after - before_value);
        }
        let mut span = start.merge(value.span);
        match self.consume_optional_semicolon() {
            Some(end) => {
                proof {
                    lemma_merge_fits(self.tv(), span, end, after - old(self).pos, self.pos - after);
                }
                span = span.merge(end);
            },
            None => {},
        }
        Ok(Stmt::new(StmtKind::VariableDeclaration { name, value }, span))
    }

    fn parse_return_statement(&mut self) -> (r: Result<Stmt, GupError>)
        requires
            old(self).wf(),
        ensures
            final(self).stmt_outcome(old(self), r, p_return(old(self).tv(), old(self).pos as int)),
        decreases old(self).tokens@.len() - old(self).pos, 2nat,
    {
        let start = self.expect_kind(&TokenKind::Return)?.span;
        proof {
            lemma_not_eof_in_range(old(self).tv(), old(self).pos as int);
        }
        let ghost before_value = self.pos as int;
        let value = if self.is_expression_start() {
            Some(self.parse_expression()?)
        } else {
            None
        };
        let ghost after = self.pos as int;
        let mut span = match &value {
            Some(e) => {
                proof {
                    lemma_merge_fits(self.tv(), start, e.span, 1, after - before_value);
                }
                start.merge(e.span)
            },
            None => start,
        };
        match self.consume_optional_semicolon() {
            Some(end) => {
                proof {
                    lemma_merge_fits(self.tv(), span, end, after - old(self).pos, self.pos - after);
                }
                span = span.merge(end);
            },
            None => {},
        }
        Ok(Stmt::new(StmtKind::ReturnStatement { value }, span))
    }

    fn parse_if_statement(&mut self) -> (r: Result<Stmt, GupError>)
        requires
            old(self).wf(),
        ensures
            final(self).stmt_outcome(old(self), r, p_if(old(self).tv(), old(self).pos as int)),
        decreases old(self).tokens@.len() - old(self).pos, 2nat,
    {
        let start = self.expect_kind(&TokenKind::If)?.span;
        proof {
            lemma_not_eof_in_range(old(self).tv(), old(self).pos as int);
        }
        let ghost body_start = self.pos as int;
        let condition = self.parse_expression()?;
        self.skip_newlines();
        let then_branch = self.parse_block_or_single()?;
        self.skip_newlines();
        let else_branch = if self.kind_is(TokenKind::Else) {
            self.advance();
            self.skip_newlines();
            Some(self.parse_block_or_single()?)
        } else {
            None
        };
        let ghost t = self.tv();
        let ghost k = self.pos as int - body_start;
        let then_end = last_stmt_span(&then_branch, condition.span, Ghost(t), Ghost(k));
        let end = match &else_branch {
            Some(b) => last_stmt_span(b, then_end, Ghost(t), Ghost(k)),
            None => then_end,
        };
        proof {
            lemma_merge_fits(t, start, end, 1, k);
        }
        let span = start.merge(end);
        let ghost then_view = stmts_view(then_branch@);
        let ghost else_view = match &else_branch {
            Some(b) => Some(stmts_view(b@)),
            None => None,
        };
        let s = Stmt::new(StmtKind::IfStatement { condition, then_branch, else_branch }, span);
        assert(s@.kind->IfStatement_then_branch =~= then_view);
        assert(s@.kind->IfStatement_else_branch matches Some(b) ==> b =~= else_view->0);
        Ok(s)
    }

    fn parse_while_loop(&mut self) -> (r: Result<Stmt, GupError>)
        requires
            old(self).wf(),
        ensures
            final(self).stmt_outcome(old(self), r, p_while(old(self).tv(), old(self).pos as int)),
        decreases old(self).tokens@.len() - old(self).pos, 2nat,
    {
        let start = self.expect_kind(&TokenKind::While)?.span;
        proof {
            lemma_not_eof_in_range(old(self).tv(), old(self).pos as int);
        }
        let ghost body_start = self.pos as int;
        let condition = self.parse_expression()?;
        self.skip_newlines();
        let body = self.parse_block_or_single()?;
        let ghost t = self.tv();
        let ghost k = self.pos as int - body_start;
        let end = last_stmt_span(&body, condition.span, Ghost(t), Ghost(k));
        proof {
            lemma_merge_fits(t, start, end, 1, k);
        }
        let span = start.merge(end);
        let ghost body_view = stmts_view(body@);
        let s = Stmt::new(StmtKind::WhileLoop { condition, body }, span);
        assert(s@.kind->WhileLoop_body =~= body_view);
        Ok(s)
    }

    fn parse_for_loop(&mut self) -> (r: Result<Stmt, GupError>)
        requires
            old(self).wf(),
        ensures
            final(self).stmt_outcome(old(self), r, p_for(old(self).tv(), old(self).pos as int)),
        decreases old(self).tokens@.len() - old(self).pos, 2nat,
    {
        let start = self.expect_kind(&TokenKind::For)?.span;
        proof {
            lemma_not_eof_in_range(old(self).tv(), old(self).pos as int);
        }
        let ghost body_start = self.pos as int;
        let variable_token = self.advance();
        let variable = match variable_token.kind {
            TokenKind::Identifier(name) => name,
            other => {
                let mut message = String::from_str("Expected a loop variable name, but I found ");
                push_describe(&mut message, &other);
                message.append(".");
                return Err(GupError::parse(variable_token.span, message.as_str()));
            },
        };
        self.expect_kind(&TokenKind::In)?;
        let iterable = self.parse_expression()?;
        self.skip_newlines();
        let body = if self.kind_is(TokenKind::Indent) {
            self.parse_block()?
        } else {
            let v = Vec::new();
            assert(stmts_view(v@) =~= Seq::<StmtView>::empty());
            v
        };
        let ghost t = self.tv();
        let ghost k = self.pos as int - body_start;
        let end = last_stmt_span(&body, iterable.span, Ghost(t), Ghost(k));
        proof {
            lemma_merge_fits(t, start, end, 1, k);
        }
        let span = start.merge(end);
        let ghost body_view = stmts_view(body@);
        let s = Stmt::new(StmtKind::ForLoop { variable, iterable, body }, span);
        assert(s@.kind->ForLoop_body =~= body_view);
        Ok(s)
    }

    fn parse_function_def(&mut self, name: String) -> (r: Result<Stmt, GupError>)
        requires
            old(self).wf(),
            cur(old(self).tv(), old(self).pos as int).kind == KindView::Identifier(name@),
        ensures
            final(self).stmt_outcome(
                old(self),
                r,
                p_function_def(old(self).tv(), old(self).pos as int, name@),
            ),
        decreases old(self).tokens@.len() - old(self).pos, 2nat,
    {
        proof {
            lemma_not_eof_in_range(self.tv(), self.pos as int);
        }
        let start = self.current_span();
        self.advance();
        let ghost body_start = self.pos as int;
        self.expect_kind(&TokenKind::LeftParen)?;
        let params = if !self.kind_is(TokenKind::RightParen) {
            self.parse_params()?
        } else {
            let v = Vec::new();
            assert(names_view(v@) =~= Seq::<Seq<char>>::empty());
            v
        };
        let close = self.expect_kind(&TokenKind::RightParen)?;
        self.skip_newlines();
        let body = if self.kind_is(TokenKind::Indent) {
            self.parse_block()?
        } else {
            let v = Vec::new();
            assert(stmts_view(v@) =~= Seq::<StmtView>::empty());
            v
        };
        let ghost t = self.tv();
        let ghost k = self.pos as int - body_start;
        let end = last_stmt_span(&body, close.span, Ghost(t), Ghost(k));
        proof {
            lemma_merge_fits(t, start, end, 1, k);
        }
        let span = start.merge(end);
        let ghost body_view = stmts_view(body@);
        let s = Stmt::new(StmtKind::FunctionDef { name, params, body }, span);
        assert(s@.kind->FunctionDef_body =~= body_view);
        Ok(s)
    }

    fn parse_block(&mut self) -> (r: Result<Vec<Stmt>, GupError>)
        requires
            old(self).wf(),
        ensures
            final(self).block_outcome(old(self), r, p_block(old(self).tv(), old(self).pos as int)),
        decreases old(self).tokens@.len() - old(self).pos, 5nat,
    {
        self.expect_kind(&TokenKind::Indent)?;
        self.skip_newlines();
        self.parse_block_items()
    }

    fn parse_block_items(&mut self) -> (r: Result<Vec<Stmt>, GupError>)
        requires
            old(self).wf(),
        ensures
            final(self).block_outcome(old(self), r, p_block_items(old(self).tv(), old(self).pos as int)),
        decreases old(self).tokens@.len() - old(self).pos, 4nat,
    {
        let ghost t = self.tv();
        let ghost whole = p_block_items(t, self.pos as int);
        let mut statements: Vec<Stmt> = Vec::new();
        loop
            invariant
                self.wf(),
                self.tokens == old(self).tokens,
                t == self.tv(),
                old(self).pos <= self.pos,
                whole == p_block_items(t, old(self).pos as int),
                spans_fit(t, stmts_view(statements@), self.pos - old(self).pos),
                match p_block_items(t, self.pos as int) {
                    Ok((rest, q)) => whole == Ok::<(Seq<StmtView>, int), SynErr>(
                        (stmts_view(statements@) + rest, q),
                    ),
                    Err(x) => whole == Err::<(Seq<StmtView>, int), SynErr>(x),
                },
            decreases self.tokens@.len() - self.pos,
        {
            if self.kind_is(TokenKind::Dedent) {
                self.advance();
                assert(stmts_view(statements@) + Seq::<StmtView>::empty() =~= stmts_view(statements@));
                return Ok(statements);
            }
            if self.kind_is(TokenKind::EOF) {
                assert(stmts_view(statements@) + Seq::<StmtView>::empty() =~= stmts_view(statements@));
                return Ok(statements);
            }
            let ghost before = stmts_view(statements@);
            let s = self.parse_statement()?;
            self.skip_newlines();
            statements.push(s);
            proof {
                assert(stmts_view(statements@) =~= before.push(s@));
                match p_block_items(t, self.pos as int) {
                    Ok((rest, q)) => {
                        assert(before + (seq![s@] + rest) =~= stmts_view(statements@) + rest);
                    },
                    Err(x) => {},
                }
            }
        }
    }

    fn parse_block_or_single(&mut self) -> (r: Result<Vec<Stmt>, GupError>)
        requires
            old(self).wf(),
        ensures
            final(self).block_outcome(old(self), r, p_block_or_single(old(self).tv(), old(self).pos as int)),
        decreases old(self).tokens@.len() - old(self).pos, 6nat,
    {
        if self.kind_is(TokenKind::Indent) {
            self.parse_block()
        } else {
            let s = self.parse_statement()?;
            let mut v = Vec::new();
            v.push(s);
            assert(stmts_view(v@) =~= seq![v@[0]@]);
            Ok(v)
        }
    }

    fn parse_program(&mut self) -> (r: Result<Program, GupError>)
        requires
            old(self).wf(),
            old(self).pos == 0,
        ensures
            match spec_parse(old(self).tv()) {
                Ok(v) => r matches Ok(x) && stmts_view(x@) == v,
                Err(err) => r matches Err(g) && g@ == syn_error_view(err),
            },
    {
        self.skip_newlines();
        self.parse_program_items()
    }

    fn parse_program_items(&mut self) -> (r: Result<Program, GupError>)
        requires
            old(self).wf(),
        ensures
            match p_program_items(old(self).tv(), old(self).pos as int) {
                Ok(v) => r matches Ok(x) && stmts_view(x@) == v,
                Err(err) => r matches Err(g) && g@ == syn_error_view(err),
            },
    {
        let ghost t = self.tv();
        let ghost whole = p_program_items(t, self.pos as int);
        let mut statements: Vec<Stmt> = Vec::new();
        assert(stmts_view(statements@) =~= Seq::<StmtView>::empty());
        loop
            invariant
                self.wf(),
                self.tokens == old(self).tokens,
                t == self.tv(),
                whole == p_program_items(t, old(self).pos as int),
                match p_program_items(t, self.pos as int) {
                    Ok(rest) => whole == Ok::<Seq<StmtView>, SynErr>(stmts_view(statements@) + rest),
                    Err(x) => whole == Err::<Seq<StmtView>, SynErr>(x),
                },
            decreases self.tokens@.len() - self.pos,
        {
            if self.kind_is(TokenKind::EOF) {
                proof {
                    lemma_program_end(t, self.pos as int);
                }
                assert(stmts_view(statements@) + Seq::<StmtView>::empty() =~= stmts_view(statements@));
                return Ok(statements);
            }
            let ghost before = stmts_view(statements@);
            let ghost p0 = self.pos as int;
            let s = match self.parse_statement() {
                Ok(s) => s,
                Err(e) => {
                    proof {
                        lemma_program_fail(t, p0);
                    }
                    return Err(e);
                },
            };
            let ghost p1 = self.pos as int;
            self.skip_newlines();
            statements.push(s);
            proof {
                lemma_program_loop(t, whole, before, s@, p0, p1);
                assert(stmts_view(statements@) =~= before.push(s@));
            }
        }
    }
}

proof fn lemma_program_loop(
    t: Seq<TokenView>,
    whole: Result<Seq<StmtView>, SynErr>,
    before: Seq<StmtView>,
    s: StmtView,
    p0: int,
    p1: int,
)
    requires
        cur(t, p0).kind != KindView::EOF,
        p_stmt(t, p0) == Ok::<(StmtView, int), SynErr>((s, p1)),
        p0 < skip_newlines(t, p1) <= t.len(),
        match p_program_items(t, p0) {
            Ok(rest) => whole == Ok::<Seq<StmtView>, SynErr>(before + rest),
            Err(x) => whole == Err::<Seq<StmtView>, SynErr>(x),
        },
    ensures
        match p_program_items(t, skip_newlines(t, p1)) {
            Ok(rest) => whole == Ok::<Seq<StmtView>, SynErr>(before.push(s) + rest),
            Err(x) => whole == Err::<Seq<StmtView>, SynErr>(x),
        },
{
    lemma_program_step(t, p0, s, p1);
    match p_program_items(t, skip_newlines(t, p1)) {
        Ok(rest) => {
            assert(before + (seq![s] + rest) =~= before.push(s) + rest);
        },
        Err(x) => {},
    }
}

proof fn lemma_program_end(t: Seq<TokenView>, p: int)
    requires
        cur(t, p).kind == KindView::EOF,
    ensures
        p_program_items(t, p) == Ok::<Seq<StmtView>, SynErr>(Seq::empty()),
{
    reveal(p_program_items);
}

proof fn lemma_program_fail(t: Seq<TokenView>, p: int)
    requires
        cur(t, p).kind != KindView::EOF,
        p_stmt(t, p) is Err,
    ensures
        p_program_items(t, p) == Err::<Seq<StmtView>, SynErr>(p_stmt(t, p)->Err_0),
{
    reveal(p_program_items);
}

proof fn lemma_program_step(t: Seq<TokenView>, p: int, s: StmtView, p1: int)
    requires
        cur(t, p).kind != KindView::EOF,
        p_stmt(t, p) == Ok::<(StmtView, int), SynErr>((s, p1)),
        p < skip_newlines(t, p1) <= t.len(),
    ensures
        p_program_items(t, p) == match p_program_items(t, skip_newlines(t, p1)) {
            Ok(rest) => Ok::<Seq<StmtView>, SynErr>(seq![s] + rest),
            Err(x) => Err(x),
        },
{
    reveal(p_program_items);
}

/// Builds the program the tokens spell, or reports the first parse error with
/// its place. The tokens must end with `EOF`, as the lexer's always do; their
/// spans are either all well formed, as the lexer's are, or end far enough
/// below `usize::MAX` that merging them cannot overflow (one column per token).
pub fn parse(tokens: Vec<Token>) -> (r: Result<Program, GupError>)
    requires
        tokens_wf(tokens_view(tokens@)),
    ensures
        match spec_parse(tokens_view(tokens@)) {
            Ok(v) => r matches Ok(x) && stmts_view(x@) == v,
            Err(err) => r matches Err(g) && g@ == syn_error_view(err),
        },
{
    let mut parser = Parser { tokens, pos: 0, fallback: Token::at(TokenKind::EOF, 1, 1, 1) };
    parser.parse_program()
}

} // verus!
