//! The compiler turns the syntax tree into bytecode, one function at a time
//! (the top-level script counts as a function).
//!
//! Top-level function definitions are compiled first, in order, and bound as
//! globals; the other top-level statements follow. Names resolve to locals
//! of the current function, then to variables captured from enclosing
//! functions, then to globals; a name unknown at compile time is looked up
//! (or stored) by the virtual machine at run time.

use vstd::prelude::*;
use crate::ast::{
    BinaryOp, Expr, ExprKind, ExprView, ExprViewKind, Program, Stmt, StmtKind, StmtView,
    StmtViewKind, UnaryOp, exprs_view, names_view, stmts_view,
};
use crate::bytecode::{
    spec_encode, Chunk, CompiledFunction, ConstValue, ConstValueView, Constant, ConstantView,
    FunctionView, OpCode, UpvalueDescriptor, constants_view, encode_opcode, strings_view,
};
use crate::error::{spec_error, ErrorPhase, ErrorView, GupError, Span};
use crate::syntax::{is_print_function, spec_syntax};
use crate::text::str_eq;

verus! {

broadcast use vstd::string::group_string_axioms;

// ---------------------------------------------------------------------------
// Specification: the compiler's state as plain values
// ---------------------------------------------------------------------------

#[verifier::ext_equal]
pub struct LocalView {
    pub name: Seq<char>,
    pub depth: usize,
    pub is_captured: bool,
}

/// One function being compiled: its code so far, its locals in scope, the
/// variables it captures, and how deeply its blocks are nested.
#[verifier::ext_equal]
pub struct CtxView {
    pub function: FunctionView,
    pub locals: Seq<LocalView>,
    pub upvalues: Seq<UpvalueDescriptor>,
    pub scope_depth: usize,
    pub has_nested_functions: bool,
}

/// The functions being compiled, innermost last (each encloses the next),
/// and the names known to be globals.
#[verifier::ext_equal]
pub struct CView {
    pub stack: Seq<CtxView>,
    pub globals: Seq<Seq<char>>,
}

/// A compile error: where, and what went wrong.
pub struct CErr {
    pub span: Span,
    pub message: Seq<char>,
}

pub open spec fn cerr_view(e: CErr) -> ErrorView {
    spec_error(ErrorPhase::Runtime, e.span, e.message)
}

/// The state after a compiling step, or its error.
pub type CR = Result<CView, CErr>;

pub open spec fn top(c: CView) -> CtxView {
    c.stack.last()
}

pub open spec fn set_top(c: CView, x: CtxView) -> CView {
    CView { stack: c.stack.update(c.stack.len() - 1, x), ..c }
}

pub open spec fn code_len(c: CView) -> int {
    top(c).function.code.len() as int
}

/// Appends one byte to a function's code.
pub open spec fn ctx_write(t: CtxView, byte: u8, span: Span) -> CtxView {
    CtxView {
        function: FunctionView {
            code: t.function.code.push(byte),
            spans: t.function.spans.push(span),
            ..t.function
        },
        ..t
    }
}

/// Appends one byte to the current function's code.
pub open spec fn write(c: CView, byte: u8, span: Span) -> CView {
    set_top(c, ctx_write(top(c), byte, span))
}

pub open spec fn op(c: CView, o: OpCode, span: Span) -> CView {
    write(c, spec_encode(o), span)
}

pub open spec fn op1(c: CView, o: OpCode, operand: u8, span: Span) -> CView {
    write(op(c, o, span), operand, span)
}

/// An instruction with a two-byte operand to be patched later, and where that operand is.
pub open spec fn jump_placeholder(c: CView, o: OpCode, span: Span) -> (CView, int) {
    let c1 = op(c, o, span);
    (write(write(c1, 0, span), 0, span), code_len(c1))
}

/// Sets the jump operand at `offset` to reach the current end of the code.
pub open spec fn patch_jump(c: CView, offset: int) -> CView {
    let t = top(c);
    let jump = ((code_len(c) - offset - 2) as usize) as u16;
    let code = t.function.code.update(offset, (jump >> 8) as u8).update(offset + 1, (jump & 0xff) as u8);
    set_top(c, CtxView { function: FunctionView { code, ..t.function }, ..t })
}

/// A backward jump to `loop_start`.
pub open spec fn emit_loop(c: CView, loop_start: int, span: Span) -> CView {
    let c1 = op(c, OpCode::Loop, span);
    let offset = (code_len(c1) + 2 - loop_start) as usize;
    write(write(c1, (offset >> 8) as u8, span), (offset & 0xff) as u8, span)
}

pub open spec fn too_many_constants(span: Span) -> CErr {
    CErr { span, message: "Too many constants in one chunk."@ }
}

/// Adds a constant to the current function; an index past one byte is an error.
pub open spec fn add_constant(c: CView, k: ConstantView, span: Span) -> Result<(CView, u8), CErr> {
    let t = top(c);
    let index = t.function.constants.len();
    if index > 255 {
        Err(too_many_constants(span))
    } else {
        let function = FunctionView { constants: t.function.constants.push(k), ..t.function };
        Ok((set_top(c, CtxView { function, ..t }), index as u8))
    }
}

pub open spec fn make_constant(c: CView, k: ConstantView, span: Span) -> CR {
    match add_constant(c, k, span) {
        Ok((c1, i)) => Ok(op1(c1, OpCode::Constant, i, span)),
        Err(e) => Err(e),
    }
}

pub open spec fn add_name(c: CView, name: Seq<char>, span: Span) -> Result<(CView, u8), CErr> {
    add_constant(c, ConstantView::String(name), span)
}

pub open spec fn insert_global(globals: Seq<Seq<char>>, name: Seq<char>) -> Seq<Seq<char>> {
    if globals.contains(name) { globals } else { globals.push(name) }
}

pub open spec fn define_global(c: CView, name: Seq<char>, span: Span) -> CR {
    match add_name(c, name, span) {
        Ok((c1, k)) => {
            let c2 = op1(c1, OpCode::DefineGlobal, k, span);
            Ok(CView { globals: insert_global(c2.globals, name), ..c2 })
        },
        Err(e) => Err(e),
    }
}

pub open spec fn nested_too_deeply(span: Span) -> CErr {
    CErr { span, message: "Blocks are nested too deeply."@ }
}

/// Enters a block: one level deeper. A depth past `usize::MAX` is an error.
pub open spec fn begin_scope(c: CView, span: Span) -> CR {
    let t = top(c);
    if t.scope_depth == usize::MAX {
        Err(nested_too_deeply(span))
    } else {
        Ok(op(set_top(c, CtxView { scope_depth: (t.scope_depth + 1) as usize, ..t }), OpCode::EnterScope, span))
    }
}

/// Leaves the locals deeper than `depth`: a captured one is closed over, any
/// other is popped.
pub open spec fn pop_locals(t: CtxView, depth: usize, span: Span) -> CtxView
    decreases t.locals.len(),
{
    if t.locals.len() > 0 && t.locals.last().depth > depth {
        let o = if t.locals.last().is_captured { OpCode::CloseUpvalue } else { OpCode::Pop };
        let t1 = ctx_write(t, spec_encode(o), span);
        pop_locals(CtxView { locals: t.locals.drop_last(), ..t1 }, depth, span)
    } else {
        t
    }
}

/// Leaves a block (entered by `begin_scope`).
pub open spec fn end_scope(c: CView, span: Span) -> CView {
    let c1 = op(c, OpCode::ExitScope, span);
    let t = top(c1);
    let depth = (t.scope_depth - 1) as usize;
    set_top(c1, pop_locals(CtxView { scope_depth: depth, ..t }, depth, span))
}

/// A new local at the current depth; at depth 0 (top level) names are not locals.
pub open spec fn declare_variable(c: CView, name: Seq<char>) -> CView {
    let t = top(c);
    if t.scope_depth == 0 {
        c
    } else {
        let f = t.function;
        set_top(
            c,
            CtxView {
                locals: t.locals.push(LocalView { name, depth: t.scope_depth, is_captured: false }),
                function: FunctionView { local_names: f.local_names.push(name), ..f },
                ..t
            },
        )
    }
}

/// The last local of that name.
pub open spec fn rfind_local(ls: Seq<LocalView>, name: Seq<char>) -> Option<int>
    decreases ls.len(),
{
    if ls.len() == 0 {
        None
    } else if ls.last().name == name {
        Some(ls.len() - 1)
    } else {
        rfind_local(ls.drop_last(), name)
    }
}

/// The first declared name of that name, from `i` on.
pub open spec fn find_name(names: Seq<Seq<char>>, name: Seq<char>, i: int) -> Option<int>
    decreases names.len() - i,
{
    if !(0 <= i < names.len()) {
        None
    } else if names[i] == name {
        Some(i)
    } else {
        find_name(names, name, i + 1)
    }
}

/// The slot of a name in function `k`.
pub open spec fn resolve_local_in(c: CView, k: int, name: Seq<char>) -> Option<u8> {
    ctx_resolve_local(c.stack[k], name)
}

/// The slot of a name in a function: its innermost local in scope, else the
/// first local ever declared with that name.
pub open spec fn ctx_resolve_local(ctx: CtxView, name: Seq<char>) -> Option<u8> {
    match rfind_local(ctx.locals, name) {
        Some(i) => Some(i as u8),
        None => match find_name(ctx.function.local_names, name, 0) {
            Some(i) => Some(i as u8),
            None => None,
        },
    }
}

/// The first captured variable equal to `(index, is_local)`.
pub open spec fn find_upvalue(ups: Seq<UpvalueDescriptor>, d: UpvalueDescriptor, i: int) -> Option<int>
    decreases ups.len() - i,
{
    if !(0 <= i < ups.len()) {
        None
    } else if ups[i] == d {
        Some(i)
    } else {
        find_upvalue(ups, d, i + 1)
    }
}

/// Adds a captured variable to the current function (reusing an equal one);
/// none when 255 are already there.
pub open spec fn add_upvalue(c: CView, d: UpvalueDescriptor) -> (CView, Option<u8>) {
    let t = top(c);
    match find_upvalue(t.upvalues, d, 0) {
        Some(i) => (c, Some(i as u8)),
        None => if t.upvalues.len() >= 255 {
            (c, None)
        } else {
            (set_top(c, CtxView { upvalues: t.upvalues.push(d), ..t }), Some(t.upvalues.len() as u8))
        },
    }
}

pub open spec fn lost_capture(span: Span) -> CErr {
    CErr { span, message: "Internal compiler error: a captured variable is no longer in scope."@ }
}

/// Marks local `i` of function `k` as captured by a nested function.
pub open spec fn mark_captured(c: CView, k: int, i: int, span: Span) -> CR {
    let ctx = c.stack[k];
    if 0 <= i < ctx.locals.len() {
        Ok(
            CView {
                stack: c.stack.update(
                    k,
                    CtxView {
                        locals: ctx.locals.update(i, LocalView { is_captured: true, ..ctx.locals[i] }),
                        ..ctx
                    },
                ),
                ..c
            },
        )
    } else {
        Err(lost_capture(span))
    }
}

/// Adds `d` to the captured variables of function `k` (reusing an equal one).
pub open spec fn add_upvalue_in(c: CView, k: int, d: UpvalueDescriptor) -> (CView, Option<u8>) {
    let ctx = c.stack[k];
    match find_upvalue(ctx.upvalues, d, 0) {
        Some(i) => (c, Some(i as u8)),
        None => (
            CView { stack: c.stack.update(k, CtxView { upvalues: ctx.upvalues.push(d), ..ctx }), ..c },
            Some(ctx.upvalues.len() as u8),
        ),
    }
}

/// The state after resolving a captured variable, with its index if found.
pub type UR = Result<(CView, Option<u8>), CErr>;

/// Finds `name` for function `k` among the variables of the functions around
/// it, capturing it in every function on the way in.
pub open spec fn resolve_upvalue_in(c: CView, k: int, name: Seq<char>, span: Span) -> UR
    decreases k,
{
    if k <= 0 || k >= c.stack.len() {
        Ok((c, None))
    } else {
        let e = k - 1;
        match resolve_local_in(c, e, name) {
            Some(local) => match mark_captured(c, e, local as int, span) {
                Ok(c1) => Ok(add_upvalue_in(c1, k, UpvalueDescriptor { index: local, is_local: true })),
                Err(x) => Err(x),
            },
            None => match resolve_upvalue_in(c, e, name, span) {
                Ok((c1, Some(u))) => if (u as int) < c1.stack[e].upvalues.len() {
                    Ok(add_upvalue_in(c1, k, c1.stack[e].upvalues[u as int]))
                } else {
                    Err(lost_capture(span))
                },
                Ok((c1, None)) => Ok((c1, None)),
                Err(x) => Err(x),
            },
        }
    }
}

/// Finds `name` for the current function among enclosing functions' variables.
#[verifier::opaque]
pub open spec fn resolve_upvalue(c: CView, name: Seq<char>, span: Span) -> UR {
    if c.stack.len() < 2 {
        Ok((c, None))
    } else {
        let e = c.stack.len() - 2;
        match resolve_local_in(c, e, name) {
            Some(local) => match mark_captured(c, e, local as int, span) {
                Ok(c1) => Ok(add_upvalue(c1, UpvalueDescriptor { index: local, is_local: true })),
                Err(x) => Err(x),
            },
            None => match resolve_upvalue_in(c, e, name, span) {
                Ok((c1, Some(u))) => if (u as int) < c1.stack[e].upvalues.len() {
                    Ok(add_upvalue(c1, c1.stack[e].upvalues[u as int]))
                } else {
                    Err(lost_capture(span))
                },
                Ok((c1, None)) => Ok((c1, None)),
                Err(x) => Err(x),
            },
        }
    }
}

/// Reading (or, with `can_assign`, writing) a variable: a local slot, a
/// captured variable, a known global, or else a name looked up at run time.
#[verifier::opaque]
pub open spec fn named_variable(c: CView, name: Seq<char>, span: Span, can_assign: bool) -> CR {
    match resolve_local_in(c, c.stack.len() - 1, name) {
        Some(local) => Ok(
            op1(c, if can_assign { OpCode::SetLocal } else { OpCode::GetLocal }, local, span),
        ),
        None => match resolve_upvalue(c, name, span) {
            Ok((c1, Some(u))) => Ok(
                op1(c1, if can_assign { OpCode::SetUpvalue } else { OpCode::GetUpvalue }, u, span),
            ),
            Ok((c1, None)) => match add_name(c1, name, span) {
                Ok((c2, k)) => {
                    let global = c2.globals.contains(name);
                    let o = if can_assign {
                        if global { OpCode::SetGlobal } else { OpCode::StoreVariable }
                    } else {
                        if global { OpCode::GetGlobal } else { OpCode::GetVariable }
                    };
                    Ok(op1(c2, o, k, span))
                },
                Err(x) => Err(x),
            },
            Err(x) => Err(x),
        },
    }
}

/// The instruction of an arithmetic or comparison operator. (`and` and `or`
/// compile to jumps instead and never reach this table.)
pub open spec fn binary_opcode(o: BinaryOp) -> OpCode {
    match o {
        BinaryOp::Add => OpCode::Add,
        BinaryOp::Sub => OpCode::Sub,
        BinaryOp::Mul => OpCode::Mul,
        BinaryOp::Div => OpCode::Div,
        BinaryOp::Equal => OpCode::Equal,
        BinaryOp::NotEqual => OpCode::NotEqual,
        BinaryOp::Less => OpCode::Less,
        BinaryOp::Greater => OpCode::Greater,
        BinaryOp::LessEqual => OpCode::LessEqual,
        BinaryOp::GreaterEqual => OpCode::GreaterEqual,
        BinaryOp::And => OpCode::Pop,
        BinaryOp::Or => OpCode::Pop,
    }
}

pub open spec fn range_outside_for(span: Span) -> CErr {
    CErr {
        span,
        message: "range() can only be used inside a for loop, like: for i in range(1 through 6)."@,
    }
}

/// The code of an expression, which leaves its value on the stack.
pub open spec fn c_expr(c: CView, e: ExprView) -> CR
    decreases e, 0int,
{
    match e.kind {
        ExprViewKind::StringLiteral(s) => make_constant(
            c,
            ConstantView::Value(ConstValueView::GuppyString(s)),
            e.span,
        ),
        ExprViewKind::CharLiteral(ch) => make_constant(
            c,
            ConstantView::Value(ConstValueView::GuppyChar(ch)),
            e.span,
        ),
        ExprViewKind::NumberLiteral(n) => make_constant(
            c,
            ConstantView::Value(ConstValueView::GuppyNumber(n)),
            e.span,
        ),
        ExprViewKind::FloatLiteral(digits) => make_constant(
            c,
            ConstantView::Value(ConstValueView::GuppyFloat(digits)),
            e.span,
        ),
        ExprViewKind::BoolLiteral(b) => Ok(
            op(c, if b { OpCode::True } else { OpCode::False }, e.span),
        ),
        ExprViewKind::ArrayLiteral(items) => match c_exprs(c, items, 0) {
            Ok(c1) => Ok(op1(c1, OpCode::MakeArray, items.len() as u8, e.span)),
            Err(x) => Err(x),
        },
        ExprViewKind::Variable(name) => named_variable(c, name, e.span, false),
        ExprViewKind::UnaryOp { op: u, operand } => match c_expr(c, *operand) {
            Ok(c1) => Ok(
                op(c1, if u == UnaryOp::Not { OpCode::Not } else { OpCode::Negate }, e.span),
            ),
            Err(x) => Err(x),
        },
        ExprViewKind::BinaryOp { left, op: b, right } => if b == BinaryOp::And {
            match c_expr(c, *left) {
                Ok(c1) => {
                    let (c2, end_jump) = jump_placeholder(c1, OpCode::JumpIfFalse, e.span);
                    match c_expr(op(c2, OpCode::Pop, e.span), *right) {
                        Ok(c3) => Ok(patch_jump(c3, end_jump)),
                        Err(x) => Err(x),
                    }
                },
                Err(x) => Err(x),
            }
        } else if b == BinaryOp::Or {
            match c_expr(c, *left) {
                Ok(c1) => {
                    let (c2, else_jump) = jump_placeholder(c1, OpCode::JumpIfFalse, e.span);
                    let (c3, end_jump) = jump_placeholder(c2, OpCode::Jump, e.span);
                    let c4 = op(patch_jump(c3, else_jump), OpCode::Pop, e.span);
                    match c_expr(c4, *right) {
                        Ok(c5) => Ok(patch_jump(c5, end_jump)),
                        Err(x) => Err(x),
                    }
                },
                Err(x) => Err(x),
            }
        } else {
            match c_expr(c, *left) {
                Ok(c1) => match c_expr(c1, *right) {
                    Ok(c2) => Ok(op(c2, binary_opcode(b), e.span)),
                    Err(x) => Err(x),
                },
                Err(x) => Err(x),
            }
        },
        ExprViewKind::FunctionCall { name, args } => if name == spec_syntax().print_fn@ {
            match c_exprs(c, args, 0) {
                Ok(c1) => Ok(op1(c1, OpCode::Print, args.len() as u8, e.span)),
                Err(x) => Err(x),
            }
        } else {
            match named_variable(c, name, e.span, false) {
                Ok(c1) => match c_exprs(c1, args, 0) {
                    Ok(c2) => Ok(op1(c2, OpCode::Call, args.len() as u8, e.span)),
                    Err(x) => Err(x),
                },
                Err(x) => Err(x),
            }
        },
        ExprViewKind::Range { .. } => Err(range_outside_for(e.span)),
    }
}

/// An arithmetic or comparison expression `l op r` compiles to the code of
/// `l`, then the code of `r`, then the one instruction that performs `op`:
/// `+` Add, `-` Sub, `*` Mul, `/` Div, `==` Equal, `!=` NotEqual, `<` Less,
/// `>` Greater, `<=` LessEqual, `>=` GreaterEqual. A negation or `not`
/// compiles to its operand's code, then Negate or Not; `true` and `false`
/// to True and False. A call of `out` compiles its arguments in order and
/// then Print with their count; a call of any other name loads the callee,
/// compiles the arguments, then Call with their count. An error in an
/// operand is the expression's error.
pub proof fn lemma_operator_instructions(c: CView, e: ExprView)
    ensures
        match e.kind {
            ExprViewKind::BinaryOp { left, op: b, right } => b != BinaryOp::And && b != BinaryOp::Or
                ==> match c_expr(c, *left) {
                Ok(c1) => match c_expr(c1, *right) {
                    Ok(c2) => c_expr(c, e) == Ok::<CView, CErr>(
                        write(
                            c2,
                            spec_encode(
                                match b {
                                    BinaryOp::Add => OpCode::Add,
                                    BinaryOp::Sub => OpCode::Sub,
                                    BinaryOp::Mul => OpCode::Mul,
                                    BinaryOp::Div => OpCode::Div,
                                    BinaryOp::Equal => OpCode::Equal,
                                    BinaryOp::NotEqual => OpCode::NotEqual,
                                    BinaryOp::Less => OpCode::Less,
                                    BinaryOp::Greater => OpCode::Greater,
                                    BinaryOp::LessEqual => OpCode::LessEqual,
                                    _ => OpCode::GreaterEqual,
                                },
                            ),
                            e.span,
                        ),
                    ),
                    Err(x) => c_expr(c, e) == Err::<CView, CErr>(x),
                },
                Err(x) => c_expr(c, e) == Err::<CView, CErr>(x),
            },
            ExprViewKind::UnaryOp { op: u, operand } => match c_expr(c, *operand) {
                Ok(c1) => c_expr(c, e) == Ok::<CView, CErr>(
                    write(
                        c1,
                        spec_encode(
                            match u {
                                UnaryOp::Negate => OpCode::Negate,
                                UnaryOp::Not => OpCode::Not,
                            },
                        ),
                        e.span,
                    ),
                ),
                Err(x) => c_expr(c, e) == Err::<CView, CErr>(x),
            },
            ExprViewKind::BoolLiteral(b) => c_expr(c, e) == Ok::<CView, CErr>(
                write(c, spec_encode(if b { OpCode::True } else { OpCode::False }), e.span),
            ),
            ExprViewKind::FunctionCall { name, args } => if name == "out"@ {
                match c_exprs(c, args, 0) {
                    Ok(c1) => c_expr(c, e) == Ok::<CView, CErr>(
                        write(write(c1, spec_encode(OpCode::Print), e.span), args.len() as u8, e.span),
                    ),
                    Err(x) => c_expr(c, e) == Err::<CView, CErr>(x),
                }
            } else {
                match named_variable(c, name, e.span, false) {
                    Ok(c1) => match c_exprs(c1, args, 0) {
                        Ok(c2) => c_expr(c, e) == Ok::<CView, CErr>(
                            write(write(c2, spec_encode(OpCode::Call), e.span), args.len() as u8, e.span),
                        ),
                        Err(x) => c_expr(c, e) == Err::<CView, CErr>(x),
                    },
                    Err(x) => c_expr(c, e) == Err::<CView, CErr>(x),
                }
            },
            _ => true,
        },
{
}

/// The code of `es[i..]`, in order.
pub open spec fn c_exprs(c: CView, es: Seq<ExprView>, i: int) -> CR
    decreases es, es.len() - i,
{
    if !(0 <= i < es.len()) {
        Ok(c)
    } else {
        match c_expr(c, es[i]) {
            Ok(c1) => c_exprs(c1, es, i + 1),
            Err(x) => Err(x),
        }
    }
}


// ---------------------------------------------------------------------------
// Specification: statements, functions and the whole program
// ---------------------------------------------------------------------------

/// A fresh context for a function with `arity` parameters and this body.
pub open spec fn new_ctx(arity: usize, body: Seq<StmtView>) -> CtxView {
    CtxView {
        function: FunctionView {
            arity,
            code: Seq::empty(),
            constants: Seq::empty(),
            spans: Seq::empty(),
            upvalues: Seq::empty(),
            local_names: Seq::empty(),
        },
        locals: Seq::empty(),
        upvalues: Seq::empty(),
        scope_depth: 0,
        has_nested_functions: exists|i: int| 0 <= i < body.len() && (#[trigger] body[i]).kind is FunctionDef,
    }
}

/// The compiled function of a finished context, with the variables it captures.
pub open spec fn finished(t: CtxView) -> FunctionView {
    FunctionView { upvalues: t.upvalues, ..t.function }
}

/// The slot of the most recently declared local.
pub open spec fn last_slot(c: CView) -> u8 {
    (top(c).locals.len() - 1) as u8
}

pub open spec fn declare_params(c: CView, params: Seq<Seq<char>>, i: int) -> CView
    decreases params.len() - i,
{
    if !(0 <= i < params.len()) {
        c
    } else {
        declare_params(declare_variable(c, params[i]), params, i + 1)
    }
}

/// Storing the value on the stack into a declared name: an existing local or
/// captured variable, a known global, a new local of a function that holds
/// nested functions, a new global at the top level, or else a name stored at
/// run time.
#[verifier::opaque]
pub open spec fn c_assign_declared(c: CView, name: Seq<char>, span: Span) -> CR {
    match resolve_local_in(c, c.stack.len() - 1, name) {
        Some(local) => Ok(op1(c, OpCode::SetLocal, local, span)),
        None => match resolve_upvalue(c, name, span) {
            Ok((c1, Some(u))) => Ok(op1(c1, OpCode::SetUpvalue, u, span)),
            Ok((c1, None)) => if c1.globals.contains(name) {
                match add_name(c1, name, span) {
                    Ok((c2, k)) => Ok(op1(c2, OpCode::SetGlobal, k, span)),
                    Err(x) => Err(x),
                }
            } else if c1.stack.len() >= 2 && top(c1).has_nested_functions {
                let c2 = declare_variable(c1, name);
                Ok(op1(c2, OpCode::SetLocal, last_slot(c2), span))
            } else {
                match add_name(c1, name, span) {
                    Ok((c2, k)) => {
                        let c3 = op1(c2, OpCode::StoreVariable, k, span);
                        if c1.stack.len() < 2 && top(c1).scope_depth == 0 {
                            Ok(CView { globals: insert_global(c3.globals, name), ..c3 })
                        } else {
                            Ok(c3)
                        }
                    },
                    Err(x) => Err(x),
                }
            },
            Err(x) => Err(x),
        },
    }
}

/// What a `for` loop walks over, as a list in a hidden local, and a hidden
/// counter set to 0; returns the two slots.
#[verifier::opaque]
pub open spec fn for_setup(c: CView, iterable: ExprView, span: Span) -> Result<(CView, u8, u8), CErr> {
    let evaluated = match iterable.kind {
        ExprViewKind::Range { start, end } => match c_expr(c, *start) {
            Ok(c1) => match c_expr(c1, *end) {
                Ok(c2) => Ok(op(c2, OpCode::BuildRange, span)),
                Err(x) => Err(x),
            },
            Err(x) => Err(x),
        },
        _ => match c_expr(c, iterable) {
            Ok(c1) => Ok(op1(c1, OpCode::MakeArray, 1, span)),
            Err(x) => Err(x),
        },
    };
    match evaluated {
        Ok(c1) => {
            let c2 = declare_variable(c1, for_array_name());
            let array_slot = last_slot(c2);
            let c3 = op1(c2, OpCode::SetLocal, array_slot, span);
            let c4 = declare_variable(c3, for_index_name());
            let index_slot = last_slot(c4);
            match make_constant(c4, ConstantView::Value(ConstValueView::GuppyNumber(0)), span) {
                Ok(c5) => Ok((op1(c5, OpCode::SetLocal, index_slot, span), array_slot, index_slot)),
                Err(x) => Err(x),
            }
        },
        Err(x) => Err(x),
    }
}

pub open spec fn for_array_name() -> Seq<char> {
    "__for_array"@
}

pub open spec fn for_index_name() -> Seq<char> {
    "__for_index"@
}

/// The test at the top of each round (leave when the counter reaches the
/// length), then the current item stored into the loop variable. Returns the
/// exit jump to patch.
#[verifier::opaque]
pub open spec fn for_step(c: CView, variable: Seq<char>, array_slot: u8, index_slot: u8, span: Span) -> Result<(CView, int), CErr> {
    let c1 = op1(c, OpCode::GetLocal, index_slot, span);
    let c2 = op(op(op1(c1, OpCode::GetLocal, array_slot, span), OpCode::ArrayLen, span), OpCode::GreaterEqual, span);
    let (c3, body_jump) = jump_placeholder(c2, OpCode::JumpIfFalse, span);
    let (c4, exit_jump) = jump_placeholder(op(c3, OpCode::Pop, span), OpCode::Jump, span);
    let c5 = op(patch_jump(c4, body_jump), OpCode::Pop, span);
    let c6 = op(op1(op1(c5, OpCode::GetLocal, array_slot, span), OpCode::GetLocal, index_slot, span), OpCode::GetIndex, span);
    match add_name(c6, variable, span) {
        Ok((c7, k)) => Ok((declare_variable(op1(c7, OpCode::StoreVariable, k, span), variable), exit_jump)),
        Err(x) => Err(x),
    }
}

/// After the body: the counter goes up by one, the loop jumps back to its
/// test, and the loop's block is left.
#[verifier::opaque]
pub open spec fn for_finish(c: CView, loop_start: int, exit_jump: int, index_slot: u8, span: Span) -> CR {
    let c1 = op1(c, OpCode::GetLocal, index_slot, span);
    match make_constant(c1, ConstantView::Value(ConstValueView::GuppyNumber(1)), span) {
        Ok(c2) => {
            let c3 = op1(op(c2, OpCode::Add, span), OpCode::SetLocal, index_slot, span);
            Ok(end_scope(patch_jump(emit_loop(c3, loop_start, span), exit_jump), span))
        },
        Err(x) => Err(x),
    }
}

/// The code of a statement.
pub open spec fn c_stmt(c: CView, s: StmtView) -> CR
    decreases s, 1int,
{
    let span = s.span;
    match s.kind {
        StmtViewKind::ExpressionStatement(e) => match c_expr(c, e) {
            Ok(c1) => Ok(op(c1, OpCode::Pop, span)),
            Err(x) => Err(x),
        },
        StmtViewKind::VariableDeclaration { name, value } => match c_expr(c, value) {
            Ok(c1) => c_assign_declared(c1, name, span),
            Err(x) => Err(x),
        },
        StmtViewKind::IfStatement { .. } => c_if(c, s),
        StmtViewKind::WhileLoop { .. } => c_while(c, s),
        StmtViewKind::ForLoop { variable, iterable, body } => c_for(c, variable, iterable, body, span),
        StmtViewKind::ReturnStatement { value } => {
            let evaluated = match value {
                Some(e) => c_expr(c, e),
                None => make_constant(c, ConstantView::Value(ConstValueView::Nothing), span),
            };
            match evaluated {
                Ok(c1) => Ok(op(c1, OpCode::Return, span)),
                Err(x) => Err(x),
            }
        },
        StmtViewKind::FunctionDef { .. } => c_function_def(c, s),
    }
}

/// An `if` statement: the condition, a jump over the `then` block when it is
/// false, and a jump over the `else` block (if any) at the end of the `then` block.
pub open spec fn c_if(c: CView, s: StmtView) -> CR
    decreases s, 0int,
{
    let span = s.span;
    match s.kind {
        StmtViewKind::IfStatement { condition, then_branch, else_branch } => match c_expr(c, condition) {
            Ok(c1) => {
                let (c2, then_jump) = jump_placeholder(c1, OpCode::JumpIfFalse, span);
                match c_block(op(c2, OpCode::Pop, span), then_branch, span) {
                    Ok(c3) => {
                        let (c4, else_jump) = jump_placeholder(c3, OpCode::Jump, span);
                        let c5 = op(patch_jump(c4, then_jump), OpCode::Pop, span);
                        match else_branch {
                            Some(b) => match c_block(c5, b, span) {
                                Ok(c6) => Ok(patch_jump(c6, else_jump)),
                                Err(x) => Err(x),
                            },
                            None => Ok(patch_jump(c5, else_jump)),
                        }
                    },
                    Err(x) => Err(x),
                }
            },
            Err(x) => Err(x),
        },
        _ => Ok(c),
    }
}

/// A `while` loop: the condition, a jump out when it is false, the body,
/// and a jump back to the condition.
pub open spec fn c_while(c: CView, s: StmtView) -> CR
    decreases s, 0int,
{
    let span = s.span;
    match s.kind {
        StmtViewKind::WhileLoop { condition, body } => {
            let loop_start = code_len(c);
            match c_expr(c, condition) {
                Ok(c1) => {
                    let (c2, exit_jump) = jump_placeholder(c1, OpCode::JumpIfFalse, span);
                    match c_block(op(c2, OpCode::Pop, span), body, span) {
                        Ok(c3) => Ok(
                            op(patch_jump(emit_loop(c3, loop_start, span), exit_jump), OpCode::Pop, span),
                        ),
                        Err(x) => Err(x),
                    }
                },
                Err(x) => Err(x),
            }
        },
        _ => Ok(c),
    }
}

/// A function definition inside a function or block: the function made a
/// closure, stored under its name, and declared as a local.
pub open spec fn c_function_def(c: CView, s: StmtView) -> CR
    decreases s, 0int,
{
    let span = s.span;
    match s.kind {
        StmtViewKind::FunctionDef { name, params, body } => match c_function(c, params, body, span) {
            Ok((c1, f)) => match add_constant(c1, ConstantView::Function(f), span) {
                Ok((c2, k)) => match add_name(op1(c2, OpCode::Closure, k, span), name, span) {
                    Ok((c3, n)) => Ok(declare_variable(op1(c3, OpCode::StoreVariable, n, span), name)),
                    Err(x) => Err(x),
                },
                Err(x) => Err(x),
            },
            Err(x) => Err(x),
        },
        _ => Ok(c),
    }
}

/// The code of `ss[i..]`, in order.
pub open spec fn c_stmts(c: CView, ss: Seq<StmtView>, i: int) -> CR
    decreases ss, ss.len() - i,
{
    if !(0 <= i < ss.len()) {
        Ok(c)
    } else {
        match c_stmt(c, ss[i]) {
            Ok(c1) => c_stmts(c1, ss, i + 1),
            Err(x) => Err(x),
        }
    }
}

/// A block: its statements inside a scope of their own.
pub open spec fn c_block(c: CView, ss: Seq<StmtView>, span: Span) -> CR
    decreases ss, ss.len() + 1,
{
    match begin_scope(c, span) {
        Ok(c1) => match c_stmts(c1, ss, 0) {
            Ok(c2) => Ok(end_scope(c2, span)),
            Err(x) => Err(x),
        },
        Err(x) => Err(x),
    }
}

/// A `for` loop.
pub open spec fn c_for(c: CView, variable: Seq<char>, iterable: ExprView, body: Seq<StmtView>, span: Span) -> CR
    decreases body, body.len() + 2,
{
    match begin_scope(c, span) {
        Ok(c1) => match for_setup(c1, iterable, span) {
            Ok((c2, array_slot, index_slot)) => {
                let loop_start = code_len(c2);
                match for_step(c2, variable, array_slot, index_slot, span) {
                    Ok((c3, exit_jump)) => match c_block(c3, body, span) {
                        Ok(c4) => for_finish(c4, loop_start, exit_jump, index_slot, span),
                        Err(x) => Err(x),
                    },
                    Err(x) => Err(x),
                }
            },
            Err(x) => Err(x),
        },
        Err(x) => Err(x),
    }
}

/// A nested function: compiled in a context of its own, whose parameters are
/// its first locals; returns the compiler back in the enclosing function, and
/// the finished function.
pub open spec fn c_function(c: CView, params: Seq<Seq<char>>, body: Seq<StmtView>, span: Span) -> Result<(CView, FunctionView), CErr>
    decreases body, body.len() + 2,
{
    let t0 = CtxView { scope_depth: 1, ..new_ctx(params.len() as usize, body) };
    let c1 = declare_params(CView { stack: c.stack.push(t0), ..c }, params, 0);
    match c_block(c1, body, span) {
        Ok(c2) => {
            let c3 = op(op(c2, OpCode::Nil, span), OpCode::Return, span);
            Ok((CView { stack: c3.stack.drop_last(), ..c3 }, finished(top(c3))))
        },
        Err(x) => Err(x),
    }
}

/// The names of the program's top-level functions: globals from the start.
pub open spec fn initial_globals(p: Seq<StmtView>) -> Seq<Seq<char>>
    decreases p.len(),
{
    if p.len() == 0 {
        Seq::empty()
    } else {
        let g = initial_globals(p.drop_last());
        match p.last().kind {
            StmtViewKind::FunctionDef { name, .. } => insert_global(g, name),
            _ => g,
        }
    }
}

/// A top-level function: compiled, made a closure, and bound as a global.
#[verifier::opaque]
pub open spec fn define_function(c: CView, name: Seq<char>, params: Seq<Seq<char>>, body: Seq<StmtView>, span: Span) -> CR {
    match c_function(c, params, body, span) {
        Ok((c1, f)) => match add_constant(c1, ConstantView::Function(f), span) {
            Ok((c2, k)) => define_global(op1(c2, OpCode::Closure, k, span), name, span),
            Err(x) => Err(x),
        },
        Err(x) => Err(x),
    }
}

/// First pass over the program: its top-level functions, in order.
pub open spec fn define_functions(c: CView, p: Seq<StmtView>, i: int) -> CR
    decreases p.len() - i,
{
    if !(0 <= i < p.len()) {
        Ok(c)
    } else {
        match p[i].kind {
            StmtViewKind::FunctionDef { name, params, body } => match define_function(c, name, params, body, p[i].span) {
                Ok(c1) => define_functions(c1, p, i + 1),
                Err(x) => Err(x),
            },
            _ => define_functions(c, p, i + 1),
        }
    }
}

/// A top-level statement of the second pass.
#[verifier::opaque]
pub open spec fn top_stmt(c: CView, s: StmtView) -> CR {
    c_stmt(c, s)
}

/// Second pass: the other top-level statements, in order.
pub open spec fn compile_rest(c: CView, p: Seq<StmtView>, i: int) -> CR
    decreases p.len() - i,
{
    if !(0 <= i < p.len()) {
        Ok(c)
    } else if p[i].kind is FunctionDef {
        compile_rest(c, p, i + 1)
    } else {
        match top_stmt(c, p[i]) {
            Ok(c1) => compile_rest(c1, p, i + 1),
            Err(x) => Err(x),
        }
    }
}

pub open spec fn script_end() -> Span {
    Span { line: 1, column: 1, length: 1 }
}

/// The compiled script of a whole program, or the first compile error.
pub open spec fn spec_compile(p: Seq<StmtView>) -> Result<FunctionView, ErrorView> {
    let c0 = CView { stack: seq![new_ctx(0, p)], globals: initial_globals(p) };
    match define_functions(c0, p, 0) {
        Ok(c1) => match compile_rest(c1, p, 0) {
            Ok(c2) => Ok(finished(top(op(op(c2, OpCode::Nil, script_end()), OpCode::Return, script_end())))),
            Err(x) => Err(cerr_view(x)),
        },
        Err(x) => Err(cerr_view(x)),
    }
}


// ---------------------------------------------------------------------------
// The compiler
// ---------------------------------------------------------------------------

/// What a compiling step gave: the state the specification names, or its error.
pub open spec fn outcome(r: Result<(), GupError>, after: CView, expected: CR) -> bool {
    match expected {
        Ok(c) => r is Ok && after == c,
        Err(x) => r is Err && r->Err_0@ == cerr_view(x),
    }
}

/// What compiling keeps: the same functions in progress, each enclosing
/// function's code and depth untouched, the current one at the same depth
/// with its code only grown.
pub open spec fn kept(a: CView, b: CView) -> bool {
    &&& kept_frames(a, b)
    &&& top(b).scope_depth == top(a).scope_depth
}

/// As `kept`, but the current function may have changed depth.
pub open spec fn kept_frames(a: CView, b: CView) -> bool {
    &&& b.stack.len() == a.stack.len()
    &&& forall|i: int|
        0 <= i < a.stack.len() - 1 ==> (#[trigger] b.stack[i]).function == a.stack[i].function
            && b.stack[i].scope_depth == a.stack[i].scope_depth
    &&& top(b).function.code.len() >= top(a).function.code.len()
    &&& top(b).function.arity == top(a).function.arity
    &&& aligned(top(a)) ==> aligned(top(b))
}

/// Every byte of a function's code has the span it came from.
pub open spec fn aligned(t: CtxView) -> bool {
    t.function.spans.len() == t.function.code.len()
}

/// A nested function is always inside a block.
pub open spec fn depth_ok(c: CView) -> bool {
    c.stack.len() >= 2 ==> top(c).scope_depth >= 1
}

struct Local {
    name: String,
    depth: usize,
    is_captured: bool,
}

impl View for Local {
    type V = LocalView;

    closed spec fn view(&self) -> LocalView {
        LocalView { name: self.name@, depth: self.depth, is_captured: self.is_captured }
    }
}

spec fn locals_view(v: Seq<Local>) -> Seq<LocalView> {
    Seq::new(v.len(), |i: int| v[i]@)
}

/// One function being compiled.
struct FunctionContext {
    function: CompiledFunction,
    locals: Vec<Local>,
    upvalues: Vec<UpvalueDescriptor>,
    scope_depth: usize,
    has_nested_functions: bool,
}

impl View for FunctionContext {
    type V = CtxView;

    closed spec fn view(&self) -> CtxView {
        CtxView {
            function: self.function@,
            locals: locals_view(self.locals@),
            upvalues: self.upvalues@,
            scope_depth: self.scope_depth,
            has_nested_functions: self.has_nested_functions,
        }
    }
}

spec fn ctxs_view(v: Seq<FunctionContext>) -> Seq<CtxView> {
    Seq::new(v.len(), |i: int| v[i]@)
}

/// The compiler's state: the function being compiled, the functions that
/// enclose it (outermost first), and the names known to be globals.
struct Compiler {
    current: FunctionContext,
    enclosing: Vec<FunctionContext>,
    globals: Vec<String>,
}

impl View for Compiler {
    type V = CView;

    closed spec fn view(&self) -> CView {
        CView { stack: ctxs_view(self.enclosing@).push(self.current@), globals: strings_view(self.globals@) }
    }
}

proof fn lemma_set_top(a: Compiler, b: Compiler)
    requires
        b.enclosing@ == a.enclosing@,
        b.globals@ == a.globals@,
    ensures
        b@ == set_top(a@, b.current@),
        top(a@) == a.current@,
        a@.stack.len() == a.enclosing@.len() + 1,
{
    assert(b@.stack =~= set_top(a@, b.current@).stack);
}

proof fn lemma_view_shape(a: Compiler)
    ensures
        top(a@) == a.current@,
        a@.stack.len() == a.enclosing@.len() + 1,
        forall|i: int| 0 <= i < a.enclosing@.len() ==> a@.stack[i] == (#[trigger] a.enclosing@[i])@,
{
}

impl Compiler {
    fn emit_byte(&mut self, byte: u8, span: Span)
        ensures
            final(self)@ == write(old(self)@, byte, span),
            final(self).enclosing@ == old(self).enclosing@,
            final(self).globals@ == old(self).globals@,
    {
        self.current.function.chunk.write(byte, span);
        proof {
            lemma_set_top(*old(self), *self);
            assert(self.current@ =~= ctx_write(old(self).current@, byte, span));
        }
    }

    fn emit_op(&mut self, o: OpCode, span: Span)
        ensures
            final(self)@ == op(old(self)@, o, span),
            final(self).enclosing@ == old(self).enclosing@,
            final(self).globals@ == old(self).globals@,
    {
        let byte = encode_opcode(o);
        self.emit_byte(byte, span);
    }

    fn emit_op1(&mut self, o: OpCode, operand: u8, span: Span)
        ensures
            final(self)@ == op1(old(self)@, o, operand, span),
            final(self).enclosing@ == old(self).enclosing@,
            final(self).globals@ == old(self).globals@,
    {
        self.emit_op(o, span);
        self.emit_byte(operand, span);
    }

    fn code_len(&self) -> (n: usize)
        ensures
            n == code_len(self@),
    {
        proof { lemma_view_shape(*self); }
        self.current.function.chunk.current_offset()
    }

    fn emit_jump_placeholder(&mut self, o: OpCode, span: Span) -> (offset: usize)
        ensures
            (final(self)@, offset as int) == jump_placeholder(old(self)@, o, span),
            final(self).enclosing@ == old(self).enclosing@,
            final(self).globals@ == old(self).globals@,
            offset + 2 <= code_len(final(self)@),
    {
        self.emit_op(o, span);
        let offset = self.code_len();
        self.emit_byte(0, span);
        self.emit_byte(0, span);
        proof { lemma_view_shape(*self); }
        offset
    }

    fn patch_jump(&mut self, offset: usize)
        requires
            offset + 2 <= code_len(old(self)@),
        ensures
            final(self)@ == patch_jump(old(self)@, offset as int),
            final(self).enclosing@ == old(self).enclosing@,
            final(self).globals@ == old(self).globals@,
    {
        proof { lemma_view_shape(*self); }
        let len = self.current.function.chunk.current_offset();
        let jump = len - offset - 2;
        self.current.function.chunk.patch_u16(offset, jump as u16);
        proof {
            lemma_set_top(*old(self), *self);
            let t = top(old(self)@);
            let j = ((code_len(old(self)@) - offset - 2) as usize) as u16;
            let code = t.function.code.update(offset as int, (j >> 8) as u8).update(offset + 1, (j & 0xff) as u8);
            assert(self.current@ =~= CtxView { function: FunctionView { code, ..t.function }, ..t });
        }
    }

    fn emit_loop(&mut self, loop_start: usize, span: Span)
        requires
            loop_start <= code_len(old(self)@),
        ensures
            final(self)@ == emit_loop(old(self)@, loop_start as int, span),
            final(self).enclosing@ == old(self).enclosing@,
            final(self).globals@ == old(self).globals@,
    {
        self.emit_op(OpCode::Loop, span);
        let ghost c1 = self@;
        self.emit_byte(0, span);
        self.emit_byte(0, span);
        proof { lemma_view_shape(*self); }
        let len = self.current.function.chunk.current_offset();
        let offset = len - loop_start;
        let ghost c3 = *self;
        let hi = (offset >> 8) as u8;
        let lo = (offset & 0xff) as u8;
        self.current.function.chunk.code.set(len - 2, hi);
        self.current.function.chunk.code.set(len - 1, lo);
        proof {
            lemma_set_top(c3, *self);
            let expected = write(write(c1, hi, span), lo, span);
            assert(offset == (code_len(c1) + 2 - loop_start) as usize);
            assert(self.current.function.chunk.code@ =~= top(expected).function.code);
            assert(self.current@ =~= top(expected));
            assert(self@.stack =~= expected.stack);
        }
    }
}


/// Whether a list of names holds `name`.
fn contains_name(v: &Vec<String>, name: &str) -> (r: bool)
    ensures
        r == strings_view(v@).contains(name@),
{
    let mut i: usize = 0;
    while i < v.len()
        invariant
            i <= v@.len(),
            forall|j: int| 0 <= j < i ==> strings_view(v@)[j] != name@,
        decreases v@.len() - i,
    {
        if str_eq(v[i].as_str(), name) {
            assert(strings_view(v@)[i as int] == name@);
            return true;
        }
        i = i + 1;
    }
    false
}

impl Compiler {
    fn add_constant(&mut self, k: Constant, span: Span) -> (r: Result<u8, GupError>)
        ensures
            match add_constant(old(self)@, k@, span) {
                Ok((c, i)) => r == Ok::<u8, GupError>(i) && final(self)@ == c,
                Err(x) => r is Err && r->Err_0@ == cerr_view(x),
            },
            final(self).enclosing@ == old(self).enclosing@,
            final(self).globals@ == old(self).globals@,
    {
        proof { lemma_view_shape(*self); }
        let n = self.current.function.chunk.constants.len();
        if n > 255 {
            return Err(GupError::runtime(span, "Too many constants in one chunk."));
        }
        let ghost kv = k@;
        self.current.function.chunk.add_constant(k);
        proof {
            lemma_set_top(*old(self), *self);
            let t = top(old(self)@);
            assert(self.current@.function.constants =~= t.function.constants.push(kv));
            assert(self.current@ =~= CtxView {
                function: FunctionView { constants: t.function.constants.push(kv), ..t.function },
                ..t
            });
        }
        Ok(n as u8)
    }

    fn make_constant(&mut self, k: Constant, span: Span) -> (r: Result<(), GupError>)
        ensures
            outcome(r, final(self)@, make_constant(old(self)@, k@, span)),
            final(self).enclosing@ == old(self).enclosing@,
            final(self).globals@ == old(self).globals@,
    {
        let index = self.add_constant(k, span)?;
        self.emit_op1(OpCode::Constant, index, span);
        Ok(())
    }

    fn add_string_constant(&mut self, name: &str, span: Span) -> (r: Result<u8, GupError>)
        ensures
            match add_name(old(self)@, name@, span) {
                Ok((c, i)) => r == Ok::<u8, GupError>(i) && final(self)@ == c,
                Err(x) => r is Err && r->Err_0@ == cerr_view(x),
            },
            final(self).enclosing@ == old(self).enclosing@,
            final(self).globals@ == old(self).globals@,
    {
        let k = Constant::String(String::from_str(name));
        assert(k@ == ConstantView::String(name@));
        self.add_constant(k, span)
    }

    fn is_global(&self, name: &str) -> (r: bool)
        ensures
            r == self@.globals.contains(name@),
    {
        contains_name(&self.globals, name)
    }

    fn define_global(&mut self, name: &str, span: Span) -> (r: Result<(), GupError>)
        ensures
            outcome(r, final(self)@, define_global(old(self)@, name@, span)),
            r is Ok ==> kept(old(self)@, final(self)@),
            final(self).enclosing@ == old(self).enclosing@,
    {
        let k = self.add_string_constant(name, span)?;
        self.emit_op1(OpCode::DefineGlobal, k, span);
        let ghost c2 = self@;
        if !self.is_global(name) {
            self.globals.push(String::from_str(name));
            proof {
                assert(self@.globals =~= c2.globals.push(name@));
                assert(self@.stack =~= c2.stack);
            }
        }
        Ok(())
    }

    fn begin_scope(&mut self, span: Span) -> (r: Result<(), GupError>)
        ensures
            outcome(r, final(self)@, begin_scope(old(self)@, span)),
            final(self).enclosing@ == old(self).enclosing@,
            final(self).globals@ == old(self).globals@,
    {
        proof { lemma_view_shape(*self); }
        if self.current.scope_depth == usize::MAX {
            return Err(GupError::runtime(span, "Blocks are nested too deeply."));
        }
        self.current.scope_depth = self.current.scope_depth + 1;
        proof {
            lemma_set_top(*old(self), *self);
            assert(self.current@ =~= CtxView {
                scope_depth: (old(self).current.scope_depth + 1) as usize,
                ..old(self).current@
            });
        }
        self.emit_op(OpCode::EnterScope, span);
        Ok(())
    }

    fn end_scope(&mut self, span: Span)
        requires
            top(old(self)@).scope_depth >= 1,
        ensures
            final(self)@ == end_scope(old(self)@, span),
            kept_frames(old(self)@, final(self)@),
            top(final(self)@).scope_depth == top(old(self)@).scope_depth - 1,
            final(self).enclosing@ == old(self).enclosing@,
            final(self).globals@ == old(self).globals@,
    {
        self.emit_op(OpCode::ExitScope, span);
        let ghost c1 = *self;
        proof { lemma_view_shape(c1); }
        self.current.scope_depth = self.current.scope_depth - 1;
        let depth = self.current.scope_depth;
        let ghost t0 = self.current@;
        proof {
            assert(t0 =~= CtxView { scope_depth: depth, ..top(c1@) });
        }
        loop
            invariant
                pop_locals(self.current@, depth, span) == pop_locals(t0, depth, span),
                self.enclosing@ == c1.enclosing@,
                self.globals@ == c1.globals@,
            ensures
                self.current@ == pop_locals(t0, depth, span),
                self.enclosing@ == c1.enclosing@,
                self.globals@ == c1.globals@,
            decreases self.current.locals@.len(),
        {
            let n = self.current.locals.len();
            if n == 0 || self.current.locals[n - 1].depth <= depth {
                proof {
                    if n > 0 {
                        assert(self.current@.locals.last() == self.current.locals@[n - 1]@);
                    }
                    assert(pop_locals(self.current@, depth, span) == self.current@);
                }
                break;
            }
            let captured = self.current.locals[n - 1].is_captured;
            let ghost t = self.current@;
            assert(t.locals.last() == self.current.locals@[n - 1]@);
            let ghost before = *self;
            let o = if captured { OpCode::CloseUpvalue } else { OpCode::Pop };
            self.emit_op(o, span);
            proof {
                lemma_view_shape(before);
                lemma_view_shape(*self);
            }
            let ghost t1 = self.current@;
            self.current.locals.pop();
            proof {
                assert(self.current@ =~= CtxView { locals: t.locals.drop_last(), ..t1 });
            }
        }
        proof {
            lemma_set_top(c1, *self);
            lemma_pop_locals(t0, depth, span);
        }
    }

    fn declare_variable(&mut self, name: &str)
        ensures
            final(self)@ == declare_variable(old(self)@, name@),
            final(self).enclosing@ == old(self).enclosing@,
            final(self).globals@ == old(self).globals@,
    {
        proof { lemma_view_shape(*self); }
        if self.current.scope_depth == 0 {
            return;
        }
        let depth = self.current.scope_depth;
        self.current.locals.push(Local { name: String::from_str(name), depth, is_captured: false });
        self.current.function.local_names.push(String::from_str(name));
        proof {
            lemma_set_top(*old(self), *self);
            let t = old(self).current@;
            assert(self.current@.locals =~= t.locals.push(LocalView { name: name@, depth, is_captured: false }));
            assert(self.current@.function.local_names =~= t.function.local_names.push(name@));
        }
    }
}


proof fn lemma_rfind_suffix(ls: Seq<LocalView>, name: Seq<char>, i: int)
    requires
        0 <= i <= ls.len(),
        forall|j: int| i <= j < ls.len() ==> (#[trigger] ls[j]).name != name,
    ensures
        rfind_local(ls, name) == rfind_local(ls.take(i), name),
    decreases ls.len(),
{
    if i == ls.len() {
        assert(ls.take(i) =~= ls);
    } else {
        assert(ls.last() == ls[ls.len() - 1]);
        lemma_rfind_suffix(ls.drop_last(), name, i);
        assert(ls.drop_last().take(i) =~= ls.take(i));
    }
}

proof fn lemma_set_frame(a: Compiler, b: Compiler, k: int)
    requires
        0 <= k < a.enclosing@.len(),
        b.enclosing@ == a.enclosing@.update(k, b.enclosing@[k]),
        b.current == a.current,
        b.globals@ == a.globals@,
    ensures
        b@ == (CView { stack: a@.stack.update(k, b.enclosing@[k]@), ..a@ }),
{
    assert(b@.stack =~= a@.stack.update(k, b.enclosing@[k]@));
}

/// The slot of `name` in a function, as `ctx_resolve_local` describes it.
fn resolve_local(ctx: &FunctionContext, name: &str) -> (r: Option<u8>)
    ensures
        r == ctx_resolve_local(ctx@, name@),
{
    let ghost ls = ctx@.locals;
    let mut i = ctx.locals.len();
    while i > 0
        invariant
            i <= ls.len(),
            ls == ctx@.locals,
            ls.len() == ctx.locals@.len(),
            forall|j: int| i <= j < ls.len() ==> (#[trigger] ls[j]).name != name@,
        decreases i,
    {
        assert(ls[i - 1] == ctx.locals@[i - 1]@);
        if str_eq(ctx.locals[i - 1].name.as_str(), name) {
            proof {
                lemma_rfind_suffix(ls, name@, i as int);
                assert(ls.take(i as int).last() == ls[i - 1]);
            }
            return Some((i - 1) as u8);
        }
        i = i - 1;
    }
    proof {
        lemma_rfind_suffix(ls, name@, 0);
    }
    let ghost names = ctx@.function.local_names;
    let mut j: usize = 0;
    while j < ctx.function.local_names.len()
        invariant
            j <= names.len(),
            names == ctx@.function.local_names,
            names.len() == ctx.function.local_names@.len(),
            find_name(names, name@, 0) == find_name(names, name@, j as int),
            rfind_local(ctx@.locals, name@) is None,
        decreases names.len() - j,
    {
        assert(names[j as int] == ctx.function.local_names@[j as int]@);
        if str_eq(ctx.function.local_names[j].as_str(), name) {
            assert(find_name(names, name@, j as int) == Some(j as int));
            return Some(j as u8);
        }
        j = j + 1;
    }
    None
}

/// Where `d` first occurs among captured variables.
fn find_upvalue_index(ups: &Vec<UpvalueDescriptor>, d: UpvalueDescriptor) -> (r: Option<usize>)
    ensures
        find_upvalue(ups@, d, 0) == (match r {
            Some(i) => Some(i as int),
            None => None,
        }),
        r matches Some(i) ==> i < ups@.len(),
{
    let mut i: usize = 0;
    while i < ups.len()
        invariant
            i <= ups@.len(),
            find_upvalue(ups@, d, 0) == find_upvalue(ups@, d, i as int),
        decreases ups@.len() - i,
    {
        if ups[i] == d {
            return Some(i);
        }
        i = i + 1;
    }
    None
}

impl Compiler {
    /// The slot of `name` in the current function.
    fn resolve_local_current(&self, name: &str) -> (r: Option<u8>)
        ensures
            r == resolve_local_in(self@, self@.stack.len() - 1, name@),
    {
        proof { lemma_view_shape(*self); }
        resolve_local(&self.current, name)
    }

    fn add_upvalue(&mut self, d: UpvalueDescriptor) -> (r: Option<u8>)
        ensures
            (final(self)@, r) == add_upvalue(old(self)@, d),
            final(self).enclosing@ == old(self).enclosing@,
            final(self).globals@ == old(self).globals@,
    {
        proof { lemma_view_shape(*self); }
        match find_upvalue_index(&self.current.upvalues, d) {
            Some(i) => {
                return Some(i as u8);
            },
            None => {},
        }
        if self.current.upvalues.len() >= 255 {
            return None;
        }
        let n = self.current.upvalues.len();
        self.current.upvalues.push(d);
        proof {
            lemma_set_top(*old(self), *self);
            let t = old(self).current@;
            assert(self.current@ =~= CtxView { upvalues: t.upvalues.push(d), ..t });
        }
        Some(n as u8)
    }

    fn mark_captured(&mut self, k: usize, i: u8, span: Span) -> (r: Result<(), GupError>)
        requires
            k < old(self).enclosing@.len(),
        ensures
            outcome(r, final(self)@, mark_captured(old(self)@, k as int, i as int, span)),
            final(self).current == old(self).current,
            final(self).globals@ == old(self).globals@,
            final(self).enclosing@.len() == old(self).enclosing@.len(),
    {
        proof { lemma_view_shape(*self); }
        let mut ctx = self.enclosing.remove(k);
        if (i as usize) < ctx.locals.len() {
            let ghost t = ctx@;
            let mut l = ctx.locals.remove(i as usize);
            l.is_captured = true;
            ctx.locals.insert(i as usize, l);
            self.enclosing.insert(k, ctx);
            proof {
                assert(self.enclosing@ =~= old(self).enclosing@.update(k as int, self.enclosing@[k as int]));
                lemma_set_frame(*old(self), *self, k as int);
                assert(self.enclosing@[k as int]@ =~= CtxView {
                    locals: t.locals.update(i as int, LocalView { is_captured: true, ..t.locals[i as int] }),
                    ..t
                });
            }
            Ok(())
        } else {
            self.enclosing.insert(k, ctx);
            Err(GupError::runtime(span, "Internal compiler error: a captured variable is no longer in scope."))
        }
    }

    fn add_upvalue_in(&mut self, k: usize, d: UpvalueDescriptor) -> (r: u8)
        requires
            k < old(self).enclosing@.len(),
        ensures
            (final(self)@, Some(r)) == add_upvalue_in(old(self)@, k as int, d),
            final(self).current == old(self).current,
            final(self).globals@ == old(self).globals@,
            final(self).enclosing@.len() == old(self).enclosing@.len(),
    {
        proof { lemma_view_shape(*self); }
        let mut ctx = self.enclosing.remove(k);
        match find_upvalue_index(&ctx.upvalues, d) {
            Some(i) => {
                self.enclosing.insert(k, ctx);
                assert(self.enclosing@ =~= old(self).enclosing@);
                return i as u8;
            },
            None => {},
        }
        let ghost t = ctx@;
        let n = ctx.upvalues.len();
        ctx.upvalues.push(d);
        self.enclosing.insert(k, ctx);
        proof {
            assert(self.enclosing@ =~= old(self).enclosing@.update(k as int, self.enclosing@[k as int]));
            lemma_set_frame(*old(self), *self, k as int);
            assert(self.enclosing@[k as int]@ =~= CtxView { upvalues: t.upvalues.push(d), ..t });
        }
        n as u8
    }

    fn resolve_upvalue_in(&mut self, k: usize, name: &str, span: Span) -> (r: Result<Option<u8>, GupError>)
        requires
            k < old(self).enclosing@.len(),
        ensures
            match resolve_upvalue_in(old(self)@, k as int, name@, span) {
                Ok((c, o)) => r == Ok::<Option<u8>, GupError>(o) && final(self)@ == c,
                Err(x) => r is Err && r->Err_0@ == cerr_view(x),
            },
            r is Ok ==> kept(old(self)@, final(self)@),
            final(self).current == old(self).current,
            final(self).globals@ == old(self).globals@,
            r is Ok ==> final(self).enclosing@.len() == old(self).enclosing@.len(),
        decreases k,
    {
        proof { lemma_view_shape(*self); }
        if k == 0 {
            return Ok(None);
        }
        let e = k - 1;
        match resolve_local(&self.enclosing[e], name) {
            Some(local) => {
                self.mark_captured(e, local, span)?;
                let u = self.add_upvalue_in(k, UpvalueDescriptor { index: local, is_local: true });
                Ok(Some(u))
            },
            None => {
                match self.resolve_upvalue_in(e, name, span)? {
                    Some(u) => {
                        proof { lemma_view_shape(*self); }
                        if (u as usize) < self.enclosing[e].upvalues.len() {
                            let up = self.enclosing[e].upvalues[u as usize];
                            let v = self.add_upvalue_in(k, up);
                            Ok(Some(v))
                        } else {
                            Err(GupError::runtime(span, "Internal compiler error: a captured variable is no longer in scope."))
                        }
                    },
                    None => Ok(None),
                }
            },
        }
    }

    fn resolve_upvalue(&mut self, name: &str, span: Span) -> (r: Result<Option<u8>, GupError>)
        ensures
            match resolve_upvalue(old(self)@, name@, span) {
                Ok((c, o)) => r == Ok::<Option<u8>, GupError>(o) && final(self)@ == c,
                Err(x) => r is Err && r->Err_0@ == cerr_view(x),
            },
            r is Ok ==> kept(old(self)@, final(self)@),
            final(self).globals@ == old(self).globals@,
            r is Ok ==> final(self).enclosing@.len() == old(self).enclosing@.len(),
    {
        reveal(resolve_upvalue);
        proof { lemma_view_shape(*self); }
        if self.enclosing.len() == 0 {
            return Ok(None);
        }
        let e = self.enclosing.len() - 1;
        match resolve_local(&self.enclosing[e], name) {
            Some(local) => {
                self.mark_captured(e, local, span)?;
                Ok(self.add_upvalue(UpvalueDescriptor { index: local, is_local: true }))
            },
            None => {
                match self.resolve_upvalue_in(e, name, span)? {
                    Some(u) => {
                        proof { lemma_view_shape(*self); }
                        if (u as usize) < self.enclosing[e].upvalues.len() {
                            let up = self.enclosing[e].upvalues[u as usize];
                            Ok(self.add_upvalue(up))
                        } else {
                            Err(GupError::runtime(span, "Internal compiler error: a captured variable is no longer in scope."))
                        }
                    },
                    None => Ok(None),
                }
            },
        }
    }

    fn named_variable(&mut self, name: &str, span: Span, can_assign: bool) -> (r: Result<(), GupError>)
        ensures
            outcome(r, final(self)@, named_variable(old(self)@, name@, span, can_assign)),
            r is Ok ==> kept(old(self)@, final(self)@),
            r is Ok ==> final(self).enclosing@.len() == old(self).enclosing@.len(),
    {
        reveal(named_variable);
        if let Some(local) = self.resolve_local_current(name) {
            let o = if can_assign { OpCode::SetLocal } else { OpCode::GetLocal };
            self.emit_op1(o, local, span);
            return Ok(());
        }
        if let Some(u) = self.resolve_upvalue(name, span)? {
            let o = if can_assign { OpCode::SetUpvalue } else { OpCode::GetUpvalue };
            self.emit_op1(o, u, span);
            return Ok(());
        }
        let k = self.add_string_constant(name, span)?;
        let global = self.is_global(name);
        let o = if can_assign {
            if global { OpCode::SetGlobal } else { OpCode::StoreVariable }
        } else {
            if global { OpCode::GetGlobal } else { OpCode::GetVariable }
        };
        self.emit_op1(o, k, span);
        Ok(())
    }
}


proof fn lemma_pop_locals(t: CtxView, depth: usize, span: Span)
    ensures
        pop_locals(t, depth, span).function.code.len() >= t.function.code.len(),
        pop_locals(t, depth, span).scope_depth == t.scope_depth,
        pop_locals(t, depth, span).function.arity == t.function.arity,
        aligned(t) ==> aligned(pop_locals(t, depth, span)),
    decreases t.locals.len(),
{
    if t.locals.len() > 0 && t.locals.last().depth > depth {
        let o = if t.locals.last().is_captured { OpCode::CloseUpvalue } else { OpCode::Pop };
        let t1 = ctx_write(t, spec_encode(o), span);
        lemma_pop_locals(CtxView { locals: t.locals.drop_last(), ..t1 }, depth, span);
    }
}

proof fn lemma_kept_refl(a: CView)
    ensures
        kept(a, a),
{
}

proof fn lemma_kept_trans(a: CView, b: CView, c: CView)
    requires
        kept_frames(a, b),
        kept_frames(b, c),
    ensures
        kept_frames(a, c),
        kept(a, b) && kept(b, c) ==> kept(a, c),
{
    assert forall|i: int| 0 <= i < a.stack.len() - 1 implies (#[trigger] c.stack[i]).function == a.stack[i].function
        && c.stack[i].scope_depth == a.stack[i].scope_depth by {
        assert(b.stack[i].function == a.stack[i].function);
    }
}

fn binary_opcode_of(o: BinaryOp) -> (r: OpCode)
    requires
        o != BinaryOp::And,
        o != BinaryOp::Or,
    ensures
        r == binary_opcode(o),
{
    match o {
        BinaryOp::Add => OpCode::Add,
        BinaryOp::Sub => OpCode::Sub,
        BinaryOp::Mul => OpCode::Mul,
        BinaryOp::Div => OpCode::Div,
        BinaryOp::Equal => OpCode::Equal,
        BinaryOp::NotEqual => OpCode::NotEqual,
        BinaryOp::Less => OpCode::Less,
        BinaryOp::Greater => OpCode::Greater,
        BinaryOp::LessEqual => OpCode::LessEqual,
        BinaryOp::GreaterEqual => OpCode::GreaterEqual,
        BinaryOp::And => OpCode::Pop,
        BinaryOp::Or => OpCode::Pop,
    }
}

impl Compiler {
    fn compile_expression(&mut self, e: &Expr) -> (r: Result<(), GupError>)
        ensures
            outcome(r, final(self)@, c_expr(old(self)@, e@)),
            e@.kind is Range ==> final(self)@ == old(self)@,
            r is Ok ==> kept(old(self)@, final(self)@),
            r is Ok ==> final(self).enclosing@.len() == old(self).enclosing@.len(),
        decreases e, 2int,
    {
        let span = e.span;
        match &e.kind {
            ExprKind::StringLiteral(text) => {
                let k = Constant::Value(ConstValue::GuppyString(text.clone()));
                self.make_constant(k, span)
            },
            ExprKind::CharLiteral(ch) => {
                let k = Constant::Value(ConstValue::GuppyChar(*ch));
                self.make_constant(k, span)
            },
            ExprKind::NumberLiteral(n) => {
                let k = Constant::Value(ConstValue::GuppyNumber(*n));
                self.make_constant(k, span)
            },
            ExprKind::FloatLiteral(digits) => {
                let k = Constant::Value(ConstValue::GuppyFloat(digits.clone()));
                self.make_constant(k, span)
            },
            ExprKind::BoolLiteral(b) => {
                let o = if *b { OpCode::True } else { OpCode::False };
                self.emit_op(o, span);
                Ok(())
            },
            ExprKind::ArrayLiteral(items) => {
                proof {
                    match e@.kind {
                        ExprViewKind::ArrayLiteral(vs) => assert(vs =~= exprs_view(items@)),
                        _ => {},
                    }
                }
                self.compile_expressions(items)?;
                self.emit_op1(OpCode::MakeArray, items.len() as u8, span);
                Ok(())
            },
            ExprKind::Variable(name) => self.named_variable(name.as_str(), span, false),
            ExprKind::UnaryOp { op: u, operand } => {
                self.compile_expression(operand)?;
                let o = if *u == UnaryOp::Not { OpCode::Not } else { OpCode::Negate };
                self.emit_op(o, span);
                Ok(())
            },
            ExprKind::BinaryOp { .. } => self.compile_binary_op(e),
            ExprKind::FunctionCall { name, args } => {
                proof {
                    match e@.kind {
                        ExprViewKind::FunctionCall { args: vs, .. } => assert(vs =~= exprs_view(args@)),
                        _ => {},
                    }
                }
                if is_print_function(name.as_str()) {
                    self.compile_expressions(args)?;
                    self.emit_op1(OpCode::Print, args.len() as u8, span);
                } else {
                    self.named_variable(name.as_str(), span, false)?;
                    self.compile_expressions(args)?;
                    self.emit_op1(OpCode::Call, args.len() as u8, span);
                }
                Ok(())
            },
            ExprKind::Range { .. } => Err(
                GupError::runtime(
                    span,
                    "range() can only be used inside a for loop, like: for i in range(1 through 6).",
                ),
            ),
        }
    }

    /// The code of each expression in turn.
    fn compile_expressions(&mut self, es: &Vec<Expr>) -> (r: Result<(), GupError>)
        ensures
            outcome(r, final(self)@, c_exprs(old(self)@, exprs_view(es@), 0)),
            r is Ok ==> kept(old(self)@, final(self)@),
            r is Ok ==> final(self).enclosing@.len() == old(self).enclosing@.len(),
        decreases es, 0int,
    {
        let ghost vs = exprs_view(es@);
        let ghost c0 = self@;
        proof { lemma_kept_refl(c0); }
        let mut i: usize = 0;
        while i < es.len()
            invariant
                i <= es@.len(),
                vs == exprs_view(es@),
                c_exprs(c0, vs, 0) == c_exprs(self@, vs, i as int),
                kept(c0, self@),
                self.enclosing@.len() == old(self).enclosing@.len(),
                c0 == old(self)@,
            decreases es@.len() - i,
        {
            let ghost before = self@;
            self.compile_expression(&es[i])?;
            proof { lemma_kept_trans(c0, before, self@); }
            i = i + 1;
        }
        Ok(())
    }

    /// `and` and `or` jump past their right side when the left side decides;
    /// the other operators evaluate both sides, then combine them.
    fn compile_binary_op(&mut self, e: &Expr) -> (r: Result<(), GupError>)
        requires
            e.kind is BinaryOp,
        ensures
            outcome(r, final(self)@, c_expr(old(self)@, e@)),
            r is Ok ==> kept(old(self)@, final(self)@),
            r is Ok ==> final(self).enclosing@.len() == old(self).enclosing@.len(),
        decreases e, 1int,
    {
        let span = e.span;
        let ghost c0 = self@;
        match &e.kind {
            ExprKind::BinaryOp { left, op: o, right } => {
                if *o == BinaryOp::And {
                    self.compile_expression(left)?;
                    let ghost c1 = self@;
                    let end_jump = self.emit_jump_placeholder(OpCode::JumpIfFalse, span);
                    self.emit_op(OpCode::Pop, span);
                    let ghost c2 = self@;
                    self.compile_expression(right)?;
                    proof { lemma_kept_trans(c0, c1, c2); lemma_kept_trans(c0, c2, self@); }
                    self.patch_jump(end_jump);
                    return Ok(());
                }
                if *o == BinaryOp::Or {
                    self.compile_expression(left)?;
                    let ghost c1 = self@;
                    let else_jump = self.emit_jump_placeholder(OpCode::JumpIfFalse, span);
                    let end_jump = self.emit_jump_placeholder(OpCode::Jump, span);
                    self.patch_jump(else_jump);
                    self.emit_op(OpCode::Pop, span);
                    let ghost c2 = self@;
                    self.compile_expression(right)?;
                    proof { lemma_kept_trans(c0, c1, c2); lemma_kept_trans(c0, c2, self@); }
                    self.patch_jump(end_jump);
                    return Ok(());
                }
                self.compile_expression(left)?;
                let ghost c1 = self@;
                self.compile_expression(right)?;
                proof { lemma_kept_trans(c0, c1, self@); }
                let opcode = binary_opcode_of(*o);
                self.emit_op(opcode, span);
                Ok(())
            },
            _ => {
                proof { assert(false); }
                Ok(())
            },
        }
    }
}


/// Whether a body defines a function directly in it.
fn has_function_def(body: &Vec<Stmt>) -> (r: bool)
    ensures
        r == exists|i: int| 0 <= i < body@.len() && (#[trigger] stmts_view(body@)[i]).kind is FunctionDef,
{
    let mut i: usize = 0;
    while i < body.len()
        invariant
            i <= body@.len(),
            forall|j: int| 0 <= j < i ==> !((#[trigger] stmts_view(body@)[j]).kind is FunctionDef),
        decreases body@.len() - i,
    {
        if let StmtKind::FunctionDef { .. } = &body[i].kind {
            assert(stmts_view(body@)[i as int].kind is FunctionDef);
            return true;
        }
        i = i + 1;
    }
    false
}

proof fn lemma_function_constant(f: CompiledFunction)
    ensures
        Constant::Function(f)@ == ConstantView::Function(f@),
{
    assert(Constant::Function(f)@->Function_0.constants =~= f@.constants);
}

impl Compiler {
    /// Stores the value on the stack into a declared name (see `c_assign_declared`).
    fn store_declared(&mut self, name: &str, span: Span) -> (r: Result<(), GupError>)
        requires
            depth_ok(old(self)@),
        ensures
            outcome(r, final(self)@, c_assign_declared(old(self)@, name@, span)),
            r is Ok ==> kept(old(self)@, final(self)@),
            r is Ok ==> final(self).enclosing@.len() == old(self).enclosing@.len(),
    {
        reveal(c_assign_declared);
        proof { lemma_view_shape(*self); }
        if let Some(local) = self.resolve_local_current(name) {
            self.emit_op1(OpCode::SetLocal, local, span);
            return Ok(());
        }
        if let Some(u) = self.resolve_upvalue(name, span)? {
            self.emit_op1(OpCode::SetUpvalue, u, span);
            return Ok(());
        }
        let ghost c1 = self@;
        proof { lemma_view_shape(*self); }
        if self.is_global(name) {
            let k = self.add_string_constant(name, span)?;
            self.emit_op1(OpCode::SetGlobal, k, span);
            return Ok(());
        }
        if self.enclosing.len() > 0 && self.current.has_nested_functions {
            self.declare_variable(name);
            proof { lemma_view_shape(*self); }
            let slot = (self.current.locals.len() - 1) as u8;
            self.emit_op1(OpCode::SetLocal, slot, span);
            return Ok(());
        }
        let top_level = self.enclosing.len() == 0 && self.current.scope_depth == 0;
        let k = self.add_string_constant(name, span)?;
        self.emit_op1(OpCode::StoreVariable, k, span);
        if top_level {
            let ghost c3 = self@;
            self.globals.push(String::from_str(name));
            proof {
                assert(self@.globals =~= c3.globals.push(name@));
                assert(self@.stack =~= c3.stack);
            }
        }
        Ok(())
    }

    /// A new local for the compiler's own use; returns its slot.
    fn add_temp_local(&mut self, name: &str) -> (slot: u8)
        requires
            top(old(self)@).scope_depth >= 1,
        ensures
            final(self)@ == declare_variable(old(self)@, name@),
            slot == last_slot(final(self)@),
            final(self).enclosing@ == old(self).enclosing@,
            final(self).globals@ == old(self).globals@,
    {
        self.declare_variable(name);
        proof {
            lemma_view_shape(*self);
            lemma_view_shape(*old(self));
            assert(top(self@).locals.len() == top(old(self)@).locals.len() + 1);
            assert(self.current.locals@.len() == top(self@).locals.len());
        }
        (self.current.locals.len() - 1) as u8
    }

    fn compile_for_setup(&mut self, iterable: &Expr, span: Span) -> (r: Result<(u8, u8), GupError>)
        requires
            top(old(self)@).scope_depth >= 1,
        ensures
            match for_setup(old(self)@, iterable@, span) {
                Ok((c, a, i)) => r == Ok::<(u8, u8), GupError>((a, i)) && final(self)@ == c,
                Err(x) => r is Err && r->Err_0@ == cerr_view(x),
            },
            r is Ok ==> kept(old(self)@, final(self)@),
            r is Ok ==> final(self).enclosing@.len() == old(self).enclosing@.len(),
    {
        reveal(for_setup);
        let ghost c0 = self@;
        match &iterable.kind {
            ExprKind::Range { start, end } => {
                self.compile_expression(start)?;
                let ghost c1 = self@;
                self.compile_expression(end)?;
                proof { lemma_kept_trans(c0, c1, self@); }
                self.emit_op(OpCode::BuildRange, span);
            },
            _ => {
                self.compile_expression(iterable)?;
                self.emit_op1(OpCode::MakeArray, 1, span);
            },
        }
        let ghost c1 = self@;
        let array_slot = self.add_temp_local("__for_array");
        self.emit_op1(OpCode::SetLocal, array_slot, span);
        let index_slot = self.add_temp_local("__for_index");
        let k = Constant::Value(ConstValue::GuppyNumber(0));
        self.make_constant(k, span)?;
        self.emit_op1(OpCode::SetLocal, index_slot, span);
        proof { lemma_kept_trans(c0, c1, self@); }
        Ok((array_slot, index_slot))
    }

    fn compile_for_step(&mut self, variable: &str, array_slot: u8, index_slot: u8, span: Span) -> (r: Result<usize, GupError>)
        ensures
            match for_step(old(self)@, variable@, array_slot, index_slot, span) {
                Ok((c, j)) => r matches Ok(x) && x == j && final(self)@ == c && j + 2 <= code_len(c),
                Err(x) => r is Err && r->Err_0@ == cerr_view(x),
            },
            r is Ok ==> kept(old(self)@, final(self)@),
            r is Ok ==> final(self).enclosing@.len() == old(self).enclosing@.len(),
    {
        reveal(for_step);
        self.emit_op1(OpCode::GetLocal, index_slot, span);
        self.emit_op1(OpCode::GetLocal, array_slot, span);
        self.emit_op(OpCode::ArrayLen, span);
        self.emit_op(OpCode::GreaterEqual, span);
        let body_jump = self.emit_jump_placeholder(OpCode::JumpIfFalse, span);
        self.emit_op(OpCode::Pop, span);
        let exit_jump = self.emit_jump_placeholder(OpCode::Jump, span);
        self.patch_jump(body_jump);
        self.emit_op(OpCode::Pop, span);
        self.emit_op1(OpCode::GetLocal, array_slot, span);
        self.emit_op1(OpCode::GetLocal, index_slot, span);
        self.emit_op(OpCode::GetIndex, span);
        let k = self.add_string_constant(variable, span)?;
        self.emit_op1(OpCode::StoreVariable, k, span);
        self.declare_variable(variable);
        Ok(exit_jump)
    }

    fn compile_for_finish(&mut self, loop_start: usize, exit_jump: usize, index_slot: u8, span: Span) -> (r: Result<(), GupError>)
        requires
            loop_start <= code_len(old(self)@),
            exit_jump + 2 <= code_len(old(self)@),
            top(old(self)@).scope_depth >= 1,
        ensures
            outcome(r, final(self)@, for_finish(old(self)@, loop_start as int, exit_jump as int, index_slot, span)),
            r is Ok ==> kept_frames(old(self)@, final(self)@),
            r is Ok ==> top(final(self)@).scope_depth == top(old(self)@).scope_depth - 1,
            r is Ok ==> final(self).enclosing@.len() == old(self).enclosing@.len(),
    {
        reveal(for_finish);
        self.emit_op1(OpCode::GetLocal, index_slot, span);
        let k = Constant::Value(ConstValue::GuppyNumber(1));
        self.make_constant(k, span)?;
        self.emit_op(OpCode::Add, span);
        self.emit_op1(OpCode::SetLocal, index_slot, span);
        self.emit_loop(loop_start, span);
        self.patch_jump(exit_jump);
        let ghost c1 = self@;
        self.end_scope(span);
        proof { lemma_kept_trans(old(self)@, c1, self@); }
        Ok(())
    }
}


impl Compiler {
    /// A statement.
    fn compile_statement(&mut self, s: &Stmt) -> (r: Result<(), GupError>)
        requires
            depth_ok(old(self)@),
        ensures
            outcome(r, final(self)@, c_stmt(old(self)@, s@)),
            r is Ok ==> kept(old(self)@, final(self)@),
            r is Ok ==> final(self).enclosing@.len() == old(self).enclosing@.len(),
        decreases s, 1int,
    {
        let span = s.span;
        let ghost c0 = self@;
        match &s.kind {
            StmtKind::ExpressionStatement(e) => {
                self.compile_expression(e)?;
                let ghost c1 = self@;
                self.emit_op(OpCode::Pop, span);
                proof { lemma_kept_trans(c0, c1, self@); }
                Ok(())
            },
            StmtKind::VariableDeclaration { name, value } => {
                self.compile_expression(value)?;
                let ghost c1 = self@;
                self.store_declared(name.as_str(), span)?;
                proof { lemma_kept_trans(c0, c1, self@); }
                Ok(())
            },
            StmtKind::IfStatement { .. } => self.compile_if(s),
            StmtKind::WhileLoop { .. } => self.compile_while(s),
            StmtKind::ForLoop { variable, iterable, body } => {
                proof {
                    match s@.kind {
                        StmtViewKind::ForLoop { body: b, .. } => assert(b =~= stmts_view(body@)),
                        _ => {},
                    }
                }
                self.compile_for_loop(variable.as_str(), iterable, body, span)
            },
            StmtKind::ReturnStatement { value } => {
                match value {
                    Some(e) => {
                        self.compile_expression(e)?;
                    },
                    None => {
                        let k = Constant::Value(ConstValue::Nothing);
                        self.make_constant(k, span)?;
                    },
                }
                let ghost c1 = self@;
                self.emit_op(OpCode::Return, span);
                proof { lemma_kept_trans(c0, c1, self@); }
                Ok(())
            },
            StmtKind::FunctionDef { .. } => self.compile_function_def(s),
        }
    }

    #[verifier::rlimit(30)]
    fn compile_if(&mut self, s: &Stmt) -> (r: Result<(), GupError>)
        requires
            s.kind is IfStatement,
        ensures
            outcome(r, final(self)@, c_if(old(self)@, s@)),
            r is Ok ==> kept(old(self)@, final(self)@),
            r is Ok ==> final(self).enclosing@.len() == old(self).enclosing@.len(),
        decreases s, 0int,
    {
        let span = s.span;
        let ghost c0 = self@;
        match &s.kind {
            StmtKind::IfStatement { condition, then_branch, else_branch } => {
                proof {
                    match s@.kind {
                        StmtViewKind::IfStatement { then_branch: tb, else_branch: eb, .. } => {
                            assert(tb =~= stmts_view(then_branch@));
                            match else_branch {
                                Some(b) => assert(eb->0 =~= stmts_view(b@)),
                                None => {},
                            }
                        },
                        _ => {},
                    }
                }
                self.compile_expression(condition)?;
                let ghost c1 = self@;
                let then_jump = self.emit_jump_placeholder(OpCode::JumpIfFalse, span);
                self.emit_op(OpCode::Pop, span);
                let ghost c2 = self@;
                self.compile_block(then_branch, span)?;
                let ghost c3 = self@;
                proof { lemma_kept_trans(c0, c1, c2); lemma_kept_trans(c0, c2, c3); }
                let else_jump = self.emit_jump_placeholder(OpCode::Jump, span);
                self.patch_jump(then_jump);
                self.emit_op(OpCode::Pop, span);
                let ghost c4 = self@;
                proof { lemma_kept_trans(c0, c3, c4); }
                match else_branch {
                    Some(b) => {
                        self.compile_block(b, span)?;
                        proof { lemma_kept_trans(c0, c4, self@); }
                    },
                    None => {},
                }
                let ghost c5 = self@;
                self.patch_jump(else_jump);
                proof { lemma_kept_trans(c0, c5, self@); }
                Ok(())
            },
            _ => {
                proof { assert(false); }
                Ok(())
            },
        }
    }

    fn compile_while(&mut self, s: &Stmt) -> (r: Result<(), GupError>)
        requires
            s.kind is WhileLoop,
        ensures
            outcome(r, final(self)@, c_while(old(self)@, s@)),
            r is Ok ==> kept(old(self)@, final(self)@),
            r is Ok ==> final(self).enclosing@.len() == old(self).enclosing@.len(),
        decreases s, 0int,
    {
        let span = s.span;
        let ghost c0 = self@;
        match &s.kind {
            StmtKind::WhileLoop { condition, body } => {
                proof {
                    match s@.kind {
                        StmtViewKind::WhileLoop { body: b, .. } => assert(b =~= stmts_view(body@)),
                        _ => {},
                    }
                }
                let loop_start = self.code_len();
                self.compile_expression(condition)?;
                let ghost c1 = self@;
                let exit_jump = self.emit_jump_placeholder(OpCode::JumpIfFalse, span);
                self.emit_op(OpCode::Pop, span);
                let ghost c2 = self@;
                self.compile_block(body, span)?;
                let ghost c3 = self@;
                proof { lemma_kept_trans(c0, c1, c2); lemma_kept_trans(c0, c2, c3); }
                self.emit_loop(loop_start, span);
                self.patch_jump(exit_jump);
                self.emit_op(OpCode::Pop, span);
                proof { lemma_kept_trans(c0, c3, self@); }
                Ok(())
            },
            _ => {
                proof { assert(false); }
                Ok(())
            },
        }
    }

    fn compile_function_def(&mut self, s: &Stmt) -> (r: Result<(), GupError>)
        requires
            s.kind is FunctionDef,
        ensures
            outcome(r, final(self)@, c_function_def(old(self)@, s@)),
            r is Ok ==> kept(old(self)@, final(self)@),
            r is Ok ==> final(self).enclosing@.len() == old(self).enclosing@.len(),
        decreases s, 0int,
    {
        let span = s.span;
        let ghost c0 = self@;
        match &s.kind {
            StmtKind::FunctionDef { name, params, body } => {
                proof {
                    match s@.kind {
                        StmtViewKind::FunctionDef { body: b, .. } => assert(b =~= stmts_view(body@)),
                        _ => {},
                    }
                }
                let f = self.compile_function(params, body, span)?;
                let ghost c1 = self@;
                proof { lemma_function_constant(f); }
                let k = self.add_constant(Constant::Function(f), span)?;
                self.emit_op1(OpCode::Closure, k, span);
                let n = self.add_string_constant(name.as_str(), span)?;
                self.emit_op1(OpCode::StoreVariable, n, span);
                self.declare_variable(name.as_str());
                proof { lemma_kept_trans(c0, c1, self@); }
                Ok(())
            },
            _ => {
                proof { assert(false); }
                Ok(())
            },
        }
    }

    /// A block: its statements in a scope of their own.
    #[verifier::rlimit(40)]
    fn compile_block(&mut self, stmts: &Vec<Stmt>, span: Span) -> (r: Result<(), GupError>)
        ensures
            outcome(r, final(self)@, c_block(old(self)@, stmts_view(stmts@), span)),
            r is Ok ==> kept(old(self)@, final(self)@),
            r is Ok ==> final(self).enclosing@.len() == old(self).enclosing@.len(),
        decreases stmts, stmts@.len() + 1,
    {
        let ghost vs = stmts_view(stmts@);
        self.begin_scope(span)?;
        let ghost c1 = self@;
        proof { lemma_kept_refl(c1); }
        let mut i: usize = 0;
        while i < stmts.len()
            invariant
                i <= stmts@.len(),
                vs == stmts_view(stmts@),
                c_stmts(c1, vs, 0) == c_stmts(self@, vs, i as int),
                kept(c1, self@),
                top(c1).scope_depth >= 1,
                self.enclosing@.len() == old(self).enclosing@.len(),
                c_block(old(self)@, vs, span) == (match c_stmts(c1, vs, 0) {
                    Ok(c2) => Ok(end_scope(c2, span)),
                    Err(x) => Err(x),
                }),
            decreases stmts@.len() - i,
        {
            let ghost before = self@;
            assert(vs[i as int] == stmts@[i as int]@);
            self.compile_statement(&stmts[i])?;
            proof { lemma_kept_trans(c1, before, self@); }
            i = i + 1;
        }
        let ghost c2 = self@;
        self.end_scope(span);
        proof {
            lemma_kept_trans(c1, c2, self@);
        }
        Ok(())
    }

    /// A `for` loop.
    fn compile_for_loop(&mut self, variable: &str, iterable: &Expr, body: &Vec<Stmt>, span: Span) -> (r: Result<(), GupError>)
        ensures
            outcome(r, final(self)@, c_for(old(self)@, variable@, iterable@, stmts_view(body@), span)),
            r is Ok ==> kept(old(self)@, final(self)@),
            r is Ok ==> final(self).enclosing@.len() == old(self).enclosing@.len(),
        decreases body, body@.len() + 2,
    {
        self.begin_scope(span)?;
        let ghost c1 = self@;
        let (array_slot, index_slot) = self.compile_for_setup(iterable, span)?;
        let loop_start = self.code_len();
        let ghost c2 = self@;
        let exit_jump = self.compile_for_step(variable, array_slot, index_slot, span)?;
        let ghost c3 = self@;
        self.compile_block(body, span)?;
        let ghost c4 = self@;
        proof { lemma_kept_trans(c1, c2, c3); lemma_kept_trans(c1, c3, c4); }
        self.compile_for_finish(loop_start, exit_jump, index_slot, span)?;
        proof { lemma_kept_trans(c1, c4, self@); lemma_kept_trans(old(self)@, c1, self@); }
        Ok(())
    }

    /// A nested function, compiled in a context of its own.
    fn compile_function(&mut self, params: &Vec<String>, body: &Vec<Stmt>, span: Span) -> (r: Result<CompiledFunction, GupError>)
        ensures
            match c_function(old(self)@, names_view(params@), stmts_view(body@), span) {
                Ok((c, f)) => r is Ok && final(self)@ == c && r->Ok_0@ == f,
                Err(x) => r is Err && r->Err_0@ == cerr_view(x),
            },
            r is Ok ==> kept(old(self)@, final(self)@),
            r is Ok ==> final(self).enclosing@.len() == old(self).enclosing@.len(),
        decreases body, body@.len() + 2,
    {
        let ghost pv = names_view(params@);
        let ghost bv = stmts_view(body@);
        let has_nested = has_function_def(body);
        let mut outer = FunctionContext {
            function: CompiledFunction {
                arity: params.len(),
                chunk: Chunk::new(),
                upvalues: Vec::new(),
                local_names: Vec::new(),
            },
            locals: Vec::new(),
            upvalues: Vec::new(),
            scope_depth: 1,
            has_nested_functions: has_nested,
        };
        proof {
            let t0 = CtxView { scope_depth: 1, ..new_ctx(params@.len() as usize, bv) };
            assert(outer@.function.code =~= t0.function.code);
            assert(outer@.function.constants =~= t0.function.constants);
            assert(outer@.function.spans =~= t0.function.spans);
            assert(outer@.function.upvalues =~= t0.function.upvalues);
            assert(outer@.function.local_names =~= t0.function.local_names);
            assert(outer@.function.arity == t0.function.arity);
            assert(outer@.function =~= t0.function);
            assert(outer@.locals =~= t0.locals);
            assert(outer@.upvalues =~= t0.upvalues);
            assert(outer@.has_nested_functions == t0.has_nested_functions);
            assert(outer@ == t0);
        }
        std::mem::swap(&mut self.current, &mut outer);
        self.enclosing.push(outer);
        let ghost c1 = self@;
        proof {
            assert(c1.stack =~= old(self)@.stack.push(top(c1)));
            lemma_view_shape(*self);
        }
        let mut i: usize = 0;
        while i < params.len()
            invariant
                i <= params@.len(),
                pv == names_view(params@),
                declare_params(c1, pv, 0) == declare_params(self@, pv, i as int),
                kept(c1, self@),
                self.enclosing@.len() == old(self).enclosing@.len() + 1,
            decreases params@.len() - i,
        {
            let ghost before = self@;
            self.declare_variable(params[i].as_str());
            proof { lemma_kept_trans(c1, before, self@); }
            i = i + 1;
        }
        let ghost c2 = self@;
        self.compile_block(body, span)?;
        self.emit_op(OpCode::Nil, span);
        self.emit_op(OpCode::Return, span);
        let ghost c3 = self@;
        proof {
            lemma_kept_trans(c1, c2, c3);
            lemma_view_shape(*self);
        }
        let mut inner = self.enclosing.pop().unwrap();
        std::mem::swap(&mut self.current, &mut inner);
        proof {
            lemma_view_shape(*self);
            assert(self@.stack =~= c3.stack.drop_last());
            assert(top(c3) == inner@);
            let n = old(self)@.stack.len();
            assert(c1.stack[n - 1] == top(old(self)@));
            assert forall|j: int| 0 <= j < n - 1 implies (#[trigger] self@.stack[j]).function == old(self)@.stack[j].function
                && self@.stack[j].scope_depth == old(self)@.stack[j].scope_depth by {
                assert(c1.stack[j] == old(self)@.stack[j]);
                assert(c3.stack[j].function == c1.stack[j].function);
            }
            assert(c3.stack[n - 1].function == c1.stack[n - 1].function);
        }
        let mut f = inner.function;
        f.upvalues = inner.upvalues;
        Ok(f)
    }
}


impl Compiler {
    fn compile_top_statement(&mut self, s: &Stmt) -> (r: Result<(), GupError>)
        requires
            old(self).enclosing@.len() == 0,
        ensures
            outcome(r, final(self)@, top_stmt(old(self)@, s@)),
            r is Ok ==> final(self).enclosing@.len() == 0,
            r is Ok ==> kept(old(self)@, final(self)@),
    {
        reveal(top_stmt);
        proof { lemma_view_shape(*self); }
        self.compile_statement(s)
    }

    /// A top-level function: compiled, made a closure, bound as a global.
    fn define_function(&mut self, s: &Stmt) -> (r: Result<(), GupError>)
        requires
            s.kind is FunctionDef,
        ensures
            match s@.kind {
                StmtViewKind::FunctionDef { name, params, body } => outcome(
                    r,
                    final(self)@,
                    define_function(old(self)@, name, params, body, s.span),
                ),
                _ => true,
            },
            r is Ok ==> final(self).enclosing@.len() == old(self).enclosing@.len(),
            r is Ok ==> kept(old(self)@, final(self)@),
    {
        reveal(define_function);
        let span = s.span;
        match &s.kind {
            StmtKind::FunctionDef { name, params, body } => {
                proof {
                    match s@.kind {
                        StmtViewKind::FunctionDef { body: b, .. } => assert(b =~= stmts_view(body@)),
                        _ => {},
                    }
                }
                let f = self.compile_function(params, body, span)?;
                let ghost c1 = self@;
                proof { lemma_function_constant(f); }
                let k = self.add_constant(Constant::Function(f), span)?;
                self.emit_op1(OpCode::Closure, k, span);
                let ghost c2 = self@;
                self.define_global(name.as_str(), span)?;
                proof {
                    lemma_kept_trans(old(self)@, c1, c2);
                    lemma_kept_trans(old(self)@, c2, self@);
                }
                Ok(())
            },
            _ => Ok(()),
        }
    }
}

/// Compiles a whole program into its script: a function of no parameters
/// that runs the program's top-level statements. Top-level function
/// definitions come first, in order, each bound as a global; the other
/// statements follow in order; the script ends by returning nothing. The
/// error is the first one met, as `spec_compile` describes.
pub fn compile(program: &Program) -> (r: Result<CompiledFunction, GupError>)
    ensures
        match spec_compile(stmts_view(program@)) {
            Ok(f) => r is Ok && r->Ok_0@ == f,
            Err(e) => r is Err && r->Err_0@ == e,
        },
        r matches Ok(f) ==> {
            let code = f.chunk.code@;
            &&& f.arity == 0
            &&& f.chunk.spans@.len() == code.len()
            &&& code.len() >= 2
            &&& code[code.len() - 2] == spec_encode(OpCode::Nil)
            &&& code[code.len() - 1] == spec_encode(OpCode::Return)
        },
{
    let ghost p = stmts_view(program@);
    let mut globals: Vec<String> = Vec::new();
    let mut i: usize = 0;
    while i < program.len()
        invariant
            i <= program@.len(),
            p == stmts_view(program@),
            strings_view(globals@) == initial_globals(p.take(i as int)),
        decreases program@.len() - i,
    {
        proof {
            assert(p.take(i + 1).drop_last() =~= p.take(i as int));
            assert(p.take(i + 1).last() == program@[i as int]@);
        }
        if let StmtKind::FunctionDef { name, .. } = &program[i].kind {
            if !contains_name(&globals, name.as_str()) {
                let ghost g = globals@;
                globals.push(name.clone());
                proof { assert(strings_view(globals@) =~= strings_view(g).push(name@)); }
            }
        }
        i = i + 1;
    }
    proof { assert(p.take(program@.len() as int) =~= p); }
    let has_nested = has_function_def(program);
    let script = FunctionContext {
        function: CompiledFunction { arity: 0, chunk: Chunk::new(), upvalues: Vec::new(), local_names: Vec::new() },
        locals: Vec::new(),
        upvalues: Vec::new(),
        scope_depth: 0,
        has_nested_functions: has_nested,
    };
    let mut compiler = Compiler { current: script, enclosing: Vec::new(), globals };
    let ghost c0 = CView { stack: seq![new_ctx(0, p)], globals: initial_globals(p) };
    proof {
        let t0 = new_ctx(0, p);
        assert(script@.function.code =~= t0.function.code);
        assert(script@.function.constants =~= t0.function.constants);
        assert(script@.function.spans =~= t0.function.spans);
        assert(script@.function.upvalues =~= t0.function.upvalues);
        assert(script@.function.local_names =~= t0.function.local_names);
        assert(script@.function =~= t0.function);
        assert(script@.locals =~= t0.locals);
        assert(script@ == t0);
        assert(compiler@.stack =~= c0.stack);
        assert(compiler@ == c0);
    }
    // First pass: the top-level functions.
    let mut i: usize = 0;
    while i < program.len()
        invariant
            i <= program@.len(),
            p == stmts_view(program@),
            define_functions(c0, p, 0) == define_functions(compiler@, p, i as int),
            compiler.enclosing@.len() == 0,
            aligned(top(compiler@)),
            top(compiler@).function.arity == 0,
            c0 == (CView { stack: seq![new_ctx(0, p)], globals: initial_globals(p) }),
        decreases program@.len() - i,
    {
        assert(p[i as int] == program@[i as int]@);
        if let StmtKind::FunctionDef { .. } = &program[i].kind {
            compiler.define_function(&program[i])?;
        }
        i = i + 1;
    }
    let ghost c1 = compiler@;
    // Second pass: the other top-level statements.
    let mut i: usize = 0;
    while i < program.len()
        invariant
            i <= program@.len(),
            p == stmts_view(program@),
            compile_rest(c1, p, 0) == compile_rest(compiler@, p, i as int),
            compiler.enclosing@.len() == 0,
            aligned(top(compiler@)),
            top(compiler@).function.arity == 0,
            c0 == (CView { stack: seq![new_ctx(0, p)], globals: initial_globals(p) }),
            define_functions(c0, p, 0) == Ok::<CView, CErr>(c1),
        decreases program@.len() - i,
    {
        assert(p[i as int] == program@[i as int]@);
        match &program[i].kind {
            StmtKind::FunctionDef { .. } => {},
            _ => {
                compiler.compile_top_statement(&program[i])?;
            },
        }
        i = i + 1;
    }
    let end = Span { line: 1, column: 1, length: 1 };
    let ghost c2 = compiler@;
    compiler.emit_op(OpCode::Nil, end);
    compiler.emit_op(OpCode::Return, end);
    proof {
        lemma_view_shape(compiler);
        assert(compiler.current.function.chunk.code@ == top(c2).function.code.push(spec_encode(OpCode::Nil)).push(spec_encode(OpCode::Return)));
    }
    let mut f = compiler.current.function;
    f.upvalues = compiler.current.upvalues;
    Ok(f)
}


} // verus!
