//! What normalization produces, stated per node kind: how many fresh names a
//! fragment consumes, and when given lines and a value are the normalization
//! of a fragment that starts drawing names at position `n` of the pool.
use vstd::prelude::*;
use crate::ast::{
    AssignExpr, AssignLeft, AssignOp, BlockStmt, Decl, Expr, Ident, LogicalExpr, LogicalOp,
    LoopInit, ObjProp, Pat, Program, ProgramPart, PropKey, PropValue, Stmt, SwitchCase, UnaryExpr,
    UnaryOp, VarDecl, VarKind,
};
use crate::block::{expr_line, ident, null_expr, renders, with_value, Blockable, Line};

verus! {

broadcast use vstd::std_specs::vec::group_vec_axioms;

// ---------------------------------------------------------------------------
// Fresh names consumed.

pub open spec fn temps_expr(e: Expr) -> nat
    decreases e, 0nat,
{
    match e {
        Expr::Array(es) => temps_opt_exprs(es@),
        Expr::Obj(props) => if props@.len() == 0 {
            0
        } else {
            1 + temps_props(props@)
        },
        Expr::Func(f) => temps_parts(f.body.0@),
        Expr::Unary(u) => temps_operand(*u.argument),
        Expr::Logical(l) => temps_expr(*l.right) + temps_expr(*l.left) + 1,
        Expr::Binary(b) => temps_operand(*b.right) + temps_operand(*b.left),
        Expr::Sequence(es) => temps_exprs(es@),
        Expr::Call(c) => temps_operand(*c.callee) + temps_operands(c.arguments@),
        Expr::Assign(a) => temps_expr(*a.right) + match a.left {
            AssignLeft::Expr(l) => temps_expr(*l),
            AssignLeft::Pat(_) => 0,
        },
        Expr::Member(m) => temps_operand(*m.object) + temps_operand(*m.property),
        _ => 0,
    }
}

pub open spec fn temps_exprs(s: Seq<Expr>) -> nat
    decreases s, 0nat,
{
    if s.len() == 0 {
        0
    } else {
        temps_exprs(s.subrange(0, s.len() - 1)) + temps_expr(s[s.len() - 1])
    }
}

/// One name for a call that stands as an operand: it is bound first.
pub open spec fn hoisted(e: Expr) -> nat {
    if e is Call {
        1
    } else {
        0
    }
}

/// The names an operand consumes: its own, then one for binding it when it
/// is a call.
pub open spec fn temps_operand(e: Expr) -> nat
    decreases e, 1nat,
{
    temps_expr(e) + hoisted(e)
}

/// Call arguments: operands, left to right.
pub open spec fn temps_operands(s: Seq<Expr>) -> nat
    decreases s, 0nat,
{
    if s.len() == 0 {
        0
    } else {
        temps_operands(s.subrange(0, s.len() - 1)) + temps_operand(s[s.len() - 1])
    }
}

pub open spec fn temps_opt_exprs(s: Seq<Option<Expr>>) -> nat
    decreases s, 0nat,
{
    if s.len() == 0 {
        0
    } else {
        temps_opt_exprs(s.subrange(0, s.len() - 1)) + match s[s.len() - 1] {
            Some(e) => temps_operand(e),
            None => 0,
        }
    }
}

pub open spec fn temps_prop(p: ObjProp) -> nat
    decreases p, 0nat,
{
    match p {
        ObjProp::Spread(e) => temps_operand(e),
        ObjProp::Prop(pr) => match pr.key {
            PropKey::Lit(_) => match pr.value {
                PropValue::Expr(e) => temps_operand(e),
                _ => 0,
            },
            _ => 0,
        },
    }
}

pub open spec fn temps_props(s: Seq<ObjProp>) -> nat
    decreases s, 0nat,
{
    if s.len() == 0 {
        0
    } else {
        temps_props(s.subrange(0, s.len() - 1)) + temps_prop(s[s.len() - 1])
    }
}

pub open spec fn temps_decls(s: Seq<VarDecl>) -> nat
    decreases s, 0nat,
{
    if s.len() == 0 {
        0
    } else {
        temps_decls(s.subrange(0, s.len() - 1)) + match s[s.len() - 1].init {
            Some(e) => temps_expr(e),
            None => 0,
        }
    }
}

pub open spec fn temps_parts(s: Seq<ProgramPart>) -> nat
    decreases s, 0nat,
{
    if s.len() == 0 {
        0
    } else {
        temps_parts(s.subrange(0, s.len() - 1)) + temps_part(s[s.len() - 1])
    }
}

pub open spec fn temps_part(p: ProgramPart) -> nat
    decreases p, 0nat,
{
    match p {
        ProgramPart::Stmt(s) => temps_stmt(s),
        ProgramPart::Decl(Decl::Func(f)) => temps_parts(f.body.0@),
        ProgramPart::Decl(Decl::Var(_, decls)) => temps_decls(decls@),
        _ => 0,
    }
}

pub open spec fn temps_cases(s: Seq<SwitchCase>) -> nat
    decreases s, 0nat,
{
    if s.len() == 0 {
        0
    } else {
        temps_cases(s.subrange(0, s.len() - 1)) + temps_parts(s[s.len() - 1].consequent@)
    }
}

pub open spec fn temps_block(b: BlockStmt) -> nat
    decreases b, 0nat,
{
    temps_parts(b.0@)
}

pub open spec fn temps_stmt(s: Stmt) -> nat
    decreases s, 0nat,
{
    match s {
        Stmt::Block(b) => temps_block(b),
        Stmt::ForIn(f) => temps_stmt(*f.body) + temps_expr(f.right),
        Stmt::ForOf(f) => temps_stmt(*f.body) + temps_expr(f.right),
        Stmt::While(w) => temps_stmt(*w.body),
        Stmt::DoWhile(w) => temps_stmt(*w.body),
        Stmt::Switch(sw) => temps_expr(sw.discriminant) + temps_cases(sw.cases@),
        Stmt::For(f) => temps_stmt(*f.body) + match f.init {
            Some(LoopInit::Variable(_, decls)) => temps_decls(decls@),
            Some(LoopInit::Expr(e)) => temps_expr(e),
            None => 0,
        },
        Stmt::If(i) => temps_expr(i.test) + temps_stmt(*i.consequent) + match i.alternate {
            Some(a) => temps_stmt(*a),
            None => 0,
        },
        Stmt::Try(t) => temps_block(t.block) + match t.handler {
            Some(h) => temps_block(h.body),
            None => 0,
        } + match t.finalizer {
            Some(f) => temps_block(f),
            None => 0,
        },
        Stmt::Return(Some(e)) => temps_expr(e),
        Stmt::Expr(e) => temps_expr(e),
        _ => 0,
    }
}

pub open spec fn temps_blockable(b: Blockable) -> nat {
    match b {
        Blockable::Program(Program::Script(parts)) => temps_parts(parts@),
        Blockable::Program(Program::Mod(parts)) => temps_parts(parts@),
        Blockable::ProgramPart(p) => temps_part(p),
        Blockable::Stmt(s) => temps_stmt(s),
        Blockable::Expr(e) => temps_expr(e),
        Blockable::Block(b) => temps_block(b),
    }
}

/// Whether normalizing `e` leaves a value: everything but a comma sequence
/// that is empty or ends in such a sequence.
pub open spec fn yields(e: Expr) -> bool
    decreases e,
{
    match e {
        Expr::Sequence(es) => es@.len() > 0 && yields(es@[es@.len() - 1]),
        _ => true,
    }
}

// ---------------------------------------------------------------------------
// Shapes of the synthesized lines.

/// `let name = init;`
pub open spec fn is_let_decl(name: String, init: Option<Expr>, l: Line) -> bool {
    match l {
        Line::Part(ProgramPart::Decl(Decl::Var(VarKind::Let, ds))) => ds@ == seq![
            VarDecl { id: Pat::Ident(Ident { name }), init },
        ],
        _ => false,
    }
}

/// `let name = {};`
pub open spec fn is_empty_obj_decl(name: String, l: Line) -> bool {
    match l {
        Line::Part(ProgramPart::Decl(Decl::Var(VarKind::Let, ds))) => ds@.len() == 1 && ds@[0].id
            == Pat::Ident(Ident { name }) && match ds@[0].init {
            Some(Expr::Obj(props)) => props@.len() == 0,
            _ => false,
        },
        _ => false,
    }
}

/// `name = v;`
pub open spec fn assign_part(name: String, v: Expr) -> ProgramPart {
    ProgramPart::Stmt(
        Stmt::Expr(
            Expr::Assign(
                AssignExpr {
                    operator: AssignOp::Equal,
                    left: AssignLeft::Expr(Box::new(ident(name))),
                    right: Box::new(v),
                },
            ),
        ),
    )
}

/// The test that guards the right operand of a logical operator whose left
/// value is bound to `name`: `name` for `&&`, `!name` for `||`.
pub open spec fn logical_test(op: LogicalOp, name: String) -> Expr {
    match op {
        LogicalOp::And => ident(name),
        LogicalOp::Or => Expr::Unary(
            UnaryExpr { operator: UnaryOp::Not, prefix: true, argument: Box::new(ident(name)) },
        ),
    }
}

/// `const name = w;`
pub open spec fn bind_line(name: String, w: Expr) -> Line {
    Line::Variable(name, Some(w))
}

/// `return v;`
pub open spec fn return_line(v: Option<Expr>) -> Line {
    Line::Part(ProgramPart::Stmt(Stmt::Return(v)))
}

/// What a comma sequence keeps of the previous operand's value before the
/// next operand's lines: the value as an expression statement.
pub open spec fn flush(prev: Option<Expr>) -> Seq<Line> {
    match prev {
        Some(p) => seq![expr_line(p)],
        None => seq![],
    }
}

/// `s` is a block statement rendering `lines`.
pub open spec fn is_block_of(s: Stmt, lines: Seq<Line>) -> bool {
    match s {
        Stmt::Block(b) => renders(lines, b.0@),
        _ => false,
    }
}

// ---------------------------------------------------------------------------
// The normalization relation. Every function takes the name pool and the
// position `n` of the first name the fragment may draw; the fragment draws
// the next `temps_*` names in order.

/// `lines` and `value` are the normalization of `e`.
pub open spec fn norm_expr(pool: Seq<String>, e: Expr, n: nat, lines: Seq<Line>, value: Option<
    Expr,
>) -> bool
    decreases e, 0nat,
{
    match e {
        Expr::Array(es) => match value {
            Some(Expr::Array(vs)) => norm_opt_exprs(pool, es@, n, lines, vs@),
            _ => false,
        },
        Expr::Obj(props) => if props@.len() == 0 {
            lines.len() == 0 && value == Some(e)
        } else {
            let name = pool[n as int];
            &&& value == Some(ident(name))
            &&& lines.len() > 0
            &&& is_empty_obj_decl(name, lines[0])
            &&& norm_props(pool, props@, n + 1, name, lines.drop_first())
        },
        Expr::Func(f) => lines.len() == 0 && match value {
            Some(Expr::Func(g)) => g.id == f.id && g.params == f.params && g.generator
                == f.generator && g.is_async == f.is_async && norm_body(
                pool,
                f.body.0@,
                n,
                g.body.0@,
            ),
            _ => false,
        },
        Expr::Unary(u) => match value {
            Some(Expr::Unary(u2)) => u2.operator == u.operator && u2.prefix == u.prefix
                && norm_operand(pool, *u.argument, n, lines, *u2.argument),
            _ => false,
        },
        Expr::Logical(l) => {
            let nl = n + temps_expr(*l.right);
            let name = pool[(nl + temps_expr(*l.left)) as int];
            &&& value == Some(ident(name))
            &&& lines.len() >= 2
            &&& exists|lv: Option<Expr>|
                norm_expr(pool, *l.left, nl, lines.subrange(0, lines.len() - 2), lv)
                    && #[trigger] is_let_decl(name, lv, lines[lines.len() - 2])
            &&& match lines[lines.len() - 1] {
                Line::Part(ProgramPart::Stmt(Stmt::If(i))) => {
                    &&& i.alternate is None
                    &&& i.test == logical_test(l.operator, name)
                    &&& match *i.consequent {
                        Stmt::Block(b) => b.0@.len() > 0 && exists|rl: Seq<Line>, rv: Expr|
                            norm_expr_to(pool, *l.right, n, rl, rv) && #[trigger] renders(
                                rl,
                                b.0@.drop_last(),
                            ) && b.0@.last() == #[trigger] assign_part(name, rv),
                        _ => false,
                    }
                },
                _ => false,
            }
        },
        Expr::Binary(b) => match value {
            Some(Expr::Binary(b2)) => b2.operator == b.operator && exists|i: int|
                #![trigger lines.subrange(0, i)]
                0 <= i <= lines.len() && norm_operand(
                    pool,
                    *b.right,
                    n,
                    lines.subrange(0, i),
                    *b2.right,
                ) && norm_operand(
                    pool,
                    *b.left,
                    n + temps_operand(*b.right),
                    lines.subrange(i, lines.len() as int),
                    *b2.left,
                ),
            _ => false,
        },
        Expr::Sequence(es) => norm_seq(pool, es@, n, lines, value),
        Expr::Call(c) => match value {
            Some(Expr::Call(c2)) => exists|i: int|
                #![trigger lines.subrange(0, i)]
                0 <= i <= lines.len() && norm_operand(
                    pool,
                    *c.callee,
                    n,
                    lines.subrange(0, i),
                    *c2.callee,
                ) && norm_operands(
                    pool,
                    c.arguments@,
                    n + temps_operand(*c.callee),
                    lines.subrange(i, lines.len() as int),
                    c2.arguments@,
                ),
            _ => false,
        },
        Expr::Assign(a) => match value {
            Some(Expr::Assign(a2)) => a2.operator == a.operator && exists|i: int|
                #![trigger lines.subrange(0, i)]
                0 <= i <= lines.len() && norm_expr_to(
                    pool,
                    *a.right,
                    n,
                    lines.subrange(0, i),
                    *a2.right,
                ) && match a.left {
                    AssignLeft::Pat(p) => a2.left == AssignLeft::Pat(p) && i == lines.len(),
                    AssignLeft::Expr(le) => match a2.left {
                        AssignLeft::Expr(le2) => norm_expr_to(
                            pool,
                            *le,
                            n + temps_expr(*a.right),
                            lines.subrange(i, lines.len() as int),
                            *le2,
                        ),
                        _ => false,
                    },
                },
            _ => false,
        },
        Expr::Member(m) => match value {
            Some(Expr::Member(m2)) => m2.computed == m.computed && exists|i: int|
                #![trigger lines.subrange(0, i)]
                0 <= i <= lines.len() && norm_operand(
                    pool,
                    *m.object,
                    n,
                    lines.subrange(0, i),
                    *m2.object,
                ) && norm_operand(
                    pool,
                    *m.property,
                    n + temps_operand(*m.object),
                    lines.subrange(i, lines.len() as int),
                    *m2.property,
                ),
            _ => false,
        },
        _ => lines.len() == 0 && value == Some(e),
    }
}

/// `lines` are the normalization of `e`, and `v` its value (`null` when it
/// leaves none).
pub open spec fn norm_expr_to(pool: Seq<String>, e: Expr, n: nat, lines: Seq<Line>, v: Expr) -> bool
    decreases e, 1nat,
{
    &&& norm_expr(
        pool,
        e,
        n,
        lines,
        if yields(e) {
            Some(v)
        } else {
            None
        },
    )
    &&& !yields(e) ==> v == null_expr()
}

/// `v` is the value of operand `e` after normalization: a call is bound to
/// the next fresh name by a constant declaration after its own lines, and
/// that name stands in its place; anything else is normalized in place.
pub open spec fn norm_operand(pool: Seq<String>, e: Expr, n: nat, lines: Seq<Line>, v: Expr) -> bool
    decreases e, 2nat,
{
    if e is Call {
        let name = pool[(n + temps_expr(e)) as int];
        &&& v == ident(name)
        &&& lines.len() > 0
        &&& exists|w: Expr|
            norm_expr_to(pool, e, n, lines.drop_last(), w) && lines.last() == #[trigger] bind_line(
                name,
                w,
            )
    } else {
        norm_expr_to(pool, e, n, lines, v)
    }
}

/// Operands normalized left to right, their lines concatenated.
pub open spec fn norm_operands(pool: Seq<String>, es: Seq<Expr>, n: nat, lines: Seq<Line>, vs: Seq<
    Expr,
>) -> bool
    decreases es, 0nat,
{
    if es.len() == 0 {
        lines.len() == 0 && vs.len() == 0
    } else {
        let pre = es.subrange(0, es.len() - 1);
        &&& vs.len() == es.len()
        &&& exists|i: int|
                #![trigger lines.subrange(0, i)]
            0 <= i <= lines.len() && norm_operands(pool, pre, n, lines.subrange(0, i), vs.drop_last())
                && norm_operand(
                pool,
                es[es.len() - 1],
                n + temps_operands(pre),
                lines.subrange(i, lines.len() as int),
                vs.last(),
            )
    }
}

/// Array elements normalized left to right; holes stay holes.
pub open spec fn norm_opt_exprs(
    pool: Seq<String>,
    es: Seq<Option<Expr>>,
    n: nat,
    lines: Seq<Line>,
    vs: Seq<Option<Expr>>,
) -> bool
    decreases es, 0nat,
{
    if es.len() == 0 {
        lines.len() == 0 && vs.len() == 0
    } else {
        let pre = es.subrange(0, es.len() - 1);
        &&& vs.len() == es.len()
        &&& exists|i: int|
                #![trigger lines.subrange(0, i)]
            0 <= i <= lines.len() && norm_opt_exprs(
                pool,
                pre,
                n,
                lines.subrange(0, i),
                vs.drop_last(),
            ) && match es[es.len() - 1] {
                None => vs.last() is None && i == lines.len(),
                Some(e) => match vs.last() {
                    Some(v) => norm_operand(
                        pool,
                        e,
                        n + temps_opt_exprs(pre),
                        lines.subrange(i, lines.len() as int),
                        v,
                    ),
                    None => false,
                },
            }
    }
}

/// A comma sequence: each operand's lines in order, each value but the last
/// kept as an expression statement before the next operand's lines.
pub open spec fn norm_seq(pool: Seq<String>, es: Seq<Expr>, n: nat, lines: Seq<Line>, value: Option<
    Expr,
>) -> bool
    decreases es, 0nat,
{
    if es.len() == 0 {
        lines.len() == 0 && value is None
    } else {
        let pre = es.subrange(0, es.len() - 1);
        let m = n + temps_exprs(pre);
        exists|i: int, prev: Option<Expr>|
            #![trigger lines.subrange(0, i), flush(prev)]
            {
                let j = i + flush(prev).len();
                &&& 0 <= i <= j <= lines.len()
                &&& norm_seq(pool, pre, n, lines.subrange(0, i), prev)
                &&& lines.subrange(i, j) == flush(prev)
                &&& norm_expr(pool, es[es.len() - 1], m, lines.subrange(j, lines.len() as int), value)
            }
    }
}

/// The properties of a non-empty object literal bound to `name`: for each, its
/// lines, then `name = {...name, prop}` with the normalized property.
pub open spec fn norm_props(
    pool: Seq<String>,
    props: Seq<ObjProp>,
    n: nat,
    name: String,
    lines: Seq<Line>,
) -> bool
    decreases props, 0nat,
{
    if props.len() == 0 {
        lines.len() == 0
    } else {
        let pre = props.subrange(0, props.len() - 1);
        exists|i: int|
                #![trigger lines.subrange(0, i)]
            0 <= i <= lines.len() && norm_props(pool, pre, n, name, lines.subrange(0, i))
                && norm_prop(
                pool,
                props[props.len() - 1],
                n + temps_props(pre),
                name,
                lines.subrange(i, lines.len() as int),
            )
    }
}

pub open spec fn norm_prop(pool: Seq<String>, p: ObjProp, n: nat, name: String, lines: Seq<Line>) -> bool
    decreases p, 0nat,
{
    lines.len() > 0 && match lines.last() {
        Line::Part(ProgramPart::Stmt(Stmt::Expr(Expr::Assign(a)))) => {
            &&& a.operator == AssignOp::Equal
            &&& a.left == AssignLeft::Expr(Box::new(ident(name)))
            &&& match *a.right {
                Expr::Obj(ps) => ps@.len() == 2 && ps@[0] == ObjProp::Spread(
                    Expr::Spread(Box::new(ident(name))),
                ) && match p {
                    ObjProp::Spread(e) => match ps@[1] {
                        ObjProp::Spread(v) => norm_operand(pool, e, n, lines.drop_last(), v),
                        _ => false,
                    },
                    ObjProp::Prop(pr) => match (pr.key, pr.value) {
                        (PropKey::Lit(_), PropValue::Expr(e)) => match ps@[1] {
                            ObjProp::Prop(pr2) => {
                                &&& pr2.key == pr.key
                                &&& pr2.kind == pr.kind
                                &&& pr2.method == pr.method
                                &&& pr2.computed == pr.computed
                                &&& pr2.short_hand == pr.short_hand
                                &&& pr2.is_static == pr.is_static
                                &&& match pr2.value {
                                    PropValue::Expr(v) => norm_operand(
                                        pool,
                                        e,
                                        n,
                                        lines.drop_last(),
                                        v,
                                    ),
                                    _ => false,
                                }
                            },
                            _ => false,
                        },
                        _ => lines.len() == 1 && ps@[1] == p,
                    },
                },
                _ => false,
            }
        },
        _ => false,
    }
}

/// A function body normalized as a program of its own and rendered.
pub open spec fn norm_body(pool: Seq<String>, parts: Seq<ProgramPart>, n: nat, out: Seq<
    ProgramPart,
>) -> bool
    decreases parts, 1nat,
{
    exists|lines: Seq<Line>| norm_parts(pool, parts, n, lines) && #[trigger] renders(lines, out)
}

/// Switch cases in order: each test kept, each consequent normalized as a
/// program of its own and rendered.
pub open spec fn norm_cases(pool: Seq<String>, cs: Seq<SwitchCase>, n: nat, out: Seq<SwitchCase>) -> bool
    decreases cs, 0nat,
{
    if cs.len() == 0 {
        out.len() == 0
    } else {
        let pre = cs.subrange(0, cs.len() - 1);
        let c = cs[cs.len() - 1];
        &&& out.len() == cs.len()
        &&& norm_cases(pool, pre, n, out.drop_last())
        &&& out.last().test == c.test
        &&& norm_body(pool, c.consequent@, n + temps_cases(pre), out.last().consequent@)
    }
}

/// A block statement normalized as a program and rendered.
pub open spec fn norm_block(pool: Seq<String>, b: BlockStmt, n: nat, out: BlockStmt) -> bool
    decreases b, 0nat,
{
    exists|lines: Seq<Line>|
        norm_parts(pool, b.0@, n, lines) && #[trigger] renders(lines, out.0@)
}

/// A statement normalized and rendered as a block statement.
pub open spec fn norm_stmt_block(pool: Seq<String>, s: Stmt, n: nat, out: Stmt) -> bool
    decreases s, 1nat,
{
    exists|l: Seq<Line>, v: Option<Expr>|
        norm_stmt(pool, s, n, l, v) && is_block_of(out, #[trigger] with_value(l, v))
}

/// Program parts normalized in order, each with its value kept as an
/// expression statement.
pub open spec fn norm_parts(pool: Seq<String>, parts: Seq<ProgramPart>, n: nat, lines: Seq<Line>) -> bool
    decreases parts, 0nat,
{
    if parts.len() == 0 {
        lines.len() == 0
    } else {
        let pre = parts.subrange(0, parts.len() - 1);
        exists|i: int, pl: Seq<Line>, pv: Option<Expr>|
            #![trigger lines.subrange(0, i), with_value(pl, pv)]
            0 <= i <= lines.len() && norm_parts(pool, pre, n, lines.subrange(0, i)) && norm_part(
                pool,
                parts[parts.len() - 1],
                n + temps_parts(pre),
                pl,
                pv,
            ) && lines.subrange(i, lines.len() as int) == with_value(pl, pv)
    }
}

pub open spec fn norm_part(pool: Seq<String>, p: ProgramPart, n: nat, lines: Seq<Line>, value: Option<
    Expr,
>) -> bool
    decreases p, 0nat,
{
    match p {
        ProgramPart::Stmt(s) => norm_stmt(pool, s, n, lines, value),
        ProgramPart::Decl(Decl::Func(f)) => value is None && lines.len() == 1 && match lines[0] {
            Line::Part(ProgramPart::Decl(Decl::Func(g))) => g.id == f.id && g.params == f.params
                && g.generator == f.generator && g.is_async == f.is_async && norm_body(
                pool,
                f.body.0@,
                n,
                g.body.0@,
            ),
            _ => false,
        },
        ProgramPart::Decl(Decl::Var(kind, decls)) => value is None && norm_decls(
            pool,
            kind,
            decls@,
            n,
            lines,
        ),
        _ => value is None && lines == seq![Line::Part(p)],
    }
}

/// Each declarator becomes its own declaration, after its initializer's lines.
pub open spec fn norm_decls(
    pool: Seq<String>,
    kind: VarKind,
    ds: Seq<VarDecl>,
    n: nat,
    lines: Seq<Line>,
) -> bool
    decreases ds, 0nat,
{
    if ds.len() == 0 {
        lines.len() == 0
    } else {
        let pre = ds.subrange(0, ds.len() - 1);
        let d = ds[ds.len() - 1];
        exists|i: int|
                #![trigger lines.subrange(0, i)]
            0 <= i < lines.len() && norm_decls(pool, kind, pre, n, lines.subrange(0, i)) && match lines.last() {
                Line::Part(ProgramPart::Decl(Decl::Var(k2, vs))) => {
                    &&& k2 == kind
                    &&& vs@.len() == 1
                    &&& vs@[0].id == d.id
                    &&& match d.init {
                        None => vs@[0].init is None && i == lines.len() - 1,
                        Some(e) => match vs@[0].init {
                            Some(v) => norm_expr_to(
                                pool,
                                e,
                                n + temps_decls(pre),
                                lines.subrange(i, lines.len() - 1),
                                v,
                            ),
                            None => false,
                        },
                    }
                },
                _ => false,
            }
    }
}

/// The declarators of a loop's init: each initializer's lines in order, the
/// declarators kept with their residual values.
pub open spec fn norm_loop_decls(
    pool: Seq<String>,
    ds: Seq<VarDecl>,
    n: nat,
    lines: Seq<Line>,
    out: Seq<VarDecl>,
) -> bool
    decreases ds, 0nat,
{
    if ds.len() == 0 {
        lines.len() == 0 && out.len() == 0
    } else {
        let pre = ds.subrange(0, ds.len() - 1);
        let d = ds[ds.len() - 1];
        &&& out.len() == ds.len()
        &&& out.last().id == d.id
        &&& exists|i: int|
            #![trigger lines.subrange(0, i)]
            0 <= i <= lines.len() && norm_loop_decls(
                pool,
                pre,
                n,
                lines.subrange(0, i),
                out.drop_last(),
            ) && match d.init {
                None => out.last().init is None && i == lines.len(),
                Some(e) => match out.last().init {
                    Some(v) => norm_expr_to(
                        pool,
                        e,
                        n + temps_decls(pre),
                        lines.subrange(i, lines.len() as int),
                        v,
                    ),
                    None => false,
                },
            }
    }
}

/// `lines` and `value` are the normalization of statement `s`.
///
/// Loop tests and updates (`while`, `do ... while`, and the test and update
/// of `for`) run on every iteration: lines hoisted before the loop would run
/// only once, so these expressions are kept as they are. Only the bodies of
/// loops are normalized, together with what runs once before the loop (the
/// init of a `for`, the object of a `for ... in` or `for ... of`).
pub open spec fn norm_stmt(pool: Seq<String>, s: Stmt, n: nat, lines: Seq<Line>, value: Option<
    Expr,
>) -> bool
    decreases s, 0nat,
{
    match s {
        Stmt::Block(b) => value is None && norm_parts(pool, b.0@, n, lines),
        Stmt::ForIn(f) => value is None && lines.len() > 0 && match lines.last() {
            Line::Part(ProgramPart::Stmt(Stmt::ForIn(g))) => {
                &&& g.left == f.left
                &&& norm_stmt_block(pool, *f.body, n, *g.body)
                &&& norm_expr_to(
                    pool,
                    f.right,
                    n + temps_stmt(*f.body),
                    lines.drop_last(),
                    g.right,
                )
            },
            _ => false,
        },
        Stmt::ForOf(f) => value is None && lines.len() > 0 && match lines.last() {
            Line::Part(ProgramPart::Stmt(Stmt::ForOf(g))) => {
                &&& g.left == f.left
                &&& g.is_await == f.is_await
                &&& norm_stmt_block(pool, *f.body, n, *g.body)
                &&& norm_expr_to(
                    pool,
                    f.right,
                    n + temps_stmt(*f.body),
                    lines.drop_last(),
                    g.right,
                )
            },
            _ => false,
        },
        Stmt::While(w) => value is None && lines.len() == 1 && match lines[0] {
            Line::Part(ProgramPart::Stmt(Stmt::While(w2))) => w2.test == w.test
                && norm_stmt_block(pool, *w.body, n, *w2.body),
            _ => false,
        },
        Stmt::DoWhile(w) => value is None && lines.len() == 1 && match lines[0] {
            Line::Part(ProgramPart::Stmt(Stmt::DoWhile(w2))) => w2.test == w.test
                && norm_stmt_block(pool, *w.body, n, *w2.body),
            _ => false,
        },
        Stmt::Switch(sw) => value is None && lines.len() > 0 && match lines.last() {
            Line::Part(ProgramPart::Stmt(Stmt::Switch(sw2))) => {
                &&& norm_expr_to(pool, sw.discriminant, n, lines.drop_last(), sw2.discriminant)
                &&& norm_cases(pool, sw.cases@, n + temps_expr(sw.discriminant), sw2.cases@)
            },
            _ => false,
        },
        Stmt::For(f) => value is None && lines.len() > 0 && match lines.last() {
            Line::Part(ProgramPart::Stmt(Stmt::For(g))) => {
                let m = n + temps_stmt(*f.body);
                &&& g.test == f.test
                &&& g.update == f.update
                &&& norm_stmt_block(pool, *f.body, n, *g.body)
                &&& match f.init {
                    None => g.init is None && lines.len() == 1,
                    Some(LoopInit::Expr(e)) => match g.init {
                        Some(LoopInit::Expr(v)) => norm_expr_to(pool, e, m, lines.drop_last(), v),
                        _ => false,
                    },
                    Some(LoopInit::Variable(kind, decls)) => match g.init {
                        Some(LoopInit::Variable(k2, ds2)) => k2 == kind && norm_loop_decls(
                            pool,
                            decls@,
                            m,
                            lines.drop_last(),
                            ds2@,
                        ),
                        _ => false,
                    },
                }
            },
            _ => false,
        },
        Stmt::If(i) => value is None && lines.len() > 0 && match lines.last() {
            Line::Part(ProgramPart::Stmt(Stmt::If(j))) => {
                let m = n + temps_expr(i.test);
                &&& norm_expr_to(pool, i.test, n, lines.drop_last(), j.test)
                &&& norm_stmt_block(pool, *i.consequent, m, *j.consequent)
                &&& match (i.alternate, j.alternate) {
                    (None, None) => true,
                    (Some(a), Some(b)) => norm_stmt_block(
                        pool,
                        *a,
                        m + temps_stmt(*i.consequent),
                        *b,
                    ),
                    _ => false,
                }
            },
            _ => false,
        },
        Stmt::Try(t) => value is None && lines.len() == 1 && match lines[0] {
            Line::Part(ProgramPart::Stmt(Stmt::Try(u))) => {
                let m = n + temps_block(t.block);
                &&& norm_block(pool, t.block, n, u.block)
                &&& match (t.handler, u.handler) {
                    (None, None) => true,
                    (Some(h), Some(h2)) => h2.param == h.param && norm_block(
                        pool,
                        h.body,
                        m,
                        h2.body,
                    ),
                    _ => false,
                }
                &&& match (t.finalizer, u.finalizer) {
                    (None, None) => true,
                    (Some(f), Some(f2)) => norm_block(
                        pool,
                        f,
                        m + match t.handler {
                            Some(h) => temps_block(h.body),
                            None => 0,
                        },
                        f2,
                    ),
                    _ => false,
                }
            },
            _ => false,
        },
        Stmt::Return(None) => value is None && lines == seq![
            Line::Part(ProgramPart::Stmt(Stmt::Return(None))),
        ],
        Stmt::Return(Some(e)) => value is None && lines.len() > 0 && exists|v: Option<Expr>|
            norm_expr(pool, e, n, lines.drop_last(), v) && lines.last() == #[trigger] return_line(v),
        Stmt::Expr(e) => norm_expr(pool, e, n, lines, value),
        _ => value is None && lines == seq![Line::Part(ProgramPart::Stmt(s))],
    }
}

/// `lines` and `value` are the normalization of fragment `b`.
pub open spec fn norm_blockable(pool: Seq<String>, b: Blockable, n: nat, lines: Seq<Line>, value: Option<
    Expr,
>) -> bool {
    match b {
        Blockable::Program(Program::Script(parts)) => value is None && norm_parts(
            pool,
            parts@,
            n,
            lines,
        ),
        Blockable::Program(Program::Mod(parts)) => value is None && norm_parts(
            pool,
            parts@,
            n,
            lines,
        ),
        Blockable::ProgramPart(p) => norm_part(pool, p, n, lines, value),
        Blockable::Stmt(s) => norm_stmt(pool, s, n, lines, value),
        Blockable::Expr(e) => norm_expr(pool, e, n, lines, value),
        Blockable::Block(b) => value is None && norm_parts(pool, b.0@, n, lines),
    }
}

// ---------------------------------------------------------------------------
// Laws of normalization.

/// Short-circuiting is kept: normalizing `left && right` (or `||`) runs the
/// left operand's lines, binds its value to a fresh name, and then has a
/// single `if` on that name (negated for `||`), with no else branch, whose
/// body holds the right operand's lines and the assignment of its value.
/// No line of the right operand stands outside that `if`.
pub proof fn lemma_short_circuit(
    pool: Seq<String>,
    l: LogicalExpr,
    n: nat,
    lines: Seq<Line>,
    value: Option<Expr>,
)
    requires
        norm_expr(pool, Expr::Logical(l), n, lines, value),
    ensures
        ({
            let nl = n + temps_expr(*l.right);
            let name = pool[(nl + temps_expr(*l.left)) as int];
            &&& value == Some(ident(name))
            &&& lines.len() >= 2
            &&& exists|lv: Option<Expr>|
                norm_expr(pool, *l.left, nl, lines.subrange(0, lines.len() - 2), lv)
                    && #[trigger] is_let_decl(name, lv, lines[lines.len() - 2])
            &&& match lines[lines.len() - 1] {
                Line::Part(ProgramPart::Stmt(Stmt::If(i))) => {
                    &&& i.test == logical_test(l.operator, name)
                    &&& i.alternate is None
                    &&& match *i.consequent {
                        Stmt::Block(b) => b.0@.len() > 0 && exists|rl: Seq<Line>, rv: Expr|
                            norm_expr_to(pool, *l.right, n, rl, rv) && #[trigger] renders(
                                rl,
                                b.0@.drop_last(),
                            ) && b.0@.last() == #[trigger] assign_part(name, rv),
                        _ => false,
                    }
                },
                _ => false,
            }
        }),
{
}

// ---------------------------------------------------------------------------
// Counting the names a fragment needs, in executable code.

/// `t` as a `usize`, or `None` when it does not fit.
pub open spec fn fit(t: nat) -> Option<usize> {
    if t <= usize::MAX {
        Some(t as usize)
    } else {
        None
    }
}

fn plus(a: Option<usize>, b: Option<usize>, x: Ghost<nat>, y: Ghost<nat>) -> (r: Option<usize>)
    requires
        a == fit(x@),
        b == fit(y@),
    ensures
        r == fit(x@ + y@),
{
    match (a, b) {
        (Some(a), Some(b)) => a.checked_add(b),
        _ => None,
    }
}

fn count_exprs(es: &Vec<Expr>) -> (r: Option<usize>)
    ensures
        r == fit(temps_exprs(es@)),
    decreases es, 0nat,
{
    let mut acc: Option<usize> = Some(0);
    let mut i: usize = 0;
    while i < es.len()
        invariant
            i <= es.len(),
            acc == fit(temps_exprs(es@.subrange(0, i as int))),
        decreases es.len() - i,
    {
        proof {
            let t = es@.subrange(0, i + 1);
            assert(t.subrange(0, t.len() - 1) == es@.subrange(0, i as int));
            assert(decreases_to!(es => es@[i as int]));
        }
        let c = count_expr(&es[i]);
        acc = plus(
            acc,
            c,
            Ghost(temps_exprs(es@.subrange(0, i as int))),
            Ghost(temps_expr(es@[i as int])),
        );
        i += 1;
    }
    assert(es@.subrange(0, es@.len() as int) == es@);
    acc
}

fn count_operand(e: &Expr) -> (r: Option<usize>)
    ensures
        r == fit(temps_operand(*e)),
    decreases e, 1nat,
{
    let own = count_expr(e);
    if matches!(e, Expr::Call(_)) {
        plus(own, Some(1), Ghost(temps_expr(*e)), Ghost(1))
    } else {
        own
    }
}

fn count_operands(es: &Vec<Expr>) -> (r: Option<usize>)
    ensures
        r == fit(temps_operands(es@)),
    decreases es, 0nat,
{
    let mut acc: Option<usize> = Some(0);
    let mut i: usize = 0;
    while i < es.len()
        invariant
            i <= es.len(),
            acc == fit(temps_operands(es@.subrange(0, i as int))),
        decreases es.len() - i,
    {
        proof {
            let t = es@.subrange(0, i + 1);
            assert(t.subrange(0, t.len() - 1) == es@.subrange(0, i as int));
            assert(decreases_to!(es => es@[i as int]));
        }
        let c = count_operand(&es[i]);
        acc = plus(
            acc,
            c,
            Ghost(temps_operands(es@.subrange(0, i as int))),
            Ghost(temps_operand(es@[i as int])),
        );
        i += 1;
    }
    assert(es@.subrange(0, es@.len() as int) == es@);
    acc
}

fn count_opt_exprs(es: &Vec<Option<Expr>>) -> (r: Option<usize>)
    ensures
        r == fit(temps_opt_exprs(es@)),
    decreases es, 0nat,
{
    let mut acc: Option<usize> = Some(0);
    let mut i: usize = 0;
    while i < es.len()
        invariant
            i <= es.len(),
            acc == fit(temps_opt_exprs(es@.subrange(0, i as int))),
        decreases es.len() - i,
    {
        proof {
            let t = es@.subrange(0, i + 1);
            assert(t.subrange(0, t.len() - 1) == es@.subrange(0, i as int));
            assert(decreases_to!(es => es@[i as int]));
        }
        let c = match &es[i] {
            Some(e) => count_operand(e),
            None => Some(0),
        };
        acc = plus(
            acc,
            c,
            Ghost(temps_opt_exprs(es@.subrange(0, i as int))),
            Ghost(
                match es@[i as int] {
                    Some(e) => temps_operand(e),
                    None => 0,
                },
            ),
        );
        i += 1;
    }
    assert(es@.subrange(0, es@.len() as int) == es@);
    acc
}

fn count_prop(p: &ObjProp) -> (r: Option<usize>)
    ensures
        r == fit(temps_prop(*p)),
    decreases p, 0nat,
{
    match p {
        ObjProp::Spread(e) => count_operand(e),
        ObjProp::Prop(pr) => match (&pr.key, &pr.value) {
            (PropKey::Lit(_), PropValue::Expr(e)) => count_operand(e),
            _ => Some(0),
        },
    }
}

fn count_props(ps: &Vec<ObjProp>) -> (r: Option<usize>)
    ensures
        r == fit(temps_props(ps@)),
    decreases ps, 0nat,
{
    let mut acc: Option<usize> = Some(0);
    let mut i: usize = 0;
    while i < ps.len()
        invariant
            i <= ps.len(),
            acc == fit(temps_props(ps@.subrange(0, i as int))),
        decreases ps.len() - i,
    {
        proof {
            let t = ps@.subrange(0, i + 1);
            assert(t.subrange(0, t.len() - 1) == ps@.subrange(0, i as int));
            assert(decreases_to!(ps => ps@[i as int]));
        }
        let c = count_prop(&ps[i]);
        acc = plus(
            acc,
            c,
            Ghost(temps_props(ps@.subrange(0, i as int))),
            Ghost(temps_prop(ps@[i as int])),
        );
        i += 1;
    }
    assert(ps@.subrange(0, ps@.len() as int) == ps@);
    acc
}

fn count_decls(ds: &Vec<VarDecl>) -> (r: Option<usize>)
    ensures
        r == fit(temps_decls(ds@)),
    decreases ds, 0nat,
{
    let mut acc: Option<usize> = Some(0);
    let mut i: usize = 0;
    while i < ds.len()
        invariant
            i <= ds.len(),
            acc == fit(temps_decls(ds@.subrange(0, i as int))),
        decreases ds.len() - i,
    {
        proof {
            let t = ds@.subrange(0, i + 1);
            assert(t.subrange(0, t.len() - 1) == ds@.subrange(0, i as int));
            assert(decreases_to!(ds => ds@[i as int]));
        }
        let c = match &ds[i].init {
            Some(e) => count_expr(e),
            None => Some(0),
        };
        acc = plus(
            acc,
            c,
            Ghost(temps_decls(ds@.subrange(0, i as int))),
            Ghost(
                match ds@[i as int].init {
                    Some(e) => temps_expr(e),
                    None => 0,
                },
            ),
        );
        i += 1;
    }
    assert(ds@.subrange(0, ds@.len() as int) == ds@);
    acc
}

fn count_parts(ps: &Vec<ProgramPart>) -> (r: Option<usize>)
    ensures
        r == fit(temps_parts(ps@)),
    decreases ps, 0nat,
{
    let mut acc: Option<usize> = Some(0);
    let mut i: usize = 0;
    while i < ps.len()
        invariant
            i <= ps.len(),
            acc == fit(temps_parts(ps@.subrange(0, i as int))),
        decreases ps.len() - i,
    {
        proof {
            let t = ps@.subrange(0, i + 1);
            assert(t.subrange(0, t.len() - 1) == ps@.subrange(0, i as int));
            assert(decreases_to!(ps => ps@[i as int]));
        }
        let c = count_part(&ps[i]);
        acc = plus(
            acc,
            c,
            Ghost(temps_parts(ps@.subrange(0, i as int))),
            Ghost(temps_part(ps@[i as int])),
        );
        i += 1;
    }
    assert(ps@.subrange(0, ps@.len() as int) == ps@);
    acc
}

fn count_part(p: &ProgramPart) -> (r: Option<usize>)
    ensures
        r == fit(temps_part(*p)),
    decreases p, 0nat,
{
    match p {
        ProgramPart::Stmt(s) => count_stmt(s),
        ProgramPart::Decl(Decl::Func(f)) => count_parts(&f.body.0),
        ProgramPart::Decl(Decl::Var(_, decls)) => count_decls(decls),
        _ => Some(0),
    }
}

fn count_cases(cs: &Vec<SwitchCase>) -> (r: Option<usize>)
    ensures
        r == fit(temps_cases(cs@)),
    decreases cs, 0nat,
{
    let mut acc: Option<usize> = Some(0);
    let mut i: usize = 0;
    while i < cs.len()
        invariant
            i <= cs.len(),
            acc == fit(temps_cases(cs@.subrange(0, i as int))),
        decreases cs.len() - i,
    {
        proof {
            let t = cs@.subrange(0, i + 1);
            assert(t.subrange(0, t.len() - 1) == cs@.subrange(0, i as int));
            assert(decreases_to!(cs => cs@[i as int]));
        }
        let c = count_parts(&cs[i].consequent);
        acc = plus(
            acc,
            c,
            Ghost(temps_cases(cs@.subrange(0, i as int))),
            Ghost(temps_parts(cs@[i as int].consequent@)),
        );
        i += 1;
    }
    assert(cs@.subrange(0, cs@.len() as int) == cs@);
    acc
}

fn count_block(b: &BlockStmt) -> (r: Option<usize>)
    ensures
        r == fit(temps_block(*b)),
    decreases b, 0nat,
{
    count_parts(&b.0)
}

fn count_stmt(s: &Stmt) -> (r: Option<usize>)
    ensures
        r == fit(temps_stmt(*s)),
    decreases s, 0nat,
{
    match s {
        Stmt::Block(b) => count_block(b),
        Stmt::ForIn(f) => plus(
            count_stmt(&f.body),
            count_expr(&f.right),
            Ghost(temps_stmt(*f.body)),
            Ghost(temps_expr(f.right)),
        ),
        Stmt::ForOf(f) => plus(
            count_stmt(&f.body),
            count_expr(&f.right),
            Ghost(temps_stmt(*f.body)),
            Ghost(temps_expr(f.right)),
        ),
        Stmt::While(w) => count_stmt(&w.body),
        Stmt::DoWhile(w) => count_stmt(&w.body),
        Stmt::Switch(sw) => plus(
            count_expr(&sw.discriminant),
            count_cases(&sw.cases),
            Ghost(temps_expr(sw.discriminant)),
            Ghost(temps_cases(sw.cases@)),
        ),
        Stmt::For(f) => {
            let init = match &f.init {
                Some(LoopInit::Variable(_, decls)) => count_decls(decls),
                Some(LoopInit::Expr(e)) => count_expr(e),
                None => Some(0),
            };
            plus(
                count_stmt(&f.body),
                init,
                Ghost(temps_stmt(*f.body)),
                Ghost(
                    match &f.init {
                        Some(LoopInit::Variable(_, decls)) => temps_decls(decls@),
                        Some(LoopInit::Expr(e)) => temps_expr(*e),
                        None => 0,
                    },
                ),
            )
        },
        Stmt::If(i) => {
            let alt = match &i.alternate {
                Some(a) => count_stmt(a),
                None => Some(0),
            };
            let head = plus(
                count_expr(&i.test),
                count_stmt(&i.consequent),
                Ghost(temps_expr(i.test)),
                Ghost(temps_stmt(*i.consequent)),
            );
            plus(
                head,
                alt,
                Ghost(temps_expr(i.test) + temps_stmt(*i.consequent)),
                Ghost(
                    match &i.alternate {
                        Some(a) => temps_stmt(**a),
                        None => 0,
                    },
                ),
            )
        },
        Stmt::Try(t) => {
            let h = match &t.handler {
                Some(h) => count_block(&h.body),
                None => Some(0),
            };
            let f = match &t.finalizer {
                Some(f) => count_block(f),
                None => Some(0),
            };
            let ghost th: nat = match &t.handler {
                Some(h) => temps_block(h.body),
                None => 0,
            };
            let ghost tf: nat = match &t.finalizer {
                Some(f) => temps_block(*f),
                None => 0,
            };
            let head = plus(count_block(&t.block), h, Ghost(temps_block(t.block)), Ghost(th));
            plus(head, f, Ghost(temps_block(t.block) + th), Ghost(tf))
        },
        Stmt::Return(Some(e)) => count_expr(e),
        Stmt::Expr(e) => count_expr(e),
        _ => Some(0),
    }
}

fn count_expr(e: &Expr) -> (r: Option<usize>)
    ensures
        r == fit(temps_expr(*e)),
    decreases e, 0nat,
{
    match e {
        Expr::Array(es) => count_opt_exprs(es),
        Expr::Obj(props) => if props.len() == 0 {
            Some(0)
        } else {
            plus(Some(1), count_props(props), Ghost(1), Ghost(temps_props(props@)))
        },
        Expr::Func(f) => count_parts(&f.body.0),
        Expr::Unary(u) => count_operand(&u.argument),
        Expr::Logical(l) => {
            let both = plus(
                count_expr(&l.right),
                count_expr(&l.left),
                Ghost(temps_expr(*l.right)),
                Ghost(temps_expr(*l.left)),
            );
            plus(both, Some(1), Ghost(temps_expr(*l.right) + temps_expr(*l.left)), Ghost(1))
        },
        Expr::Binary(b) => plus(
            count_operand(&b.right),
            count_operand(&b.left),
            Ghost(temps_operand(*b.right)),
            Ghost(temps_operand(*b.left)),
        ),
        Expr::Sequence(es) => count_exprs(es),
        Expr::Call(c) => plus(
            count_operand(&c.callee),
            count_operands(&c.arguments),
            Ghost(temps_operand(*c.callee)),
            Ghost(temps_operands(c.arguments@)),
        ),
        Expr::Assign(a) => {
            let l = match &a.left {
                AssignLeft::Expr(l) => count_expr(l),
                AssignLeft::Pat(_) => Some(0),
            };
            plus(
                count_expr(&a.right),
                l,
                Ghost(temps_expr(*a.right)),
                Ghost(
                    match &a.left {
                        AssignLeft::Expr(l) => temps_expr(**l),
                        AssignLeft::Pat(_) => 0,
                    },
                ),
            )
        },
        Expr::Member(m) => plus(
            count_operand(&m.object),
            count_operand(&m.property),
            Ghost(temps_operand(*m.object)),
            Ghost(temps_operand(*m.property)),
        ),
        _ => Some(0),
    }
}

/// How many fresh names normalizing `b` draws from the pool; `None` when the
/// count does not fit in a `usize`.
pub fn names_needed(b: &Blockable) -> (r: Option<usize>)
    ensures
        r == fit(temps_blockable(*b)),
{
    match b {
        Blockable::Program(Program::Script(parts)) => count_parts(parts),
        Blockable::Program(Program::Mod(parts)) => count_parts(parts),
        Blockable::ProgramPart(p) => count_part(p),
        Blockable::Stmt(s) => count_stmt(s),
        Blockable::Expr(e) => count_expr(e),
        Blockable::Block(b) => count_block(b),
    }
}

} // verus!
