//! Selectable views of tree nodes and the children resolver: for each node
//! kind, the ordered list of its immediate substructures that a traversal
//! visits.
use vstd::prelude::*;
use crate::ast::{
    ArrowFuncBody, AssignLeft, BlockStmt, Decl, Expr, Func, FuncArg, LoopInit,
    LoopLeft, ObjProp, Pat, Program, ProgramPart, Prop, Stmt, SwitchCase, VarDecl,
};

verus! {

broadcast use vstd::std_specs::vec::group_vec_axioms;

/// A non-owning, copyable reference to one node of the tree, tagged by the
/// node's kind.
#[derive(Debug, Clone, Copy)]
pub enum Selectable<'a> {
    Program(&'a Program),
    ProgramPart(&'a ProgramPart),
    Stmt(&'a Stmt),
    Expr(&'a Expr),
    Block(&'a BlockStmt),
    Func(&'a Func),
    VarDecl(&'a VarDecl),
    Pat(&'a Pat),
    Prop(&'a Prop),
}

// ---------------------------------------------------------------------------
// Size of a subtree, counted over the substructures the resolver visits.
// It bounds the depth of every traversal.

pub open spec fn program_size(p: Program) -> nat
    decreases p,
{
    match p {
        Program::Mod(parts) => 1 + parts_size(parts@),
        Program::Script(parts) => 1 + parts_size(parts@),
    }
}

pub open spec fn parts_size(s: Seq<ProgramPart>) -> nat
    decreases s,
{
    if s.len() == 0 {
        0
    } else {
        parts_size(s.subrange(0, s.len() - 1)) + part_size(s[s.len() - 1])
    }
}

pub open spec fn part_size(p: ProgramPart) -> nat
    decreases p,
{
    match p {
        ProgramPart::Stmt(s) => 1 + stmt_size(s),
        ProgramPart::Decl(Decl::Func(f)) => 1 + func_size(f),
        ProgramPart::Decl(Decl::Var(_, decls)) => 1 + decls_size(decls@),
        _ => 1,
    }
}

pub open spec fn func_size(f: Func) -> nat
    decreases f,
{
    1 + args_size(f.params@) + parts_size(f.body.0@)
}

pub open spec fn arg_size(a: FuncArg) -> nat
    decreases a,
{
    match a {
        FuncArg::Expr(e) => expr_size(e),
        FuncArg::Pat(_) => 1,
    }
}

pub open spec fn args_size(s: Seq<FuncArg>) -> nat
    decreases s,
{
    if s.len() == 0 {
        0
    } else {
        args_size(s.subrange(0, s.len() - 1)) + arg_size(s[s.len() - 1])
    }
}

pub open spec fn decl_size(d: VarDecl) -> nat
    decreases d,
{
    match d.init {
        Some(e) => 2 + expr_size(e),
        None => 2,
    }
}

pub open spec fn decls_size(s: Seq<VarDecl>) -> nat
    decreases s,
{
    if s.len() == 0 {
        0
    } else {
        decls_size(s.subrange(0, s.len() - 1)) + decl_size(s[s.len() - 1])
    }
}

pub open spec fn exprs_size(s: Seq<Expr>) -> nat
    decreases s,
{
    if s.len() == 0 {
        0
    } else {
        exprs_size(s.subrange(0, s.len() - 1)) + expr_size(s[s.len() - 1])
    }
}

pub open spec fn opt_exprs_size(s: Seq<Option<Expr>>) -> nat
    decreases s,
{
    if s.len() == 0 {
        0
    } else {
        opt_exprs_size(s.subrange(0, s.len() - 1)) + match s[s.len() - 1] {
            Some(e) => expr_size(e),
            None => 0,
        }
    }
}

pub open spec fn obj_props_size(s: Seq<ObjProp>) -> nat
    decreases s,
{
    if s.len() == 0 {
        0
    } else {
        obj_props_size(s.subrange(0, s.len() - 1)) + match s[s.len() - 1] {
            ObjProp::Prop(_) => 1,
            ObjProp::Spread(e) => expr_size(e),
        }
    }
}

pub open spec fn opt_expr_size(e: Option<Expr>) -> nat
    decreases e,
{
    match e {
        Some(e) => expr_size(e),
        None => 0,
    }
}

pub open spec fn expr_size(e: Expr) -> nat
    decreases e,
{
    match e {
        Expr::Array(es) => 1 + opt_exprs_size(es@),
        Expr::ArrowFunc(a) => 1 + args_size(a.params@) + match a.body {
            ArrowFuncBody::FuncBody(b) => parts_size(b.0@),
            ArrowFuncBody::Expr(b) => expr_size(*b),
        },
        Expr::Assign(a) => 1 + expr_size(*a.right) + match a.left {
            AssignLeft::Expr(l) => expr_size(*l),
            AssignLeft::Pat(_) => 0,
        },
        Expr::Await(a) => 1 + expr_size(*a),
        Expr::Binary(b) => 1 + expr_size(*b.left) + expr_size(*b.right),
        Expr::Call(c) => 1 + expr_size(*c.callee) + exprs_size(c.arguments@),
        Expr::Class(c) => 1 + c.body.0@.len() + match c.super_class {
            Some(s) => expr_size(*s),
            None => 0,
        },
        Expr::Conditional(c) => 1 + expr_size(*c.test) + expr_size(*c.alternate) + expr_size(
            *c.consequent,
        ),
        Expr::Func(f) => 1 + func_size(f),
        Expr::Logical(l) => 1 + expr_size(*l.left) + expr_size(*l.right),
        Expr::Member(m) => 1 + expr_size(*m.object) + expr_size(*m.property),
        Expr::New(n) => 1 + expr_size(*n.callee) + exprs_size(n.arguments@),
        Expr::Obj(props) => 1 + obj_props_size(props@),
        Expr::Sequence(es) => 1 + exprs_size(es@),
        Expr::Spread(a) => 1 + expr_size(*a),
        Expr::Unary(u) => 1 + expr_size(*u.argument),
        Expr::Update(u) => 1 + expr_size(*u.argument),
        _ => 1,
    }
}

pub open spec fn block_size(b: BlockStmt) -> nat
    decreases b,
{
    1 + parts_size(b.0@)
}

pub open spec fn case_size(c: SwitchCase) -> nat
    decreases c,
{
    opt_expr_size(c.test) + parts_size(c.consequent@)
}

pub open spec fn cases_size(s: Seq<SwitchCase>) -> nat
    decreases s,
{
    if s.len() == 0 {
        0
    } else {
        cases_size(s.subrange(0, s.len() - 1)) + case_size(s[s.len() - 1])
    }
}

pub open spec fn loop_left_size(l: LoopLeft) -> nat
    decreases l,
{
    match l {
        LoopLeft::Expr(e) => expr_size(e),
        LoopLeft::Pat(_) => 1,
        LoopLeft::Variable(_, d) => decl_size(d),
    }
}

pub open spec fn stmt_size(s: Stmt) -> nat
    decreases s,
{
    match s {
        Stmt::Expr(e) => 1 + expr_size(e),
        Stmt::Block(b) => 1 + block_size(b),
        Stmt::With(w) => 1 + expr_size(w.object) + stmt_size(*w.body),
        Stmt::Return(e) => 1 + opt_expr_size(e),
        Stmt::Labeled(l) => 1 + stmt_size(*l.body),
        Stmt::If(i) => 1 + expr_size(i.test) + stmt_size(*i.consequent) + match i.alternate {
            Some(a) => stmt_size(*a),
            None => 0,
        },
        Stmt::Switch(sw) => 1 + expr_size(sw.discriminant) + cases_size(sw.cases@),
        Stmt::Throw(e) => 1 + expr_size(e),
        Stmt::Try(t) => 1 + block_size(t.block) + match t.handler {
            Some(h) => 1 + block_size(h.body),
            None => 0,
        } + match t.finalizer {
            Some(f) => block_size(f),
            None => 0,
        },
        Stmt::While(w) => 1 + expr_size(w.test) + stmt_size(*w.body),
        Stmt::DoWhile(w) => 1 + expr_size(w.test) + stmt_size(*w.body),
        Stmt::For(f) => 1 + match f.init {
            Some(LoopInit::Expr(e)) => expr_size(e),
            Some(LoopInit::Variable(_, decls)) => decls_size(decls@),
            None => 0,
        } + opt_expr_size(f.test) + opt_expr_size(f.update) + stmt_size(*f.body),
        Stmt::ForIn(f) => 1 + loop_left_size(f.left) + expr_size(f.right) + stmt_size(*f.body),
        Stmt::ForOf(f) => 1 + loop_left_size(f.left) + expr_size(f.right) + stmt_size(*f.body),
        Stmt::Var(decls) => 1 + decls_size(decls@),
        _ => 1,
    }
}

/// The size of the subtree below a node.
pub open spec fn sel_size(s: Selectable) -> nat {
    match s {
        Selectable::Program(p) => program_size(*p),
        Selectable::ProgramPart(p) => part_size(*p),
        Selectable::Stmt(s) => stmt_size(*s),
        Selectable::Expr(e) => expr_size(*e),
        Selectable::Block(b) => block_size(*b),
        Selectable::Func(f) => func_size(*f),
        Selectable::VarDecl(d) => decl_size(*d),
        Selectable::Pat(_) => 1,
        Selectable::Prop(_) => 1,
    }
}

// ---------------------------------------------------------------------------
// The children resolver, as a specification.

pub open spec fn parts_sel<'a>(s: Seq<ProgramPart>) -> Seq<Selectable<'a>>
    decreases s.len(),
{
    if s.len() == 0 {
        seq![]
    } else {
        parts_sel(s.drop_last()).push(Selectable::ProgramPart(&s.last()))
    }
}

pub open spec fn decls_sel<'a>(s: Seq<VarDecl>) -> Seq<Selectable<'a>>
    decreases s.len(),
{
    if s.len() == 0 {
        seq![]
    } else {
        decls_sel(s.drop_last()).push(Selectable::VarDecl(&s.last()))
    }
}

pub open spec fn arg_sel<'a>(a: FuncArg) -> Selectable<'a> {
    match a {
        FuncArg::Expr(e) => Selectable::Expr(&e),
        FuncArg::Pat(p) => Selectable::Pat(&p),
    }
}

pub open spec fn args_sel<'a>(s: Seq<FuncArg>) -> Seq<Selectable<'a>>
    decreases s.len(),
{
    if s.len() == 0 {
        seq![]
    } else {
        args_sel(s.drop_last()).push(arg_sel(s.last()))
    }
}

pub open spec fn exprs_sel<'a>(s: Seq<Expr>) -> Seq<Selectable<'a>>
    decreases s.len(),
{
    if s.len() == 0 {
        seq![]
    } else {
        exprs_sel(s.drop_last()).push(Selectable::Expr(&s.last()))
    }
}

/// Array elements: holes are skipped.
pub open spec fn opt_exprs_sel<'a>(s: Seq<Option<Expr>>) -> Seq<Selectable<'a>>
    decreases s.len(),
{
    if s.len() == 0 {
        seq![]
    } else {
        match s.last() {
            Some(e) => opt_exprs_sel(s.drop_last()).push(Selectable::Expr(&e)),
            None => opt_exprs_sel(s.drop_last()),
        }
    }
}

pub open spec fn obj_props_sel<'a>(s: Seq<ObjProp>) -> Seq<Selectable<'a>>
    decreases s.len(),
{
    if s.len() == 0 {
        seq![]
    } else {
        obj_props_sel(s.drop_last()).push(
            match s.last() {
                ObjProp::Prop(p) => Selectable::Prop(&p),
                ObjProp::Spread(e) => Selectable::Expr(&e),
            },
        )
    }
}

pub open spec fn props_sel<'a>(s: Seq<Prop>) -> Seq<Selectable<'a>>
    decreases s.len(),
{
    if s.len() == 0 {
        seq![]
    } else {
        props_sel(s.drop_last()).push(Selectable::Prop(&s.last()))
    }
}

pub open spec fn opt_expr_sel<'a>(e: Option<Expr>) -> Seq<Selectable<'a>> {
    match e {
        Some(e) => seq![Selectable::Expr(&e)],
        None => seq![],
    }
}

pub open spec fn case_sel<'a>(c: SwitchCase) -> Seq<Selectable<'a>> {
    opt_expr_sel(c.test) + parts_sel(c.consequent@)
}

pub open spec fn cases_sel<'a>(s: Seq<SwitchCase>) -> Seq<Selectable<'a>>
    decreases s.len(),
{
    if s.len() == 0 {
        seq![]
    } else {
        cases_sel(s.drop_last()) + case_sel(s.last())
    }
}

pub open spec fn loop_left_sel<'a>(l: LoopLeft) -> Selectable<'a> {
    match l {
        LoopLeft::Expr(e) => Selectable::Expr(&e),
        LoopLeft::Pat(p) => Selectable::Pat(&p),
        LoopLeft::Variable(_, d) => Selectable::VarDecl(&d),
    }
}

pub open spec fn expr_children<'a>(e: Expr) -> Seq<Selectable<'a>> {
    match e {
        Expr::Array(es) => opt_exprs_sel(es@),
        Expr::ArrowFunc(a) => args_sel(a.params@) + match a.body {
            ArrowFuncBody::FuncBody(b) => parts_sel(b.0@),
            ArrowFuncBody::Expr(b) => seq![Selectable::Expr(&*b)],
        },
        Expr::Assign(a) => seq![Selectable::Expr(&*a.right)] + match a.left {
            AssignLeft::Expr(l) => seq![Selectable::Expr(&*l)],
            AssignLeft::Pat(_) => seq![],
        },
        Expr::Await(a) => seq![Selectable::Expr(&*a)],
        Expr::Binary(b) => seq![Selectable::Expr(&*b.left), Selectable::Expr(&*b.right)],
        Expr::Call(c) => seq![Selectable::Expr(&*c.callee)] + exprs_sel(c.arguments@),
        Expr::Class(c) => (match c.super_class {
            Some(s) => seq![Selectable::Expr(&*s)],
            None => seq![],
        }) + props_sel(c.body.0@),
        Expr::Conditional(c) => seq![
            Selectable::Expr(&*c.test),
            Selectable::Expr(&*c.alternate),
            Selectable::Expr(&*c.consequent),
        ],
        Expr::Func(f) => seq![Selectable::Func(&f)],
        Expr::Logical(l) => seq![Selectable::Expr(&*l.right), Selectable::Expr(&*l.left)],
        Expr::Member(m) => seq![Selectable::Expr(&*m.object), Selectable::Expr(&*m.property)],
        Expr::New(n) => seq![Selectable::Expr(&*n.callee)] + exprs_sel(n.arguments@),
        Expr::Obj(props) => obj_props_sel(props@),
        Expr::Sequence(es) => exprs_sel(es@),
        Expr::Spread(a) => seq![Selectable::Expr(&*a)],
        Expr::Unary(u) => seq![Selectable::Expr(&*u.argument)],
        Expr::Update(u) => seq![Selectable::Expr(&*u.argument)],
        _ => seq![],
    }
}

pub open spec fn stmt_children<'a>(s: Stmt) -> Seq<Selectable<'a>> {
    match s {
        Stmt::Expr(e) => seq![Selectable::Expr(&e)],
        Stmt::Block(b) => seq![Selectable::Block(&b)],
        Stmt::With(w) => seq![Selectable::Expr(&w.object), Selectable::Stmt(&*w.body)],
        Stmt::Return(e) => opt_expr_sel(e),
        Stmt::Labeled(l) => seq![Selectable::Stmt(&*l.body)],
        Stmt::If(i) => seq![Selectable::Expr(&i.test), Selectable::Stmt(&*i.consequent)]
            + match i.alternate {
            Some(a) => seq![Selectable::Stmt(&*a)],
            None => seq![],
        },
        Stmt::Switch(sw) => seq![Selectable::Expr(&sw.discriminant)] + cases_sel(sw.cases@),
        Stmt::Throw(e) => seq![Selectable::Expr(&e)],
        Stmt::Try(t) => seq![Selectable::Block(&t.block)] + match t.handler {
            Some(h) => match h.param {
                Some(p) => seq![Selectable::Pat(&p), Selectable::Block(&h.body)],
                None => seq![Selectable::Block(&h.body)],
            },
            None => seq![],
        } + match t.finalizer {
            Some(f) => seq![Selectable::Block(&f)],
            None => seq![],
        },
        Stmt::While(w) => seq![Selectable::Expr(&w.test), Selectable::Stmt(&*w.body)],
        Stmt::DoWhile(w) => seq![Selectable::Stmt(&*w.body), Selectable::Expr(&w.test)],
        Stmt::For(f) => (match f.init {
            Some(LoopInit::Expr(e)) => seq![Selectable::Expr(&e)],
            Some(LoopInit::Variable(_, decls)) => decls_sel(decls@),
            None => seq![],
        }) + opt_expr_sel(f.test) + opt_expr_sel(f.update) + seq![Selectable::Stmt(&*f.body)],
        Stmt::ForIn(f) => seq![
            loop_left_sel(f.left),
            Selectable::Expr(&f.right),
            Selectable::Stmt(&*f.body),
        ],
        Stmt::ForOf(f) => seq![
            loop_left_sel(f.left),
            Selectable::Expr(&f.right),
            Selectable::Stmt(&*f.body),
        ],
        Stmt::Var(decls) => decls_sel(decls@),
        _ => seq![],
    }
}

/// The ordered children of a node, as the traversal visits them. Kinds
/// without traversable substructure have none.
pub open spec fn children_of<'a>(s: Selectable<'a>) -> Seq<Selectable<'a>> {
    match s {
        Selectable::Program(p) => match *p {
            Program::Mod(parts) => parts_sel(parts@),
            Program::Script(parts) => parts_sel(parts@),
        },
        Selectable::ProgramPart(p) => match *p {
            ProgramPart::Stmt(s) => seq![Selectable::Stmt(&s)],
            ProgramPart::Decl(Decl::Func(f)) => seq![Selectable::Func(&f)],
            ProgramPart::Decl(Decl::Var(_, decls)) => decls_sel(decls@),
            _ => seq![],
        },
        Selectable::Func(f) => args_sel(f.params@) + parts_sel(f.body.0@),
        Selectable::Expr(e) => expr_children(*e),
        Selectable::Block(b) => parts_sel(b.0@),
        Selectable::Stmt(s) => stmt_children(*s),
        Selectable::VarDecl(d) => seq![Selectable::Pat(&d.id)] + opt_expr_sel(d.init),
        _ => seq![],
    }
}

// ---------------------------------------------------------------------------
// Every child is smaller than its parent.

proof fn lemma_parts_sel(s: Seq<ProgramPart>)
    ensures
        forall|k: int|
            0 <= k < parts_sel(s).len() ==> sel_size(#[trigger] parts_sel(s)[k]) <= parts_size(s),
    decreases s.len(),
{
    if s.len() > 0 {
        let r = s.drop_last();
        lemma_parts_sel(r);
        assert(r == s.subrange(0, s.len() - 1));
        assert forall|k: int| 0 <= k < parts_sel(s).len() implies sel_size(#[trigger] parts_sel(s)[k])
            <= parts_size(s) by {
            if k < parts_sel(r).len() {
                assert(parts_sel(s)[k] == parts_sel(r)[k]);
            }
        }
    }
}

proof fn lemma_decls_sel(s: Seq<VarDecl>)
    ensures
        forall|k: int|
            0 <= k < decls_sel(s).len() ==> sel_size(#[trigger] decls_sel(s)[k]) <= decls_size(s),
    decreases s.len(),
{
    if s.len() > 0 {
        let r = s.drop_last();
        lemma_decls_sel(r);
        assert(r == s.subrange(0, s.len() - 1));
        assert forall|k: int| 0 <= k < decls_sel(s).len() implies sel_size(#[trigger] decls_sel(s)[k])
            <= decls_size(s) by {
            if k < decls_sel(r).len() {
                assert(decls_sel(s)[k] == decls_sel(r)[k]);
            }
        }
    }
}

proof fn lemma_args_sel(s: Seq<FuncArg>)
    ensures
        forall|k: int|
            0 <= k < args_sel(s).len() ==> sel_size(#[trigger] args_sel(s)[k]) <= args_size(s),
    decreases s.len(),
{
    if s.len() > 0 {
        let r = s.drop_last();
        lemma_args_sel(r);
        assert(r == s.subrange(0, s.len() - 1));
        assert(sel_size(arg_sel(s.last())) == arg_size(s.last())) by {
            match s.last() {
                FuncArg::Expr(e) => {},
                FuncArg::Pat(p) => {},
            }
        }
        assert forall|k: int| 0 <= k < args_sel(s).len() implies sel_size(#[trigger] args_sel(s)[k])
            <= args_size(s) by {
            if k < args_sel(r).len() {
                assert(args_sel(s)[k] == args_sel(r)[k]);
            }
        }
    }
}

proof fn lemma_exprs_sel(s: Seq<Expr>)
    ensures
        forall|k: int|
            0 <= k < exprs_sel(s).len() ==> sel_size(#[trigger] exprs_sel(s)[k]) <= exprs_size(s),
    decreases s.len(),
{
    if s.len() > 0 {
        let r = s.drop_last();
        lemma_exprs_sel(r);
        assert(r == s.subrange(0, s.len() - 1));
        assert forall|k: int| 0 <= k < exprs_sel(s).len() implies sel_size(#[trigger] exprs_sel(s)[k])
            <= exprs_size(s) by {
            if k < exprs_sel(r).len() {
                assert(exprs_sel(s)[k] == exprs_sel(r)[k]);
            }
        }
    }
}

proof fn lemma_opt_exprs_sel(s: Seq<Option<Expr>>)
    ensures
        forall|k: int|
            0 <= k < opt_exprs_sel(s).len() ==> sel_size(#[trigger] opt_exprs_sel(s)[k])
                <= opt_exprs_size(s),
    decreases s.len(),
{
    if s.len() > 0 {
        let r = s.drop_last();
        lemma_opt_exprs_sel(r);
        assert(r == s.subrange(0, s.len() - 1));
        assert forall|k: int| 0 <= k < opt_exprs_sel(s).len() implies sel_size(#[trigger] opt_exprs_sel(s)[k])
            <= opt_exprs_size(s) by {
            if k < opt_exprs_sel(r).len() {
                assert(opt_exprs_sel(s)[k] == opt_exprs_sel(r)[k]);
            }
        }
    }
}

proof fn lemma_obj_props_sel(s: Seq<ObjProp>)
    ensures
        forall|k: int|
            0 <= k < obj_props_sel(s).len() ==> sel_size(#[trigger] obj_props_sel(s)[k])
                <= obj_props_size(s),
    decreases s.len(),
{
    if s.len() > 0 {
        let r = s.drop_last();
        lemma_obj_props_sel(r);
        assert(r == s.subrange(0, s.len() - 1));
        assert forall|k: int| 0 <= k < obj_props_sel(s).len() implies sel_size(#[trigger] obj_props_sel(s)[k])
            <= obj_props_size(s) by {
            if k < obj_props_sel(r).len() {
                assert(obj_props_sel(s)[k] == obj_props_sel(r)[k]);
            }
        }
    }
}

proof fn lemma_props_sel(s: Seq<Prop>)
    ensures
        props_sel(s).len() == s.len(),
        forall|k: int| 0 <= k < props_sel(s).len() ==> sel_size(#[trigger] props_sel(s)[k]) == 1,
    decreases s.len(),
{
    if s.len() > 0 {
        lemma_props_sel(s.drop_last());
    }
}

proof fn lemma_opt_expr_sel(e: Option<Expr>)
    ensures
        forall|k: int|
            0 <= k < opt_expr_sel(e).len() ==> sel_size(#[trigger] opt_expr_sel(e)[k])
                <= opt_expr_size(e),
{
    match e {
        Some(x) => assert(opt_expr_sel(e)[0] == Selectable::Expr(&x)),
        None => {},
    }
}

proof fn lemma_cases_sel(s: Seq<SwitchCase>)
    ensures
        forall|k: int|
            0 <= k < cases_sel(s).len() ==> sel_size(#[trigger] cases_sel(s)[k]) <= cases_size(s),
    decreases s.len(),
{
    if s.len() > 0 {
        lemma_cases_sel(s.drop_last());
        assert(s.drop_last() == s.subrange(0, s.len() - 1));
        let c = s.last();
        lemma_parts_sel(c.consequent@);
        lemma_opt_expr_sel(c.test);
        assert(cases_size(s) == cases_size(s.drop_last()) + case_size(c));
        let a = cases_sel(s.drop_last());
        let b = case_sel(c);
        assert forall|k: int| 0 <= k < cases_sel(s).len() implies sel_size(
            #[trigger] cases_sel(s)[k],
        ) <= cases_size(s) by {
            if k < a.len() {
                assert(cases_sel(s)[k] == a[k]);
            } else {
                assert(cases_sel(s)[k] == b[k - a.len()]);
                let t = opt_expr_sel(c.test);
                if k - a.len() < t.len() {
                    assert(b[k - a.len()] == t[k - a.len()]);
                } else {
                    assert(b[k - a.len()] == parts_sel(c.consequent@)[k - a.len() - t.len()]);
                }
            }
        }
    }
}

/// Each child of a node has a strictly smaller subtree than the node.
pub proof fn lemma_children_smaller(s: Selectable)
    ensures
        forall|k: int|
            0 <= k < children_of(s).len() ==> sel_size(#[trigger] children_of(s)[k]) < sel_size(
                s,
            ),
{
    let ch = children_of(s);
    match s {
        Selectable::Program(p) => match *p {
            Program::Mod(parts) => lemma_parts_sel(parts@),
            Program::Script(parts) => lemma_parts_sel(parts@),
        },
        Selectable::ProgramPart(p) => match *p {
            ProgramPart::Decl(Decl::Var(_, decls)) => lemma_decls_sel(decls@),
            _ => {},
        },
        Selectable::Func(f) => {
            lemma_args_sel(f.params@);
            lemma_parts_sel(f.body.0@);
            let a = args_sel(f.params@);
            assert forall|k: int| 0 <= k < ch.len() implies sel_size(#[trigger] ch[k]) < sel_size(
                s,
            ) by {
                if k >= a.len() {
                    assert(ch[k] == parts_sel(f.body.0@)[k - a.len()]);
                }
            }
        },
        Selectable::Expr(e) => lemma_expr_children_smaller(*e),
        Selectable::Block(b) => lemma_parts_sel(b.0@),
        Selectable::Stmt(st) => lemma_stmt_children_smaller(*st),
        Selectable::VarDecl(d) => {},
        _ => {},
    }
}

proof fn lemma_expr_children_smaller(e: Expr)
    ensures
        forall|k: int|
            0 <= k < expr_children(e).len() ==> sel_size(#[trigger] expr_children(e)[k])
                < expr_size(e),
{
    let ch = expr_children(e);
    match e {
        Expr::Array(es) => lemma_opt_exprs_sel(es@),
        Expr::ArrowFunc(a) => {
            lemma_args_sel(a.params@);
            let x = args_sel(a.params@);
            match a.body {
                ArrowFuncBody::FuncBody(b) => {
                    lemma_parts_sel(b.0@);
                    assert forall|k: int| 0 <= k < ch.len() implies sel_size(#[trigger] ch[k])
                        < expr_size(e) by {
                        if k >= x.len() {
                            assert(ch[k] == parts_sel(b.0@)[k - x.len()]);
                        }
                    }
                },
                ArrowFuncBody::Expr(b) => {
                    assert forall|k: int| 0 <= k < ch.len() implies sel_size(#[trigger] ch[k])
                        < expr_size(e) by {
                        if k >= x.len() {
                            assert(ch[k] == Selectable::Expr(&*b));
                        }
                    }
                },
            }
        },
        Expr::Call(c) => {
            lemma_exprs_sel(c.arguments@);
            assert forall|k: int| 0 <= k < ch.len() implies sel_size(#[trigger] ch[k]) < expr_size(
                e,
            ) by {
                if k >= 1 {
                    assert(ch[k] == exprs_sel(c.arguments@)[k - 1]);
                }
            }
        },
        Expr::New(c) => {
            lemma_exprs_sel(c.arguments@);
            assert forall|k: int| 0 <= k < ch.len() implies sel_size(#[trigger] ch[k]) < expr_size(
                e,
            ) by {
                if k >= 1 {
                    assert(ch[k] == exprs_sel(c.arguments@)[k - 1]);
                }
            }
        },
        Expr::Class(c) => {
            lemma_props_sel(c.body.0@);
            let x: Seq<Selectable> = match c.super_class {
                Some(s) => seq![Selectable::Expr(&*s)],
                None => seq![],
            };
            assert forall|k: int| 0 <= k < ch.len() implies sel_size(#[trigger] ch[k]) < expr_size(
                e,
            ) by {
                if k >= x.len() {
                    assert(ch[k] == props_sel(c.body.0@)[k - x.len()]);
                }
            }
        },
        Expr::Obj(props) => lemma_obj_props_sel(props@),
        Expr::Sequence(es) => lemma_exprs_sel(es@),
        _ => {},
    }
}

proof fn lemma_stmt_children_smaller(st: Stmt)
    ensures
        forall|k: int|
            0 <= k < stmt_children(st).len() ==> sel_size(#[trigger] stmt_children(st)[k])
                < stmt_size(st),
{
    let ch = stmt_children(st);
    match st {
        Stmt::Switch(sw) => {
            lemma_cases_sel(sw.cases@);
            assert forall|k: int| 0 <= k < ch.len() implies sel_size(#[trigger] ch[k]) < stmt_size(
                st,
            ) by {
                if k >= 1 {
                    assert(ch[k] == cases_sel(sw.cases@)[k - 1]);
                }
            }
        },
        Stmt::For(f) => {
            let x: Seq<Selectable> = match f.init {
                Some(LoopInit::Expr(e)) => seq![Selectable::Expr(&e)],
                Some(LoopInit::Variable(_, decls)) => decls_sel(decls@),
                None => seq![],
            };
            match f.init {
                Some(LoopInit::Variable(_, decls)) => lemma_decls_sel(decls@),
                _ => {},
            }
            let y = opt_expr_sel(f.test);
            let z = opt_expr_sel(f.update);
            lemma_opt_expr_sel(f.test);
            lemma_opt_expr_sel(f.update);
            assert(ch == x + y + z + seq![Selectable::Stmt(&*f.body)]);
            assert forall|k: int| 0 <= k < ch.len() implies sel_size(#[trigger] ch[k]) < stmt_size(
                st,
            ) by {
                if k < x.len() {
                    assert(ch[k] == x[k]);
                } else if k < x.len() + y.len() {
                    assert(ch[k] == y[k - x.len()]);
                } else if k < x.len() + y.len() + z.len() {
                    assert(ch[k] == z[k - x.len() - y.len()]);
                } else {
                    assert(ch[k] == Selectable::Stmt(&*f.body));
                }
            }
        },
        Stmt::Try(t) => {
            let x: Seq<Selectable> = seq![Selectable::Block(&t.block)];
            let y: Seq<Selectable> = match t.handler {
                Some(h) => match h.param {
                    Some(p) => seq![Selectable::Pat(&p), Selectable::Block(&h.body)],
                    None => seq![Selectable::Block(&h.body)],
                },
                None => seq![],
            };
            let z: Seq<Selectable> = match t.finalizer {
                Some(f) => seq![Selectable::Block(&f)],
                None => seq![],
            };
            assert(ch == x + y + z);
            assert forall|k: int| 0 <= k < ch.len() implies sel_size(#[trigger] ch[k]) < stmt_size(
                st,
            ) by {
                if k < x.len() {
                    assert(ch[k] == x[k]);
                } else if k < x.len() + y.len() {
                    assert(ch[k] == y[k - x.len()]);
                } else {
                    assert(ch[k] == z[k - x.len() - y.len()]);
                }
            }
        },
        Stmt::Var(decls) => lemma_decls_sel(decls@),
        Stmt::Return(e) => lemma_opt_expr_sel(e),
        Stmt::ForIn(f) => {
            assert(sel_size(loop_left_sel(f.left)) == loop_left_size(f.left));
        },
        Stmt::ForOf(f) => {
            assert(sel_size(loop_left_sel(f.left)) == loop_left_size(f.left));
        },
        Stmt::If(i) => {
            assert forall|k: int| 0 <= k < ch.len() implies sel_size(#[trigger] ch[k]) < stmt_size(
                st,
            ) by {
                if k == 2 {
                    assert(ch[k] == Selectable::Stmt(&*i.alternate.unwrap()));
                }
            }
        },
        _ => {},
    }
}

// ---------------------------------------------------------------------------
// The children resolver.

fn push_parts<'a>(out: &mut Vec<Selectable<'a>>, parts: &'a Vec<ProgramPart>)
    ensures
        final(out)@ == old(out)@ + parts_sel(parts@),
{
    let ghost start = out@;
    let mut i: usize = 0;
    while i < parts.len()
        invariant
            i <= parts.len(),
            out@ == start + parts_sel(parts@.subrange(0, i as int)),
        decreases parts.len() - i,
    {
        out.push(Selectable::ProgramPart(&parts[i]));
        proof {
            assert(parts@.subrange(0, i + 1).drop_last() == parts@.subrange(0, i as int));
        }
        i += 1;
    }
    assert(parts@.subrange(0, parts@.len() as int) == parts@);
}

fn push_decls<'a>(out: &mut Vec<Selectable<'a>>, decls: &'a Vec<VarDecl>)
    ensures
        final(out)@ == old(out)@ + decls_sel(decls@),
{
    let ghost start = out@;
    let mut i: usize = 0;
    while i < decls.len()
        invariant
            i <= decls.len(),
            out@ == start + decls_sel(decls@.subrange(0, i as int)),
        decreases decls.len() - i,
    {
        out.push(Selectable::VarDecl(&decls[i]));
        proof {
            assert(decls@.subrange(0, i + 1).drop_last() == decls@.subrange(0, i as int));
        }
        i += 1;
    }
    assert(decls@.subrange(0, decls@.len() as int) == decls@);
}

fn push_args<'a>(out: &mut Vec<Selectable<'a>>, args: &'a Vec<FuncArg>)
    ensures
        final(out)@ == old(out)@ + args_sel(args@),
{
    let ghost start = out@;
    let mut i: usize = 0;
    while i < args.len()
        invariant
            i <= args.len(),
            out@ == start + args_sel(args@.subrange(0, i as int)),
        decreases args.len() - i,
    {
        match &args[i] {
            FuncArg::Expr(e) => out.push(Selectable::Expr(e)),
            FuncArg::Pat(p) => out.push(Selectable::Pat(p)),
        }
        proof {
            assert(args@.subrange(0, i + 1).drop_last() == args@.subrange(0, i as int));
        }
        i += 1;
    }
    assert(args@.subrange(0, args@.len() as int) == args@);
}

fn push_exprs<'a>(out: &mut Vec<Selectable<'a>>, exprs: &'a Vec<Expr>)
    ensures
        final(out)@ == old(out)@ + exprs_sel(exprs@),
{
    let ghost start = out@;
    let mut i: usize = 0;
    while i < exprs.len()
        invariant
            i <= exprs.len(),
            out@ == start + exprs_sel(exprs@.subrange(0, i as int)),
        decreases exprs.len() - i,
    {
        out.push(Selectable::Expr(&exprs[i]));
        proof {
            assert(exprs@.subrange(0, i + 1).drop_last() == exprs@.subrange(0, i as int));
        }
        i += 1;
    }
    assert(exprs@.subrange(0, exprs@.len() as int) == exprs@);
}

fn push_opt_exprs<'a>(out: &mut Vec<Selectable<'a>>, exprs: &'a Vec<Option<Expr>>)
    ensures
        final(out)@ == old(out)@ + opt_exprs_sel(exprs@),
{
    let ghost start = out@;
    let mut i: usize = 0;
    while i < exprs.len()
        invariant
            i <= exprs.len(),
            out@ == start + opt_exprs_sel(exprs@.subrange(0, i as int)),
        decreases exprs.len() - i,
    {
        match &exprs[i] {
            Some(e) => out.push(Selectable::Expr(e)),
            None => {},
        }
        proof {
            assert(exprs@.subrange(0, i + 1).drop_last() == exprs@.subrange(0, i as int));
        }
        i += 1;
    }
    assert(exprs@.subrange(0, exprs@.len() as int) == exprs@);
}

fn push_obj_props<'a>(out: &mut Vec<Selectable<'a>>, props: &'a Vec<ObjProp>)
    ensures
        final(out)@ == old(out)@ + obj_props_sel(props@),
{
    let ghost start = out@;
    let mut i: usize = 0;
    while i < props.len()
        invariant
            i <= props.len(),
            out@ == start + obj_props_sel(props@.subrange(0, i as int)),
        decreases props.len() - i,
    {
        match &props[i] {
            ObjProp::Prop(p) => out.push(Selectable::Prop(p)),
            ObjProp::Spread(e) => out.push(Selectable::Expr(e)),
        }
        proof {
            assert(props@.subrange(0, i + 1).drop_last() == props@.subrange(0, i as int));
        }
        i += 1;
    }
    assert(props@.subrange(0, props@.len() as int) == props@);
}

fn push_props<'a>(out: &mut Vec<Selectable<'a>>, props: &'a Vec<Prop>)
    ensures
        final(out)@ == old(out)@ + props_sel(props@),
{
    let ghost start = out@;
    let mut i: usize = 0;
    while i < props.len()
        invariant
            i <= props.len(),
            out@ == start + props_sel(props@.subrange(0, i as int)),
        decreases props.len() - i,
    {
        out.push(Selectable::Prop(&props[i]));
        proof {
            assert(props@.subrange(0, i + 1).drop_last() == props@.subrange(0, i as int));
        }
        i += 1;
    }
    assert(props@.subrange(0, props@.len() as int) == props@);
}

fn push_opt_expr<'a>(out: &mut Vec<Selectable<'a>>, e: &'a Option<Expr>)
    ensures
        final(out)@ == old(out)@ + opt_expr_sel(*e),
{
    match e {
        Some(x) => out.push(Selectable::Expr(x)),
        None => {},
    }
}

fn push_cases<'a>(out: &mut Vec<Selectable<'a>>, cases: &'a Vec<SwitchCase>)
    ensures
        final(out)@ == old(out)@ + cases_sel(cases@),
{
    let ghost start = out@;
    let mut i: usize = 0;
    while i < cases.len()
        invariant
            i <= cases.len(),
            out@ == start + cases_sel(cases@.subrange(0, i as int)),
        decreases cases.len() - i,
    {
        let ghost before = out@;
        push_opt_expr(out, &cases[i].test);
        push_parts(out, &cases[i].consequent);
        proof {
            assert(cases@.subrange(0, i + 1).drop_last() == cases@.subrange(0, i as int));
            assert(out@ == before + case_sel(cases@[i as int]));
        }
        i += 1;
    }
    assert(cases@.subrange(0, cases@.len() as int) == cases@);
}

fn loop_left_child<'a>(l: &'a LoopLeft) -> (r: Selectable<'a>)
    ensures
        r == loop_left_sel(*l),
{
    match l {
        LoopLeft::Expr(e) => Selectable::Expr(e),
        LoopLeft::Pat(p) => Selectable::Pat(p),
        LoopLeft::Variable(_, d) => Selectable::VarDecl(d),
    }
}

fn expr_children_exec<'a>(e: &'a Expr) -> (r: Vec<Selectable<'a>>)
    ensures
        r@ == expr_children(*e),
{
    let mut out: Vec<Selectable<'a>> = Vec::new();
    match e {
        Expr::Array(es) => push_opt_exprs(&mut out, es),
        Expr::ArrowFunc(a) => {
            push_args(&mut out, &a.params);
            match &a.body {
                ArrowFuncBody::FuncBody(b) => push_parts(&mut out, &b.0),
                ArrowFuncBody::Expr(b) => out.push(Selectable::Expr(&**b)),
            }
        },
        Expr::Assign(a) => {
            out.push(Selectable::Expr(&*a.right));
            match &a.left {
                AssignLeft::Expr(l) => out.push(Selectable::Expr(&**l)),
                AssignLeft::Pat(_) => {},
            }
        },
        Expr::Await(a) => out.push(Selectable::Expr(&**a)),
        Expr::Binary(b) => {
            out.push(Selectable::Expr(&*b.left));
            out.push(Selectable::Expr(&*b.right));
        },
        Expr::Call(c) => {
            out.push(Selectable::Expr(&*c.callee));
            push_exprs(&mut out, &c.arguments);
        },
        Expr::Class(c) => {
            match &c.super_class {
                Some(s) => out.push(Selectable::Expr(&**s)),
                None => {},
            }
            push_props(&mut out, &c.body.0);
        },
        Expr::Conditional(c) => {
            out.push(Selectable::Expr(&*c.test));
            out.push(Selectable::Expr(&*c.alternate));
            out.push(Selectable::Expr(&*c.consequent));
        },
        Expr::Func(f) => out.push(Selectable::Func(f)),
        Expr::Logical(l) => {
            out.push(Selectable::Expr(&*l.right));
            out.push(Selectable::Expr(&*l.left));
        },
        Expr::Member(m) => {
            out.push(Selectable::Expr(&*m.object));
            out.push(Selectable::Expr(&*m.property));
        },
        Expr::New(n) => {
            out.push(Selectable::Expr(&*n.callee));
            push_exprs(&mut out, &n.arguments);
        },
        Expr::Obj(props) => push_obj_props(&mut out, props),
        Expr::Sequence(es) => push_exprs(&mut out, es),
        Expr::Spread(a) => out.push(Selectable::Expr(&**a)),
        Expr::Unary(u) => out.push(Selectable::Expr(&*u.argument)),
        Expr::Update(u) => out.push(Selectable::Expr(&*u.argument)),
        _ => {},
    }
    proof {
        assert(out@ =~= expr_children(*e));
    }
    out
}

fn stmt_children_exec<'a>(s: &'a Stmt) -> (r: Vec<Selectable<'a>>)
    ensures
        r@ == stmt_children(*s),
{
    let mut out: Vec<Selectable<'a>> = Vec::new();
    match s {
        Stmt::Expr(e) => out.push(Selectable::Expr(e)),
        Stmt::Block(b) => out.push(Selectable::Block(b)),
        Stmt::With(w) => {
            out.push(Selectable::Expr(&w.object));
            out.push(Selectable::Stmt(&*w.body));
        },
        Stmt::Return(e) => push_opt_expr(&mut out, e),
        Stmt::Labeled(l) => out.push(Selectable::Stmt(&*l.body)),
        Stmt::If(i) => {
            out.push(Selectable::Expr(&i.test));
            out.push(Selectable::Stmt(&*i.consequent));
            match &i.alternate {
                Some(a) => out.push(Selectable::Stmt(&**a)),
                None => {},
            }
        },
        Stmt::Switch(sw) => {
            out.push(Selectable::Expr(&sw.discriminant));
            push_cases(&mut out, &sw.cases);
        },
        Stmt::Throw(e) => out.push(Selectable::Expr(e)),
        Stmt::Try(t) => {
            out.push(Selectable::Block(&t.block));
            match &t.handler {
                Some(h) => {
                    match &h.param {
                        Some(p) => out.push(Selectable::Pat(p)),
                        None => {},
                    }
                    out.push(Selectable::Block(&h.body));
                },
                None => {},
            }
            match &t.finalizer {
                Some(f) => out.push(Selectable::Block(f)),
                None => {},
            }
        },
        Stmt::While(w) => {
            out.push(Selectable::Expr(&w.test));
            out.push(Selectable::Stmt(&*w.body));
        },
        Stmt::DoWhile(w) => {
            out.push(Selectable::Stmt(&*w.body));
            out.push(Selectable::Expr(&w.test));
        },
        Stmt::For(f) => {
            match &f.init {
                Some(LoopInit::Expr(e)) => out.push(Selectable::Expr(e)),
                Some(LoopInit::Variable(_, decls)) => push_decls(&mut out, decls),
                None => {},
            }
            push_opt_expr(&mut out, &f.test);
            push_opt_expr(&mut out, &f.update);
            out.push(Selectable::Stmt(&*f.body));
        },
        Stmt::ForIn(f) => {
            out.push(loop_left_child(&f.left));
            out.push(Selectable::Expr(&f.right));
            out.push(Selectable::Stmt(&*f.body));
        },
        Stmt::ForOf(f) => {
            out.push(loop_left_child(&f.left));
            out.push(Selectable::Expr(&f.right));
            out.push(Selectable::Stmt(&*f.body));
        },
        Stmt::Var(decls) => push_decls(&mut out, decls),
        _ => {},
    }
    proof {
        assert(out@ =~= stmt_children(*s));
    }
    out
}

/// The ordered children of a node, as the traversal visits them.
pub fn get_children<'a>(selectable: &Selectable<'a>) -> (r: Vec<Selectable<'a>>)
    ensures
        r@ == children_of(*selectable),
{
    let mut out: Vec<Selectable<'a>> = Vec::new();
    match *selectable {
        Selectable::Program(prog) => match prog {
            Program::Mod(parts) => push_parts(&mut out, parts),
            Program::Script(parts) => push_parts(&mut out, parts),
        },
        Selectable::ProgramPart(part) => match part {
            ProgramPart::Stmt(s) => out.push(Selectable::Stmt(s)),
            ProgramPart::Decl(Decl::Func(f)) => out.push(Selectable::Func(f)),
            ProgramPart::Decl(Decl::Var(_, decls)) => push_decls(&mut out, decls),
            _ => {},
        },
        Selectable::Func(f) => {
            push_args(&mut out, &f.params);
            push_parts(&mut out, &f.body.0);
        },
        Selectable::Expr(e) => {
            out = expr_children_exec(e);
        },
        Selectable::Block(b) => push_parts(&mut out, &b.0),
        Selectable::Stmt(s) => {
            out = stmt_children_exec(s);
        },
        Selectable::VarDecl(d) => {
            out.push(Selectable::Pat(&d.id));
            push_opt_expr(&mut out, &d.init);
        },
        _ => {},
    }
    proof {
        assert(out@ =~= children_of(*selectable));
    }
    out
}

} // verus!
