//! The normalizer: rewrites a fragment into ordered lines and a residual
//! value, drawing names for temporaries from a pool in order.
use vstd::prelude::*;
use crate::ast::{
    AssignExpr, AssignLeft, AssignOp, BinaryExpr, BlockStmt, CallExpr, CatchClause, Decl,
    DoWhileStmt, Expr, ForInStmt, ForOfStmt, ForStmt, Func, FuncBody, Ident, IfStmt, LogicalExpr,
    LogicalOp, LoopInit, MemberExpr, ObjProp, Pat, Program, ProgramPart, Prop, PropKey, PropValue,
    Stmt, SwitchCase, SwitchStmt, TryStmt, UnaryExpr, UnaryOp, VarDecl, VarKind, WhileStmt,
};
use crate::block::{ident, renders, with_value, Block, Blockable, Line};
use crate::normal_form::{
    assign_part, bind_line, flush, is_block_of, is_let_decl, norm_block, norm_blockable, norm_body,
    norm_cases, norm_decls, norm_expr, norm_expr_to, norm_loop_decls, norm_operand, norm_operands, norm_opt_exprs, norm_part,
    norm_parts, norm_prop, norm_props, norm_seq, norm_stmt, return_line, temps_block,
    temps_blockable, temps_cases, temps_decls, temps_expr, temps_exprs, temps_operand, temps_operands, temps_opt_exprs,
    temps_part, temps_parts, temps_prop, temps_props, temps_stmt, yields,
};

verus! {

broadcast use vstd::std_specs::vec::group_vec_axioms;

/// The identifier expression `name`.
pub fn get_id(name: &String) -> (r: Expr)
    ensures
        r == ident(*name),
{
    Expr::Ident(Ident { name: name.clone() })
}

/// A block rendered as a block statement.
pub fn wrap(block: Block) -> (r: Box<Stmt>)
    ensures
        is_block_of(*r, block.all_lines()),
{
    Box::new(Stmt::Block(block.block()))
}

fn concat(a: Vec<Line>, b: Vec<Line>) -> (r: Vec<Line>)
    ensures
        r@ == a@ + b@,
{
    let mut a = a;
    let mut b = b;
    a.append(&mut b);
    a
}

proof fn lemma_temps_exprs_prefix(s: Seq<Expr>, j: int)
    requires
        0 <= j <= s.len(),
    ensures
        temps_exprs(s.subrange(0, j)) <= temps_exprs(s),
    decreases s.len(),
{
    if j < s.len() {
        let p = s.subrange(0, s.len() - 1);
        lemma_temps_exprs_prefix(p, j);
        assert(p.subrange(0, j) == s.subrange(0, j));
    } else {
        assert(s.subrange(0, j) == s);
    }
}

proof fn lemma_temps_operands_prefix(s: Seq<Expr>, j: int)
    requires
        0 <= j <= s.len(),
    ensures
        temps_operands(s.subrange(0, j)) <= temps_operands(s),
    decreases s.len(),
{
    if j < s.len() {
        let p = s.subrange(0, s.len() - 1);
        lemma_temps_operands_prefix(p, j);
        assert(p.subrange(0, j) == s.subrange(0, j));
    } else {
        assert(s.subrange(0, j) == s);
    }
}

proof fn lemma_temps_opt_exprs_prefix(s: Seq<Option<Expr>>, j: int)
    requires
        0 <= j <= s.len(),
    ensures
        temps_opt_exprs(s.subrange(0, j)) <= temps_opt_exprs(s),
    decreases s.len(),
{
    if j < s.len() {
        let p = s.subrange(0, s.len() - 1);
        lemma_temps_opt_exprs_prefix(p, j);
        assert(p.subrange(0, j) == s.subrange(0, j));
    } else {
        assert(s.subrange(0, j) == s);
    }
}

proof fn lemma_temps_props_prefix(s: Seq<ObjProp>, j: int)
    requires
        0 <= j <= s.len(),
    ensures
        temps_props(s.subrange(0, j)) <= temps_props(s),
    decreases s.len(),
{
    if j < s.len() {
        let p = s.subrange(0, s.len() - 1);
        lemma_temps_props_prefix(p, j);
        assert(p.subrange(0, j) == s.subrange(0, j));
    } else {
        assert(s.subrange(0, j) == s);
    }
}

proof fn lemma_temps_decls_prefix(s: Seq<VarDecl>, j: int)
    requires
        0 <= j <= s.len(),
    ensures
        temps_decls(s.subrange(0, j)) <= temps_decls(s),
    decreases s.len(),
{
    if j < s.len() {
        let p = s.subrange(0, s.len() - 1);
        lemma_temps_decls_prefix(p, j);
        assert(p.subrange(0, j) == s.subrange(0, j));
    } else {
        assert(s.subrange(0, j) == s);
    }
}

proof fn lemma_temps_parts_prefix(s: Seq<ProgramPart>, j: int)
    requires
        0 <= j <= s.len(),
    ensures
        temps_parts(s.subrange(0, j)) <= temps_parts(s),
    decreases s.len(),
{
    if j < s.len() {
        let p = s.subrange(0, s.len() - 1);
        lemma_temps_parts_prefix(p, j);
        assert(p.subrange(0, j) == s.subrange(0, j));
    } else {
        assert(s.subrange(0, j) == s);
    }
}

proof fn lemma_temps_cases_prefix(s: Seq<SwitchCase>, j: int)
    requires
        0 <= j <= s.len(),
    ensures
        temps_cases(s.subrange(0, j)) <= temps_cases(s),
    decreases s.len(),
{
    if j < s.len() {
        let p = s.subrange(0, s.len() - 1);
        lemma_temps_cases_prefix(p, j);
        assert(p.subrange(0, j) == s.subrange(0, j));
    } else {
        assert(s.subrange(0, j) == s);
    }
}

/// The fresh-name source and the rewrite driver.
pub struct Blockifier {
    variables: Vec<String>,
    idx: usize,
}

impl Blockifier {
    /// The pool of names, in the order they are handed out.
    pub closed spec fn pool(&self) -> Seq<String> {
        self.variables@
    }

    /// How many names have been handed out.
    pub closed spec fn used(&self) -> nat {
        self.idx as nat
    }

    pub fn new(variables: Vec<String>) -> (r: Blockifier)
        ensures
            r.pool() == variables@,
            r.used() == 0,
    {
        Blockifier { variables, idx: 0 }
    }

    /// The next name of the pool; `None` once it is exhausted. Every call
    /// advances the count of names drawn.
    pub fn next(&mut self) -> (r: Option<String>)
        requires
            old(self).used() < usize::MAX,
        ensures
            final(self).pool() == old(self).pool(),
            final(self).used() == old(self).used() + 1,
            r == if old(self).used() < old(self).pool().len() {
                Some(old(self).pool()[old(self).used() as int])
            } else {
                None::<String>
            },
    {
        self.idx = self.idx + 1;
        if self.idx - 1 < self.variables.len() {
            Some(self.variables[self.idx - 1].clone())
        } else {
            None
        }
    }

    fn fresh(&mut self) -> (r: String)
        requires
            old(self).used() < old(self).pool().len(),
        ensures
            final(self).pool() == old(self).pool(),
            final(self).used() == old(self).used() + 1,
            r == old(self).pool()[old(self).used() as int],
    {
        let available = self.variables.len();
        assert(self.idx < available);
        match self.next() {
            Some(name) => name,
            None => String::new(),
        }
    }

    /// Normalizes a fragment. The pool must hold the names it needs.
    pub fn blockify(&mut self, blockable: Blockable) -> (r: Block)
        requires
            old(self).used() + temps_blockable(blockable) <= old(self).pool().len(),
        ensures
            final(self).pool() == old(self).pool(),
            final(self).used() == old(self).used() + temps_blockable(blockable),
            norm_blockable(old(self).pool(), blockable, old(self).used(), r.action_lines@, r.value),
    {
        match blockable {
            Blockable::Program(Program::Script(parts)) => {
                Block { action_lines: self.blockify_parts(parts), value: None }
            },
            Blockable::Program(Program::Mod(parts)) => {
                Block { action_lines: self.blockify_parts(parts), value: None }
            },
            Blockable::ProgramPart(part) => self.blockify_part(part),
            Blockable::Stmt(stmt) => self.blockify_stmt(stmt),
            Blockable::Expr(expr) => self.blockify_expr(expr),
            Blockable::Block(block) => {
                Block { action_lines: self.blockify_parts(block.0), value: None }
            },
        }
    }

    /// Normalizes an expression and takes its value (`null` when none).
    fn blockify_to(&mut self, e: Expr) -> (r: (Vec<Line>, Expr))
        requires
            old(self).used() + temps_expr(e) <= old(self).pool().len(),
        ensures
            final(self).pool() == old(self).pool(),
            final(self).used() == old(self).used() + temps_expr(e),
            norm_expr_to(old(self).pool(), e, old(self).used(), r.0@, r.1),
        decreases e, 1nat,
    {
        let mut b = self.blockify_expr(e);
        let v = b.expr();
        (b.action_lines, v)
    }

    /// Normalizes an operand; a call is bound to a fresh name, which stands
    /// in its place.
    fn blockify_operand(&mut self, e: Expr) -> (r: (Vec<Line>, Expr))
        requires
            old(self).used() + temps_operand(e) <= old(self).pool().len(),
        ensures
            final(self).pool() == old(self).pool(),
            final(self).used() == old(self).used() + temps_operand(e),
            norm_operand(old(self).pool(), e, old(self).used(), r.0@, r.1),
        decreases e, 2nat,
    {
        let ghost pool = self.pool();
        let ghost n = self.used();
        let ghost e0 = e;
        let is_call = matches!(e, Expr::Call(_));
        let (lines, v) = self.blockify_to(e);
        if is_call {
            let ghost v0 = v;
            let name = self.fresh();
            let mut lines = lines;
            let ghost l0 = lines@;
            lines.push(Line::Variable(name.clone(), Some(v)));
            proof {
                assert(lines@.drop_last() =~= l0);
                assert(lines@.last() == bind_line(name, v0));
            }
            (lines, get_id(&name))
        } else {
            (lines, v)
        }
    }

    /// Normalizes an expression.
    pub fn blockify_expr(&mut self, e: Expr) -> (r: Block)
        requires
            old(self).used() + temps_expr(e) <= old(self).pool().len(),
        ensures
            final(self).pool() == old(self).pool(),
            final(self).used() == old(self).used() + temps_expr(e),
            norm_expr(old(self).pool(), e, old(self).used(), r.action_lines@, r.value),
            r.value is Some <==> yields(e),
        decreases e, 0nat,
    {
        let ghost pool = self.pool();
        let ghost n = self.used();
        match e {
            Expr::Array(es) => {
                let (lines, vals) = self.blockify_opt_exprs(es);
                Block { action_lines: lines, value: Some(Expr::Array(vals)) }
            },
            Expr::Obj(props) => {
                if props.len() == 0 {
                    Block { action_lines: Vec::new(), value: Some(Expr::Obj(props)) }
                } else {
                    let name = self.fresh();
                    let mut ds: Vec<VarDecl> = Vec::new();
                    ds.push(
                        VarDecl {
                            id: Pat::Ident(Ident { name: name.clone() }),
                            init: Some(Expr::Obj(Vec::new())),
                        },
                    );
                    let decl = Line::Part(ProgramPart::Decl(Decl::Var(VarKind::Let, ds)));
                    let mut lines: Vec<Line> = Vec::new();
                    lines.push(decl);
                    let prop_lines = self.blockify_props(props, &name);
                    let lines = concat(lines, prop_lines);
                    proof {
                        assert(lines@.drop_first() =~= prop_lines@);
                    }
                    Block { action_lines: lines, value: Some(get_id(&name)) }
                }
            },
            Expr::Func(f) => {
                let Func { id, params, body, generator, is_async } = f;
                let ghost body0 = body.0@;
                let lines = self.blockify_parts(body.0);
                let ghost lines0 = lines@;
                let b = Block { action_lines: lines, value: None };
                assert(b.all_lines() == lines0);
                let parts = match b.program() {
                    Program::Script(parts) => parts,
                    Program::Mod(parts) => parts,
                };
                proof {
                    assert(renders(lines0, parts@));
                    assert(norm_body(pool, body0, n, parts@));
                }
                let func_expr = Expr::Func(
                    Func { id, params, generator, is_async, body: FuncBody(parts) },
                );
                Block { action_lines: Vec::new(), value: Some(func_expr) }
            },
            Expr::Unary(u) => {
                let UnaryExpr { operator, prefix, argument } = u;
                let (lines, v) = self.blockify_operand(*argument);
                Block {
                    action_lines: lines,
                    value: Some(Expr::Unary(UnaryExpr { operator, prefix, argument: Box::new(v) })),
                }
            },
            Expr::Logical(l) => {
                let LogicalExpr { operator, left, right } = l;
                let mut r_block = self.blockify_expr(*right);
                let mut l_block = self.blockify_expr(*left);
                let name = self.fresh();
                let lv = l_block.value();
                let ghost lv0 = lv;
                let mut ds: Vec<VarDecl> = Vec::new();
                ds.push(VarDecl { id: Pat::Ident(Ident { name: name.clone() }), init: lv });
                proof {
                    assert(ds@ =~= seq![VarDecl { id: Pat::Ident(Ident { name }), init: lv0 }]);
                }
                let var_line = Line::Part(ProgramPart::Decl(Decl::Var(VarKind::Let, ds)));
                let test = match operator {
                    LogicalOp::And => get_id(&name),
                    LogicalOp::Or => Expr::Unary(
                        UnaryExpr {
                            operator: UnaryOp::Not,
                            prefix: true,
                            argument: Box::new(get_id(&name)),
                        },
                    ),
                };
                let ghost rl = r_block.action_lines@;
                let rv = r_block.expr();
                let mod_line = ProgramPart::Stmt(
                    Stmt::Expr(
                        Expr::Assign(
                            AssignExpr {
                                operator: AssignOp::Equal,
                                left: AssignLeft::Expr(Box::new(get_id(&name))),
                                right: Box::new(rv),
                            },
                        ),
                    ),
                );
                let ghost mod0 = mod_line;
                let BlockStmt(mut parts) = r_block.block();
                let ghost parts0 = parts@;
                parts.push(mod_line);
                proof {
                    assert(parts@.drop_last() =~= parts0);
                    assert(mod0 == assign_part(name, rv));
                    assert(norm_expr_to(pool, *right, n, rl, rv));
                }
                let if_st = ProgramPart::Stmt(
                    Stmt::If(
                        IfStmt {
                            test,
                            consequent: Box::new(Stmt::Block(BlockStmt(parts))),
                            alternate: None,
                        },
                    ),
                );
                let ghost ll = l_block.action_lines@;
                let mut lines = l_block.action_lines;
                lines.push(var_line);
                lines.push(Line::Part(if_st));
                proof {
                    assert(lines@.subrange(0, lines@.len() - 2) =~= ll);
                    assert(is_let_decl(name, lv0, lines@[lines@.len() - 2]));
                }
                Block { action_lines: lines, value: Some(get_id(&name)) }
            },
            Expr::Binary(b) => {
                let BinaryExpr { operator, left, right } = b;
                let (rl, rv) = self.blockify_operand(*right);
                let (ll, lv) = self.blockify_operand(*left);
                let lines = concat(rl, ll);
                proof {
                    assert(lines@.subrange(0, rl@.len() as int) =~= rl@);
                    assert(lines@.subrange(rl@.len() as int, lines@.len() as int) =~= ll@);
                }
                Block {
                    action_lines: lines,
                    value: Some(
                        Expr::Binary(
                            BinaryExpr { operator, left: Box::new(lv), right: Box::new(rv) },
                        ),
                    ),
                }
            },
            Expr::Sequence(es) => self.blockify_seq(es),
            Expr::Call(c) => {
                let CallExpr { callee, arguments } = c;
                let (cl, cv) = self.blockify_operand(*callee);
                let (al, avs) = self.blockify_operands(arguments);
                let lines = concat(cl, al);
                proof {
                    assert(lines@.subrange(0, cl@.len() as int) =~= cl@);
                    assert(lines@.subrange(cl@.len() as int, lines@.len() as int) =~= al@);
                }
                Block {
                    action_lines: lines,
                    value: Some(Expr::Call(CallExpr { callee: Box::new(cv), arguments: avs })),
                }
            },
            Expr::Assign(a) => {
                let AssignExpr { operator, left, right } = a;
                let (rl, rv) = self.blockify_to(*right);
                let ghost rl0 = rl@;
                let (lines, l_value) = match left {
                    AssignLeft::Pat(p) => (rl, AssignLeft::Pat(p)),
                    AssignLeft::Expr(le) => {
                        let (ll, lv) = self.blockify_to(*le);
                        let lines = concat(rl, ll);
                        proof {
                            assert(lines@.subrange(0, rl0.len() as int) =~= rl0);
                            assert(lines@.subrange(rl0.len() as int, lines@.len() as int) =~= ll@);
                        }
                        (lines, AssignLeft::Expr(Box::new(lv)))
                    },
                };
                proof {
                    assert(lines@.subrange(0, rl0.len() as int) =~= rl0);
                }
                Block {
                    action_lines: lines,
                    value: Some(
                        Expr::Assign(AssignExpr { operator, left: l_value, right: Box::new(rv) }),
                    ),
                }
            },
            Expr::Member(m) => {
                let MemberExpr { object, property, computed } = m;
                let (ol, ov) = self.blockify_operand(*object);
                let (pl, pv) = self.blockify_operand(*property);
                let lines = concat(ol, pl);
                proof {
                    assert(lines@.subrange(0, ol@.len() as int) =~= ol@);
                    assert(lines@.subrange(ol@.len() as int, lines@.len() as int) =~= pl@);
                }
                Block {
                    action_lines: lines,
                    value: Some(
                        Expr::Member(
                            MemberExpr {
                                object: Box::new(ov),
                                property: Box::new(pv),
                                computed,
                            },
                        ),
                    ),
                }
            },
            other => Block { action_lines: Vec::new(), value: Some(other) },
        }
    }

    fn blockify_operands(&mut self, es: Vec<Expr>) -> (r: (Vec<Line>, Vec<Expr>))
        requires
            old(self).used() + temps_operands(es@) <= old(self).pool().len(),
        ensures
            final(self).pool() == old(self).pool(),
            final(self).used() == old(self).used() + temps_operands(es@),
            norm_operands(old(self).pool(), es@, old(self).used(), r.0@, r.1@),
        decreases es, 0nat,
    {
        let ghost pool = self.pool();
        let ghost n = self.used();
        let ghost orig = es@;
        let mut rest = es;
        let mut lines: Vec<Line> = Vec::new();
        let mut vals: Vec<Expr> = Vec::new();
        let ghost mut k: int = 0;
        assert(orig.subrange(0, 0) =~= Seq::<Expr>::empty());
        while rest.len() > 0
            invariant
                0 <= k <= orig.len(),
                rest@ == orig.subrange(k, orig.len() as int),
                self.pool() == pool,
                self.used() == n + temps_operands(orig.subrange(0, k)),
                n + temps_operands(orig) <= pool.len(),
                norm_operands(pool, orig.subrange(0, k), n, lines@, vals@),
                orig == es@,
            decreases rest.len(),
        {
            let x = rest.remove(0);
            proof {
                assert(x == orig[k]);
                assert(decreases_to!(es => es[k]));
                lemma_temps_operands_prefix(orig, k + 1);
                assert(orig.subrange(0, k + 1).subrange(0, k) == orig.subrange(0, k));
            }
            let ghost lines0 = lines@;
            let ghost vals0 = vals@;
            let (xl, xv) = self.blockify_operand(x);
            lines = concat(lines, xl);
            vals.push(xv);
            proof {
                let s = orig.subrange(0, k + 1);
                assert(s.subrange(0, s.len() - 1) == orig.subrange(0, k));
                assert(s[s.len() - 1] == x);
                assert(lines@.subrange(0, lines0.len() as int) =~= lines0);
                assert(lines@.subrange(lines0.len() as int, lines@.len() as int) =~= xl@);
                assert(vals@.drop_last() =~= vals0);
                k = k + 1;
            }
        }
        proof {
            assert(orig.subrange(0, k) == orig);
        }
        (lines, vals)
    }

    fn blockify_opt_exprs(&mut self, es: Vec<Option<Expr>>) -> (r: (Vec<Line>, Vec<Option<Expr>>))
        requires
            old(self).used() + temps_opt_exprs(es@) <= old(self).pool().len(),
        ensures
            final(self).pool() == old(self).pool(),
            final(self).used() == old(self).used() + temps_opt_exprs(es@),
            norm_opt_exprs(old(self).pool(), es@, old(self).used(), r.0@, r.1@),
        decreases es, 0nat,
    {
        let ghost pool = self.pool();
        let ghost n = self.used();
        let ghost orig = es@;
        let mut rest = es;
        let mut lines: Vec<Line> = Vec::new();
        let mut vals: Vec<Option<Expr>> = Vec::new();
        let ghost mut k: int = 0;
        assert(orig.subrange(0, 0) =~= Seq::<Option<Expr>>::empty());
        while rest.len() > 0
            invariant
                0 <= k <= orig.len(),
                rest@ == orig.subrange(k, orig.len() as int),
                self.pool() == pool,
                self.used() == n + temps_opt_exprs(orig.subrange(0, k)),
                n + temps_opt_exprs(orig) <= pool.len(),
                norm_opt_exprs(pool, orig.subrange(0, k), n, lines@, vals@),
                orig == es@,
            decreases rest.len(),
        {
            let x = rest.remove(0);
            proof {
                assert(x == orig[k]);
                assert(decreases_to!(es => es[k]));
                lemma_temps_opt_exprs_prefix(orig, k + 1);
                let s = orig.subrange(0, k + 1);
                assert(s.subrange(0, s.len() - 1) == orig.subrange(0, k));
                assert(s[s.len() - 1] == x);
            }
            let ghost lines0 = lines@;
            let ghost vals0 = vals@;
            match x {
                None => {
                    vals.push(None);
                    proof {
                        assert(lines@.subrange(0, lines0.len() as int) =~= lines0);
                    }
                },
                Some(e1) => {
                    let (xl, xv) = self.blockify_operand(e1);
                    lines = concat(lines, xl);
                    vals.push(Some(xv));
                    proof {
                        assert(lines@.subrange(0, lines0.len() as int) =~= lines0);
                        assert(lines@.subrange(lines0.len() as int, lines@.len() as int) =~= xl@);
                    }
                },
            }
            proof {
                assert(vals@.drop_last() =~= vals0);
                k = k + 1;
            }
        }
        proof {
            assert(orig.subrange(0, k) == orig);
        }
        (lines, vals)
    }

    fn blockify_seq(&mut self, es: Vec<Expr>) -> (r: Block)
        requires
            old(self).used() + temps_exprs(es@) <= old(self).pool().len(),
        ensures
            final(self).pool() == old(self).pool(),
            final(self).used() == old(self).used() + temps_exprs(es@),
            norm_seq(old(self).pool(), es@, old(self).used(), r.action_lines@, r.value),
            r.value is Some <==> (es@.len() > 0 && yields(es@[es@.len() - 1])),
        decreases es, 0nat,
    {
        let ghost pool = self.pool();
        let ghost n = self.used();
        let ghost orig = es@;
        let mut rest = es;
        let mut action_lines: Vec<Line> = Vec::new();
        let mut value: Option<Expr> = None;
        let ghost mut k: int = 0;
        assert(orig.subrange(0, 0) =~= Seq::<Expr>::empty());
        while rest.len() > 0
            invariant
                0 <= k <= orig.len(),
                rest@ == orig.subrange(k, orig.len() as int),
                self.pool() == pool,
                self.used() == n + temps_exprs(orig.subrange(0, k)),
                n + temps_exprs(orig) <= pool.len(),
                norm_seq(pool, orig.subrange(0, k), n, action_lines@, value),
                value is Some <==> (k > 0 && yields(orig[k - 1])),
                orig == es@,
            decreases rest.len(),
        {
            let x = rest.remove(0);
            proof {
                assert(x == orig[k]);
                assert(decreases_to!(es => es[k]));
                lemma_temps_exprs_prefix(orig, k + 1);
                let s = orig.subrange(0, k + 1);
                assert(s.subrange(0, s.len() - 1) == orig.subrange(0, k));
                assert(s[s.len() - 1] == x);
            }
            let ghost lines0 = action_lines@;
            let ghost prev = value;
            let mut b = self.blockify_expr(x);
            let ev = b.value();
            let xl = b.action_lines;
            value = match value {
                Some(p) => {
                    action_lines.push(Line::Part(ProgramPart::Stmt(Stmt::Expr(p))));
                    ev
                },
                None => ev,
            };
            let ghost mid = action_lines@;
            action_lines = concat(action_lines, xl);
            proof {
                assert(action_lines@.subrange(0, lines0.len() as int) =~= lines0);
                assert(norm_seq(
                    pool,
                    orig.subrange(0, k + 1).subrange(0, k),
                    n,
                    action_lines@.subrange(0, lines0.len() as int),
                    prev,
                ));
                let i = lines0.len() as int;
                let j = i + flush(prev).len();
                assert(action_lines@.subrange(i, j) =~= flush(prev));
                assert(action_lines@.subrange(j, action_lines@.len() as int) =~= xl@);
                k = k + 1;
            }
        }
        proof {
            assert(orig.subrange(0, k) == orig);
        }
        Block { action_lines, value }
    }

    fn blockify_props(&mut self, props: Vec<ObjProp>, name: &String) -> (r: Vec<Line>)
        requires
            old(self).used() + temps_props(props@) <= old(self).pool().len(),
        ensures
            final(self).pool() == old(self).pool(),
            final(self).used() == old(self).used() + temps_props(props@),
            norm_props(old(self).pool(), props@, old(self).used(), *name, r@),
        decreases props, 0nat,
    {
        let ghost pool = self.pool();
        let ghost n = self.used();
        let ghost orig = props@;
        let mut rest = props;
        let mut lines: Vec<Line> = Vec::new();
        let ghost mut k: int = 0;
        assert(orig.subrange(0, 0) =~= Seq::<ObjProp>::empty());
        while rest.len() > 0
            invariant
                0 <= k <= orig.len(),
                rest@ == orig.subrange(k, orig.len() as int),
                self.pool() == pool,
                self.used() == n + temps_props(orig.subrange(0, k)),
                n + temps_props(orig) <= pool.len(),
                norm_props(pool, orig.subrange(0, k), n, *name, lines@),
                orig == props@,
            decreases rest.len(),
        {
            let x = rest.remove(0);
            proof {
                assert(x == orig[k]);
                assert(decreases_to!(props => props[k]));
                lemma_temps_props_prefix(orig, k + 1);
                let s = orig.subrange(0, k + 1);
                assert(s.subrange(0, s.len() - 1) == orig.subrange(0, k));
                assert(s[s.len() - 1] == x);
            }
            let ghost x0 = x;
            let ghost lines0 = lines@;
            proof {
                let s = orig.subrange(0, k + 1);
                assert(temps_props(s) == temps_props(orig.subrange(0, k)) + temps_prop(x));
            }
            let (xl, new_prop) = match x {
                ObjProp::Spread(e1) => {
                    let (xl, xv) = self.blockify_operand(e1);
                    (xl, ObjProp::Spread(xv))
                },
                ObjProp::Prop(pr) => {
                    let Prop { key, value, kind, method, computed, short_hand, is_static } = pr;
                    match key {
                        PropKey::Lit(lit) => match value {
                            PropValue::Expr(e1) => {
                                let (xl, xv) = self.blockify_operand(e1);
                                (
                                    xl,
                                    ObjProp::Prop(
                                        Prop {
                                            key: PropKey::Lit(lit),
                                            value: PropValue::Expr(xv),
                                            kind,
                                            method,
                                            computed,
                                            short_hand,
                                            is_static,
                                        },
                                    ),
                                )
                            },
                            other => (
                                Vec::new(),
                                ObjProp::Prop(
                                    Prop {
                                        key: PropKey::Lit(lit),
                                        value: other,
                                        kind,
                                        method,
                                        computed,
                                        short_hand,
                                        is_static,
                                    },
                                ),
                            ),
                        },
                        other => (
                            Vec::new(),
                            ObjProp::Prop(
                                Prop {
                                    key: other,
                                    value,
                                    kind,
                                    method,
                                    computed,
                                    short_hand,
                                    is_static,
                                },
                            ),
                        ),
                    }
                },
            };
            let ghost np = new_prop;
            let mut ps: Vec<ObjProp> = Vec::new();
            ps.push(ObjProp::Spread(Expr::Spread(Box::new(get_id(name)))));
            ps.push(new_prop);
            let assign = Line::Part(
                ProgramPart::Stmt(
                    Stmt::Expr(
                        Expr::Assign(
                            AssignExpr {
                                operator: AssignOp::Equal,
                                left: AssignLeft::Expr(Box::new(get_id(name))),
                                right: Box::new(Expr::Obj(ps)),
                            },
                        ),
                    ),
                ),
            );
            let mut xl = xl;
            let ghost xl0 = xl@;
            xl.push(assign);
            lines = concat(lines, xl);
            proof {
                assert(ps@[1] == np);
                assert(xl@.drop_last() =~= xl0);
                assert(lines@.subrange(0, lines0.len() as int) =~= lines0);
                assert(lines@.subrange(lines0.len() as int, lines@.len() as int) =~= xl@);
                assert(norm_prop(pool, x0, n + temps_props(orig.subrange(0, k)), *name, xl@));
                k = k + 1;
            }
        }
        proof {
            assert(orig.subrange(0, k) == orig);
        }
        lines
    }

    /// Normalizes the parts of a program in order, each with its value kept.
    fn blockify_parts(&mut self, parts: Vec<ProgramPart>) -> (r: Vec<Line>)
        requires
            old(self).used() + temps_parts(parts@) <= old(self).pool().len(),
        ensures
            final(self).pool() == old(self).pool(),
            final(self).used() == old(self).used() + temps_parts(parts@),
            norm_parts(old(self).pool(), parts@, old(self).used(), r@),
        decreases parts, 0nat,
    {
        let ghost pool = self.pool();
        let ghost n = self.used();
        let ghost orig = parts@;
        let mut rest = parts;
        let mut lines: Vec<Line> = Vec::new();
        let ghost mut k: int = 0;
        assert(orig.subrange(0, 0) =~= Seq::<ProgramPart>::empty());
        while rest.len() > 0
            invariant
                0 <= k <= orig.len(),
                rest@ == orig.subrange(k, orig.len() as int),
                self.pool() == pool,
                self.used() == n + temps_parts(orig.subrange(0, k)),
                n + temps_parts(orig) <= pool.len(),
                norm_parts(pool, orig.subrange(0, k), n, lines@),
                orig == parts@,
            decreases rest.len(),
        {
            let x = rest.remove(0);
            proof {
                assert(x == orig[k]);
                assert(decreases_to!(parts => parts[k]));
                lemma_temps_parts_prefix(orig, k + 1);
                let s = orig.subrange(0, k + 1);
                assert(s.subrange(0, s.len() - 1) == orig.subrange(0, k));
                assert(s[s.len() - 1] == x);
            }
            let ghost lines0 = lines@;
            let b = self.blockify_part(x);
            let ghost bl = b.action_lines@;
            let ghost bv = b.value;
            let xl = b.lines();
            lines = concat(lines, xl);
            proof {
                assert(lines@.subrange(0, lines0.len() as int) =~= lines0);
                assert(lines@.subrange(lines0.len() as int, lines@.len() as int) =~= with_value(
                    bl,
                    bv,
                ));
                k = k + 1;
            }
        }
        proof {
            assert(orig.subrange(0, k) == orig);
        }
        lines
    }

    /// Normalizes each case's consequent as a program of its own.
    fn blockify_cases(&mut self, cases: Vec<SwitchCase>) -> (r: Vec<SwitchCase>)
        requires
            old(self).used() + temps_cases(cases@) <= old(self).pool().len(),
        ensures
            final(self).pool() == old(self).pool(),
            final(self).used() == old(self).used() + temps_cases(cases@),
            norm_cases(old(self).pool(), cases@, old(self).used(), r@),
        decreases cases, 0nat,
    {
        let ghost pool = self.pool();
        let ghost n = self.used();
        let ghost orig = cases@;
        let mut rest = cases;
        let mut out: Vec<SwitchCase> = Vec::new();
        let ghost mut k: int = 0;
        assert(orig.subrange(0, 0) =~= Seq::<SwitchCase>::empty());
        while rest.len() > 0
            invariant
                0 <= k <= orig.len(),
                rest@ == orig.subrange(k, orig.len() as int),
                self.pool() == pool,
                self.used() == n + temps_cases(orig.subrange(0, k)),
                n + temps_cases(orig) <= pool.len(),
                norm_cases(pool, orig.subrange(0, k), n, out@),
                orig == cases@,
            decreases rest.len(),
        {
            let x = rest.remove(0);
            proof {
                assert(x == orig[k]);
                assert(decreases_to!(cases => cases[k]));
                lemma_temps_cases_prefix(orig, k + 1);
                let s = orig.subrange(0, k + 1);
                assert(s.subrange(0, s.len() - 1) == orig.subrange(0, k));
                assert(s[s.len() - 1] == x);
            }
            let ghost out0 = out@;
            let ghost x0 = x;
            let SwitchCase { test, consequent } = x;
            let lines = self.blockify_parts(consequent);
            let ghost lines0 = lines@;
            let b = Block { action_lines: lines, value: None };
            assert(b.all_lines() == lines0);
            let parts = match b.program() {
                Program::Script(parts) => parts,
                Program::Mod(parts) => parts,
            };
            proof {
                assert(renders(lines0, parts@));
                assert(norm_body(pool, x0.consequent@, n + temps_cases(orig.subrange(0, k)), parts@));
            }
            out.push(SwitchCase { test, consequent: parts });
            proof {
                assert(out@.drop_last() =~= out0);
                assert(out@.last().consequent@ == parts@);
                k = k + 1;
            }
        }
        proof {
            assert(orig.subrange(0, k) == orig);
        }
        out
    }

    /// Normalizes a block statement's parts and renders them back.
    fn blockify_block(&mut self, block: BlockStmt) -> (r: BlockStmt)
        requires
            old(self).used() + temps_block(block) <= old(self).pool().len(),
        ensures
            final(self).pool() == old(self).pool(),
            final(self).used() == old(self).used() + temps_block(block),
            norm_block(old(self).pool(), block, old(self).used(), r),
        decreases block, 0nat,
    {
        let lines = self.blockify_parts(block.0);
        let ghost l = lines@;
        let r = (Block { action_lines: lines, value: None }).block();
        proof {
            assert(renders(l, r.0@));
        }
        r
    }

    /// A loop's declarators: their initializers' lines, and the declarators
    /// with the residual values.
    fn blockify_loop_decls(&mut self, decls: Vec<VarDecl>) -> (r: (Vec<Line>, Vec<VarDecl>))
        requires
            old(self).used() + temps_decls(decls@) <= old(self).pool().len(),
        ensures
            final(self).pool() == old(self).pool(),
            final(self).used() == old(self).used() + temps_decls(decls@),
            norm_loop_decls(old(self).pool(), decls@, old(self).used(), r.0@, r.1@),
        decreases decls, 0nat,
    {
        let ghost pool = self.pool();
        let ghost n = self.used();
        let ghost orig = decls@;
        let mut rest = decls;
        let mut lines: Vec<Line> = Vec::new();
        let mut out: Vec<VarDecl> = Vec::new();
        let ghost mut k: int = 0;
        assert(orig.subrange(0, 0) =~= Seq::<VarDecl>::empty());
        while rest.len() > 0
            invariant
                0 <= k <= orig.len(),
                rest@ == orig.subrange(k, orig.len() as int),
                self.pool() == pool,
                self.used() == n + temps_decls(orig.subrange(0, k)),
                n + temps_decls(orig) <= pool.len(),
                norm_loop_decls(pool, orig.subrange(0, k), n, lines@, out@),
                orig == decls@,
            decreases rest.len(),
        {
            let x = rest.remove(0);
            proof {
                assert(x == orig[k]);
                assert(decreases_to!(decls => decls[k]));
                lemma_temps_decls_prefix(orig, k + 1);
                let s = orig.subrange(0, k + 1);
                assert(s.subrange(0, s.len() - 1) == orig.subrange(0, k));
                assert(s[s.len() - 1] == x);
            }
            let ghost lines0 = lines@;
            let ghost out0 = out@;
            let VarDecl { id, init } = x;
            let (xl, init_value) = match init {
                None => (Vec::new(), None),
                Some(e1) => {
                    let (xl, xv) = self.blockify_to(e1);
                    (xl, Some(xv))
                },
            };
            lines = concat(lines, xl);
            out.push(VarDecl { id, init: init_value });
            proof {
                assert(lines@.subrange(0, lines0.len() as int) =~= lines0);
                assert(lines@.subrange(lines0.len() as int, lines@.len() as int) =~= xl@);
                assert(out@.drop_last() =~= out0);
                k = k + 1;
            }
        }
        proof {
            assert(orig.subrange(0, k) == orig);
        }
        (lines, out)
    }

    /// Each declarator on its own declaration, after its initializer's lines.
    fn blockify_decls(&mut self, kind: VarKind, decls: Vec<VarDecl>) -> (r: Vec<Line>)
        requires
            old(self).used() + temps_decls(decls@) <= old(self).pool().len(),
        ensures
            final(self).pool() == old(self).pool(),
            final(self).used() == old(self).used() + temps_decls(decls@),
            norm_decls(old(self).pool(), kind, decls@, old(self).used(), r@),
        decreases decls, 0nat,
    {
        let ghost pool = self.pool();
        let ghost n = self.used();
        let ghost orig = decls@;
        let mut rest = decls;
        let mut lines: Vec<Line> = Vec::new();
        let ghost mut k: int = 0;
        assert(orig.subrange(0, 0) =~= Seq::<VarDecl>::empty());
        while rest.len() > 0
            invariant
                0 <= k <= orig.len(),
                rest@ == orig.subrange(k, orig.len() as int),
                self.pool() == pool,
                self.used() == n + temps_decls(orig.subrange(0, k)),
                n + temps_decls(orig) <= pool.len(),
                norm_decls(pool, kind, orig.subrange(0, k), n, lines@),
                orig == decls@,
            decreases rest.len(),
        {
            let x = rest.remove(0);
            proof {
                assert(x == orig[k]);
                assert(decreases_to!(decls => decls[k]));
                lemma_temps_decls_prefix(orig, k + 1);
                let s = orig.subrange(0, k + 1);
                assert(s.subrange(0, s.len() - 1) == orig.subrange(0, k));
                assert(s[s.len() - 1] == x);
            }
            let ghost lines0 = lines@;
            let VarDecl { id, init } = x;
            let ghost id0 = id;
            let (xl, init_value) = match init {
                None => (Vec::new(), None),
                Some(e1) => {
                    let (xl, xv) = self.blockify_to(e1);
                    (xl, Some(xv))
                },
            };
            let mut ds: Vec<VarDecl> = Vec::new();
            ds.push(VarDecl { id, init: init_value });
            let mut xl = xl;
            let ghost xl0 = xl@;
            xl.push(Line::Part(ProgramPart::Decl(Decl::Var(kind, ds))));
            lines = concat(lines, xl);
            proof {
                assert(ds@[0].id == id0);
                assert(lines@.subrange(0, lines0.len() as int) =~= lines0);
                assert(lines@.subrange(lines0.len() as int, lines@.len() - 1) =~= xl0);
                k = k + 1;
            }
        }
        proof {
            assert(orig.subrange(0, k) == orig);
        }
        lines
    }

    /// Normalizes a program part.
    pub fn blockify_part(&mut self, part: ProgramPart) -> (r: Block)
        requires
            old(self).used() + temps_part(part) <= old(self).pool().len(),
        ensures
            final(self).pool() == old(self).pool(),
            final(self).used() == old(self).used() + temps_part(part),
            norm_part(old(self).pool(), part, old(self).used(), r.action_lines@, r.value),
        decreases part, 0nat,
    {
        match part {
            ProgramPart::Stmt(stmt) => self.blockify_stmt(stmt),
            ProgramPart::Decl(Decl::Func(f)) => {
                let Func { id, params, body, generator, is_async } = f;
                let lines = self.blockify_parts(body.0);
                let parts = match (Block { action_lines: lines, value: None }).program() {
                    Program::Script(parts) => parts,
                    Program::Mod(parts) => parts,
                };
                let decl_line = Line::Part(
                    ProgramPart::Decl(
                        Decl::Func(Func { id, params, generator, is_async, body: FuncBody(parts) }),
                    ),
                );
                let mut action_lines: Vec<Line> = Vec::new();
                action_lines.push(decl_line);
                Block { action_lines, value: None }
            },
            ProgramPart::Decl(Decl::Var(kind, decls)) => {
                Block { action_lines: self.blockify_decls(kind, decls), value: None }
            },
            other => {
                let mut action_lines: Vec<Line> = Vec::new();
                action_lines.push(Line::Part(other));
                proof {
                    assert(action_lines@ =~= seq![Line::Part(part)]);
                }
                Block { action_lines, value: None }
            },
        }
    }

    /// Normalizes a statement.
    pub fn blockify_stmt(&mut self, stmt: Stmt) -> (r: Block)
        requires
            old(self).used() + temps_stmt(stmt) <= old(self).pool().len(),
        ensures
            final(self).pool() == old(self).pool(),
            final(self).used() == old(self).used() + temps_stmt(stmt),
            norm_stmt(old(self).pool(), stmt, old(self).used(), r.action_lines@, r.value),
        decreases stmt, 0nat,
    {
        let ghost pool = self.pool();
        let ghost n = self.used();
        match stmt {
            Stmt::Block(block_stmt) => {
                assert(temps_block(block_stmt) == temps_parts(block_stmt.0@));
                Block { action_lines: self.blockify_parts(block_stmt.0), value: None }
            },
            Stmt::ForIn(f) => {
                let ForInStmt { left, right, body } = f;
                let body_block = self.blockify_stmt(*body);
                let (rl, rv) = self.blockify_to(right);
                let for_line = Line::Part(
                    ProgramPart::Stmt(
                        Stmt::ForIn(ForInStmt { left, right: rv, body: wrap(body_block) }),
                    ),
                );
                let mut lines = rl;
                let ghost rl0 = lines@;
                lines.push(for_line);
                proof {
                    assert(lines@.drop_last() =~= rl0);
                }
                Block { action_lines: lines, value: None }
            },
            Stmt::ForOf(f) => {
                let ForOfStmt { left, right, body, is_await } = f;
                let body_block = self.blockify_stmt(*body);
                let (rl, rv) = self.blockify_to(right);
                let for_line = Line::Part(
                    ProgramPart::Stmt(
                        Stmt::ForOf(ForOfStmt { left, right: rv, body: wrap(body_block), is_await }),
                    ),
                );
                let mut lines = rl;
                let ghost rl0 = lines@;
                lines.push(for_line);
                proof {
                    assert(lines@.drop_last() =~= rl0);
                }
                Block { action_lines: lines, value: None }
            },
            Stmt::While(w) => {
                let WhileStmt { test, body } = w;
                let body_block = self.blockify_stmt(*body);
                let mut lines: Vec<Line> = Vec::new();
                lines.push(
                    Line::Part(
                        ProgramPart::Stmt(Stmt::While(WhileStmt { test, body: wrap(body_block) })),
                    ),
                );
                Block { action_lines: lines, value: None }
            },
            Stmt::DoWhile(w) => {
                let DoWhileStmt { test, body } = w;
                let body_block = self.blockify_stmt(*body);
                let mut lines: Vec<Line> = Vec::new();
                lines.push(
                    Line::Part(
                        ProgramPart::Stmt(
                            Stmt::DoWhile(DoWhileStmt { test, body: wrap(body_block) }),
                        ),
                    ),
                );
                Block { action_lines: lines, value: None }
            },
            Stmt::Switch(sw) => {
                let SwitchStmt { discriminant, cases } = sw;
                let (dl, dv) = self.blockify_to(discriminant);
                let cases = self.blockify_cases(cases);
                let mut lines = dl;
                let ghost dl0 = lines@;
                lines.push(
                    Line::Part(
                        ProgramPart::Stmt(Stmt::Switch(SwitchStmt { discriminant: dv, cases })),
                    ),
                );
                proof {
                    assert(lines@.drop_last() =~= dl0);
                }
                Block { action_lines: lines, value: None }
            },
            Stmt::For(f) => {
                let ForStmt { init, test, update, body } = f;
                let body_block = self.blockify_stmt(*body);
                let (il, i_val) = match init {
                    None => (Vec::new(), None),
                    Some(LoopInit::Variable(kind, decls)) => {
                        let (lines, decls) = self.blockify_loop_decls(decls);
                        (lines, Some(LoopInit::Variable(kind, decls)))
                    },
                    Some(LoopInit::Expr(e1)) => {
                        let (lines, v) = self.blockify_to(e1);
                        (lines, Some(LoopInit::Expr(v)))
                    },
                };
                let for_line = Line::Part(
                    ProgramPart::Stmt(
                        Stmt::For(ForStmt { init: i_val, test, update, body: wrap(body_block) }),
                    ),
                );
                let mut lines = il;
                let ghost il0 = lines@;
                lines.push(for_line);
                proof {
                    assert(lines@.drop_last() =~= il0);
                }
                Block { action_lines: lines, value: None }
            },
            Stmt::If(i) => {
                let IfStmt { test, consequent, alternate } = i;
                let (tl, tv) = self.blockify_to(test);
                let consequent = self.blockify_stmt(*consequent);
                let alternate = match alternate {
                    Some(a) => Some(wrap(self.blockify_stmt(*a))),
                    None => None,
                };
                let if_line = Line::Part(
                    ProgramPart::Stmt(
                        Stmt::If(IfStmt { test: tv, consequent: wrap(consequent), alternate }),
                    ),
                );
                let mut lines = tl;
                let ghost tl0 = lines@;
                lines.push(if_line);
                proof {
                    assert(lines@.drop_last() =~= tl0);
                }
                Block { action_lines: lines, value: None }
            },
            Stmt::Try(t) => {
                let TryStmt { block, handler, finalizer } = t;
                let block = self.blockify_block(block);
                let handler = match handler {
                    Some(CatchClause { param, body }) => {
                        Some(CatchClause { body: self.blockify_block(body), param })
                    },
                    None => None,
                };
                let finalizer = match finalizer {
                    Some(f) => Some(self.blockify_block(f)),
                    None => None,
                };
                let mut lines: Vec<Line> = Vec::new();
                lines.push(
                    Line::Part(ProgramPart::Stmt(Stmt::Try(TryStmt { block, handler, finalizer }))),
                );
                Block { action_lines: lines, value: None }
            },
            Stmt::Return(Some(e1)) => {
                let ghost e10 = e1;
                let mut block = self.blockify_expr(e1);
                let v = block.value();
                let ghost v0 = v;
                let mut lines = block.action_lines;
                let ghost l0 = lines@;
                lines.push(Line::Part(ProgramPart::Stmt(Stmt::Return(v))));
                proof {
                    assert(lines@.drop_last() =~= l0);
                    assert(lines@.last() == Line::Part(ProgramPart::Stmt(Stmt::Return(v0))));
                    assert(norm_expr(pool, e10, n, lines@.drop_last(), v0));
                    assert(lines@.last() == return_line(v0));
                }
                Block { action_lines: lines, value: None }
            },
            Stmt::Expr(e1) => self.blockify_expr(e1),
            other => {
                let mut lines: Vec<Line> = Vec::new();
                lines.push(Line::Part(ProgramPart::Stmt(other)));
                proof {
                    assert(lines@ =~= seq![Line::Part(ProgramPart::Stmt(stmt))]);
                }
                Block { action_lines: lines, value: None }
            },
        }
    }
}

} // verus!
