//! The normalizer's unit of output: an ordered list of lines plus an optional
//! trailing value expression, and its rendering into program parts.
use vstd::prelude::*;
use crate::ast::{
    BlockStmt, Decl, Expr, Ident, Lit, Pat, Program, ProgramPart, Stmt, VarDecl, VarKind,
};

verus! {

broadcast use vstd::std_specs::vec::group_vec_axioms;

/// A fragment of the tree that the normalizer accepts.
#[derive(Debug)]
pub enum Blockable {
    Program(Program),
    ProgramPart(ProgramPart),
    Stmt(Stmt),
    Expr(Expr),
    Block(BlockStmt),
}

/// One line of a block: a program part, or a constant binding of a name.
#[derive(Debug)]
pub enum Line {
    Part(ProgramPart),
    Variable(String, Option<Expr>),
}

/// Ordered lines, and the value of the fragment if it is used as an
/// expression.
#[derive(Debug)]
pub struct Block {
    pub action_lines: Vec<Line>,
    pub value: Option<Expr>,
}

pub open spec fn null_expr() -> Expr {
    Expr::Lit(Lit::Null)
}

pub open spec fn or_null(v: Option<Expr>) -> Expr {
    match v {
        Some(e) => e,
        None => null_expr(),
    }
}

pub open spec fn ident(name: String) -> Expr {
    Expr::Ident(Ident { name })
}

pub open spec fn expr_line(e: Expr) -> Line {
    Line::Part(ProgramPart::Stmt(Stmt::Expr(e)))
}

/// The lines of a block with its value, if any, appended as an expression
/// statement.
pub open spec fn with_value(lines: Seq<Line>, v: Option<Expr>) -> Seq<Line> {
    match v {
        Some(e) => lines.push(expr_line(e)),
        None => lines,
    }
}

/// `p` declares the constant `name` with initializer `init`.
pub open spec fn is_const_decl(name: String, init: Option<Expr>, p: ProgramPart) -> bool {
    match p {
        ProgramPart::Decl(Decl::Var(VarKind::Const, ds)) => ds@ == seq![
            VarDecl { id: Pat::Ident(Ident { name }), init },
        ],
        _ => false,
    }
}

/// `parts` renders `lines`, one part per line in order: a part stays as it
/// is, and a binding becomes a constant declaration.
pub open spec fn renders(lines: Seq<Line>, parts: Seq<ProgramPart>) -> bool
    decreases lines.len(),
{
    if lines.len() == 0 {
        parts.len() == 0
    } else {
        match lines.last() {
            Line::Part(p) => parts.len() > 0 && parts.last() == p && renders(
                lines.drop_last(),
                parts.drop_last(),
            ),
            Line::Variable(name, init) => parts.len() > 0 && is_const_decl(
                name,
                init,
                parts.last(),
            ) && renders(lines.drop_last(), parts.drop_last()),
        }
    }
}

pub fn null_lit() -> (r: Expr)
    ensures
        r == null_expr(),
{
    Expr::Lit(Lit::Null)
}

impl Block {
    /// The lines of this block, its value included.
    pub open spec fn all_lines(&self) -> Seq<Line> {
        with_value(self.action_lines@, self.value)
    }

    /// Takes the value out of the block.
    pub fn value(&mut self) -> (r: Option<Expr>)
        ensures
            r == old(self).value,
            final(self).value is None,
            final(self).action_lines == old(self).action_lines,
    {
        self.value.take()
    }

    /// Takes the value out of the block; `null` when there is none.
    pub fn expr(&mut self) -> (r: Expr)
        ensures
            r == or_null(old(self).value),
            final(self).value is None,
            final(self).action_lines == old(self).action_lines,
    {
        match self.value() {
            Some(e) => e,
            None => null_lit(),
        }
    }

    /// The lines, with the value appended as an expression statement.
    pub fn lines(self) -> (r: Vec<Line>)
        ensures
            r@ == self.all_lines(),
    {
        let mut action_lines = self.action_lines;
        if let Some(expr) = self.value {
            action_lines.push(Line::Part(ProgramPart::Stmt(Stmt::Expr(expr))));
        }
        action_lines
    }

    /// The block rendered as a script.
    pub fn program(self) -> (r: Program)
        ensures
            r matches Program::Script(parts) && renders(self.all_lines(), parts@),
    {
        let ghost all = self.all_lines();
        let mut lines = self.lines();
        let mut parts: Vec<ProgramPart> = Vec::new();
        let ghost mut k: int = 0;
        while lines.len() > 0
            invariant
                0 <= k <= all.len(),
                lines@ == all.subrange(k, all.len() as int),
                renders(all.subrange(0, k), parts@),
            decreases lines.len(),
        {
            let line = lines.remove(0);
            proof {
                assert(all.subrange(0, k + 1).drop_last() == all.subrange(0, k));
                assert(all.subrange(0, k + 1).last() == line);
            }
            let ghost old_parts = parts@;
            match line {
                Line::Part(part) => {
                    parts.push(part);
                    assert(parts@.drop_last() =~= old_parts);
                },
                Line::Variable(name, init) => {
                    let mut ds: Vec<VarDecl> = Vec::new();
                    ds.push(VarDecl { id: Pat::Ident(Ident { name }), init });
                    parts.push(ProgramPart::Decl(Decl::Var(VarKind::Const, ds)));
                    proof {
                        assert(ds@ =~= seq![VarDecl { id: Pat::Ident(Ident { name }), init }]);
                        assert(parts@.drop_last() =~= old_parts);
                    }
                },
            }
            proof {
                k = k + 1;
            }
        }
        proof {
            assert(all.subrange(0, all.len() as int) == all);
        }
        Program::Script(parts)
    }

    /// The block rendered as a block statement.
    pub fn block(self) -> (r: BlockStmt)
        ensures
            renders(self.all_lines(), r.0@),
    {
        match self.program() {
            Program::Script(parts) => BlockStmt(parts),
            Program::Mod(parts) => BlockStmt(parts),
        }
    }
}

} // verus!
