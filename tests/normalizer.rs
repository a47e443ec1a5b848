use r_deob::ast::{
    AssignExpr, AssignLeft, AssignOp, BinaryExpr, BinaryOp, BlockStmt, CallExpr, Decl, Expr,
    ForStmt, Ident, IfStmt, Lit, LogicalExpr, LogicalOp, LoopInit, ObjProp, Pat, Program,
    ProgramPart, Prop, PropKey, PropKind, PropValue, StringLit, Stmt, UnaryExpr, UnaryOp,
    VarDecl, VarKind,
};
use r_deob::block::{Block, Blockable, Line};
use r_deob::names::split_names;
use r_deob::normalize::Blockifier;

fn id(name: &str) -> Expr {
    Expr::Ident(Ident { name: name.to_string() })
}

fn num(n: &str) -> Expr {
    Expr::Lit(Lit::Number(n.to_string()))
}

fn call(callee: Expr, args: Vec<Expr>) -> Expr {
    Expr::Call(CallExpr { callee: Box::new(callee), arguments: args })
}

fn call0(name: &str) -> Expr {
    call(id(name), vec![])
}

fn logical(op: LogicalOp, l: Expr, r: Expr) -> Expr {
    Expr::Logical(LogicalExpr { operator: op, left: Box::new(l), right: Box::new(r) })
}

fn assign(name: &str, v: Expr) -> Expr {
    Expr::Assign(AssignExpr {
        operator: AssignOp::Equal,
        left: AssignLeft::Expr(Box::new(id(name))),
        right: Box::new(v),
    })
}

fn stmt(e: Expr) -> ProgramPart {
    ProgramPart::Stmt(Stmt::Expr(e))
}

fn let_decl(kind: VarKind, name: &str, init: Option<Expr>) -> ProgramPart {
    ProgramPart::Decl(Decl::Var(
        kind,
        vec![VarDecl { id: Pat::Ident(Ident { name: name.to_string() }), init }],
    ))
}

fn pool(n: usize) -> Vec<String> {
    (0..n).map(|i| format!("t{}", i)).collect()
}

fn parts_of(lines: Vec<Line>) -> Vec<ProgramPart> {
    lines
        .into_iter()
        .map(|l| match l {
            Line::Part(p) => p,
            Line::Variable(name, init) => let_decl(VarKind::Const, &name, init),
        })
        .collect()
}

fn normalize_program(prog: Program, names: usize) -> Program {
    let mut b = Blockifier::new(pool(names));
    b.blockify(Blockable::Program(prog)).program()
}

fn script_len(p: &Program) -> usize {
    match p {
        Program::Script(parts) => parts.len(),
        Program::Mod(parts) => parts.len(),
    }
}

/// The parts with the statement `t;` appended.
fn then_value(mut parts: Vec<ProgramPart>, t: &str) -> Vec<ProgramPart> {
    parts.push(stmt(id(t)));
    parts
}

/// `let t = l; if (test) { t = r; }` with the given test.
fn short_circuit(t: &str, l: Expr, test: Expr, r: Expr) -> Vec<ProgramPart> {
    vec![
        let_decl(VarKind::Let, t, Some(l)),
        ProgramPart::Stmt(Stmt::If(IfStmt {
            test,
            consequent: Box::new(Stmt::Block(BlockStmt(vec![stmt(assign(t, r))]))),
            alternate: None,
        })),
    ]
}

#[test]
fn literals_and_identifiers_are_left_alone() {
    let mut b = Blockifier::new(pool(0));
    let block = b.blockify(Blockable::Expr(num("1")));
    assert!(block.action_lines.is_empty());
    assert_eq!(block.value, Some(num("1")));
    let block = b.blockify(Blockable::Expr(id("x")));
    assert!(block.action_lines.is_empty());
    assert_eq!(block.value, Some(id("x")));
}

#[test]
fn nested_calls_are_hoisted_in_argument_order() {
    // f(g(), h()): g() is bound first, then h(), and f takes their names.
    let mut b = Blockifier::new(pool(2));
    let block = b.blockify(Blockable::Expr(call(id("f"), vec![call0("g"), call0("h")])));
    assert_eq!(
        parts_of(block.action_lines),
        vec![
            let_decl(VarKind::Const, "t0", Some(call0("g"))),
            let_decl(VarKind::Const, "t1", Some(call0("h"))),
        ]
    );
    assert_eq!(block.value, Some(call(id("f"), vec![id("t0"), id("t1")])));
}

#[test]
fn inner_calls_are_hoisted_before_outer_ones() {
    // f(g(h())): h() is bound before g(...).
    let mut b = Blockifier::new(pool(2));
    let block = b.blockify(Blockable::Expr(call(id("f"), vec![call(id("g"), vec![call0("h")])])));
    assert_eq!(
        parts_of(block.action_lines),
        vec![
            let_decl(VarKind::Const, "t0", Some(call0("h"))),
            let_decl(VarKind::Const, "t1", Some(call(id("g"), vec![id("t0")]))),
        ]
    );
    assert_eq!(block.value, Some(call(id("f"), vec![id("t1")])));
}

#[test]
fn a_call_statement_is_not_rebound() {
    let mut b = Blockifier::new(pool(0));
    let block = b.blockify(Blockable::Stmt(Stmt::Expr(call(id("f"), vec![num("1")]))));
    assert!(block.action_lines.is_empty());
    assert_eq!(block.value, Some(call(id("f"), vec![num("1")])));
}

#[test]
fn call_arguments_hoist_in_order() {
    // f(a() && b(), c() || d())
    let e = call(
        id("f"),
        vec![
            logical(LogicalOp::And, call0("a"), call0("b")),
            logical(LogicalOp::Or, call0("c"), call0("d")),
        ],
    );
    let mut b = Blockifier::new(pool(2));
    let block = b.blockify(Blockable::Expr(e));
    let mut expected = short_circuit("t0", call0("a"), id("t0"), call0("b"));
    expected.extend(short_circuit(
        "t1",
        call0("c"),
        Expr::Unary(UnaryExpr { operator: UnaryOp::Not, prefix: true, argument: Box::new(id("t1")) }),
        call0("d"),
    ));
    assert_eq!(block.value, Some(call(id("f"), vec![id("t0"), id("t1")])));
    assert_eq!(parts_of(block.action_lines), expected);
}

#[test]
fn and_runs_the_right_side_only_under_the_left_value() {
    let mut b = Blockifier::new(pool(1));
    let block = b.blockify(Blockable::Expr(logical(LogicalOp::And, call0("a"), call0("b"))));
    assert_eq!(block.value, Some(id("t0")));
    assert_eq!(
        parts_of(block.action_lines),
        short_circuit("t0", call0("a"), id("t0"), call0("b"))
    );
}

#[test]
fn or_tests_the_negated_left_value() {
    let mut b = Blockifier::new(pool(1));
    let block = b.blockify(Blockable::Expr(logical(LogicalOp::Or, call0("a"), call0("b"))));
    let not_t = Expr::Unary(UnaryExpr {
        operator: UnaryOp::Not,
        prefix: true,
        argument: Box::new(id("t0")),
    });
    assert_eq!(parts_of(block.action_lines), short_circuit("t0", call0("a"), not_t, call0("b")));
}

#[test]
fn binary_hoists_right_before_left() {
    // (a() && b()) + (c() && d()): the right operand takes the first name.
    let e = Expr::Binary(BinaryExpr {
        operator: BinaryOp::Plus,
        left: Box::new(logical(LogicalOp::And, call0("a"), call0("b"))),
        right: Box::new(logical(LogicalOp::And, call0("c"), call0("d"))),
    });
    let mut b = Blockifier::new(pool(2));
    let block = b.blockify(Blockable::Expr(e));
    let mut expected = short_circuit("t0", call0("c"), id("t0"), call0("d"));
    expected.extend(short_circuit("t1", call0("a"), id("t1"), call0("b")));
    assert_eq!(parts_of(block.action_lines), expected);
    assert_eq!(
        block.value,
        Some(Expr::Binary(BinaryExpr {
            operator: BinaryOp::Plus,
            left: Box::new(id("t1")),
            right: Box::new(id("t0")),
        }))
    );
}

#[test]
fn object_literal_is_built_property_by_property() {
    let prop = |key: &str, v: Expr| {
        ObjProp::Prop(Prop {
            key: PropKey::Lit(Lit::String(StringLit::Single(key.to_string()))),
            value: PropValue::Expr(v),
            kind: PropKind::Init,
            method: false,
            computed: false,
            short_hand: false,
            is_static: false,
        })
    };
    let e = Expr::Obj(vec![prop("a", call0("f")), prop("b", num("2"))]);
    let mut b = Blockifier::new(pool(2));
    let block = b.blockify(Blockable::Expr(e));
    let spread_t = || ObjProp::Spread(Expr::Spread(Box::new(id("t0"))));
    let expected = vec![
        let_decl(VarKind::Let, "t0", Some(Expr::Obj(vec![]))),
        let_decl(VarKind::Const, "t1", Some(call0("f"))),
        stmt(assign("t0", Expr::Obj(vec![spread_t(), prop("a", id("t1"))]))),
        stmt(assign("t0", Expr::Obj(vec![spread_t(), prop("b", num("2"))]))),
    ];
    assert_eq!(block.value, Some(id("t0")));
    assert_eq!(parts_of(block.action_lines), expected);
}

#[test]
fn empty_object_needs_no_name() {
    let mut b = Blockifier::new(pool(0));
    let block = b.blockify(Blockable::Expr(Expr::Obj(vec![])));
    assert!(block.action_lines.is_empty());
    assert_eq!(block.value, Some(Expr::Obj(vec![])));
}

#[test]
fn sequence_keeps_earlier_values_as_statements() {
    let mut b = Blockifier::new(pool(0));
    let block = b.blockify(Blockable::Expr(Expr::Sequence(vec![call0("a"), call0("b")])));
    assert_eq!(parts_of(block.action_lines), vec![stmt(call0("a"))]);
    assert_eq!(block.value, Some(call0("b")));
}

#[test]
fn empty_sequence_has_no_value() {
    let mut b = Blockifier::new(pool(0));
    let mut block = b.blockify(Blockable::Expr(Expr::Sequence(vec![])));
    assert!(block.value.is_none());
    assert_eq!(block.expr(), Expr::Lit(Lit::Null));
}

#[test]
fn declarators_are_split_after_their_lines() {
    let decl = ProgramPart::Decl(Decl::Var(
        VarKind::Let,
        vec![
            VarDecl {
                id: Pat::Ident(Ident { name: "x".to_string() }),
                init: Some(logical(LogicalOp::And, id("p"), id("q"))),
            },
            VarDecl { id: Pat::Ident(Ident { name: "y".to_string() }), init: None },
        ],
    ));
    let mut b = Blockifier::new(pool(1));
    let block = b.blockify(Blockable::ProgramPart(decl));
    let mut expected = short_circuit("t0", id("p"), id("t0"), id("q"));
    expected.push(let_decl(VarKind::Let, "x", Some(id("t0"))));
    expected.push(let_decl(VarKind::Let, "y", None));
    assert_eq!(parts_of(block.action_lines), expected);
}

#[test]
fn if_test_is_hoisted_before_the_if() {
    let s = Stmt::If(IfStmt {
        test: logical(LogicalOp::And, id("p"), id("q")),
        consequent: Box::new(Stmt::Expr(call0("f"))),
        alternate: None,
    });
    let mut b = Blockifier::new(pool(1));
    let block = b.blockify(Blockable::Stmt(s));
    let mut expected = short_circuit("t0", id("p"), id("t0"), id("q"));
    expected.push(ProgramPart::Stmt(Stmt::If(IfStmt {
        test: id("t0"),
        consequent: Box::new(Stmt::Block(BlockStmt(vec![stmt(call0("f"))]))),
        alternate: None,
    })));
    assert_eq!(parts_of(block.action_lines), expected);
}

#[test]
fn for_declarations_stay_in_the_init() {
    // for (let i = p && q; c;) ;
    let s = Stmt::For(ForStmt {
        init: Some(LoopInit::Variable(
            VarKind::Let,
            vec![VarDecl {
                id: Pat::Ident(Ident { name: "i".to_string() }),
                init: Some(logical(LogicalOp::And, id("p"), id("q"))),
            }],
        )),
        test: Some(id("c")),
        update: None,
        body: Box::new(Stmt::Empty),
    });
    let mut b = Blockifier::new(pool(1));
    let block = b.blockify(Blockable::Stmt(s));
    let mut expected = short_circuit("t0", id("p"), id("t0"), id("q"));
    expected.push(
        ProgramPart::Stmt(Stmt::For(ForStmt {
            init: Some(LoopInit::Variable(
                VarKind::Let,
                vec![VarDecl { id: Pat::Ident(Ident { name: "i".to_string() }), init: Some(id("t0")) }],
            )),
            test: Some(id("c")),
            update: None,
            body: Box::new(Stmt::Block(BlockStmt(vec![ProgramPart::Stmt(Stmt::Empty)]))),
        })),
    );
    assert_eq!(parts_of(block.action_lines), expected);
}

#[test]
fn program_renders_every_line_in_order() {
    let block = Block {
        action_lines: vec![
            Line::Part(stmt(id("x"))),
            Line::Part(stmt(call0("f"))),
            Line::Variable("v".to_string(), Some(num("1"))),
        ],
        value: Some(id("y")),
    };
    let prog = block.program();
    assert_eq!(
        prog,
        Program::Script(vec![
            stmt(id("x")),
            stmt(call0("f")),
            let_decl(VarKind::Const, "v", Some(num("1"))),
            stmt(id("y")),
        ])
    );
}

#[test]
fn lines_append_the_value() {
    let block = Block { action_lines: vec![], value: Some(call0("f")) };
    assert_eq!(parts_of(block.lines()), vec![stmt(call0("f"))]);
}

#[test]
fn names_come_from_the_pool_in_order() {
    let mut b = Blockifier::new(vec!["x".to_string(), "y".to_string()]);
    assert_eq!(b.next(), Some("x".to_string()));
    assert_eq!(b.next(), Some("y".to_string()));
    assert_eq!(b.next(), None);
}

#[test]
fn round_trip_reaches_a_fixed_point() {
    // const a = f(1) + g(2);
    let sum = Expr::Binary(BinaryExpr {
        operator: BinaryOp::Plus,
        left: Box::new(call(id("f"), vec![num("1")])),
        right: Box::new(call(id("g"), vec![num("2")])),
    });
    let prog = Program::Script(vec![let_decl(VarKind::Const, "a", Some(sum))]);
    let once = normalize_program(prog, 2);
    let sum_of_temps = Expr::Binary(BinaryExpr {
        operator: BinaryOp::Plus,
        left: Box::new(id("t1")),
        right: Box::new(id("t0")),
    });
    assert_eq!(
        once,
        Program::Script(vec![
            let_decl(VarKind::Const, "t0", Some(call(id("g"), vec![num("2")]))),
            let_decl(VarKind::Const, "t1", Some(call(id("f"), vec![num("1")]))),
            let_decl(VarKind::Const, "a", Some(sum_of_temps)),
        ])
    );
    let n1 = script_len(&once);
    let twice = normalize_program(once, 0);
    assert_eq!(script_len(&twice), n1);
}

#[test]
fn normalizing_normalized_code_changes_nothing() {
    // x = a() || b();
    let prog = Program::Script(vec![stmt(assign(
        "x",
        logical(LogicalOp::Or, call0("a"), call0("b")),
    ))]);
    let once = normalize_program(prog, 1);
    let twice = normalize_program(once, 1);
    let once_again = normalize_program(
        Program::Script(vec![stmt(assign("x", logical(LogicalOp::Or, call0("a"), call0("b"))))]),
        1,
    );
    assert_eq!(twice, once_again);
    assert_eq!(script_len(&twice), 3);
}

#[test]
fn assignment_hoists_right_before_left() {
    // o[p && q] = a && b;
    let target = Expr::Member(r_deob::ast::MemberExpr {
        object: Box::new(id("o")),
        property: Box::new(logical(LogicalOp::And, id("p"), id("q"))),
        computed: true,
    });
    let e = Expr::Assign(AssignExpr {
        operator: AssignOp::Equal,
        left: AssignLeft::Expr(Box::new(target)),
        right: Box::new(logical(LogicalOp::And, id("a"), id("b"))),
    });
    let mut b = Blockifier::new(pool(2));
    let block = b.blockify(Blockable::Expr(e));
    let mut expected = short_circuit("t0", id("a"), id("t0"), id("b"));
    expected.extend(short_circuit("t1", id("p"), id("t1"), id("q")));
    assert_eq!(parts_of(block.action_lines), expected);
    let new_target = Expr::Member(r_deob::ast::MemberExpr {
        object: Box::new(id("o")),
        property: Box::new(id("t1")),
        computed: true,
    });
    assert_eq!(
        block.value,
        Some(Expr::Assign(AssignExpr {
            operator: AssignOp::Equal,
            left: AssignLeft::Expr(Box::new(new_target)),
            right: Box::new(id("t0")),
        }))
    );
}

#[test]
fn function_bodies_are_normalized_on_their_own() {
    // function f() { return a && b; }
    let f = r_deob::ast::Func {
        id: Some(Ident { name: "f".to_string() }),
        params: vec![],
        body: r_deob::ast::FuncBody(vec![ProgramPart::Stmt(Stmt::Return(Some(logical(
            LogicalOp::And,
            id("a"),
            id("b"),
        ))))]),
        generator: false,
        is_async: false,
    };
    let mut b = Blockifier::new(pool(1));
    let block = b.blockify(Blockable::ProgramPart(ProgramPart::Decl(Decl::Func(f))));
    let mut body = short_circuit("t0", id("a"), id("t0"), id("b"));
    body.push(ProgramPart::Stmt(Stmt::Return(Some(id("t0")))));
    let expected = r_deob::ast::Func {
        id: Some(Ident { name: "f".to_string() }),
        params: vec![],
        body: r_deob::ast::FuncBody(body),
        generator: false,
        is_async: false,
    };
    assert!(block.value.is_none());
    assert_eq!(parts_of(block.action_lines), vec![ProgramPart::Decl(Decl::Func(expected))]);
}

#[test]
fn bare_return_stays() {
    let mut b = Blockifier::new(pool(0));
    let block = b.blockify(Blockable::Stmt(Stmt::Return(None)));
    assert_eq!(parts_of(block.action_lines), vec![ProgramPart::Stmt(Stmt::Return(None))]);
}

#[test]
fn try_blocks_are_normalized_in_place() {
    let s = Stmt::Try(r_deob::ast::TryStmt {
        block: BlockStmt(vec![stmt(logical(LogicalOp::Or, id("a"), id("b")))]),
        handler: Some(r_deob::ast::CatchClause {
            param: Some(Pat::Ident(Ident { name: "e".to_string() })),
            body: BlockStmt(vec![stmt(call0("h"))]),
        }),
        finalizer: None,
    });
    let mut b = Blockifier::new(pool(1));
    let block = b.blockify(Blockable::Stmt(s));
    let not_t = Expr::Unary(UnaryExpr {
        operator: UnaryOp::Not,
        prefix: true,
        argument: Box::new(id("t0")),
    });
    // The value `t0` stays as the block's last statement.
    let expected = Stmt::Try(r_deob::ast::TryStmt {
        block: BlockStmt(then_value(short_circuit("t0", id("a"), not_t, id("b")), "t0")),
        handler: Some(r_deob::ast::CatchClause {
            param: Some(Pat::Ident(Ident { name: "e".to_string() })),
            body: BlockStmt(vec![stmt(call0("h"))]),
        }),
        finalizer: None,
    });
    assert_eq!(parts_of(block.action_lines), vec![ProgramPart::Stmt(expected)]);
}

#[test]
fn names_needed_counts_temporaries() {
    let prop = ObjProp::Prop(Prop {
        key: PropKey::Lit(Lit::String(StringLit::Double("x".to_string()))),
        value: PropValue::Expr(logical(LogicalOp::And, id("p"), id("q"))),
        kind: PropKind::Init,
        method: false,
        computed: false,
        short_hand: false,
        is_static: false,
    });
    let e = call(id("f"), vec![logical(LogicalOp::And, id("a"), id("b")), Expr::Obj(vec![prop])]);
    let blockable = Blockable::Expr(e);
    assert_eq!(r_deob::normal_form::names_needed(&blockable), Some(3));
    let mut b = Blockifier::new(pool(4));
    let _ = b.blockify(blockable);
    assert_eq!(b.next(), Some("t3".to_string()));
}

#[test]
fn names_needed_is_zero_without_temporaries() {
    let blockable = Blockable::Expr(call(id("f"), vec![num("1")]));
    assert_eq!(r_deob::normal_form::names_needed(&blockable), Some(0));
}

#[test]
fn names_needed_counts_hoisted_calls() {
    let blockable = Blockable::Expr(call(id("f"), vec![call0("g"), call0("h")]));
    assert_eq!(r_deob::normal_form::names_needed(&blockable), Some(2));
}

#[test]
fn next_advances_past_the_end_of_the_pool() {
    let mut b = Blockifier::new(vec!["x".to_string()]);
    assert_eq!(b.next(), Some("x".to_string()));
    assert_eq!(b.next(), None);
    assert_eq!(b.next(), None);
}

#[test]
fn while_keeps_its_test_and_normalizes_its_body() {
    let s = Stmt::While(r_deob::ast::WhileStmt {
        test: logical(LogicalOp::And, id("p"), id("q")),
        body: Box::new(Stmt::Expr(logical(LogicalOp::And, id("a"), id("b")))),
    });
    let mut b = Blockifier::new(pool(1));
    let block = b.blockify(Blockable::Stmt(s));
    let expected = Stmt::While(r_deob::ast::WhileStmt {
        test: logical(LogicalOp::And, id("p"), id("q")),
        body: Box::new(Stmt::Block(BlockStmt(then_value(
            short_circuit("t0", id("a"), id("t0"), id("b")),
            "t0",
        )))),
    });
    assert_eq!(parts_of(block.action_lines), vec![ProgramPart::Stmt(expected)]);
}

#[test]
fn switch_hoists_its_discriminant_and_normalizes_each_case() {
    let s = Stmt::Switch(r_deob::ast::SwitchStmt {
        discriminant: logical(LogicalOp::Or, id("d"), id("e")),
        cases: vec![
            r_deob::ast::SwitchCase {
                test: Some(num("1")),
                consequent: vec![stmt(logical(LogicalOp::And, id("a"), id("b")))],
            },
            r_deob::ast::SwitchCase { test: None, consequent: vec![stmt(call0("f"))] },
        ],
    });
    let mut b = Blockifier::new(pool(2));
    let block = b.blockify(Blockable::Stmt(s));
    let not_t = Expr::Unary(UnaryExpr {
        operator: UnaryOp::Not,
        prefix: true,
        argument: Box::new(id("t0")),
    });
    let mut expected = short_circuit("t0", id("d"), not_t, id("e"));
    expected.push(ProgramPart::Stmt(Stmt::Switch(r_deob::ast::SwitchStmt {
        discriminant: id("t0"),
        cases: vec![
            r_deob::ast::SwitchCase {
                test: Some(num("1")),
                consequent: then_value(short_circuit("t1", id("a"), id("t1"), id("b")), "t1"),
            },
            r_deob::ast::SwitchCase { test: None, consequent: vec![stmt(call0("f"))] },
        ],
    })));
    assert_eq!(parts_of(block.action_lines), expected);
}

#[test]
fn for_of_hoists_its_iterable() {
    let s = Stmt::ForOf(r_deob::ast::ForOfStmt {
        left: r_deob::ast::LoopLeft::Pat(Pat::Ident(Ident { name: "x".to_string() })),
        right: logical(LogicalOp::Or, id("xs"), id("ys")),
        body: Box::new(Stmt::Expr(call(id("g"), vec![id("x")]))),
        is_await: false,
    });
    let mut b = Blockifier::new(pool(1));
    let block = b.blockify(Blockable::Stmt(s));
    let not_t = Expr::Unary(UnaryExpr {
        operator: UnaryOp::Not,
        prefix: true,
        argument: Box::new(id("t0")),
    });
    let mut expected = short_circuit("t0", id("xs"), not_t, id("ys"));
    expected.push(ProgramPart::Stmt(Stmt::ForOf(r_deob::ast::ForOfStmt {
        left: r_deob::ast::LoopLeft::Pat(Pat::Ident(Ident { name: "x".to_string() })),
        right: id("t0"),
        body: Box::new(Stmt::Block(BlockStmt(vec![stmt(call(id("g"), vec![id("x")]))]))),
        is_await: false,
    })));
    assert_eq!(parts_of(block.action_lines), expected);
}

#[test]
fn word_list_splits_at_every_newline() {
    assert_eq!(split_names("a\nbc\n"), vec!["a".to_string(), "bc".to_string(), String::new()]);
    assert_eq!(split_names(""), vec![String::new()]);
    assert_eq!(
        split_names("\u{e9}\n\u{fc}"),
        vec!["\u{e9}".to_string(), "\u{fc}".to_string()]
    );
}
