use r_deob::ast::{
    BinaryExpr, BinaryOp, CallExpr, Decl, Expr, Ident, Lit, LogicalExpr, LogicalOp, MemberExpr,
    Pat, Program, ProgramPart, Stmt, StringLit, VarDecl, VarKind,
};
use r_deob::children::{get_children, Selectable};
use r_deob::select::{NodeTest, Pred, PredList};

fn id(name: &str) -> Expr {
    Expr::Ident(Ident { name: name.to_string() })
}

fn num(n: &str) -> Expr {
    Expr::Lit(Lit::Number(n.to_string()))
}

fn call(callee: Expr, args: Vec<Expr>) -> Expr {
    Expr::Call(CallExpr { callee: Box::new(callee), arguments: args })
}

fn stmt(e: Expr) -> ProgramPart {
    ProgramPart::Stmt(Stmt::Expr(e))
}

fn number_of(s: &Selectable) -> Option<String> {
    match s {
        Selectable::Expr(Expr::Lit(Lit::Number(n))) => Some(n.clone()),
        _ => None,
    }
}

/// `console.log(1,2,3); const a = 'some string';`
fn log_program() -> Program {
    let log = Expr::Member(MemberExpr {
        object: Box::new(id("console")),
        property: Box::new(id("log")),
        computed: false,
    });
    Program::Script(vec![
        stmt(call(log, vec![num("1"), num("2"), num("3")])),
        ProgramPart::Decl(Decl::Var(
            VarKind::Const,
            vec![VarDecl {
                id: Pat::Ident(Ident { name: "a".to_string() }),
                init: Some(Expr::Lit(Lit::String(StringLit::Single("some string".to_string())))),
            }],
        )),
    ])
}

fn call_program(args: &[&str]) -> Program {
    Program::Script(vec![stmt(call(id("f"), args.iter().map(|a| num(a)).collect()))])
}

fn three_numbers() -> Vec<Pred> {
    vec![
        Pred::kind(NodeTest::Program),
        Pred::sib(
            NodeTest::NumberLiteral,
            Pred::sib(NodeTest::NumberLiteral, Pred::kind(NodeTest::NumberLiteral)),
        ),
    ]
}

#[test]
fn descendant_chain_matches_every_literal_under_program() {
    let prog = log_program();
    let mut q = PredList::new(vec![Pred::kind(NodeTest::Program), Pred::kind(NodeTest::Literal)]);
    let found = q.find_matches(Selectable::Program(&prog));
    assert_eq!(found.len(), 4);
    let nums: Vec<Option<String>> = found.iter().map(number_of).collect();
    assert_eq!(
        nums,
        vec![Some("1".to_string()), Some("2".to_string()), Some("3".to_string()), None]
    );
    assert!(matches!(found[3], Selectable::Expr(Expr::Lit(Lit::String(_)))));
}

#[test]
fn descendant_chain_needs_the_outer_predicate() {
    let prog = log_program();
    let mut q = PredList::new(vec![Pred::kind(NodeTest::Block), Pred::kind(NodeTest::Literal)]);
    assert!(q.find_matches(Selectable::Program(&prog)).is_empty());
}

#[test]
fn three_consecutive_numbers_in_five_arguments() {
    let prog = call_program(&["1", "2", "3", "4", "5"]);
    let mut q = PredList::new(three_numbers());
    let found = q.find_matches(Selectable::Program(&prog));
    let nums: Vec<Option<String>> = found.iter().map(number_of).collect();
    assert_eq!(
        nums,
        vec![Some("3".to_string()), Some("4".to_string()), Some("5".to_string())]
    );
}

#[test]
fn three_consecutive_numbers_in_two_arguments() {
    let prog = call_program(&["1", "2"]);
    let mut q = PredList::new(three_numbers());
    assert!(q.find_matches(Selectable::Program(&prog)).is_empty());
}

#[test]
fn sibling_chain_stops_at_the_callee() {
    // In `f(1, 2)` the first argument's left sibling is the callee `f`.
    let prog = call_program(&["1", "2"]);
    let mut q = PredList::new(vec![Pred::sib(
        NodeTest::NumberLiteral,
        Pred::kind(NodeTest::NumberLiteral),
    )]);
    let found = q.find_matches(Selectable::Program(&prog));
    assert_eq!(found.len(), 1);
    assert_eq!(number_of(&found[0]), Some("2".to_string()));
}

#[test]
fn equal_literals_are_told_apart_by_position() {
    let prog = call_program(&["7", "7", "7"]);
    let mut q = PredList::new(three_numbers());
    let found = q.find_matches(Selectable::Program(&prog));
    assert_eq!(found.len(), 1);
}

#[test]
fn find_matches_twice_gives_the_same_result() {
    let prog = call_program(&["1", "2", "3", "4", "5"]);
    let mut q = PredList::new(three_numbers());
    let first: Vec<Option<String>> =
        q.find_matches(Selectable::Program(&prog)).iter().map(number_of).collect();
    let second: Vec<Option<String>> =
        q.find_matches(Selectable::Program(&prog)).iter().map(number_of).collect();
    assert_eq!(first, second);
}

#[test]
fn matches_come_in_pre_order() {
    // f(g(1), h(2)): the outer call before the inner ones, g before h.
    let inner_g = call(id("g"), vec![num("1")]);
    let inner_h = call(id("h"), vec![num("2")]);
    let prog = Program::Script(vec![stmt(call(id("f"), vec![inner_g, inner_h]))]);
    let mut q = PredList::new(vec![Pred::kind(NodeTest::Call)]);
    let found = q.find_matches(Selectable::Program(&prog));
    let callees: Vec<String> = found
        .iter()
        .map(|s| match s {
            Selectable::Expr(Expr::Call(CallExpr { callee, .. })) => match &**callee {
                Expr::Ident(Ident { name }) => name.clone(),
                _ => String::new(),
            },
            _ => String::new(),
        })
        .collect();
    assert_eq!(callees, vec!["f".to_string(), "g".to_string(), "h".to_string()]);
}

#[test]
fn a_chain_link_may_hold_on_the_node_itself() {
    // [Call, Call]: the outer link may be satisfied by the node itself.
    let prog = Program::Script(vec![stmt(call(id("f"), vec![]))]);
    let mut q = PredList::new(vec![Pred::kind(NodeTest::Call), Pred::kind(NodeTest::Call)]);
    assert_eq!(q.find_matches(Selectable::Program(&prog)).len(), 1);
}

#[test]
fn matching_does_not_stop_at_a_matching_ancestor() {
    let prog = Program::Script(vec![stmt(call(id("f"), vec![call(id("g"), vec![])]))]);
    let mut q = PredList::new(vec![Pred::kind(NodeTest::Call)]);
    assert_eq!(q.find_matches(Selectable::Program(&prog)).len(), 2);
}

#[test]
fn children_of_binary_and_logical() {
    let bin = Expr::Binary(BinaryExpr {
        operator: BinaryOp::Plus,
        left: Box::new(id("l")),
        right: Box::new(id("r")),
    });
    let kids = get_children(&Selectable::Expr(&bin));
    assert_eq!(kids.len(), 2);
    assert!(matches!(kids[0], Selectable::Expr(Expr::Ident(Ident { name })) if name == "l"));
    let log = Expr::Logical(LogicalExpr {
        operator: LogicalOp::And,
        left: Box::new(id("l")),
        right: Box::new(id("r")),
    });
    let kids = get_children(&Selectable::Expr(&log));
    assert!(matches!(kids[0], Selectable::Expr(Expr::Ident(Ident { name })) if name == "r"));
}

#[test]
fn leaves_have_no_children() {
    let e = Expr::This;
    assert!(get_children(&Selectable::Expr(&e)).is_empty());
    let p = Pat::Ident(Ident { name: "x".to_string() });
    assert!(get_children(&Selectable::Pat(&p)).is_empty());
}

#[test]
fn array_holes_are_skipped() {
    let arr = Expr::Array(vec![Some(num("1")), None, Some(num("2"))]);
    assert_eq!(get_children(&Selectable::Expr(&arr)).len(), 2);
}
