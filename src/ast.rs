//! The syntax tree of a script: programs, statements, declarations,
//! expressions, patterns and literals. A parent owns its children; the tree
//! has no sharing and no cycles.
use vstd::prelude::*;

verus! {

#[derive(Debug, PartialEq)]
pub struct Ident {
    pub name: String,
}

#[derive(Debug, PartialEq)]
pub enum Program {
    Mod(Vec<ProgramPart>),
    Script(Vec<ProgramPart>),
}

#[derive(Debug, PartialEq)]
pub enum ProgramPart {
    Dir(Dir),
    Decl(Decl),
    Stmt(Stmt),
}

/// A directive such as `'use strict'`.
#[derive(Debug, PartialEq)]
pub struct Dir {
    pub expr: Lit,
    pub dir: String,
}

#[derive(Debug, PartialEq)]
pub struct Func {
    pub id: Option<Ident>,
    pub params: Vec<FuncArg>,
    pub body: FuncBody,
    pub generator: bool,
    pub is_async: bool,
}

#[derive(Debug, PartialEq)]
pub enum FuncArg {
    Expr(Expr),
    Pat(Pat),
}

#[derive(Debug, PartialEq)]
pub struct FuncBody(pub Vec<ProgramPart>);

#[derive(Debug, PartialEq)]
pub struct Class {
    pub id: Option<Ident>,
    pub super_class: Option<Box<Expr>>,
    pub body: ClassBody,
}

#[derive(Debug, PartialEq)]
pub struct ClassBody(pub Vec<Prop>);

#[derive(Debug, Clone, Copy, PartialEq)]
pub enum VarKind {
    Var,
    Let,
    Const,
}

#[derive(Debug, Clone, Copy, PartialEq)]
pub enum AssignOp {
    Equal,
    PlusEqual,
    MinusEqual,
    TimesEqual,
    DivEqual,
    ModEqual,
    LeftShiftEqual,
    RightShiftEqual,
    UnsignedRightShiftEqual,
    OrEqual,
    XOrEqual,
    AndEqual,
    PowerOfEqual,
}

#[derive(Debug, Clone, Copy, PartialEq)]
pub enum LogicalOp {
    Or,
    And,
}

#[derive(Debug, Clone, Copy, PartialEq)]
pub enum BinaryOp {
    Equal,
    NotEqual,
    StrictEqual,
    StrictNotEqual,
    LessThan,
    GreaterThan,
    LessThanEqual,
    GreaterThanEqual,
    LeftShift,
    RightShift,
    UnsignedRightShift,
    Plus,
    Minus,
    Times,
    Over,
    Mod,
    Or,
    XOr,
    And,
    In,
    InstanceOf,
    PowerOf,
}

#[derive(Debug, Clone, Copy, PartialEq)]
pub enum UpdateOp {
    Increment,
    Decrement,
}

#[derive(Debug, Clone, Copy, PartialEq)]
pub enum UnaryOp {
    Minus,
    Plus,
    Not,
    Tilde,
    TypeOf,
    Void,
    Delete,
}

#[derive(Debug, Clone, Copy, PartialEq)]
pub enum PropKind {
    Init,
    Getter,
    Setter,
    Ctor,
    Method,
}

#[derive(Debug, PartialEq)]
pub enum Decl {
    Var(VarKind, Vec<VarDecl>),
    Func(Func),
    Class(Class),
    Import(Box<ModImport>),
    Export(Box<ModExport>),
}

#[derive(Debug, PartialEq)]
pub struct VarDecl {
    pub id: Pat,
    pub init: Option<Expr>,
}

#[derive(Debug, PartialEq)]
pub struct ModImport {
    pub specifiers: Vec<ImportSpecifier>,
    pub source: Lit,
}

#[derive(Debug, PartialEq)]
pub enum ImportSpecifier {
    Normal(NormalImportSpec),
    Default(Ident),
    Namespace(Ident),
}

#[derive(Debug, PartialEq)]
pub struct NormalImportSpec {
    pub local: Ident,
    pub imported: Ident,
}

#[derive(Debug, PartialEq)]
pub enum ModExport {
    Default(DefaultExportDecl),
    Named(NamedExportDecl),
    All(Lit),
}

#[derive(Debug, PartialEq)]
pub enum NamedExportDecl {
    Decl(Decl),
    Specifier(Vec<ExportSpecifier>, Option<Lit>),
}

#[derive(Debug, PartialEq)]
pub enum DefaultExportDecl {
    Decl(Decl),
    Expr(Expr),
}

#[derive(Debug, PartialEq)]
pub struct ExportSpecifier {
    pub local: Ident,
    pub exported: Ident,
}

#[derive(Debug, PartialEq)]
pub enum Expr {
    Array(Vec<Option<Expr>>),
    ArrowFunc(ArrowFuncExpr),
    ArrowParamPlaceHolder(Vec<FuncArg>, bool),
    Assign(AssignExpr),
    Await(Box<Expr>),
    Binary(BinaryExpr),
    Class(Class),
    Call(CallExpr),
    Conditional(ConditionalExpr),
    Func(Func),
    Ident(Ident),
    Lit(Lit),
    Logical(LogicalExpr),
    Member(MemberExpr),
    MetaProp(MetaProp),
    New(NewExpr),
    Obj(Vec<ObjProp>),
    Sequence(Vec<Expr>),
    Spread(Box<Expr>),
    Super,
    TaggedTemplate(TaggedTemplateExpr),
    This,
    Unary(UnaryExpr),
    Update(UpdateExpr),
    Yield(YieldExpr),
}

#[derive(Debug, PartialEq)]
pub enum ObjProp {
    Prop(Prop),
    Spread(Expr),
}

#[derive(Debug, PartialEq)]
pub struct Prop {
    pub key: PropKey,
    pub value: PropValue,
    pub kind: PropKind,
    pub method: bool,
    pub computed: bool,
    pub short_hand: bool,
    pub is_static: bool,
}

#[derive(Debug, PartialEq)]
pub enum PropKey {
    Lit(Lit),
    Expr(Expr),
    Pat(Pat),
}

#[derive(Debug, PartialEq)]
pub enum PropValue {
    Expr(Expr),
    Pat(Pat),
    Absent,
}

#[derive(Debug, PartialEq)]
pub struct UnaryExpr {
    pub operator: UnaryOp,
    pub prefix: bool,
    pub argument: Box<Expr>,
}

#[derive(Debug, PartialEq)]
pub struct UpdateExpr {
    pub operator: UpdateOp,
    pub argument: Box<Expr>,
    pub prefix: bool,
}

#[derive(Debug, PartialEq)]
pub struct BinaryExpr {
    pub operator: BinaryOp,
    pub left: Box<Expr>,
    pub right: Box<Expr>,
}

#[derive(Debug, PartialEq)]
pub struct AssignExpr {
    pub operator: AssignOp,
    pub left: AssignLeft,
    pub right: Box<Expr>,
}

#[derive(Debug, PartialEq)]
pub enum AssignLeft {
    Pat(Pat),
    Expr(Box<Expr>),
}

#[derive(Debug, PartialEq)]
pub struct LogicalExpr {
    pub operator: LogicalOp,
    pub left: Box<Expr>,
    pub right: Box<Expr>,
}

#[derive(Debug, PartialEq)]
pub struct MemberExpr {
    pub object: Box<Expr>,
    pub property: Box<Expr>,
    pub computed: bool,
}

#[derive(Debug, PartialEq)]
pub struct ConditionalExpr {
    pub test: Box<Expr>,
    pub alternate: Box<Expr>,
    pub consequent: Box<Expr>,
}

#[derive(Debug, PartialEq)]
pub struct CallExpr {
    pub callee: Box<Expr>,
    pub arguments: Vec<Expr>,
}

#[derive(Debug, PartialEq)]
pub struct NewExpr {
    pub callee: Box<Expr>,
    pub arguments: Vec<Expr>,
}

#[derive(Debug, PartialEq)]
pub struct ArrowFuncExpr {
    pub id: Option<Ident>,
    pub params: Vec<FuncArg>,
    pub body: ArrowFuncBody,
    pub expression: bool,
    pub generator: bool,
    pub is_async: bool,
}

#[derive(Debug, PartialEq)]
pub enum ArrowFuncBody {
    FuncBody(FuncBody),
    Expr(Box<Expr>),
}

#[derive(Debug, PartialEq)]
pub struct YieldExpr {
    pub argument: Option<Box<Expr>>,
    pub delegate: bool,
}

#[derive(Debug, PartialEq)]
pub struct TaggedTemplateExpr {
    pub tag: Box<Expr>,
    pub quasi: TemplateLit,
}

#[derive(Debug, PartialEq)]
pub struct TemplateLit {
    pub quasis: Vec<TemplateElement>,
    pub expressions: Vec<Expr>,
}

#[derive(Debug, PartialEq)]
pub struct TemplateElement {
    pub tail: bool,
    pub cooked: String,
    pub raw: String,
}

#[derive(Debug, PartialEq)]
pub struct MetaProp {
    pub meta: Ident,
    pub property: Ident,
}

#[derive(Debug, PartialEq)]
pub enum Lit {
    Null,
    String(StringLit),
    Number(String),
    Boolean(bool),
    RegEx(RegEx),
    Template(TemplateLit),
}

#[derive(Debug, PartialEq)]
pub enum StringLit {
    Double(String),
    Single(String),
}

#[derive(Debug, PartialEq)]
pub struct RegEx {
    pub pattern: String,
    pub flags: String,
}

#[derive(Debug, PartialEq)]
pub enum Pat {
    Ident(Ident),
    Obj(Vec<ObjPatPart>),
    Array(Vec<Option<ArrayPatPart>>),
    RestElement(Box<Pat>),
    Assign(AssignPat),
}

#[derive(Debug, PartialEq)]
pub enum ArrayPatPart {
    Pat(Pat),
    Expr(Expr),
}

#[derive(Debug, PartialEq)]
pub enum ObjPatPart {
    Assign(Prop),
    Rest(Box<Pat>),
}

#[derive(Debug, PartialEq)]
pub struct AssignPat {
    pub left: Box<Pat>,
    pub right: Box<Expr>,
}

#[derive(Debug, PartialEq)]
pub enum Stmt {
    Expr(Expr),
    Block(BlockStmt),
    Empty,
    Debugger,
    With(WithStmt),
    Return(Option<Expr>),
    Labeled(LabeledStmt),
    Break(Option<Ident>),
    Continue(Option<Ident>),
    If(IfStmt),
    Switch(SwitchStmt),
    Throw(Expr),
    Try(TryStmt),
    While(WhileStmt),
    DoWhile(DoWhileStmt),
    For(ForStmt),
    ForIn(ForInStmt),
    ForOf(ForOfStmt),
    Var(Vec<VarDecl>),
}

#[derive(Debug, PartialEq)]
pub struct WithStmt {
    pub object: Expr,
    pub body: Box<Stmt>,
}

#[derive(Debug, PartialEq)]
pub struct LabeledStmt {
    pub label: Ident,
    pub body: Box<Stmt>,
}

#[derive(Debug, PartialEq)]
pub struct IfStmt {
    pub test: Expr,
    pub consequent: Box<Stmt>,
    pub alternate: Option<Box<Stmt>>,
}

#[derive(Debug, PartialEq)]
pub struct SwitchStmt {
    pub discriminant: Expr,
    pub cases: Vec<SwitchCase>,
}

#[derive(Debug, PartialEq)]
pub struct SwitchCase {
    pub test: Option<Expr>,
    pub consequent: Vec<ProgramPart>,
}

#[derive(Debug, PartialEq)]
pub struct BlockStmt(pub Vec<ProgramPart>);

#[derive(Debug, PartialEq)]
pub struct TryStmt {
    pub block: BlockStmt,
    pub handler: Option<CatchClause>,
    pub finalizer: Option<BlockStmt>,
}

#[derive(Debug, PartialEq)]
pub struct CatchClause {
    pub param: Option<Pat>,
    pub body: BlockStmt,
}

#[derive(Debug, PartialEq)]
pub struct WhileStmt {
    pub test: Expr,
    pub body: Box<Stmt>,
}

#[derive(Debug, PartialEq)]
pub struct DoWhileStmt {
    pub test: Expr,
    pub body: Box<Stmt>,
}

#[derive(Debug, PartialEq)]
pub struct ForStmt {
    pub init: Option<LoopInit>,
    pub test: Option<Expr>,
    pub update: Option<Expr>,
    pub body: Box<Stmt>,
}

#[derive(Debug, PartialEq)]
pub enum LoopInit {
    Variable(VarKind, Vec<VarDecl>),
    Expr(Expr),
}

#[derive(Debug, PartialEq)]
pub struct ForInStmt {
    pub left: LoopLeft,
    pub right: Expr,
    pub body: Box<Stmt>,
}

#[derive(Debug, PartialEq)]
pub struct ForOfStmt {
    pub left: LoopLeft,
    pub right: Expr,
    pub body: Box<Stmt>,
    pub is_await: bool,
}

#[derive(Debug, PartialEq)]
pub enum LoopLeft {
    Expr(Expr),
    Variable(VarKind, VarDecl),
    Pat(Pat),
}

} // verus!
