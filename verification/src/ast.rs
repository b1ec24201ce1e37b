//! The syntax tree, and for each node type the mathematical value (its view)
//! that contracts speak of: text as `Seq<char>`, lists as `Seq`.

use vstd::prelude::*;

verus! {

broadcast use vstd::std_specs::vec::axiom_vec_index_decreases;

/// The visibility written in front of a declaration. `Default` stands for
/// none written; what it resolves to is decided later.
#[derive(Clone, Copy, Debug, PartialEq, Eq, Structural)]
pub enum VisibilityAnnot {
    Default,
    Private,
    Public,
}

#[derive(Clone, Copy, Debug, PartialEq, Eq, Structural)]
pub enum BinOp {
    /// `x + y`
    Add,
    /// `x - y`
    Sub,
    /// `x * y`
    Mul,
    /// `x / y`
    Div,
    /// `x % y`
    Mod,
    /// `x == y`
    Equals,
    /// `x != y`
    NotEquals,
    /// `x > y`
    Greater,
    /// `x < y`
    Lower,
    /// `x >= y`
    GreaterEqual,
    /// `x <= y`
    LowerEqual,
    /// `x = y`
    Assign,
}

#[derive(Clone, Copy, Debug, PartialEq, Eq, Structural)]
pub enum UnaryOp {
    /// `!x`
    Not,
    /// `+x`
    Positive,
    /// `-x`
    Negative,
    /// `~x`
    BitNot,
}

/// A literal. A float is kept as its digits, separators removed, in the form
/// that reads as a decimal number: fraction and exponent as written.
#[derive(Debug)]
pub enum LiteralExpr {
    Int(i64),
    UInt(u64),
    Float(String),
    Str(String),
}

#[derive(Debug)]
#[allow(inconsistent_fields)]
pub enum Expr {
    Read(String),
    Call { callee: String, args: Vec<Expr> },
    Unary { val: Box<Expr>, op: UnaryOp },
    Binary { left: Box<Expr>, right: Box<Expr>, op: BinOp },
    Literal(LiteralExpr),
}

#[derive(Debug)]
pub struct IfExpr {
    pub cond: Box<Expr>,
    pub arm_then: Box<Expr>,
    pub arm_else: Box<Expr>,
}

#[derive(Debug)]
pub struct AttributeAnnot {
    pub name: String,
    pub args: Vec<Expr>,
}

#[derive(Debug)]
pub struct ArgDecl {
    pub attributes: Vec<String>,
    pub name: String,
    pub type_annot: String,
}

#[derive(Debug)]
pub struct ValDeclStatement {
    pub attributes: Vec<String>,
    pub visibility: VisibilityAnnot,
    pub name: String,
    pub type_annot: Option<String>,
    pub initial_assignment: Option<Expr>,
}

#[derive(Debug)]
pub struct VarDeclStatement {
    pub attributes: Vec<AttributeAnnot>,
    pub visibility: VisibilityAnnot,
    pub name: String,
    pub type_annot: String,
    pub initial_assignment: Expr,
}

#[derive(Debug)]
pub enum RuntimeStatement {
    Let(ValDeclStatement),
    Discard(Expr),
    Return(Option<Expr>),
}

#[derive(Debug)]
pub struct FunDeclStatement {
    pub attributes: Vec<AttributeAnnot>,
    pub visibility: VisibilityAnnot,
    pub name: Option<String>,
    pub ret_type: Option<String>,
    pub args: Vec<ArgDecl>,
    pub code: Vec<RuntimeStatement>,
}

#[derive(Debug)]
pub struct ClassDeclStatement {
    pub attributes: Vec<String>,
    pub visibility: VisibilityAnnot,
    pub name: Option<String>,
    pub decls: Vec<GroupMemberStatement>,
}

#[derive(Debug)]
pub enum GroupMemberStatement {
    Class(ClassDeclStatement),
    Fun(FunDeclStatement),
    Let(ValDeclStatement),
}

#[derive(Debug)]
pub enum ClassMemberStatement {
    Fun(FunDeclStatement),
    Let(ValDeclStatement),
}

#[derive(Debug)]
pub struct Module {
    pub decls: Vec<GroupMemberStatement>,
}

// The views: the same trees as mathematical values.

/// The view of a `LiteralExpr`.
pub enum LiteralView {
    Int(i64),
    UInt(u64),
    Float(Seq<char>),
    Str(Seq<char>),
}

/// The view of an `Expr`.
#[allow(inconsistent_fields)]
pub enum ExprView {
    Read(Seq<char>),
    Call { callee: Seq<char>, args: Seq<ExprView> },
    Unary { val: Box<ExprView>, op: UnaryOp },
    Binary { left: Box<ExprView>, right: Box<ExprView>, op: BinOp },
    Literal(LiteralView),
}

/// The view of a `IfExpr`.
pub struct IfExprView {
    pub cond: ExprView,
    pub arm_then: ExprView,
    pub arm_else: ExprView,
}

/// The view of a `AttributeAnnot`.
pub struct AttributeAnnotView {
    pub name: Seq<char>,
    pub args: Seq<ExprView>,
}

/// The view of a `ArgDecl`.
pub struct ArgDeclView {
    pub attributes: Seq<Seq<char>>,
    pub name: Seq<char>,
    pub type_annot: Seq<char>,
}

/// The view of a `ValDeclStatement`.
pub struct ValDeclView {
    pub attributes: Seq<Seq<char>>,
    pub visibility: VisibilityAnnot,
    pub name: Seq<char>,
    pub type_annot: Option<Seq<char>>,
    pub initial_assignment: Option<ExprView>,
}

/// The view of a `VarDeclStatement`.
pub struct VarDeclView {
    pub attributes: Seq<AttributeAnnotView>,
    pub visibility: VisibilityAnnot,
    pub name: Seq<char>,
    pub type_annot: Seq<char>,
    pub initial_assignment: ExprView,
}

/// The view of a `RuntimeStatement`.
pub enum RuntimeStatementView {
    Let(ValDeclView),
    Discard(ExprView),
    Return(Option<ExprView>),
}

/// The view of a `FunDeclStatement`.
pub struct FunDeclView {
    pub attributes: Seq<AttributeAnnotView>,
    pub visibility: VisibilityAnnot,
    pub name: Option<Seq<char>>,
    pub ret_type: Option<Seq<char>>,
    pub args: Seq<ArgDeclView>,
    pub code: Seq<RuntimeStatementView>,
}

/// The view of a `ClassDeclStatement`.
pub struct ClassDeclView {
    pub attributes: Seq<Seq<char>>,
    pub visibility: VisibilityAnnot,
    pub name: Option<Seq<char>>,
    pub decls: Seq<GroupMemberView>,
}

/// The view of a `GroupMemberStatement`.
pub enum GroupMemberView {
    Class(ClassDeclView),
    Fun(FunDeclView),
    Let(ValDeclView),
}

/// The view of a `ClassMemberStatement`.
pub enum ClassMemberView {
    Fun(FunDeclView),
    Let(ValDeclView),
}

/// The view of a `Module`.
pub struct ModuleView {
    pub decls: Seq<GroupMemberView>,
}

/// The text of an optional string.
pub open spec fn text_of(s: Option<String>) -> Option<Seq<char>> {
    match s {
        Some(s) => Some(s@),
        None => None,
    }
}

/// The texts of a list of strings.
pub open spec fn texts_of(v: Seq<String>) -> Seq<Seq<char>> {
    Seq::new(v.len(), |i: int| v[i]@)
}

/// The views of a list of expressions.
pub open spec fn exprs_of(v: Seq<Expr>) -> Seq<ExprView> {
    Seq::new(v.len(), |i: int| v[i]@)
}

/// The view of an optional expression.
pub open spec fn expr_of(e: Option<Expr>) -> Option<ExprView> {
    match e {
        Some(e) => Some(e@),
        None => None,
    }
}

/// The views of a list of attributes.
pub open spec fn attributes_of(v: Seq<AttributeAnnot>) -> Seq<AttributeAnnotView> {
    Seq::new(v.len(), |i: int| v[i]@)
}

/// The views of a list of declared arguments.
pub open spec fn arg_decls_of(v: Seq<ArgDecl>) -> Seq<ArgDeclView> {
    Seq::new(v.len(), |i: int| v[i]@)
}

/// The views of a list of statements.
pub open spec fn statements_of(v: Seq<RuntimeStatement>) -> Seq<RuntimeStatementView> {
    Seq::new(v.len(), |i: int| v[i]@)
}

/// The views of a list of members.
pub open spec fn members_of(v: Seq<GroupMemberStatement>) -> Seq<GroupMemberView> {
    Seq::new(v.len(), |i: int| v[i]@)
}

impl View for LiteralExpr {
    type V = LiteralView;

    open spec fn view(&self) -> LiteralView {
        match self {
            LiteralExpr::Int(n) => LiteralView::Int(*n),
            LiteralExpr::UInt(n) => LiteralView::UInt(*n),
            LiteralExpr::Float(digits) => LiteralView::Float(digits@),
            LiteralExpr::Str(text) => LiteralView::Str(text@),
        }
    }
}

impl Clone for LiteralExpr {
    fn clone(&self) -> (copy: Self)
        ensures
            copy@ == self@,
    {
        match self {
            LiteralExpr::Int(n) => LiteralExpr::Int(*n),
            LiteralExpr::UInt(n) => LiteralExpr::UInt(*n),
            LiteralExpr::Float(digits) => LiteralExpr::Float(digits.clone()),
            LiteralExpr::Str(text) => LiteralExpr::Str(text.clone()),
        }
    }
}

impl Expr {
    /// A copy of the tree.
    pub fn duplicate(&self) -> (copy: Expr)
        ensures
            copy@ == self@,
        decreases self,
    {
        match self {
            Expr::Read(name) => Expr::Read(name.clone()),
            Expr::Call { callee, args } => {
                let mut copies: Vec<Expr> = Vec::new();
                let mut i: usize = 0;
                while i < args.len()
                    invariant
                        i <= args.len(),
                        copies@.len() == i,
                        forall|k: int| 0 <= k < i ==> copies@[k]@ == args@[k]@,
                        self is Call,
                        *args == self->args,
                        *callee == self->callee,
                    decreases args.len() - i,
                {
                    proof {
                        assert(decreases_to!(self => self->args));
                        assert(decreases_to!(self->args => self->args[i as int]));
                    }
                    copies.push(args[i].duplicate());
                    i += 1;
                }
                let callee = callee.clone();
                proof {
                    lemma_call_view(callee, copies);
                    assert(exprs_of(copies@) =~= self@->Call_args);
                }
                Expr::Call { callee, args: copies }
            },
            Expr::Unary { val, op } => Expr::Unary { val: Box::new(val.duplicate()), op: *op },
            Expr::Binary { left, right, op } => Expr::Binary {
                left: Box::new(left.duplicate()),
                right: Box::new(right.duplicate()),
                op: *op,
            },
            Expr::Literal(literal) => Expr::Literal(literal.clone()),
        }
    }

    /// The tree as a mathematical value.
    pub open spec fn model(&self) -> ExprView
        decreases self,
    {
        match self {
            Expr::Read(name) => ExprView::Read(name@),
            Expr::Call { callee, args } => ExprView::Call {
                callee: callee@,
                args: Seq::new(
                    args.len() as nat,
                    |i: int|
                        if 0 <= i < args.len() {
                            args[i].model()
                        } else {
                            arbitrary()
                        },
                ),
            },
            Expr::Unary { val, op } => ExprView::Unary { val: Box::new(val.model()), op: *op },
            Expr::Binary { left, right, op } => ExprView::Binary {
                left: Box::new(left.model()),
                right: Box::new(right.model()),
                op: *op,
            },
            Expr::Literal(literal) => ExprView::Literal(literal@),
        }
    }
}

impl View for Expr {
    type V = ExprView;

    open spec fn view(&self) -> ExprView {
        self.model()
    }
}

impl Clone for Expr {
    fn clone(&self) -> (copy: Self)
        ensures
            copy@ == self@,
    {
        self.duplicate()
    }
}

/// The view of a call is the call of the views.
pub proof fn lemma_call_view(callee: String, args: Vec<Expr>)
    ensures
        (Expr::Call { callee, args })@ == (ExprView::Call {
            callee: callee@,
            args: exprs_of(args@),
        }),
{
    assert((Expr::Call { callee, args })@->Call_args =~= exprs_of(args@));
}

impl View for IfExpr {
    type V = IfExprView;

    open spec fn view(&self) -> IfExprView {
        IfExprView { cond: self.cond@, arm_then: self.arm_then@, arm_else: self.arm_else@ }
    }
}

impl View for AttributeAnnot {
    type V = AttributeAnnotView;

    open spec fn view(&self) -> AttributeAnnotView {
        AttributeAnnotView { name: self.name@, args: exprs_of(self.args@) }
    }
}

impl View for ArgDecl {
    type V = ArgDeclView;

    open spec fn view(&self) -> ArgDeclView {
        ArgDeclView {
            attributes: texts_of(self.attributes@),
            name: self.name@,
            type_annot: self.type_annot@,
        }
    }
}

impl View for ValDeclStatement {
    type V = ValDeclView;

    open spec fn view(&self) -> ValDeclView {
        ValDeclView {
            attributes: texts_of(self.attributes@),
            visibility: self.visibility,
            name: self.name@,
            type_annot: text_of(self.type_annot),
            initial_assignment: expr_of(self.initial_assignment),
        }
    }
}

impl View for VarDeclStatement {
    type V = VarDeclView;

    open spec fn view(&self) -> VarDeclView {
        VarDeclView {
            attributes: attributes_of(self.attributes@),
            visibility: self.visibility,
            name: self.name@,
            type_annot: self.type_annot@,
            initial_assignment: self.initial_assignment@,
        }
    }
}

impl View for RuntimeStatement {
    type V = RuntimeStatementView;

    open spec fn view(&self) -> RuntimeStatementView {
        match self {
            RuntimeStatement::Let(decl) => RuntimeStatementView::Let(decl@),
            RuntimeStatement::Discard(expr) => RuntimeStatementView::Discard(expr@),
            RuntimeStatement::Return(expr) => RuntimeStatementView::Return(expr_of(*expr)),
        }
    }
}

impl View for FunDeclStatement {
    type V = FunDeclView;

    open spec fn view(&self) -> FunDeclView {
        FunDeclView {
            attributes: attributes_of(self.attributes@),
            visibility: self.visibility,
            name: text_of(self.name),
            ret_type: text_of(self.ret_type),
            args: arg_decls_of(self.args@),
            code: statements_of(self.code@),
        }
    }
}

impl ClassDeclStatement {
    /// The declaration as a mathematical value.
    pub open spec fn model(&self) -> ClassDeclView
        decreases self,
    {
        ClassDeclView {
            attributes: texts_of(self.attributes@),
            visibility: self.visibility,
            name: text_of(self.name),
            decls: Seq::new(
                self.decls.len() as nat,
                |i: int|
                    if 0 <= i < self.decls.len() {
                        self.decls[i].model()
                    } else {
                        arbitrary()
                    },
            ),
        }
    }
}

impl GroupMemberStatement {
    /// The member as a mathematical value.
    pub open spec fn model(&self) -> GroupMemberView
        decreases self,
    {
        match self {
            GroupMemberStatement::Class(decl) => GroupMemberView::Class(decl.model()),
            GroupMemberStatement::Fun(decl) => GroupMemberView::Fun(decl@),
            GroupMemberStatement::Let(decl) => GroupMemberView::Let(decl@),
        }
    }
}

impl View for ClassDeclStatement {
    type V = ClassDeclView;

    open spec fn view(&self) -> ClassDeclView {
        self.model()
    }
}

impl View for GroupMemberStatement {
    type V = GroupMemberView;

    open spec fn view(&self) -> GroupMemberView {
        self.model()
    }
}

impl View for ClassMemberStatement {
    type V = ClassMemberView;

    open spec fn view(&self) -> ClassMemberView {
        match self {
            ClassMemberStatement::Fun(decl) => ClassMemberView::Fun(decl@),
            ClassMemberStatement::Let(decl) => ClassMemberView::Let(decl@),
        }
    }
}

impl View for Module {
    type V = ModuleView;

    open spec fn view(&self) -> ModuleView {
        ModuleView { decls: members_of(self.decls@) }
    }
}

} // verus!
