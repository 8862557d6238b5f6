//! The C translation-unit AST the emitter produces: the shapes the
//! external C printer consumes.

use vstd::prelude::*;

verus! {

/// A C type.
#[derive(Debug, PartialEq)]
pub enum CType {
    /// `void`
    Void,
    /// A pointer type.
    Ptr(Box<CType>),
    /// A named struct type.
    Struct(String),
}

/// Mathematical model of a `CType`.
pub enum CTypeView {
    Void,
    Ptr(Box<CTypeView>),
    Struct(Seq<char>),
}

impl View for CType {
    type V = CTypeView;

    open spec fn view(&self) -> CTypeView
        decreases self,
    {
        match self {
            CType::Void => CTypeView::Void,
            CType::Ptr(t) => CTypeView::Ptr(Box::new((**t)@)),
            CType::Struct(name) => CTypeView::Struct(name@),
        }
    }
}

/// A C expression.
#[derive(Debug, PartialEq)]
pub enum CExpr {
    /// A literal token emitted verbatim.
    LitStr(String),
    /// An integer literal.
    LitInt(i64),
    /// A call expression: `expr(args…)`.
    FunCallOp { expr: Box<CExpr>, args: Vec<CExpr> },
    /// A macro invocation: `name(args…)`.
    MacroCall { name: String, args: Vec<CExpr> },
}

/// Mathematical model of a `CExpr`.
pub enum CExprView {
    LitStr(Seq<char>),
    LitInt(i64),
    FunCallOp { expr: Box<CExprView>, args: Seq<CExprView> },
    MacroCall { name: Seq<char>, args: Seq<CExprView> },
}

/// The views of a sequence of C expressions.
pub open spec fn view_cexprs(s: Seq<CExpr>) -> Seq<CExprView>
    decreases s,
{
    if s.len() == 0 {
        Seq::empty()
    } else {
        seq![s[0]@] + view_cexprs(s.subrange(1, s.len() as int))
    }
}

impl View for CExpr {
    type V = CExprView;

    open spec fn view(&self) -> CExprView
        decreases self,
    {
        match self {
            CExpr::LitStr(s) => CExprView::LitStr(s@),
            CExpr::LitInt(v) => CExprView::LitInt(*v),
            CExpr::FunCallOp { expr, args } => CExprView::FunCallOp {
                expr: Box::new((**expr)@),
                args: view_cexprs(args@),
            },
            CExpr::MacroCall { name, args } => CExprView::MacroCall {
                name: name@,
                args: view_cexprs(args@),
            },
        }
    }
}

/// `view_cexprs` agrees with elementwise views.
pub proof fn lemma_view_cexprs(s: Seq<CExpr>)
    ensures
        view_cexprs(s).len() == s.len(),
        forall|k: int| 0 <= k < s.len() ==> view_cexprs(s)[k] == s[k]@,
    decreases s,
{
    if s.len() > 0 {
        let tail = s.subrange(1, s.len() as int);
        lemma_view_cexprs(tail);
        assert(view_cexprs(s) == seq![s[0]@] + view_cexprs(tail));
        assert forall|k: int| 0 <= k < s.len() implies view_cexprs(s)[k] == s[k]@ by {
            if k > 0 {
                assert(view_cexprs(s)[k] == view_cexprs(tail)[k - 1]);
                assert(tail[k - 1] == s[k]);
            }
        }
    }
}

/// A C statement.
#[derive(Debug, PartialEq)]
pub enum CStmt {
    /// An expression statement.
    Expr(CExpr),
}

/// Mathematical model of a `CStmt`.
pub enum CStmtView {
    Expr(CExprView),
}

impl View for CStmt {
    type V = CStmtView;

    open spec fn view(&self) -> CStmtView {
        match self {
            CStmt::Expr(e) => CStmtView::Expr(e@),
        }
    }
}

/// A top-level C declaration.
#[derive(Debug, PartialEq)]
pub enum CDecl {
    /// A function definition.
    Fun { name: String, typ: CType, args: Vec<(String, CType)>, body: Vec<CStmt> },
    /// A free-standing macro invocation (one env-table entry).
    Macro(CExpr),
}

/// Mathematical model of a `CDecl`.
pub enum CDeclView {
    Fun {
        name: Seq<char>,
        typ: CTypeView,
        args: Seq<(Seq<char>, CTypeView)>,
        body: Seq<CStmtView>,
    },
    Macro(CExprView),
}

impl View for CDecl {
    type V = CDeclView;

    open spec fn view(&self) -> CDeclView {
        match self {
            CDecl::Fun { name, typ, args, body } => CDeclView::Fun {
                name: name@,
                typ: typ@,
                args: args@.map_values(|p: (String, CType)| (p.0@, p.1@)),
                body: body@.map_values(|s: CStmt| s@),
            },
            CDecl::Macro(e) => CDeclView::Macro(e@),
        }
    }
}

/// The views of a sequence of C declarations.
pub open spec fn view_cdecls(s: Seq<CDecl>) -> Seq<CDeclView> {
    s.map_values(|d: CDecl| d@)
}

} // verus!
