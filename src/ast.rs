use vstd::prelude::*;

verus! {

/// A binary operator, arithmetic or equality.
#[derive(Debug, Clone, Copy, PartialEq, Eq, Structural)]
pub enum BinOp {
    Add,
    Sub,
    Mul,
    Div,
    Eq,
}

/// An expression node.
#[derive(Debug)]
pub enum Expr {
    Number(i64),
    Str(String),
    Bool(bool),
    Identifier(String),
    /// `name = value`; as an expression it yields the stored value.
    Assign(String, Box<Expr>),
    BinaryOp(BinOp, Box<Expr>, Box<Expr>),
    /// `callee(args...)`; the callee is always a name.
    Call(String, Vec<Expr>),
}

/// A statement node.
#[derive(Debug)]
pub enum Stmt {
    LetDecl(String, Expr),
    FnDef(String, Vec<String>, Vec<Stmt>),
    /// `if (cond) { then } else { otherwise }`; an `else if` is an else
    /// block that holds one `If`.
    If(Expr, Vec<Stmt>, Option<Vec<Stmt>>),
    Return(Option<Expr>),
    ExprStatement(Expr),
}

/// An expression as a mathematical value.
pub enum ExprView {
    Number(i64),
    Str(Seq<char>),
    Bool(bool),
    Identifier(Seq<char>),
    Assign(Seq<char>, Box<ExprView>),
    BinaryOp(BinOp, Box<ExprView>, Box<ExprView>),
    Call(Seq<char>, Seq<ExprView>),
}

/// A statement as a mathematical value.
pub enum StmtView {
    LetDecl(Seq<char>, ExprView),
    FnDef(Seq<char>, Seq<Seq<char>>, Seq<StmtView>),
    If(ExprView, Seq<StmtView>, Option<Seq<StmtView>>),
    Return(Option<ExprView>),
    ExprStatement(ExprView),
}

/// The spelling of each string.
pub open spec fn strs_view(v: Seq<String>) -> Seq<Seq<char>> {
    v.map_values(|s: String| s@)
}

pub open spec fn expr_view(e: Expr) -> ExprView
    decreases e, 0nat,
{
    match e {
        Expr::Number(n) => ExprView::Number(n),
        Expr::Str(s) => ExprView::Str(s@),
        Expr::Bool(b) => ExprView::Bool(b),
        Expr::Identifier(n) => ExprView::Identifier(n@),
        Expr::Assign(n, v) => ExprView::Assign(n@, Box::new(expr_view(*v))),
        Expr::BinaryOp(op, a, b) => ExprView::BinaryOp(
            op,
            Box::new(expr_view(*a)),
            Box::new(expr_view(*b)),
        ),
        Expr::Call(c, args) => ExprView::Call(c@, exprs_view(args@)),
    }
}

pub open spec fn exprs_view(s: Seq<Expr>) -> Seq<ExprView>
    decreases s, 1nat,
{
    if s.len() == 0 {
        Seq::empty()
    } else {
        exprs_view(s.subrange(0, s.len() - 1)).push(expr_view(s[s.len() - 1]))
    }
}

pub open spec fn stmt_view(st: Stmt) -> StmtView
    decreases st, 0nat,
{
    match st {
        Stmt::LetDecl(n, v) => StmtView::LetDecl(n@, expr_view(v)),
        Stmt::FnDef(n, ps, body) => StmtView::FnDef(n@, strs_view(ps@), stmts_view(body@)),
        Stmt::If(c, t, e) => StmtView::If(
            expr_view(c),
            stmts_view(t@),
            match e {
                Some(b) => Some(stmts_view(b@)),
                None => None,
            },
        ),
        Stmt::Return(v) => StmtView::Return(
            match v {
                Some(x) => Some(expr_view(x)),
                None => None,
            },
        ),
        Stmt::ExprStatement(x) => StmtView::ExprStatement(expr_view(x)),
    }
}

pub open spec fn stmts_view(s: Seq<Stmt>) -> Seq<StmtView>
    decreases s, 1nat,
{
    if s.len() == 0 {
        Seq::empty()
    } else {
        stmts_view(s.subrange(0, s.len() - 1)).push(stmt_view(s[s.len() - 1]))
    }
}

pub proof fn lemma_exprs_view_push(s: Seq<Expr>, e: Expr)
    ensures
        exprs_view(s.push(e)) == exprs_view(s).push(expr_view(e)),
{
    assert(s.push(e).subrange(0, s.len() as int) =~= s);
}

pub proof fn lemma_stmts_view_push(s: Seq<Stmt>, st: Stmt)
    ensures
        stmts_view(s.push(st)) == stmts_view(s).push(stmt_view(st)),
{
    assert(s.push(st).subrange(0, s.len() as int) =~= s);
}

pub proof fn lemma_exprs_view_index(s: Seq<Expr>)
    ensures
        exprs_view(s).len() == s.len(),
        forall|i: int| 0 <= i < s.len() ==> #[trigger] exprs_view(s)[i] == expr_view(s[i]),
    decreases s.len(),
{
    if s.len() > 0 {
        lemma_exprs_view_index(s.subrange(0, s.len() - 1));
    }
}

pub proof fn lemma_stmts_view_index(s: Seq<Stmt>)
    ensures
        stmts_view(s).len() == s.len(),
        forall|i: int| 0 <= i < s.len() ==> #[trigger] stmts_view(s)[i] == stmt_view(s[i]),
    decreases s.len(),
{
    if s.len() > 0 {
        lemma_stmts_view_index(s.subrange(0, s.len() - 1));
    }
}

} // verus!
