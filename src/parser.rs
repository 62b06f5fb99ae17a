use vstd::prelude::*;
use crate::ast::{
    expr_view, exprs_view, lemma_exprs_view_push, lemma_stmts_view_push, stmt_view, stmts_view,
    strs_view, BinOp, Expr, ExprView, Stmt, StmtView,
};
use crate::lexer::{token_views, Reserved, Token, TokenView};

verus! {

/// Why a token sequence is not a program.
#[derive(Debug, Clone, Copy, PartialEq, Eq, Structural)]
pub enum ParseError {
    /// The token at this index does not fit the grammar there.
    UnexpectedToken(usize),
    /// The tokens ended where more were needed.
    UnexpectedEnd,
}

/// Every successful step consumes at least one token and stays in range.
pub open spec fn advanced<T>(r: Result<(T, usize), ParseError>, tokens: Seq<Token>, pos: usize) -> bool {
    match r {
        Ok((_, p)) => pos < p <= tokens.len(),
        Err(ParseError::UnexpectedToken(i)) => i < tokens.len(),
        Err(ParseError::UnexpectedEnd) => true,
    }
}

/// The token at `pos` is `t`.
pub open spec fn tok_is(ts: Seq<TokenView>, pos: int, t: TokenView) -> bool {
    0 <= pos < ts.len() && ts[pos] == t
}

pub open spec fn is_ident(ts: Seq<TokenView>, pos: int) -> bool {
    0 <= pos < ts.len() && ts[pos] is Identifier
}

/// The error for the token at `pos`: that token, or the end of input.
pub open spec fn fail(ts: Seq<TokenView>, pos: int) -> ParseError {
    if 0 <= pos < ts.len() {
        ParseError::UnexpectedToken(pos as usize)
    } else {
        ParseError::UnexpectedEnd
    }
}

pub open spec fn starts_expr_at(ts: Seq<TokenView>, pos: int) -> bool {
    0 <= pos < ts.len() && match ts[pos] {
        TokenView::Number(_) | TokenView::Str(_) | TokenView::Identifier(_)
        | TokenView::LeftParenthesis | TokenView::Reserved(Reserved::True) | TokenView::Reserved(
            Reserved::False,
        ) => true,
        _ => false,
    }
}

pub open spec fn expr_result(r: Result<(Expr, usize), ParseError>) -> Result<(ExprView, int), ParseError> {
    match r {
        Ok((e, p)) => Ok((expr_view(e), p as int)),
        Err(x) => Err(x),
    }
}

pub open spec fn args_result(r: Result<(Vec<Expr>, usize), ParseError>) -> Result<
    (Seq<ExprView>, int),
    ParseError,
> {
    match r {
        Ok((a, p)) => Ok((exprs_view(a@), p as int)),
        Err(x) => Err(x),
    }
}

pub open spec fn stmt_result(r: Result<(Stmt, usize), ParseError>) -> Result<(StmtView, int), ParseError> {
    match r {
        Ok((s, p)) => Ok((stmt_view(s), p as int)),
        Err(x) => Err(x),
    }
}

pub open spec fn stmts_result(r: Result<(Vec<Stmt>, usize), ParseError>) -> Result<
    (Seq<StmtView>, int),
    ParseError,
> {
    match r {
        Ok((b, p)) => Ok((stmts_view(b@), p as int)),
        Err(x) => Err(x),
    }
}

// The grammar as a parser on token views: each function gives the tree of
// its rule at `pos` and the position after it, or the first error. A guard
// `p < q` on a recursive step holds of every actual parse.

pub open spec fn primary_tree(ts: Seq<TokenView>, pos: int) -> Result<(ExprView, int), ParseError>
    decreases ts.len() - pos, 1nat,
{
    if pos < 0 || pos >= ts.len() {
        Err(ParseError::UnexpectedEnd)
    } else {
        match ts[pos] {
            TokenView::Number(n) => Ok((ExprView::Number(n), pos + 1)),
            TokenView::Str(s) => Ok((ExprView::Str(s), pos + 1)),
            TokenView::Reserved(Reserved::True) => Ok((ExprView::Bool(true), pos + 1)),
            TokenView::Reserved(Reserved::False) => Ok((ExprView::Bool(false), pos + 1)),
            TokenView::Identifier(n) => if tok_is(ts, pos + 1, TokenView::LeftParenthesis) {
                match args_tree(ts, pos + 2) {
                    Ok((a, p)) => Ok((ExprView::Call(n, a), p)),
                    Err(e) => Err(e),
                }
            } else {
                Ok((ExprView::Identifier(n), pos + 1))
            },
            TokenView::LeftParenthesis => match expr_tree(ts, pos + 1) {
                Ok((e, p)) => if tok_is(ts, p, TokenView::RightParenthesis) {
                    Ok((e, p + 1))
                } else {
                    Err(fail(ts, p))
                },
                Err(e) => Err(e),
            },
            _ => Err(ParseError::UnexpectedToken(pos as usize)),
        }
    }
}

/// The argument list after `(`, through the closing `)`.
pub open spec fn args_tree(ts: Seq<TokenView>, pos: int) -> Result<(Seq<ExprView>, int), ParseError>
    decreases ts.len() - pos, 10nat,
{
    if pos < 0 || pos > ts.len() {
        Err(ParseError::UnexpectedEnd)
    } else if tok_is(ts, pos, TokenView::RightParenthesis) {
        Ok((Seq::empty(), pos + 1))
    } else {
        args_items(ts, pos, Seq::empty())
    }
}

/// Arguments from `p` on, after the ones already read (`acc`).
pub open spec fn args_items(ts: Seq<TokenView>, p: int, acc: Seq<ExprView>) -> Result<
    (Seq<ExprView>, int),
    ParseError,
>
    decreases ts.len() - p, 9nat,
{
    if p < 0 || p > ts.len() {
        Err(ParseError::UnexpectedEnd)
    } else {
        match expr_tree(ts, p) {
            Ok((e, q)) => if tok_is(ts, q, TokenView::Comma) {
                if p <= q {
                    args_items(ts, q + 1, acc.push(e))
                } else {
                    Err(ParseError::UnexpectedEnd)
                }
            } else if tok_is(ts, q, TokenView::RightParenthesis) {
                Ok((acc.push(e), q + 1))
            } else {
                Err(fail(ts, q))
            },
            Err(x) => Err(x),
        }
    }
}

pub open spec fn mul_op_at(ts: Seq<TokenView>, p: int) -> Option<BinOp> {
    if tok_is(ts, p, TokenView::OpsMul) {
        Some(BinOp::Mul)
    } else if tok_is(ts, p, TokenView::OpsDiv) {
        Some(BinOp::Div)
    } else {
        None
    }
}

pub open spec fn add_op_at(ts: Seq<TokenView>, p: int) -> Option<BinOp> {
    if tok_is(ts, p, TokenView::OpsAdd) {
        Some(BinOp::Add)
    } else if tok_is(ts, p, TokenView::OpsSub) {
        Some(BinOp::Sub)
    } else {
        None
    }
}

pub open spec fn bin(op: BinOp, l: ExprView, r: ExprView) -> ExprView {
    ExprView::BinaryOp(op, Box::new(l), Box::new(r))
}

/// Further `* /` operands after `lhs`, grouped to the left.
pub open spec fn mul_rest(ts: Seq<TokenView>, lhs: ExprView, p: int) -> Result<(ExprView, int), ParseError>
    decreases ts.len() - p, 2nat,
{
    if p < 0 || p > ts.len() {
        Err(ParseError::UnexpectedEnd)
    } else {
        match mul_op_at(ts, p) {
            Some(op) => match primary_tree(ts, p + 1) {
                Ok((r, q)) => if p < q <= ts.len() {
                    mul_rest(ts, bin(op, lhs, r), q)
                } else {
                    Err(ParseError::UnexpectedEnd)
                },
                Err(e) => Err(e),
            },
            None => Ok((lhs, p)),
        }
    }
}

pub open spec fn mul_tree(ts: Seq<TokenView>, pos: int) -> Result<(ExprView, int), ParseError>
    decreases ts.len() - pos, 3nat,
{
    match primary_tree(ts, pos) {
        Ok((l, p)) => if pos < p <= ts.len() {
            mul_rest(ts, l, p)
        } else {
            Err(ParseError::UnexpectedEnd)
        },
        Err(e) => Err(e),
    }
}

pub open spec fn add_rest(ts: Seq<TokenView>, lhs: ExprView, p: int) -> Result<(ExprView, int), ParseError>
    decreases ts.len() - p, 4nat,
{
    if p < 0 || p > ts.len() {
        Err(ParseError::UnexpectedEnd)
    } else {
        match add_op_at(ts, p) {
            Some(op) => match mul_tree(ts, p + 1) {
                Ok((r, q)) => if p < q <= ts.len() {
                    add_rest(ts, bin(op, lhs, r), q)
                } else {
                    Err(ParseError::UnexpectedEnd)
                },
                Err(e) => Err(e),
            },
            None => Ok((lhs, p)),
        }
    }
}

pub open spec fn add_tree(ts: Seq<TokenView>, pos: int) -> Result<(ExprView, int), ParseError>
    decreases ts.len() - pos, 5nat,
{
    match mul_tree(ts, pos) {
        Ok((l, p)) => if pos < p <= ts.len() {
            add_rest(ts, l, p)
        } else {
            Err(ParseError::UnexpectedEnd)
        },
        Err(e) => Err(e),
    }
}

pub open spec fn eq_rest(ts: Seq<TokenView>, lhs: ExprView, p: int) -> Result<(ExprView, int), ParseError>
    decreases ts.len() - p, 6nat,
{
    if p < 0 || p > ts.len() {
        Err(ParseError::UnexpectedEnd)
    } else if tok_is(ts, p, TokenView::Equal) {
        match add_tree(ts, p + 1) {
            Ok((r, q)) => if p < q <= ts.len() {
                eq_rest(ts, bin(BinOp::Eq, lhs, r), q)
            } else {
                Err(ParseError::UnexpectedEnd)
            },
            Err(e) => Err(e),
        }
    } else {
        Ok((lhs, p))
    }
}

pub open spec fn eq_tree(ts: Seq<TokenView>, pos: int) -> Result<(ExprView, int), ParseError>
    decreases ts.len() - pos, 7nat,
{
    match add_tree(ts, pos) {
        Ok((l, p)) => if pos < p <= ts.len() {
            eq_rest(ts, l, p)
        } else {
            Err(ParseError::UnexpectedEnd)
        },
        Err(e) => Err(e),
    }
}

/// `expr := IDENT '=' expr | equality`: assignment groups to the right.
pub open spec fn expr_tree(ts: Seq<TokenView>, pos: int) -> Result<(ExprView, int), ParseError>
    decreases ts.len() - pos, 8nat,
{
    if is_ident(ts, pos) && tok_is(ts, pos + 1, TokenView::Assign) {
        match expr_tree(ts, pos + 2) {
            Ok((v, p)) => Ok((ExprView::Assign(ts[pos]->Identifier_0, Box::new(v)), p)),
            Err(e) => Err(e),
        }
    } else {
        eq_tree(ts, pos)
    }
}

pub open spec fn block_tree(ts: Seq<TokenView>, pos: int) -> Result<(Seq<StmtView>, int), ParseError>
    decreases ts.len() - pos, 13nat,
{
    if tok_is(ts, pos, TokenView::LeftBrace) {
        match stmts_tree(ts, pos + 1, true, Seq::empty()) {
            Ok((b, p)) => if tok_is(ts, p, TokenView::RightBrace) {
                Ok((b, p + 1))
            } else {
                Err(fail(ts, p))
            },
            Err(e) => Err(e),
        }
    } else {
        Err(fail(ts, pos))
    }
}

/// Statements from `pos` on, after those already read (`acc`), up to a `}`
/// when `in_block` or else up to the end.
pub open spec fn stmts_tree(ts: Seq<TokenView>, pos: int, in_block: bool, acc: Seq<StmtView>) -> Result<
    (Seq<StmtView>, int),
    ParseError,
>
    decreases ts.len() - pos, 12nat,
{
    if pos < 0 || pos > ts.len() {
        Err(ParseError::UnexpectedEnd)
    } else if pos == ts.len() || (in_block && tok_is(ts, pos, TokenView::RightBrace)) {
        Ok((acc, pos))
    } else {
        match stmt_tree(ts, pos) {
            Ok((st, q)) => if pos < q <= ts.len() {
                stmts_tree(ts, q, in_block, acc.push(st))
            } else {
                Err(ParseError::UnexpectedEnd)
            },
            Err(e) => Err(e),
        }
    }
}

/// Parameter names from `p` on, after those already read, through `)`.
pub open spec fn params_tree(ts: Seq<TokenView>, p: int, acc: Seq<Seq<char>>) -> Result<
    (Seq<Seq<char>>, int),
    ParseError,
>
    decreases ts.len() - p, 8nat,
{
    if is_ident(ts, p) {
        let n = ts[p]->Identifier_0;
        if tok_is(ts, p + 1, TokenView::Comma) {
            params_tree(ts, p + 2, acc.push(n))
        } else if tok_is(ts, p + 1, TokenView::RightParenthesis) {
            Ok((acc.push(n), p + 2))
        } else {
            Err(fail(ts, p + 1))
        }
    } else {
        Err(fail(ts, p))
    }
}

/// From the token after `function`.
pub open spec fn fn_def_tree(ts: Seq<TokenView>, pos: int) -> Result<(StmtView, int), ParseError>
    decreases ts.len() - pos, 9nat,
{
    if !is_ident(ts, pos) {
        Err(fail(ts, pos))
    } else if !tok_is(ts, pos + 1, TokenView::LeftParenthesis) {
        Err(fail(ts, pos + 1))
    } else {
        let params = if tok_is(ts, pos + 2, TokenView::RightParenthesis) {
            Ok((Seq::<Seq<char>>::empty(), pos + 3))
        } else {
            params_tree(ts, pos + 2, Seq::empty())
        };
        match params {
            Ok((ps, p)) => if pos < p <= ts.len() {
                match block_tree(ts, p) {
                    Ok((b, q)) => Ok((StmtView::FnDef(ts[pos]->Identifier_0, ps, b), q)),
                    Err(e) => Err(e),
                }
            } else {
                Err(ParseError::UnexpectedEnd)
            },
            Err(e) => Err(e),
        }
    }
}

pub open spec fn if_tree(ts: Seq<TokenView>, pos: int) -> Result<(StmtView, int), ParseError>
    decreases ts.len() - pos, 10nat,
{
    if !tok_is(ts, pos, TokenView::Reserved(Reserved::If)) {
        Err(fail(ts, pos))
    } else if !tok_is(ts, pos + 1, TokenView::LeftParenthesis) {
        Err(fail(ts, pos + 1))
    } else {
        match expr_tree(ts, pos + 2) {
            Ok((c, p)) => if !tok_is(ts, p, TokenView::RightParenthesis) {
                Err(fail(ts, p))
            } else if p <= pos {
                Err(ParseError::UnexpectedEnd)
            } else {
                match block_tree(ts, p + 1) {
                    Ok((t, q)) => if tok_is(ts, q, TokenView::Reserved(Reserved::Else)) && pos < q {
                        if tok_is(ts, q + 1, TokenView::Reserved(Reserved::If)) {
                            match if_tree(ts, q + 1) {
                                Ok((n, r)) => Ok((StmtView::If(c, t, Some(seq![n])), r)),
                                Err(e) => Err(e),
                            }
                        } else {
                            match block_tree(ts, q + 1) {
                                Ok((e, r)) => Ok((StmtView::If(c, t, Some(e)), r)),
                                Err(x) => Err(x),
                            }
                        }
                    } else {
                        Ok((StmtView::If(c, t, None), q))
                    },
                    Err(e) => Err(e),
                }
            },
            Err(e) => Err(e),
        }
    }
}

pub open spec fn stmt_tree(ts: Seq<TokenView>, pos: int) -> Result<(StmtView, int), ParseError>
    decreases ts.len() - pos, 11nat,
{
    if pos < 0 || pos >= ts.len() {
        Err(ParseError::UnexpectedEnd)
    } else {
        match ts[pos] {
            TokenView::Reserved(Reserved::Let) => if !is_ident(ts, pos + 1) {
                Err(fail(ts, pos + 1))
            } else if !tok_is(ts, pos + 2, TokenView::Assign) {
                Err(fail(ts, pos + 2))
            } else {
                match expr_tree(ts, pos + 3) {
                    Ok((v, p)) => Ok((StmtView::LetDecl(ts[pos + 1]->Identifier_0, v), p)),
                    Err(e) => Err(e),
                }
            },
            TokenView::Reserved(Reserved::Function) => fn_def_tree(ts, pos + 1),
            TokenView::Reserved(Reserved::If) => if_tree(ts, pos),
            TokenView::Reserved(Reserved::Return) => if starts_expr_at(ts, pos + 1) {
                match expr_tree(ts, pos + 1) {
                    Ok((v, p)) => Ok((StmtView::Return(Some(v)), p)),
                    Err(e) => Err(e),
                }
            } else {
                Ok((StmtView::Return(None), pos + 1))
            },
            _ => match expr_tree(ts, pos) {
                Ok((e, p)) => Ok((StmtView::ExprStatement(e), p)),
                Err(x) => Err(x),
            },
        }
    }
}

/// The tree of a whole program, or the first parse error.
pub open spec fn program_tree(ts: Seq<TokenView>) -> Result<Seq<StmtView>, ParseError> {
    match stmts_tree(ts, 0, false, Seq::empty()) {
        Ok((p, _)) => Ok(p),
        Err(e) => Err(e),
    }
}

/// An error for the token at `pos`, or for the end of input.
fn unexpected(tokens: &Vec<Token>, pos: usize) -> (e: ParseError)
    ensures
        e == fail(token_views(tokens@), pos as int),
{
    if pos < tokens.len() {
        ParseError::UnexpectedToken(pos)
    } else {
        ParseError::UnexpectedEnd
    }
}

fn is_token(tokens: &Vec<Token>, pos: usize, t: &Token) -> (r: bool)
    ensures
        r == (pos < tokens.len() && tokens@[pos as int]@ == t@),
        r == tok_is(token_views(tokens@), pos as int, t@),
{
    if pos < tokens.len() {
        same_kind_and_payload(&tokens[pos], t)
    } else {
        false
    }
}


fn same_kind_and_payload(a: &Token, b: &Token) -> (r: bool)
    ensures
        r == (a@ == b@),
{
    match (a, b) {
        (Token::Reserved(x), Token::Reserved(y)) => *x == *y,
        (Token::Number(x), Token::Number(y)) => *x == *y,
        (Token::String(x), Token::String(y)) => *x == *y,
        (Token::Identifier(x), Token::Identifier(y)) => *x == *y,
        (Token::LeftBrace, Token::LeftBrace) => true,
        (Token::RightBrace, Token::RightBrace) => true,
        (Token::LeftParenthesis, Token::LeftParenthesis) => true,
        (Token::RightParenthesis, Token::RightParenthesis) => true,
        (Token::Assign, Token::Assign) => true,
        (Token::Equal, Token::Equal) => true,
        (Token::OpsAdd, Token::OpsAdd) => true,
        (Token::OpsSub, Token::OpsSub) => true,
        (Token::OpsMul, Token::OpsMul) => true,
        (Token::OpsDiv, Token::OpsDiv) => true,
        (Token::Comma, Token::Comma) => true,
        _ => false,
    }
}

fn expect(tokens: &Vec<Token>, pos: usize, t: &Token) -> (r: Result<usize, ParseError>)
    ensures
        match r {
            Ok(p) => p == pos + 1 && pos < tokens.len() && tokens@[pos as int]@ == t@,
            Err(ParseError::UnexpectedToken(i)) => i < tokens.len(),
            Err(ParseError::UnexpectedEnd) => true,
        },
        r is Ok <==> (pos < tokens.len() && tokens@[pos as int]@ == t@),
        r is Ok <==> tok_is(token_views(tokens@), pos as int, t@),
        r is Err ==> r == Err::<usize, ParseError>(fail(token_views(tokens@), pos as int)),
{
    if is_token(tokens, pos, t) {
        Ok(pos + 1)
    } else {
        Err(unexpected(tokens, pos))
    }
}

fn identifier(tokens: &Vec<Token>, pos: usize) -> (r: Result<(String, usize), ParseError>)
    ensures
        advanced(r, tokens@, pos),
        r matches Ok((name, p)) ==> p == pos + 1 && tokens@[pos as int] == Token::Identifier(name),
        r is Ok <==> is_ident(token_views(tokens@), pos as int),
        r matches Ok((name, _)) ==> token_views(tokens@)[pos as int] == TokenView::Identifier(name@),
        r is Err ==> r == Err::<(String, usize), ParseError>(fail(token_views(tokens@), pos as int)),
{
    if pos < tokens.len() {
        match &tokens[pos] {
            Token::Identifier(name) => Ok((name.clone(), pos + 1)),
            _ => Err(ParseError::UnexpectedToken(pos)),
        }
    } else {
        Err(ParseError::UnexpectedEnd)
    }
}

/// `primary := NUMBER | STRING | 'true' | 'false' | IDENT call? | '(' expr ')'`
fn parse_primary(tokens: &Vec<Token>, pos: usize) -> (r: Result<(Expr, usize), ParseError>)
    ensures
        advanced(r, tokens@, pos),
        expr_result(r) == primary_tree(token_views(tokens@), pos as int),
    decreases tokens.len() - pos, 1nat,
{
    if pos >= tokens.len() {
        return Err(ParseError::UnexpectedEnd);
    }
    match &tokens[pos] {
        Token::Number(n) => Ok((Expr::Number(*n), pos + 1)),
        Token::String(s) => Ok((Expr::Str(s.clone()), pos + 1)),
        Token::Reserved(Reserved::True) => Ok((Expr::Bool(true), pos + 1)),
        Token::Reserved(Reserved::False) => Ok((Expr::Bool(false), pos + 1)),
        Token::Identifier(name) => {
            if is_token(tokens, pos + 1, &Token::LeftParenthesis) {
                let (args, p) = parse_args(tokens, pos + 2)?;
                Ok((Expr::Call(name.clone(), args), p))
            } else {
                Ok((Expr::Identifier(name.clone()), pos + 1))
            }
        },
        Token::LeftParenthesis => {
            let (e, p) = parse_expr(tokens, pos + 1)?;
            let p = expect(tokens, p, &Token::RightParenthesis)?;
            Ok((e, p))
        },
        _ => Err(ParseError::UnexpectedToken(pos)),
    }
}

/// The argument list after `(`, through the closing `)`.
fn parse_args(tokens: &Vec<Token>, pos: usize) -> (r: Result<(Vec<Expr>, usize), ParseError>)
    requires
        pos <= tokens.len(),
    ensures
        advanced(r, tokens@, pos),
        args_result(r) == args_tree(token_views(tokens@), pos as int),
    decreases tokens.len() - pos, 6nat,
{
    let mut args: Vec<Expr> = Vec::new();
    assert(exprs_view(args@) =~= Seq::<ExprView>::empty());
    if is_token(tokens, pos, &Token::RightParenthesis) {
        return Ok((args, pos + 1));
    }
    let mut p = pos;
    loop
        invariant
            pos <= p <= tokens.len(),
            args_tree(token_views(tokens@), pos as int) == args_items(token_views(tokens@), p as int, exprs_view(args@)),
        decreases tokens.len() - p,
    {
        let (e, q) = parse_expr(tokens, p)?;
        proof {
            lemma_exprs_view_push(args@, e);
        }
        args.push(e);
        if is_token(tokens, q, &Token::Comma) {
            p = q + 1;
        } else {
            let q = expect(tokens, q, &Token::RightParenthesis)?;
            return Ok((args, q));
        }
    }
}

fn mul_op(tokens: &Vec<Token>, pos: usize) -> (r: Option<BinOp>)
    ensures
        r is Some ==> pos < tokens.len(),
        r == mul_op_at(token_views(tokens@), pos as int),
{
    if is_token(tokens, pos, &Token::OpsMul) {
        Some(BinOp::Mul)
    } else if is_token(tokens, pos, &Token::OpsDiv) {
        Some(BinOp::Div)
    } else {
        None
    }
}

fn add_op(tokens: &Vec<Token>, pos: usize) -> (r: Option<BinOp>)
    ensures
        r is Some ==> pos < tokens.len(),
        r == add_op_at(token_views(tokens@), pos as int),
{
    if is_token(tokens, pos, &Token::OpsAdd) {
        Some(BinOp::Add)
    } else if is_token(tokens, pos, &Token::OpsSub) {
        Some(BinOp::Sub)
    } else {
        None
    }
}

/// `multiplicative := primary (('*'|'/') primary)*`, left-associative.
fn parse_multiplicative(tokens: &Vec<Token>, pos: usize) -> (r: Result<(Expr, usize), ParseError>)
    ensures
        advanced(r, tokens@, pos),
        expr_result(r) == mul_tree(token_views(tokens@), pos as int),
    decreases tokens.len() - pos, 2nat,
{
    let (mut lhs, mut p) = parse_primary(tokens, pos)?;
    loop
        invariant
            pos < p <= tokens.len(),
            mul_tree(token_views(tokens@), pos as int) == mul_rest(token_views(tokens@), expr_view(lhs), p as int),
        decreases tokens.len() - p,
    {
        match mul_op(tokens, p) {
            Some(op) => {
                let (rhs, q) = parse_primary(tokens, p + 1)?;
                lhs = Expr::BinaryOp(op, Box::new(lhs), Box::new(rhs));
                p = q;
            },
            None => {
                return Ok((lhs, p));
            },
        }
    }
}

/// `additive := multiplicative (('+'|'-') multiplicative)*`, left-associative.
fn parse_additive(tokens: &Vec<Token>, pos: usize) -> (r: Result<(Expr, usize), ParseError>)
    ensures
        advanced(r, tokens@, pos),
        expr_result(r) == add_tree(token_views(tokens@), pos as int),
    decreases tokens.len() - pos, 3nat,
{
    let (mut lhs, mut p) = parse_multiplicative(tokens, pos)?;
    loop
        invariant
            pos < p <= tokens.len(),
            add_tree(token_views(tokens@), pos as int) == add_rest(token_views(tokens@), expr_view(lhs), p as int),
        decreases tokens.len() - p,
    {
        match add_op(tokens, p) {
            Some(op) => {
                let (rhs, q) = parse_multiplicative(tokens, p + 1)?;
                lhs = Expr::BinaryOp(op, Box::new(lhs), Box::new(rhs));
                p = q;
            },
            None => {
                return Ok((lhs, p));
            },
        }
    }
}

/// `equality := additive ('==' additive)*`, left-associative.
fn parse_equality(tokens: &Vec<Token>, pos: usize) -> (r: Result<(Expr, usize), ParseError>)
    ensures
        advanced(r, tokens@, pos),
        expr_result(r) == eq_tree(token_views(tokens@), pos as int),
    decreases tokens.len() - pos, 4nat,
{
    let (mut lhs, mut p) = parse_additive(tokens, pos)?;
    loop
        invariant
            pos < p <= tokens.len(),
            eq_tree(token_views(tokens@), pos as int) == eq_rest(token_views(tokens@), expr_view(lhs), p as int),
        decreases tokens.len() - p,
    {
        if is_token(tokens, p, &Token::Equal) {
            let (rhs, q) = parse_additive(tokens, p + 1)?;
            lhs = Expr::BinaryOp(BinOp::Eq, Box::new(lhs), Box::new(rhs));
            p = q;
        } else {
            return Ok((lhs, p));
        }
    }
}

/// `expr := assignment`, `assignment := IDENT '=' assignment | equality`.
fn parse_expr(tokens: &Vec<Token>, pos: usize) -> (r: Result<(Expr, usize), ParseError>)
    ensures
        advanced(r, tokens@, pos),
        expr_result(r) == expr_tree(token_views(tokens@), pos as int),
    decreases tokens.len() - pos, 5nat,
{
    if pos < tokens.len() && is_token(tokens, pos + 1, &Token::Assign) {
        if let Token::Identifier(name) = &tokens[pos] {
            let (value, p) = parse_expr(tokens, pos + 2)?;
            return Ok((Expr::Assign(name.clone(), Box::new(value)), p));
        }
    }
    parse_equality(tokens, pos)
}

/// `block := '{' statement* '}'`
fn parse_block(tokens: &Vec<Token>, pos: usize) -> (r: Result<(Vec<Stmt>, usize), ParseError>)
    ensures
        advanced(r, tokens@, pos),
        stmts_result(r) == block_tree(token_views(tokens@), pos as int),
    decreases tokens.len() - pos, 12nat,
{
    let p = expect(tokens, pos, &Token::LeftBrace)?;
    let (body, p) = parse_statements(tokens, p, true)?;
    let p = expect(tokens, p, &Token::RightBrace)?;
    Ok((body, p))
}

/// Statements from `pos` up to a `}` (left in place) when `in_block`, else
/// up to the end of the tokens.
fn parse_statements(tokens: &Vec<Token>, pos: usize, in_block: bool) -> (r: Result<
    (Vec<Stmt>, usize),
    ParseError,
>)
    requires
        pos <= tokens.len(),
    ensures
        match r {
            Ok((_, p)) => pos <= p <= tokens.len() && (!in_block ==> p == tokens.len()),
            Err(ParseError::UnexpectedToken(i)) => i < tokens.len(),
            Err(ParseError::UnexpectedEnd) => true,
        },
        stmts_result(r) == stmts_tree(token_views(tokens@), pos as int, in_block, Seq::empty()),
    decreases tokens.len() - pos, 11nat,
{
    let mut body: Vec<Stmt> = Vec::new();
    assert(stmts_view(body@) =~= Seq::<StmtView>::empty());
    let mut p = pos;
    while p < tokens.len() && !(in_block && is_token(tokens, p, &Token::RightBrace))
        invariant
            pos <= p <= tokens.len(),
            stmts_tree(token_views(tokens@), pos as int, in_block, Seq::empty()) == stmts_tree(token_views(tokens@), p as int, in_block, stmts_view(body@)),
        decreases tokens.len() - p,
    {
        let (st, q) = parse_statement(tokens, p)?;
        proof {
            lemma_stmts_view_push(body@, st);
        }
        body.push(st);
        p = q;
    }
    Ok((body, p))
}

/// `fnDef := 'function' IDENT '(' (IDENT (',' IDENT)*)? ')' block`, from
/// the token after `function`.
fn parse_fn_def(tokens: &Vec<Token>, pos: usize) -> (r: Result<(Stmt, usize), ParseError>)
    ensures
        advanced(r, tokens@, pos),
        stmt_result(r) == fn_def_tree(token_views(tokens@), pos as int),
    decreases tokens.len() - pos, 9nat,
{
    let (name, p) = identifier(tokens, pos)?;
    let mut p = expect(tokens, p, &Token::LeftParenthesis)?;
    let ghost first = p as int;
    let mut params: Vec<String> = Vec::new();
    assert(strs_view(params@) =~= Seq::<Seq<char>>::empty());
    if is_token(tokens, p, &Token::RightParenthesis) {
        p = p + 1;
    } else {
        loop
            invariant_except_break
                params_tree(token_views(tokens@), first, Seq::empty()) == params_tree(token_views(tokens@), p as int, strs_view(params@)),
            invariant
                pos < p <= tokens.len(),
                first == pos + 2,
                is_ident(token_views(tokens@), pos as int),
                tok_is(token_views(tokens@), pos + 1, TokenView::LeftParenthesis),
                !tok_is(token_views(tokens@), first, TokenView::RightParenthesis),
            ensures
                pos < p <= tokens.len(),
                params_tree(token_views(tokens@), first, Seq::empty()) == Ok::<(Seq<Seq<char>>, int), ParseError>((strs_view(params@), p as int)),
            decreases tokens.len() - p,
        {
            let (param, q) = identifier(tokens, p)?;
            proof {
                assert(strs_view(params@.push(param)) =~= strs_view(params@).push(param@));
            }
            params.push(param);
            if is_token(tokens, q, &Token::Comma) {
                p = q + 1;
            } else {
                p = expect(tokens, q, &Token::RightParenthesis)?;
                break;
            }
        }
    }
    let (body, p) = parse_block(tokens, p)?;
    Ok((Stmt::FnDef(name, params, body), p))
}

/// `ifStmt := 'if' '(' expr ')' block ('else' (ifStmt | block))?`, from the
/// `if` token.
fn parse_if(tokens: &Vec<Token>, pos: usize) -> (r: Result<(Stmt, usize), ParseError>)
    ensures
        advanced(r, tokens@, pos),
        stmt_result(r) == if_tree(token_views(tokens@), pos as int),
    decreases tokens.len() - pos, 9nat,
{
    let p = expect(tokens, pos, &Token::Reserved(Reserved::If))?;
    let p = expect(tokens, p, &Token::LeftParenthesis)?;
    let (cond, p) = parse_expr(tokens, p)?;
    let p = expect(tokens, p, &Token::RightParenthesis)?;
    let (then_block, p) = parse_block(tokens, p)?;
    if is_token(tokens, p, &Token::Reserved(Reserved::Else)) {
        if is_token(tokens, p + 1, &Token::Reserved(Reserved::If)) {
            let (nested, q) = parse_if(tokens, p + 1)?;
            let mut else_block: Vec<Stmt> = Vec::new();
            proof {
                lemma_stmts_view_push(else_block@, nested);
                assert(stmts_view(else_block@) =~= Seq::<StmtView>::empty());
                assert(stmts_view(else_block@).push(stmt_view(nested)) =~= seq![stmt_view(nested)]);
            }
            else_block.push(nested);
            Ok((Stmt::If(cond, then_block, Some(else_block)), q))
        } else {
            let (else_block, q) = parse_block(tokens, p + 1)?;
            Ok((Stmt::If(cond, then_block, Some(else_block)), q))
        }
    } else {
        Ok((Stmt::If(cond, then_block, None), p))
    }
}

/// Whether an expression may begin at `pos`; a `return` is bare otherwise.
fn starts_expr(tokens: &Vec<Token>, pos: usize) -> (r: bool)
    ensures
        r == starts_expr_at(token_views(tokens@), pos as int),
{
    if pos < tokens.len() {
        match &tokens[pos] {
            Token::Number(_) | Token::String(_) | Token::Identifier(_) | Token::LeftParenthesis
            | Token::Reserved(Reserved::True) | Token::Reserved(Reserved::False) => true,
            _ => false,
        }
    } else {
        false
    }
}

/// `statement := letDecl | fnDef | ifStmt | returnStmt | exprStmt`
fn parse_statement(tokens: &Vec<Token>, pos: usize) -> (r: Result<(Stmt, usize), ParseError>)
    ensures
        advanced(r, tokens@, pos),
        stmt_result(r) == stmt_tree(token_views(tokens@), pos as int),
    decreases tokens.len() - pos, 10nat,
{
    if pos >= tokens.len() {
        return Err(ParseError::UnexpectedEnd);
    }
    match &tokens[pos] {
        Token::Reserved(Reserved::Let) => {
            let (name, p) = identifier(tokens, pos + 1)?;
            let p = expect(tokens, p, &Token::Assign)?;
            let (value, p) = parse_expr(tokens, p)?;
            Ok((Stmt::LetDecl(name, value), p))
        },
        Token::Reserved(Reserved::Function) => parse_fn_def(tokens, pos + 1),
        Token::Reserved(Reserved::If) => parse_if(tokens, pos),
        Token::Reserved(Reserved::Return) => {
            if starts_expr(tokens, pos + 1) {
                let (value, p) = parse_expr(tokens, pos + 1)?;
                Ok((Stmt::Return(Some(value)), p))
            } else {
                Ok((Stmt::Return(None), pos + 1))
            }
        },
        _ => {
            let (e, p) = parse_expr(tokens, pos)?;
            Ok((Stmt::ExprStatement(e), p))
        },
    }
}

/// Parses a whole program: statements up to the end of the tokens. Fails on
/// the first token that does not fit the grammar.
pub fn parse(tokens: &Vec<Token>) -> (r: Result<Vec<Stmt>, ParseError>)
    ensures
        r matches Err(ParseError::UnexpectedToken(i)) ==> i < tokens.len(),
        match r {
            Ok(p) => program_tree(token_views(tokens@)) == Ok::<Seq<StmtView>, ParseError>(stmts_view(p@)),
            Err(e) => program_tree(token_views(tokens@)) == Err::<Seq<StmtView>, ParseError>(e),
        },
{
    match parse_statements(tokens, 0, false) {
        Ok((program, _)) => Ok(program),
        Err(e) => Err(e),
    }
}

} // verus!
