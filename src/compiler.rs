use vstd::prelude::*;
use crate::ast::{
    exprs_view, expr_view, lemma_exprs_view_index, lemma_stmts_view_index, stmt_view, stmts_view, strs_view,
    BinOp, Expr, ExprView, Stmt, StmtView,
};
use crate::codegen::{
    compiled, args_code, block_code, expr_code, fn_code, stmt_code, add_const, declare_slot, first_from, load_instr, literal_eq_v, literal_from, push_code, set_code,
    store_instr, CState, SScope,
};
use crate::bytecode::{CodeView, ConstView};
use crate::bytecode::{
    code_object_ok, code_ok, constant_ok, instr_ok, lemma_code_ok_grow, ByteCode, CodeObject,
    Constant, Instr,
};
use crate::lexer::{lex, token_views, tokenize, LexError, Token};
use crate::parser::{parse, program_tree, ParseError};

verus! {

broadcast use vstd::std_specs::vec::axiom_vec_index_decreases;


/// A name that a load may denote: a slot of this function, the function's
/// own name, or a global declared so far.
pub open spec fn loadable(
    n: Seq<char>,
    locals: Seq<Seq<char>>,
    own: Option<Seq<char>>,
    globals: Seq<Seq<char>>,
) -> bool {
    locals.contains(n) || own == Some(n) || globals.contains(n)
}

/// Every name in `e` resolves.
pub open spec fn expr_resolves(
    e: ExprView,
    locals: Seq<Seq<char>>,
    own: Option<Seq<char>>,
    globals: Seq<Seq<char>>,
) -> bool
    decreases e,
{
    match e {
        ExprView::Identifier(n) => loadable(n, locals, own, globals),
        ExprView::Assign(n, v) => expr_resolves(*v, locals, own, globals) && (locals.contains(n)
            || globals.contains(n)),
        ExprView::BinaryOp(_, a, b) => expr_resolves(*a, locals, own, globals) && expr_resolves(
            *b,
            locals,
            own,
            globals,
        ),
        ExprView::Call(c, args) => loadable(c, locals, own, globals) && args_resolve(
            args,
            locals,
            own,
            globals,
        ),
        _ => true,
    }
}

/// Every name in each of `args` resolves.
pub open spec fn args_resolve(
    args: Seq<ExprView>,
    locals: Seq<Seq<char>>,
    own: Option<Seq<char>>,
    globals: Seq<Seq<char>>,
) -> bool
    decreases args,
{
    args.len() == 0 || (expr_resolves(args[0], locals, own, globals) && args_resolve(
        args.subrange(1, args.len() as int),
        locals,
        own,
        globals,
    ))
}

/// No name repeats.
pub open spec fn distinct_names(ns: Seq<Seq<char>>) -> bool {
    forall|i: int, j: int| 0 <= i < j < ns.len() ==> ns[i] != ns[j]
}

/// Declares `n` in the current function (or as a global at top level);
/// `None` if it is declared there already.
pub open spec fn declare(
    n: Seq<char>,
    top: bool,
    locals: Seq<Seq<char>>,
    globals: Seq<Seq<char>>,
) -> Option<(Seq<Seq<char>>, Seq<Seq<char>>)> {
    if top {
        if globals.contains(n) {
            None
        } else {
            Some((locals, globals.push(n)))
        }
    } else {
        if locals.contains(n) {
            None
        } else {
            Some((locals.push(n), globals))
        }
    }
}

/// The spelling of the function's own name, if the scope is a function.
pub open spec fn own_name(self_ref: Option<(String, usize)>) -> Option<Seq<char>> {
    match self_ref {
        Some((n, _)) => Some(n@),
        None => None,
    }
}

/// The names in scope after statement `s`, or `None` if it does not compile:
/// an unresolved name or a repeated declaration.
pub open spec fn stmt_scope(
    s: StmtView,
    top: bool,
    own: Option<Seq<char>>,
    locals: Seq<Seq<char>>,
    globals: Seq<Seq<char>>,
) -> Option<(Seq<Seq<char>>, Seq<Seq<char>>)>
    decreases s, 0nat,
{
    match s {
        StmtView::LetDecl(n, v) => if expr_resolves(v, locals, own, globals) {
            declare(n, top, locals, globals)
        } else {
            None
        },
        StmtView::FnDef(n, ps, body) => fn_def_scope(n, ps, body, top, locals, globals),
        StmtView::If(c, t, e) => if expr_resolves(c, locals, own, globals) {
            match block_scope(t, top, own, locals, globals) {
                Some((l2, g2)) => match e {
                    Some(eb) => block_scope(eb, top, own, l2, g2),
                    None => Some((l2, g2)),
                },
                None => None,
            }
        } else {
            None
        },
        StmtView::Return(v) => match v {
            Some(x) => if expr_resolves(x, locals, own, globals) {
                Some((locals, globals))
            } else {
                None
            },
            None => Some((locals, globals)),
        },
        StmtView::ExprStatement(x) => if expr_resolves(x, locals, own, globals) {
            Some((locals, globals))
        } else {
            None
        },
    }
}

/// A function definition declares its name in the enclosing scope; its body
/// sees its parameters, its own name and the globals declared so far.
pub open spec fn fn_def_scope(
    n: Seq<char>,
    ps: Seq<Seq<char>>,
    body: Seq<StmtView>,
    top: bool,
    locals: Seq<Seq<char>>,
    globals: Seq<Seq<char>>,
) -> Option<(Seq<Seq<char>>, Seq<Seq<char>>)>
    decreases body, 2nat,
{
    match declare(n, top, locals, globals) {
        Some((l1, g1)) => if distinct_names(ps) && block_scope(body, false, Some(n), ps, g1) is Some {
            Some((l1, g1))
        } else {
            None
        },
        None => None,
    }
}

/// The names in scope after the statements `ss`, in order.
pub open spec fn block_scope(
    ss: Seq<StmtView>,
    top: bool,
    own: Option<Seq<char>>,
    locals: Seq<Seq<char>>,
    globals: Seq<Seq<char>>,
) -> Option<(Seq<Seq<char>>, Seq<Seq<char>>)>
    decreases ss, 1nat,
{
    if ss.len() == 0 {
        Some((locals, globals))
    } else {
        match stmt_scope(ss[0], top, own, locals, globals) {
            Some((l, g)) => block_scope(ss.subrange(1, ss.len() as int), top, own, l, g),
            None => None,
        }
    }
}

/// A parsed program compiles: every name resolves where it is used and no
/// function (nor the top level) declares a name twice.
pub open spec fn compiles(program: Seq<StmtView>) -> bool {
    block_scope(program, true, None, Seq::empty(), Seq::empty()) is Some
}

/// An error of name resolution, the compiler's own kind of error.
pub open spec fn name_error(e: CompileError) -> bool {
    e is UnresolvedName || e is DuplicateDeclaration
}

/// Why a source text does not compile.
#[derive(Debug, Clone, PartialEq, Eq)]
pub enum CompileError {
    Lex(LexError),
    Parse(ParseError),
    /// A name that no enclosing declaration binds at its use.
    UnresolvedName(String),
    /// A second declaration of a name in one function (or at top level), or
    /// a repeated parameter.
    DuplicateDeclaration(String),
}

/// The code being emitted for one function body, or for the top level.
struct Scope {
    code: Vec<Instr>,
    /// Names of the local slots, parameters first, in declaration order.
    locals: Vec<String>,
    /// The function's own name and the constant that holds it, so that the
    /// body can call itself.
    self_ref: Option<(String, usize)>,
    /// At top level declarations bind globals instead of locals.
    top: bool,
}

/// Tables shared by all code objects of one program.
struct Compiler {
    constants: Vec<Constant>,
    functions: Vec<CodeObject>,
    globals: Vec<String>,
}

/// The scope as a mathematical value.
spec fn scope_view(sc: Scope) -> SScope {
    SScope {
        code: sc.code@,
        locals: strs_view(sc.locals@),
        own: match sc.self_ref {
            Some((n, k)) => Some((n@, k)),
            None => None,
        },
        top: sc.top,
    }
}

impl Compiler {
    spec fn state(&self) -> CState {
        CState {
            constants: self.constants@.map_values(|c: Constant| c@),
            functions: self.functions@.map_values(|f: CodeObject| f@),
            globals: strs_view(self.globals@),
        }
    }

    spec fn ok(&self) -> bool {
        &&& forall|f: int|
            0 <= f < self.functions.len() ==> code_object_ok(
                #[trigger] self.functions@[f],
                self.constants.len() as int,
                self.globals.len() as int,
            )
        &&& forall|k: int|
            0 <= k < self.constants.len() ==> constant_ok(
                #[trigger] self.constants@[k],
                self.functions.len() as int,
            )
        &&& pool_distinct(self.constants@)
    }

    spec fn scope_ok(&self, sc: &Scope) -> bool {
        &&& code_ok(
            sc.code@,
            self.constants.len() as int,
            sc.locals.len() as int,
            self.globals.len() as int,
        )
        &&& (sc.top ==> sc.locals.len() == 0)
        &&& sc.self_ref matches Some((_, k)) ==> k < self.constants.len()
    }

    /// What a compile step may change: tables and slots only grow.
    spec fn grows(&self, old: &Compiler, sc: &Scope, sc0: &Scope) -> bool {
        &&& self.constants.len() >= old.constants.len()
        &&& self.globals.len() >= old.globals.len()
        &&& self.functions.len() >= old.functions.len()
        &&& sc.locals.len() >= sc0.locals.len()
        &&& sc.code.len() >= sc0.code.len()
        &&& sc.top == sc0.top
        &&& sc.self_ref == sc0.self_ref
    }

    proof fn lemma_ok_grow(&self, old: &Compiler)
        requires
            old.ok(),
            pool_distinct(self.constants@),
            self.functions@ == old.functions@,
            self.constants.len() >= old.constants.len(),
            self.globals.len() >= old.globals.len(),
            forall|k: int|
                0 <= k < self.constants.len() ==> constant_ok(
                    #[trigger] self.constants@[k],
                    self.functions.len() as int,
                ),
        ensures
            self.ok(),
    {
        assert forall|f: int| 0 <= f < self.functions.len() implies code_object_ok(
            #[trigger] self.functions@[f],
            self.constants.len() as int,
            self.globals.len() as int,
        ) by {
            let c = old.functions@[f];
            assert(code_object_ok(c, old.constants.len() as int, old.globals.len() as int));
            lemma_code_ok_grow(
                c.code@,
                old.constants.len() as int,
                c.n_slots as int,
                old.globals.len() as int,
                self.constants.len() as int,
                c.n_slots as int,
                self.globals.len() as int,
            );
        }
    }

    /// Appends `i` to the scope's code.
    fn emit(&self, sc: &mut Scope, i: Instr)
        requires
            self.scope_ok(old(sc)),
            instr_ok(
                i,
                old(sc).code.len() as int,
                old(sc).code.len() + 1,
                self.constants.len() as int,
                old(sc).locals.len() as int,
                self.globals.len() as int,
            ),
        ensures
            self.scope_ok(final(sc)),
            final(sc).code@ == old(sc).code@.push(i),
            final(sc).locals@ == old(sc).locals@,
            final(sc).top == old(sc).top,
            final(sc).self_ref == old(sc).self_ref,
            scope_view(*final(sc)) == push_code(scope_view(*old(sc)), i),
    {
        sc.code.push(i);
        proof {
            let n = sc.code.len() as int;
            assert forall|pc: int| 0 <= pc < n implies instr_ok(
                #[trigger] sc.code@[pc],
                pc,
                n,
                self.constants.len() as int,
                sc.locals.len() as int,
                self.globals.len() as int,
            ) by {
                if pc < n - 1 {
                    assert(old(sc).code@[pc] == sc.code@[pc]);
                    assert(instr_ok(
                        old(sc).code@[pc],
                        pc,
                        n - 1,
                        self.constants.len() as int,
                        sc.locals.len() as int,
                        self.globals.len() as int,
                    ));
                }
            }
        }
    }

    /// Emits a jump whose target is fixed later by `patch`.
    fn emit_jump(&self, sc: &mut Scope, conditional: bool) -> (j: usize)
        requires
            self.scope_ok(old(sc)),
        ensures
            self.scope_ok(final(sc)),
            j == old(sc).code.len(),
            final(sc).code.len() == j + 1,
            final(sc).locals@ == old(sc).locals@,
            final(sc).top == old(sc).top,
            final(sc).self_ref == old(sc).self_ref,
            scope_view(*final(sc)) == push_code(
                scope_view(*old(sc)),
                if conditional {
                    Instr::JumpIfFalse((j + 1) as usize)
                } else {
                    Instr::Jump((j + 1) as usize)
                },
            ),
    {
        let j = sc.code.len();
        self.emit(sc, Instr::Pop);
        let t = sc.code.len();
        self.patch(sc, j, t, conditional);
        assert(sc.code@ =~= old(sc).code@.push(
            if conditional {
                Instr::JumpIfFalse((j + 1) as usize)
            } else {
                Instr::Jump((j + 1) as usize)
            },
        ));
        j
    }

    /// Sets the target of the jump at `j` to `t`.
    fn patch(&self, sc: &mut Scope, j: usize, t: usize, conditional: bool)
        requires
            self.scope_ok(old(sc)),
            j < t <= old(sc).code.len(),
        ensures
            self.scope_ok(final(sc)),
            final(sc).code@ == old(sc).code@.update(
                j as int,
                if conditional {
                    Instr::JumpIfFalse(t)
                } else {
                    Instr::Jump(t)
                },
            ),
            final(sc).locals@ == old(sc).locals@,
            final(sc).top == old(sc).top,
            final(sc).self_ref == old(sc).self_ref,
            scope_view(*final(sc)) == set_code(
                scope_view(*old(sc)),
                j as int,
                if conditional {
                    Instr::JumpIfFalse(t)
                } else {
                    Instr::Jump(t)
                },
            ),
    {
        let i = if conditional {
            Instr::JumpIfFalse(t)
        } else {
            Instr::Jump(t)
        };
        sc.code.set(j, i);
        proof {
            let n = sc.code.len() as int;
            assert forall|pc: int| 0 <= pc < n implies instr_ok(
                #[trigger] sc.code@[pc],
                pc,
                n,
                self.constants.len() as int,
                sc.locals.len() as int,
                self.globals.len() as int,
            ) by {
                if pc != j {
                    assert(old(sc).code@[pc] == sc.code@[pc]);
                }
            }
        }
    }

    /// Binds `name` to a new global; a name bound already is refused.
    fn declare_global(&mut self, sc: &Scope, name: &String) -> (r: Result<usize, CompileError>)
        requires
            old(self).ok(),
            old(self).scope_ok(sc),
            sc.top,
        ensures
            match declare_slot(old(self).state(), scope_view(*sc), name@) {
                Some((c, _, slot)) => r == Ok::<usize, CompileError>(slot) && final(self).state() == c,
                None => r is Err,
            },
            r matches Err(e) ==> name_error(e),
            final(self).ok(),
            final(self).scope_ok(sc),
            final(self).constants@ == old(self).constants@,
            final(self).functions@ == old(self).functions@,
            final(self).globals.len() >= old(self).globals.len(),
            r matches Ok(g) ==> g < final(self).globals.len(),
            r is Ok <==> !strs_view(old(self).globals@).contains(name@),
            r is Ok ==> strs_view(final(self).globals@) == strs_view(old(self).globals@).push(name@),
            r is Err ==> final(self).globals@ == old(self).globals@,
    {
        if lookup(&self.globals, name).is_some() {
            return Err(CompileError::DuplicateDeclaration(name.clone()));
        }
        let ghost before = *self;
        self.globals.push(name.clone());
        proof {
            assert(strs_view(self.globals@) =~= strs_view(before.globals@).push(name@));
            assert(self.state().constants =~= before.state().constants);
            assert(self.state().functions =~= before.state().functions);
            self.lemma_ok_grow(&before);
            lemma_code_ok_grow(
                sc.code@,
                before.constants.len() as int,
                sc.locals.len() as int,
                before.globals.len() as int,
                self.constants.len() as int,
                sc.locals.len() as int,
                self.globals.len() as int,
            );
        }
        Ok(self.globals.len() - 1)
    }

    /// Binds `name` to a new local slot; a name bound already in this
    /// function is refused.
    fn declare_local(&self, sc: &mut Scope, name: &String) -> (r: Result<usize, CompileError>)
        requires
            self.scope_ok(old(sc)),
            !old(sc).top,
        ensures
            match declare_slot(self.state(), scope_view(*old(sc)), name@) {
                Some((c, s2, slot)) => r == Ok::<usize, CompileError>(slot) && scope_view(*final(sc))
                    == s2 && c == self.state(),
                None => r is Err,
            },
            r matches Err(e) ==> name_error(e),
            self.scope_ok(final(sc)),
            final(sc).code@ == old(sc).code@,
            final(sc).locals.len() >= old(sc).locals.len(),
            final(sc).top == old(sc).top,
            final(sc).self_ref == old(sc).self_ref,
            r matches Ok(s) ==> s < final(sc).locals.len(),
            r is Ok ==> final(sc).locals.len() == old(sc).locals.len() + 1,
            r is Ok <==> !strs_view(old(sc).locals@).contains(name@),
            r is Ok ==> strs_view(final(sc).locals@) == strs_view(old(sc).locals@).push(name@),
            r is Err ==> final(sc).locals@ == old(sc).locals@,
    {
        if lookup(&sc.locals, name).is_some() {
            return Err(CompileError::DuplicateDeclaration(name.clone()));
        }
        sc.locals.push(name.clone());
        proof {
            assert(strs_view(sc.locals@) =~= strs_view(old(sc).locals@).push(name@));
            lemma_code_ok_grow(
                sc.code@,
                self.constants.len() as int,
                old(sc).locals.len() as int,
                self.globals.len() as int,
                self.constants.len() as int,
                sc.locals.len() as int,
                self.globals.len() as int,
            );
        }
        Ok(sc.locals.len() - 1)
    }

    /// Pushes the value that `name` denotes: a local, the function's own
    /// name, or a global, tried in that order.
    fn compile_load(&self, sc: &mut Scope, name: &String) -> (r: Result<(), CompileError>)
        requires
            self.scope_ok(old(sc)),
        ensures
            match load_instr(self.state(), scope_view(*old(sc)), name@) {
                Some(i) => r is Ok && scope_view(*final(sc)) == push_code(scope_view(*old(sc)), i),
                None => r is Err,
            },
            r matches Err(e) ==> name_error(e),
            r is Ok <==> loadable(
                name@,
                strs_view(old(sc).locals@),
                own_name(old(sc).self_ref),
                strs_view(self.globals@),
            ),
            self.scope_ok(final(sc)),
            final(sc).code.len() >= old(sc).code.len(),
            final(sc).locals@ == old(sc).locals@,
            final(sc).top == old(sc).top,
            final(sc).self_ref == old(sc).self_ref,
    {
        if let Some(s) = lookup(&sc.locals, name) {
            self.emit(sc, Instr::LoadLocal(s));
            return Ok(());
        }
        if let Some((own, k)) = &sc.self_ref {
            if *own == *name {
                let k = *k;
                self.emit(sc, Instr::LoadConst(k));
                return Ok(());
            }
        }
        match lookup(&self.globals, name) {
            Some(g) => {
                self.emit(sc, Instr::LoadGlobal(g));
                Ok(())
            },
            None => Err(CompileError::UnresolvedName(name.clone())),
        }
    }

    /// Stores the top of the stack into the local or global `name`, leaving
    /// the value on the stack.
    fn compile_store(&self, sc: &mut Scope, name: &String) -> (r: Result<(), CompileError>)
        requires
            self.scope_ok(old(sc)),
        ensures
            match store_instr(self.state(), scope_view(*old(sc)), name@) {
                Some(i) => r is Ok && scope_view(*final(sc)) == push_code(scope_view(*old(sc)), i),
                None => r is Err,
            },
            r matches Err(e) ==> name_error(e),
            r is Ok <==> (strs_view(old(sc).locals@).contains(name@) || strs_view(
                self.globals@,
            ).contains(name@)),
            self.scope_ok(final(sc)),
            final(sc).code.len() >= old(sc).code.len(),
            final(sc).locals@ == old(sc).locals@,
            final(sc).top == old(sc).top,
            final(sc).self_ref == old(sc).self_ref,
    {
        if let Some(s) = lookup(&sc.locals, name) {
            self.emit(sc, Instr::StoreLocal(s));
            return Ok(());
        }
        match lookup(&self.globals, name) {
            Some(g) => {
                self.emit(sc, Instr::StoreGlobal(g));
                Ok(())
            },
            None => Err(CompileError::UnresolvedName(name.clone())),
        }
    }

    /// Emits code that leaves the value of `e` on the stack.
    fn compile_expr(&mut self, sc: &mut Scope, e: &Expr) -> (r: Result<(), CompileError>)
        requires
            old(self).ok(),
            old(self).scope_ok(old(sc)),
        ensures
            r matches Err(e) ==> name_error(e),
            final(self).ok(),
            final(self).scope_ok(final(sc)),
            final(self).grows(old(self), final(sc), old(sc)),
            final(sc).locals@ == old(sc).locals@,
            final(self).globals@ == old(self).globals@,
            r is Ok <==> expr_resolves(
                expr_view(*e),
                strs_view(old(sc).locals@),
                own_name(old(sc).self_ref),
                strs_view(old(self).globals@),
            ),
            match expr_code(old(self).state(), scope_view(*old(sc)), expr_view(*e)) {
                Some((c, s2)) => r is Ok && final(self).state() == c && scope_view(*final(sc)) == s2,
                None => r is Err,
            },
        decreases e,
    {
        match e {
            Expr::Number(n) => {
                let k = self.add_constant(Constant::Number(*n));
                proof {
                    self.lemma_scope_grow(sc, old(self));
                }
                self.emit(sc, Instr::LoadConst(k));
                Ok(())
            },
            Expr::Str(text) => {
                let k = self.add_constant(Constant::Str(text.clone()));
                proof {
                    self.lemma_scope_grow(sc, old(self));
                }
                self.emit(sc, Instr::LoadConst(k));
                Ok(())
            },
            Expr::Bool(b) => {
                self.emit(sc, Instr::LoadBool(*b));
                Ok(())
            },
            Expr::Identifier(name) => self.compile_load(sc, name),
            Expr::Assign(name, value) => {
                self.compile_expr(sc, value)?;
                self.compile_store(sc, name)
            },
            Expr::BinaryOp(op, lhs, rhs) => {
                self.compile_expr(sc, lhs)?;
                self.compile_expr(sc, rhs)?;
                let i = match op {
                    BinOp::Add => Instr::Add,
                    BinOp::Sub => Instr::Sub,
                    BinOp::Mul => Instr::Mul,
                    BinOp::Div => Instr::Div,
                    BinOp::Eq => Instr::Eq,
                };
                self.emit(sc, i);
                Ok(())
            },
            Expr::Call(callee, args) => {
                self.compile_load(sc, callee)?;
                let ghost c0 = self.state();
                let ghost s0 = scope_view(*sc);
                proof {
                    lemma_exprs_view_index(args@);
                }
                assert(expr_view(*e) == ExprView::Call(callee@, exprs_view(args@)));
                assert(expr_code(old(self).state(), scope_view(*old(sc)), expr_view(*e)) == match args_code(
                    c0,
                    s0,
                    exprs_view(args@),
                ) {
                    Some((c1, s1)) => Some((c1, push_code(s1, Instr::Call(args.len() as usize)))),
                    None => None,
                });
                proof {
                    assert(decreases_to!(*e => (*e)->Call_1));
                    lemma_exprs_view_index(args@);
                    assert(exprs_view(args@).subrange(0, args.len() as int) =~= exprs_view(args@));
                }
                let mut i: usize = 0;
                while i < args.len()
                    invariant
                        self.ok(),
                        self.scope_ok(sc),
                        self.grows(old(self), sc, old(sc)),
                        i <= args.len(),
                        decreases_to!(*e => *args),
                        expr_code(old(self).state(), scope_view(*old(sc)), expr_view(*e)) == match args_code(
                            c0,
                            s0,
                            exprs_view(args@),
                        ) {
                            Some((c1, s1)) => Some((c1, push_code(s1, Instr::Call(args.len() as usize)))),
                            None => None,
                        },
                        args_code(c0, s0, exprs_view(args@)) == args_code(
                            self.state(),
                            scope_view(*sc),
                            exprs_view(args@).subrange(i as int, args.len() as int),
                        ),
                        sc.locals@ == old(sc).locals@,
                        self.globals@ == old(self).globals@,
                        *e == Expr::Call(*callee, *args),
                        loadable(
                            callee@,
                            strs_view(old(sc).locals@),
                            own_name(old(sc).self_ref),
                            strs_view(old(self).globals@),
                        ),
                        args_resolve(
                            exprs_view(args@),
                            strs_view(old(sc).locals@),
                            own_name(old(sc).self_ref),
                            strs_view(old(self).globals@),
                        ) == args_resolve(
                            exprs_view(args@).subrange(i as int, args.len() as int),
                            strs_view(old(sc).locals@),
                            own_name(old(sc).self_ref),
                            strs_view(old(self).globals@),
                        ),
                    decreases args.len() - i,
                {
                    proof {
                        assert(decreases_to!(*args => args[i as int]));
                    }
                    proof {
                        lemma_exprs_view_index(args@);
                        let rest = exprs_view(args@).subrange(i as int, args.len() as int);
                        assert(rest[0] == expr_view(args@[i as int]));
                        assert(rest.subrange(1, rest.len() as int) =~= exprs_view(args@).subrange(
                            i + 1,
                            args.len() as int,
                        ));
                    }
                    let ghost cb = self.state();
                    let ghost sb = scope_view(*sc);
                    match self.compile_expr(sc, &args[i]) {
                        Ok(()) => {},
                        Err(err) => {
                            proof {
                                lemma_exprs_view_index(args@);
                                let rest = exprs_view(args@).subrange(i as int, args.len() as int);
                                assert(rest[0] == expr_view(args@[i as int]));
                                assert(expr_code(cb, sb, rest[0]) is None);
                                assert(args_code(cb, sb, rest) is None);
                                lemma_exprs_view_index(args@);
                                let rest = exprs_view(args@).subrange(i as int, args.len() as int);
                                assert(rest[0] == expr_view(args@[i as int]));
                            }
                            assert(expr_view(*e) == ExprView::Call(callee@, exprs_view(args@)));
                            return Err(err);
                        },
                    }
                    i = i + 1;
                }
                proof {
                    assert(exprs_view(args@).subrange(args.len() as int, args.len() as int)
                        =~= Seq::<ExprView>::empty());
                    assert(expr_view(*e) == ExprView::Call(callee@, exprs_view(args@)));
                }
                self.emit(sc, Instr::Call(args.len()));
                Ok(())
            },
        }
    }

    /// Emits code for each statement in turn.
    fn compile_block(&mut self, sc: &mut Scope, stmts: &Vec<Stmt>) -> (r: Result<(), CompileError>)
        requires
            old(self).ok(),
            old(self).scope_ok(old(sc)),
        ensures
            r matches Err(e) ==> name_error(e),
            final(self).ok(),
            final(self).scope_ok(final(sc)),
            final(self).grows(old(self), final(sc), old(sc)),
            !old(sc).top ==> final(self).globals@ == old(self).globals@,
            match block_scope(
                stmts_view(stmts@),
                old(sc).top,
                own_name(old(sc).self_ref),
                strs_view(old(sc).locals@),
                strs_view(old(self).globals@),
            ) {
                Some((l, g)) => r is Ok && strs_view(final(sc).locals@) == l && strs_view(
                    final(self).globals@,
                ) == g,
                None => r is Err,
            },
            match block_code(old(self).state(), scope_view(*old(sc)), stmts_view(stmts@)) {
                Some((c, s2)) => r is Ok && final(self).state() == c && scope_view(*final(sc)) == s2,
                None => r is Err,
            },
        decreases stmts, 0nat,
    {
        let mut i: usize = 0;
        proof {
            lemma_stmts_view_index(stmts@);
            assert(stmts_view(stmts@).subrange(0, stmts.len() as int) =~= stmts_view(stmts@));
        }
        while i < stmts.len()
            invariant
                self.ok(),
                self.scope_ok(sc),
                self.grows(old(self), sc, old(sc)),
                i <= stmts.len(),
                !sc.top ==> self.globals@ == old(self).globals@,
                block_code(old(self).state(), scope_view(*old(sc)), stmts_view(stmts@)) == block_code(
                    self.state(),
                    scope_view(*sc),
                    stmts_view(stmts@).subrange(i as int, stmts.len() as int),
                ),
                block_scope(
                    stmts_view(stmts@),
                    old(sc).top,
                    own_name(old(sc).self_ref),
                    strs_view(old(sc).locals@),
                    strs_view(old(self).globals@),
                ) == block_scope(
                    stmts_view(stmts@).subrange(i as int, stmts.len() as int),
                    sc.top,
                    own_name(sc.self_ref),
                    strs_view(sc.locals@),
                    strs_view(self.globals@),
                ),
            decreases stmts.len() - i,
        {
            proof {
                assert(decreases_to!(*stmts => stmts[i as int]));
                lemma_stmts_view_index(stmts@);
                let rest = stmts_view(stmts@).subrange(i as int, stmts.len() as int);
                assert(rest[0] == stmt_view(stmts@[i as int]));
                assert(rest.subrange(1, rest.len() as int) =~= stmts_view(stmts@).subrange(
                    i + 1,
                    stmts.len() as int,
                ));
            }
            let ghost cb = self.state();
            let ghost sb = scope_view(*sc);
            match self.compile_stmt(sc, &stmts[i]) {
                Ok(()) => {},
                Err(err) => {
                    proof {
                        lemma_stmts_view_index(stmts@);
                        let rest = stmts_view(stmts@).subrange(i as int, stmts.len() as int);
                        assert(rest[0] == stmt_view(stmts@[i as int]));
                        assert(stmt_code(cb, sb, rest[0]) is None);
                        assert(block_code(cb, sb, rest) is None);
                    }
                    return Err(err);
                },
            }
            i = i + 1;
        }
        Ok(())
    }

    /// Emits code for one statement; it leaves the stack as it found it.
    fn compile_stmt(&mut self, sc: &mut Scope, s: &Stmt) -> (r: Result<(), CompileError>)
        requires
            old(self).ok(),
            old(self).scope_ok(old(sc)),
        ensures
            r matches Err(e) ==> name_error(e),
            final(self).ok(),
            final(self).scope_ok(final(sc)),
            final(self).grows(old(self), final(sc), old(sc)),
            !old(sc).top ==> final(self).globals@ == old(self).globals@,
            match stmt_scope(
                stmt_view(*s),
                old(sc).top,
                own_name(old(sc).self_ref),
                strs_view(old(sc).locals@),
                strs_view(old(self).globals@),
            ) {
                Some((l, g)) => r is Ok && strs_view(final(sc).locals@) == l && strs_view(
                    final(self).globals@,
                ) == g,
                None => r is Err,
            },
            match stmt_code(old(self).state(), scope_view(*old(sc)), stmt_view(*s)) {
                Some((c, s2)) => r is Ok && final(self).state() == c && scope_view(*final(sc)) == s2,
                None => r is Err,
            },
        decreases s, 0nat,
    {
        match s {
            Stmt::LetDecl(name, value) => {
                self.compile_expr(sc, value)?;
                if sc.top {
                    self.declare_global(sc, name)?;
                    assert(strs_view(self.globals@)[strs_view(self.globals@).len() - 1] == name@);
                    self.compile_store(sc, name)?;
                } else {
                    self.declare_local(sc, name)?;
                    assert(strs_view(sc.locals@)[strs_view(sc.locals@).len() - 1] == name@);
                    self.compile_store(sc, name)?;
                }
                self.emit(sc, Instr::Pop);
                Ok(())
            },
            Stmt::FnDef(name, params, body) => {
                proof {
                    assert(decreases_to!(*s => (*s)->FnDef_2));
                }
                self.compile_fn_def(sc, name, params, body)
            },
            Stmt::If(cond, then_block, else_block) => {
                proof {
                    assert(decreases_to!(*s => (*s)->If_1));
                    assert(decreases_to!(*s => (*s)->If_2));
                }
                self.compile_expr(sc, cond)?;
                let j = self.emit_jump(sc, true);
                self.compile_block(sc, then_block)?;
                proof {
                    self.lemma_scope_grow(sc, self);
                }
                match else_block {
                    Some(otherwise) => {
                        proof {
                            assert(decreases_to!((*s)->If_2 => otherwise));
                        }
                        let k = self.emit_jump(sc, false);
                        let t = sc.code.len();
                        self.patch(sc, j, t, true);
                        self.compile_block(sc, otherwise)?;
                        let t = sc.code.len();
                        self.patch(sc, k, t, false);
                    },
                    None => {
                        let t = sc.code.len();
                        self.patch(sc, j, t, true);
                    },
                }
                Ok(())
            },
            Stmt::Return(value) => {
                match value {
                    Some(v) => {
                        self.compile_expr(sc, v)?;
                    },
                    None => {
                        self.emit(sc, Instr::LoadUnit);
                    },
                }
                self.emit(sc, Instr::Return);
                Ok(())
            },
            Stmt::ExprStatement(e) => {
                self.compile_expr(sc, e)?;
                self.emit(sc, Instr::Pop);
                Ok(())
            },
        }
    }

    /// Compiles a function body into a code object of the function table,
    /// and emits code that stores the function in its name. The name is bound
    /// before the body is compiled, and the body sees its own name, so the
    /// function can call itself.
    fn compile_fn_def(
        &mut self,
        sc: &mut Scope,
        name: &String,
        params: &Vec<String>,
        body: &Vec<Stmt>,
    ) -> (r: Result<(), CompileError>)
        requires
            old(self).ok(),
            old(self).scope_ok(old(sc)),
        ensures
            r matches Err(e) ==> name_error(e),
            final(self).ok(),
            final(self).scope_ok(final(sc)),
            final(self).grows(old(self), final(sc), old(sc)),
            !old(sc).top ==> final(self).globals@ == old(self).globals@,
            match fn_def_scope(
                name@,
                strs_view(params@),
                stmts_view(body@),
                old(sc).top,
                strs_view(old(sc).locals@),
                strs_view(old(self).globals@),
            ) {
                Some((l, g)) => r is Ok && strs_view(final(sc).locals@) == l && strs_view(
                    final(self).globals@,
                ) == g,
                None => r is Err,
            },
            match fn_code(
                old(self).state(),
                scope_view(*old(sc)),
                name@,
                strs_view(params@),
                stmts_view(body@),
            ) {
                Some((c, s2)) => r is Ok && final(self).state() == c && scope_view(*final(sc)) == s2,
                None => r is Err,
            },
        decreases body, 1nat,
    {
        let slot = if sc.top {
            self.declare_global(sc, name)?
        } else {
            self.declare_local(sc, name)?
        };
        let ghost c1 = self.state();
        let ghost s1 = scope_view(*sc);
        assert(declare_slot(old(self).state(), scope_view(*old(sc)), name@) == Some((c1, s1, slot)));
        let f = self.functions.len();
        let ghost before = *self;
        self.functions.push(CodeObject { code: Vec::new(), arity: 0, n_slots: 0 });
        assert(self.state().functions =~= c1.functions.push(
            CodeView { code: Seq::empty(), arity: 0, n_slots: 0 },
        ));
        proof {
            assert forall|g: int| 0 <= g < self.functions.len() implies code_object_ok(
                #[trigger] self.functions@[g],
                self.constants.len() as int,
                self.globals.len() as int,
            ) by {
                if g < f {
                    assert(self.functions@[g] == before.functions@[g]);
                }
            }
            assert forall|k: int| 0 <= k < self.constants.len() implies constant_ok(
                #[trigger] self.constants@[k],
                self.functions.len() as int,
            ) by {
                assert(constant_ok(before.constants@[k], before.functions.len() as int));
            }
        }
        let k = self.add_constant(Constant::Function(f));
        let mut inner = Scope {
            code: Vec::new(),
            locals: Vec::new(),
            self_ref: Some((name.clone(), k)),
            top: false,
        };
        let mut i: usize = 0;
        while i < params.len()
            invariant
                self.ok(),
                self.scope_ok(sc),
                self.grows(old(self), sc, old(sc)),
                sc.top ==> slot < self.globals.len(),
                !sc.top ==> slot < sc.locals.len(),
                self.scope_ok(&inner),
                !inner.top,
                inner.code.len() == 0,
                inner.locals.len() == i,
                i <= params.len(),
                own_name(inner.self_ref) == Some(name@),
                scope_view(inner).own == Some((name@, k)),
                !sc.top ==> self.globals@ == old(self).globals@,
                strs_view(inner.locals@) == strs_view(params@.subrange(0, i as int)),
                distinct_names(strs_view(params@.subrange(0, i as int))),
            decreases params.len() - i,
        {
            let ghost before = strs_view(inner.locals@);
            match self.declare_local(&mut inner, &params[i]) {
                Ok(_) => {},
                Err(e) => {
                    proof {
                        let j = choose|j: int| 0 <= j < before.len() && before[j] == params@[i as int]@;
                        assert(strs_view(params@)[j] == strs_view(params@)[i as int]);
                        assert(strs_view(params@)[j] == before[j]);
                    }
                    return Err(e);
                },
            }
            proof {
                assert(strs_view(params@.subrange(0, i + 1)) =~= before.push(params@[i as int]@));
                let grown = before.push(params@[i as int]@);
                assert forall|a: int, b: int|
                    0 <= a < b < grown.len() implies #[trigger] grown[a] != #[trigger] grown[b] by {
                    if b == i {
                        assert(grown[a] == before[a]);
                    } else {
                        assert(grown[a] == before[a]);
                        assert(grown[b] == before[b]);
                    }
                }
            }
            i = i + 1;
        }
        assert(params@.subrange(0, params.len() as int) =~= params@);
        let ghost mid = *self;
        assert(inner.code@ =~= Seq::<Instr>::empty());
        assert(params@.subrange(0, params.len() as int) =~= params@);
        assert(scope_view(inner) == SScope {
            code: Seq::empty(),
            locals: strs_view(params@),
            own: Some((name@, k)),
            top: false,
        });
        self.compile_block(&mut inner, body)?;
        self.emit(&mut inner, Instr::LoadUnit);
        self.emit(&mut inner, Instr::Return);
        let n_slots = inner.locals.len();
        let code = CodeObject { code: inner.code, arity: params.len(), n_slots };
        let ghost before_set = *self;
        self.functions.set(f, code);
        assert(self.state().functions =~= before_set.state().functions.update(f as int, code@));
        proof {
            assert forall|g: int| 0 <= g < self.functions.len() implies code_object_ok(
                #[trigger] self.functions@[g],
                self.constants.len() as int,
                self.globals.len() as int,
            ) by {
                if g != f {
                    assert(self.functions@[g] == before_set.functions@[g]);
                }
            }
            self.lemma_scope_grow(sc, old(self));
        }
        self.emit(sc, Instr::LoadConst(k));
        if sc.top {
            self.emit(sc, Instr::StoreGlobal(slot));
        } else {
            self.emit(sc, Instr::StoreLocal(slot));
        }
        self.emit(sc, Instr::Pop);
        Ok(())
    }

    /// A scope stays in order while the tables grow.
    proof fn lemma_scope_grow(&self, sc: &Scope, old: &Compiler)
        requires
            old.scope_ok(sc),
            self.constants.len() >= old.constants.len(),
            self.globals.len() >= old.globals.len(),
        ensures
            self.scope_ok(sc),
    {
        lemma_code_ok_grow(
            sc.code@,
            old.constants.len() as int,
            sc.locals.len() as int,
            old.globals.len() as int,
            self.constants.len() as int,
            sc.locals.len() as int,
            self.globals.len() as int,
        );
    }

    /// Adds `k` to the constant pool, reusing an equal number or string.
    fn add_constant(&mut self, k: Constant) -> (r: usize)
        requires
            old(self).ok(),
            constant_ok(k, old(self).functions.len() as int),
        ensures
            final(self).ok(),
            r < final(self).constants.len(),
            final(self).constants.len() >= old(self).constants.len(),
            final(self).functions@ == old(self).functions@,
            final(self).globals@ == old(self).globals@,
            (final(self).state().constants, r) == add_const(old(self).state().constants, k@),
    {
        let ghost pool = old(self).state().constants;
        let mut i: usize = 0;
        while i < self.constants.len()
            invariant
                i <= self.constants.len(),
                *self == *old(self),
                self.ok(),
                forall|j: int| 0 <= j < i ==> !literal_eq(#[trigger] self.constants@[j], k),
                pool == self.state().constants,
                literal_from(pool, k@, 0) == literal_from(pool, k@, i as int),
            decreases self.constants.len() - i,
        {
            assert(pool[i as int] == self.constants@[i as int]@);
            assert(literal_eq_v(pool[i as int], k@) == literal_eq(self.constants@[i as int], k));
            if same_literal(&self.constants[i], &k) {
                return i;
            }
            i = i + 1;
        }
        let ghost before = *self;
        self.constants.push(k);
        proof {
            assert(self.state().constants =~= pool.push(k@));
            assert forall|a: int, b: int|
                0 <= a < b < self.constants.len() implies !literal_eq(
                #[trigger] self.constants@[a],
                #[trigger] self.constants@[b],
            ) by {
                assert(self.constants@[a] == before.constants@[a]);
                if b < before.constants.len() {
                    assert(self.constants@[b] == before.constants@[b]);
                }
            }
            assert forall|j: int| 0 <= j < self.constants.len() implies constant_ok(
                #[trigger] self.constants@[j],
                self.functions.len() as int,
            ) by {
                if j < before.constants.len() {
                    assert(self.constants@[j] == before.constants@[j]);
                }
            }
            self.lemma_ok_grow(&before);
        }
        self.constants.len() - 1
    }
}

/// Compiles a parsed program. Its top level is the body of the entry code
/// object: a `return` there ends the run with its value, and falling off the
/// end returns unit. Top-level `let`s and functions are globals, visible to
/// every later statement and to the bodies of functions defined after them.
/// A function body has its own slots for parameters and `let`s; there a name
/// is looked up among them, then as the function's own name, then among the
/// globals declared so far. Assigning to a global from inside a function
/// changes the global.
pub fn compile_program(program: &Vec<Stmt>) -> (r: Result<ByteCode, CompileError>)
    ensures
        match compiled(stmts_view(program@)) {
            Some(v) => r matches Ok(b) && b@ == v,
            None => r is Err,
        },
        r matches Ok(b) ==> b.main.arity == 0 && b.main.n_slots == 0 && b.n_globals == block_scope(
            stmts_view(program@),
            true,
            None,
            Seq::empty(),
            Seq::empty(),
        )->Some_0.1.len(),
        r matches Ok(b) ==> pool_distinct(b.constants@),
        r matches Err(e) ==> name_error(e),
        r matches Ok(b) ==> b.wf(),
        r is Ok <==> compiles(stmts_view(program@)),
{
    let mut c = Compiler { constants: Vec::new(), functions: Vec::new(), globals: Vec::new() };
    let mut sc = Scope { code: Vec::new(), locals: Vec::new(), self_ref: None, top: true };
    assert(strs_view(c.globals@) =~= Seq::<Seq<char>>::empty());
    assert(strs_view(sc.locals@) =~= Seq::<Seq<char>>::empty());
    assert(c.state().constants =~= Seq::<ConstView>::empty());
    assert(c.state().functions =~= Seq::<CodeView>::empty());
    assert(c.state() == CState {
        constants: Seq::empty(),
        functions: Seq::empty(),
        globals: Seq::empty(),
    });
    assert(scope_view(sc) == SScope {
        code: Seq::empty(),
        locals: Seq::empty(),
        own: None,
        top: true,
    });
    c.compile_block(&mut sc, program)?;
    let ghost mid = scope_view(sc);
    c.emit(&mut sc, Instr::LoadUnit);
    c.emit(&mut sc, Instr::Return);
    let b = ByteCode {
        constants: c.constants,
        functions: c.functions,
        n_globals: c.globals.len(),
        main: CodeObject { code: sc.code, arity: 0, n_slots: 0 },
    };
    assert(b@.constants == c.state().constants);
    assert(b@.functions == c.state().functions);
    assert(b@.main.code == mid.code.push(Instr::LoadUnit).push(Instr::Return));
    Ok(b)
}

/// Compiles a token sequence: parses it, then compiles the tree.
pub fn compile_tokens(tokens: &Vec<Token>) -> (r: Result<ByteCode, CompileError>)
    ensures
        r matches Ok(b) ==> b.wf(),
        match program_tree(token_views(tokens@)) {
            Err(e) => r == Err::<ByteCode, CompileError>(CompileError::Parse(e)),
            Ok(t) => (r is Ok <==> compiles(t)) && (r matches Err(x) ==> name_error(x)) && match compiled(t) {
                Some(v) => r matches Ok(b) && b@ == v,
                None => r is Err,
            },
        },
        r matches Ok(b) ==> b.wf() && pool_distinct(b.constants@),
{
    match parse(tokens) {
        Ok(program) => compile_program(&program),
        Err(e) => Err(CompileError::Parse(e)),
    }
}

/// The tree of a source text, or the lexical or parse error that stops it.
pub open spec fn source_tree(s: Seq<char>) -> Result<Seq<StmtView>, CompileError> {
    match lex(s) {
        Err(e) => Err(CompileError::Lex(e)),
        Ok(ts) => match program_tree(ts) {
            Err(e) => Err(CompileError::Parse(e)),
            Ok(t) => Ok(t),
        },
    }
}

/// Compiles source text: splits it into tokens, parses and compiles them.
pub fn compile(source: &str) -> (r: Result<ByteCode, CompileError>)
    ensures
        r matches Ok(b) ==> b.wf(),
        match source_tree(source@) {
            Err(e) => r == Err::<ByteCode, CompileError>(e),
            Ok(t) => (r is Ok <==> compiles(t)) && (r matches Err(x) ==> name_error(x)) && match compiled(t) {
                Some(v) => r matches Ok(b) && b@ == v,
                None => r is Err,
            },
        },
        r matches Ok(b) ==> b.wf() && pool_distinct(b.constants@),
{
    match tokenize(source) {
        Ok(tokens) => compile_tokens(&tokens),
        Err(e) => Err(CompileError::Lex(e)),
    }
}

/// Two pool entries are the same number or the same string.
pub open spec fn literal_eq(a: Constant, b: Constant) -> bool {
    match (a, b) {
        (Constant::Number(x), Constant::Number(y)) => x == y,
        (Constant::Str(x), Constant::Str(y)) => x@ == y@,
        _ => false,
    }
}

/// No number or string stands twice in the pool.
pub open spec fn pool_distinct(pool: Seq<Constant>) -> bool {
    forall|i: int, j: int|
        0 <= i < j < pool.len() ==> !literal_eq(#[trigger] pool[i], #[trigger] pool[j])
}

fn same_literal(a: &Constant, b: &Constant) -> (r: bool)
    ensures
        r == literal_eq(*a, *b),
{
    match (a, b) {
        (Constant::Number(x), Constant::Number(y)) => *x == *y,
        (Constant::Str(x), Constant::Str(y)) => *x == *y,
        _ => false,
    }
}

/// Index of the entry of `names` spelled like `name`, if any.
fn lookup(table: &Vec<String>, name: &String) -> (r: Option<usize>)
    ensures
        match r {
            Some(i) => i < table.len() && table@[i as int]@ == name@,
            None => forall|i: int| 0 <= i < table.len() ==> (#[trigger] table@[i])@ != name@,
        },
        r is Some <==> strs_view(table@).contains(name@),
        r == first_from(strs_view(table@), name@, 0),
{
    let mut i: usize = 0;
    while i < table.len()
        invariant
            i <= table.len(),
            forall|j: int| 0 <= j < i ==> (#[trigger] table@[j])@ != name@,
            first_from(strs_view(table@), name@, 0) == first_from(strs_view(table@), name@, i as int),
        decreases table.len() - i,
    {
        assert(strs_view(table@)[i as int] == table@[i as int]@);
        if table[i] == *name {
            assert(strs_view(table@)[i as int] == name@);
            return Some(i);
        }
        i = i + 1;
    }
    assert forall|j: int| 0 <= j < strs_view(table@).len() implies strs_view(table@)[j] != name@ by {
        assert(strs_view(table@)[j] == table@[j]@);
    }
    None
}

} // verus!
