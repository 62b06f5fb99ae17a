use vstd::prelude::*;
use crate::ast::{BinOp, ExprView, StmtView};
use crate::bytecode::{ByteCodeView, CodeView, ConstView, Instr};
use crate::compiler::distinct_names;

verus! {

/// The compiler's tables as mathematical values.
pub struct CState {
    pub constants: Seq<ConstView>,
    pub functions: Seq<CodeView>,
    pub globals: Seq<Seq<char>>,
}

/// The code object being emitted, as a mathematical value: its code, the
/// names of its slots, its own name with the constant that holds it, and
/// whether it is the top level.
pub struct SScope {
    pub code: Seq<Instr>,
    pub locals: Seq<Seq<char>>,
    pub own: Option<(Seq<char>, usize)>,
    pub top: bool,
}

/// The first index from `i` on where `s` holds `x`.
pub open spec fn first_from(s: Seq<Seq<char>>, x: Seq<char>, i: int) -> Option<usize>
    decreases s.len() - i,
{
    if i < 0 || i >= s.len() {
        None
    } else if s[i] == x {
        Some(i as usize)
    } else {
        first_from(s, x, i + 1)
    }
}

pub open spec fn literal_eq_v(a: ConstView, b: ConstView) -> bool {
    match (a, b) {
        (ConstView::Number(x), ConstView::Number(y)) => x == y,
        (ConstView::Str(x), ConstView::Str(y)) => x == y,
        _ => false,
    }
}

/// The first index from `i` on of an equal number or string.
pub open spec fn literal_from(pool: Seq<ConstView>, k: ConstView, i: int) -> Option<usize>
    decreases pool.len() - i,
{
    if i < 0 || i >= pool.len() {
        None
    } else if literal_eq_v(pool[i], k) {
        Some(i as usize)
    } else {
        literal_from(pool, k, i + 1)
    }
}

/// The pool after adding `k`, and the index that holds it: an equal number
/// or string is reused.
pub open spec fn add_const(pool: Seq<ConstView>, k: ConstView) -> (Seq<ConstView>, usize) {
    match literal_from(pool, k, 0) {
        Some(i) => (pool, i),
        None => (pool.push(k), pool.len() as usize),
    }
}

pub open spec fn with_pool(cs: CState, pool: Seq<ConstView>) -> CState {
    CState { constants: pool, functions: cs.functions, globals: cs.globals }
}

pub open spec fn push_code(sc: SScope, i: Instr) -> SScope {
    SScope { code: sc.code.push(i), locals: sc.locals, own: sc.own, top: sc.top }
}

pub open spec fn set_code(sc: SScope, j: int, i: Instr) -> SScope {
    SScope { code: sc.code.update(j, i), locals: sc.locals, own: sc.own, top: sc.top }
}

/// The instruction that loads `n`: a slot, the function's own constant, or
/// a global, tried in that order.
pub open spec fn load_instr(cs: CState, sc: SScope, n: Seq<char>) -> Option<Instr> {
    match first_from(sc.locals, n, 0) {
        Some(s) => Some(Instr::LoadLocal(s)),
        None => match sc.own {
            Some((o, k)) if o == n => Some(Instr::LoadConst(k)),
            _ => match first_from(cs.globals, n, 0) {
                Some(g) => Some(Instr::LoadGlobal(g)),
                None => None,
            },
        },
    }
}

pub open spec fn store_instr(cs: CState, sc: SScope, n: Seq<char>) -> Option<Instr> {
    match first_from(sc.locals, n, 0) {
        Some(s) => Some(Instr::StoreLocal(s)),
        None => match first_from(cs.globals, n, 0) {
            Some(g) => Some(Instr::StoreGlobal(g)),
            None => None,
        },
    }
}

pub open spec fn op_instr(op: BinOp) -> Instr {
    match op {
        BinOp::Add => Instr::Add,
        BinOp::Sub => Instr::Sub,
        BinOp::Mul => Instr::Mul,
        BinOp::Div => Instr::Div,
        BinOp::Eq => Instr::Eq,
    }
}

/// Declares `n` as a global at top level, else as a new slot; gives the
/// new state and the index, or `None` for a repeated name.
pub open spec fn declare_slot(cs: CState, sc: SScope, n: Seq<char>) -> Option<(CState, SScope, usize)> {
    if sc.top {
        if cs.globals.contains(n) {
            None
        } else {
            Some(
                (
                    CState { constants: cs.constants, functions: cs.functions, globals: cs.globals.push(n) },
                    sc,
                    cs.globals.len() as usize,
                ),
            )
        }
    } else {
        if sc.locals.contains(n) {
            None
        } else {
            Some(
                (
                    cs,
                    SScope { code: sc.code, locals: sc.locals.push(n), own: sc.own, top: sc.top },
                    sc.locals.len() as usize,
                ),
            )
        }
    }
}

/// The emission rules: the state after compiling `e`, which leaves its
/// value on the stack; `None` where a name does not resolve.
pub open spec fn expr_code(cs: CState, sc: SScope, e: ExprView) -> Option<(CState, SScope)>
    decreases e, 0nat,
{
    match e {
        ExprView::Number(n) => {
            let (pool, k) = add_const(cs.constants, ConstView::Number(n));
            Some((with_pool(cs, pool), push_code(sc, Instr::LoadConst(k))))
        },
        ExprView::Str(t) => {
            let (pool, k) = add_const(cs.constants, ConstView::Str(t));
            Some((with_pool(cs, pool), push_code(sc, Instr::LoadConst(k))))
        },
        ExprView::Bool(b) => Some((cs, push_code(sc, Instr::LoadBool(b)))),
        ExprView::Identifier(n) => match load_instr(cs, sc, n) {
            Some(i) => Some((cs, push_code(sc, i))),
            None => None,
        },
        ExprView::Assign(n, v) => match expr_code(cs, sc, *v) {
            Some((c1, s1)) => match store_instr(c1, s1, n) {
                Some(i) => Some((c1, push_code(s1, i))),
                None => None,
            },
            None => None,
        },
        ExprView::BinaryOp(op, a, b) => match expr_code(cs, sc, *a) {
            Some((c1, s1)) => match expr_code(c1, s1, *b) {
                Some((c2, s2)) => Some((c2, push_code(s2, op_instr(op)))),
                None => None,
            },
            None => None,
        },
        ExprView::Call(c, args) => match load_instr(cs, sc, c) {
            Some(i) => match args_code(cs, push_code(sc, i), args) {
                Some((c1, s1)) => Some((c1, push_code(s1, Instr::Call(args.len() as usize)))),
                None => None,
            },
            None => None,
        },
    }
}

pub open spec fn args_code(cs: CState, sc: SScope, args: Seq<ExprView>) -> Option<(CState, SScope)>
    decreases args, 1nat,
{
    if args.len() == 0 {
        Some((cs, sc))
    } else {
        match expr_code(cs, sc, args[0]) {
            Some((c1, s1)) => args_code(c1, s1, args.subrange(1, args.len() as int)),
            None => None,
        }
    }
}

/// The state after compiling statement `s`, which leaves the stack as it
/// found it. An `if` emits its condition, a conditional jump past the
/// then-block (and past the jump that skips the else-block), the then-block,
/// and then the else-block; jump targets are fixed once known.
pub open spec fn stmt_code(cs: CState, sc: SScope, s: StmtView) -> Option<(CState, SScope)>
    decreases s, 0nat,
{
    match s {
        StmtView::LetDecl(n, v) => match expr_code(cs, sc, v) {
            Some((c1, s1)) => match declare_slot(c1, s1, n) {
                Some((c2, s2, _)) => match store_instr(c2, s2, n) {
                    Some(i) => Some((c2, push_code(push_code(s2, i), Instr::Pop))),
                    None => None,
                },
                None => None,
            },
            None => None,
        },
        StmtView::FnDef(n, ps, body) => fn_code(cs, sc, n, ps, body),
        StmtView::If(c, t, e) => match expr_code(cs, sc, c) {
            Some((c1, s1)) => {
                let j = s1.code.len() as int;
                let s2 = push_code(s1, Instr::JumpIfFalse((j + 1) as usize));
                match block_code(c1, s2, t) {
                    Some((c3, s3)) => match e {
                        None => Some((c3, set_code(s3, j, Instr::JumpIfFalse(s3.code.len() as usize)))),
                        Some(eb) => {
                            let k = s3.code.len() as int;
                            let s4 = set_code(
                                push_code(s3, Instr::Jump((k + 1) as usize)),
                                j,
                                Instr::JumpIfFalse((k + 1) as usize),
                            );
                            match block_code(c3, s4, eb) {
                                Some((c5, s5)) => Some(
                                    (c5, set_code(s5, k, Instr::Jump(s5.code.len() as usize))),
                                ),
                                None => None,
                            }
                        },
                    },
                    None => None,
                }
            },
            None => None,
        },
        StmtView::Return(v) => match v {
            Some(x) => match expr_code(cs, sc, x) {
                Some((c1, s1)) => Some((c1, push_code(s1, Instr::Return))),
                None => None,
            },
            None => Some((cs, push_code(push_code(sc, Instr::LoadUnit), Instr::Return))),
        },
        StmtView::ExprStatement(x) => match expr_code(cs, sc, x) {
            Some((c1, s1)) => Some((c1, push_code(s1, Instr::Pop))),
            None => None,
        },
    }
}

/// A function definition: the name is declared first; a placeholder takes
/// the next index of the function table and the function's constant is
/// added; the body is compiled in a new code object whose slots start with
/// the parameters, ending with a unit return; then the enclosing code
/// stores the function in its name.
pub open spec fn fn_code(
    cs: CState,
    sc: SScope,
    n: Seq<char>,
    ps: Seq<Seq<char>>,
    body: Seq<StmtView>,
) -> Option<(CState, SScope)>
    decreases body, 2nat,
{
    match declare_slot(cs, sc, n) {
        Some((c1, s1, slot)) => {
            let f = c1.functions.len() as usize;
            let c2 = CState {
                constants: c1.constants,
                functions: c1.functions.push(CodeView { code: Seq::empty(), arity: 0, n_slots: 0 }),
                globals: c1.globals,
            };
            let (pool, k) = add_const(c2.constants, ConstView::Function(f));
            let c3 = with_pool(c2, pool);
            if !distinct_names(ps) {
                None
            } else {
                let inner = SScope { code: Seq::empty(), locals: ps, own: Some((n, k)), top: false };
                match block_code(c3, inner, body) {
                    Some((c4, i4)) => {
                        let code = CodeView {
                            code: i4.code.push(Instr::LoadUnit).push(Instr::Return),
                            arity: ps.len() as usize,
                            n_slots: i4.locals.len() as usize,
                        };
                        let c5 = CState {
                            constants: c4.constants,
                            functions: c4.functions.update(f as int, code),
                            globals: c4.globals,
                        };
                        let store = if s1.top {
                            Instr::StoreGlobal(slot)
                        } else {
                            Instr::StoreLocal(slot)
                        };
                        Some(
                            (
                                c5,
                                push_code(
                                    push_code(push_code(s1, Instr::LoadConst(k)), store),
                                    Instr::Pop,
                                ),
                            ),
                        )
                    },
                    None => None,
                }
            }
        },
        None => None,
    }
}

pub open spec fn block_code(cs: CState, sc: SScope, ss: Seq<StmtView>) -> Option<(CState, SScope)>
    decreases ss, 1nat,
{
    if ss.len() == 0 {
        Some((cs, sc))
    } else {
        match stmt_code(cs, sc, ss[0]) {
            Some((c1, s1)) => block_code(c1, s1, ss.subrange(1, ss.len() as int)),
            None => None,
        }
    }
}

/// The program that a tree compiles to: the top level is the entry code
/// object, ending with a unit return.
pub open spec fn compiled(t: Seq<StmtView>) -> Option<ByteCodeView> {
    let cs = CState { constants: Seq::empty(), functions: Seq::empty(), globals: Seq::empty() };
    let sc = SScope { code: Seq::empty(), locals: Seq::empty(), own: None, top: true };
    match block_code(cs, sc, t) {
        Some((c, s)) => Some(
            ByteCodeView {
                constants: c.constants,
                functions: c.functions,
                n_globals: c.globals.len() as usize,
                main: CodeView {
                    code: s.code.push(Instr::LoadUnit).push(Instr::Return),
                    arity: 0,
                    n_slots: 0,
                },
            },
        ),
        None => None,
    }
}

} // verus!
