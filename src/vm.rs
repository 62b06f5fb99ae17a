use vstd::prelude::*;
use crate::ast::BinOp;
use crate::bytecode::{code_object_ok, instr_ok, ByteCode, CodeObject, Constant, Instr};

verus! {

/// The deepest nesting of calls a run allows; the top level is depth 0.
pub const MAX_CALL_DEPTH: usize = 128;

/// A runtime value.
#[derive(Debug, Clone, PartialEq)]
pub enum Value {
    Number(i64),
    Str(String),
    Bool(bool),
    /// The code object at this index of the program's function table.
    Function(usize),
    Unit,
}

/// Why a run stopped before its top level returned.
#[derive(Debug, Clone, Copy, PartialEq, Eq, Structural)]
pub enum RuntimeError {
    /// An operand or condition of the wrong kind, or a call of a value that
    /// is not a function.
    TypeError,
    /// A call with a number of arguments other than the callee's arity.
    ArityError { expected: usize, got: usize },
    /// A call beyond the depth bound.
    StackOverflow,
    /// A result outside the 64-bit range.
    Overflow,
    /// A division by zero. Numbers are 64-bit integers here, not IEEE
    /// floats, so there is no infinity or NaN to give instead.
    DivisionByZero,
    /// An instruction found fewer operands than it takes; compiled programs
    /// never do this.
    StackUnderflow,
}

impl Value {
    /// A copy of the value.
    pub fn copy(&self) -> (r: Value)
        ensures
            r == *self,
    {
        match self {
            Value::Number(n) => Value::Number(*n),
            Value::Str(s) => Value::Str(s.clone()),
            Value::Bool(b) => Value::Bool(*b),
            Value::Function(f) => Value::Function(*f),
            Value::Unit => Value::Unit,
        }
    }
}

/// A function value names a code object of the program.
pub open spec fn value_ok(v: Value, n_functions: int) -> bool {
    v matches Value::Function(f) ==> f < n_functions
}

pub open spec fn values_ok(vs: Seq<Value>, n_functions: int) -> bool {
    forall|i: int| 0 <= i < vs.len() ==> value_ok(#[trigger] vs[i], n_functions)
}

pub open spec fn number_or_overflow(r: Option<i64>) -> Result<Value, RuntimeError> {
    match r {
        Some(n) => Ok(Value::Number(n)),
        None => Err(RuntimeError::Overflow),
    }
}

/// What a binary operator gives: arithmetic and equality take numbers only;
/// arithmetic is checked, division truncates toward zero.
pub open spec fn binary_result(op: BinOp, a: Value, b: Value) -> Result<Value, RuntimeError> {
    match (a, b) {
        (Value::Number(x), Value::Number(y)) => match op {
            BinOp::Add => number_or_overflow(x.checked_add(y)),
            BinOp::Sub => number_or_overflow(x.checked_sub(y)),
            BinOp::Mul => number_or_overflow(x.checked_mul(y)),
            BinOp::Div => if y == 0 {
                Err(RuntimeError::DivisionByZero)
            } else {
                number_or_overflow(x.checked_div(y))
            },
            BinOp::Eq => Ok(Value::Bool(x == y)),
        },
        _ => Err(RuntimeError::TypeError),
    }
}

/// Applies a binary operator to two values.
pub fn binary_op(op: BinOp, a: Value, b: Value) -> (r: Result<Value, RuntimeError>)
    ensures
        r == binary_result(op, a, b),
{
    match (a, b) {
        (Value::Number(x), Value::Number(y)) => match op {
            BinOp::Add => match x.checked_add(y) {
                Some(n) => Ok(Value::Number(n)),
                None => Err(RuntimeError::Overflow),
            },
            BinOp::Sub => match x.checked_sub(y) {
                Some(n) => Ok(Value::Number(n)),
                None => Err(RuntimeError::Overflow),
            },
            BinOp::Mul => match x.checked_mul(y) {
                Some(n) => Ok(Value::Number(n)),
                None => Err(RuntimeError::Overflow),
            },
            BinOp::Div => if y == 0 {
                Err(RuntimeError::DivisionByZero)
            } else {
                match x.checked_div(y) {
                    Some(n) => Ok(Value::Number(n)),
                    None => Err(RuntimeError::Overflow),
                }
            },
            BinOp::Eq => Ok(Value::Bool(x == y)),
        },
        _ => Err(RuntimeError::TypeError),
    }
}

/// What a call of `callee` with `argc` arguments at call depth `depth`
/// (that of the caller) does before the callee runs: the callee must be a
/// function of matching arity, and the new depth must stay in bound.
pub open spec fn call_check(
    callee: Value,
    argc: int,
    depth: int,
    functions: Seq<CodeObject>,
) -> Result<usize, RuntimeError> {
    match callee {
        Value::Function(f) => if f >= functions.len() {
            Err(RuntimeError::TypeError)
        } else if functions[f as int].arity != argc {
            Err(RuntimeError::ArityError { expected: functions[f as int].arity, got: argc as usize })
        } else if depth + 1 > MAX_CALL_DEPTH {
            Err(RuntimeError::StackOverflow)
        } else {
            Ok(f)
        },
        _ => Err(RuntimeError::TypeError),
    }
}

/// Checks a call before its frame is made; gives the callee's index.
pub fn check_call(callee: &Value, argc: usize, depth: usize, program: &ByteCode) -> (r: Result<
    usize,
    RuntimeError,
>)
    ensures
        r == call_check(*callee, argc as int, depth as int, program.functions@),
{
    match callee {
        Value::Function(f) => {
            let f = *f;
            if f >= program.functions.len() {
                Err(RuntimeError::TypeError)
            } else if program.functions[f].arity != argc {
                Err(RuntimeError::ArityError { expected: program.functions[f].arity, got: argc })
            } else if depth >= MAX_CALL_DEPTH {
                Err(RuntimeError::StackOverflow)
            } else {
                Ok(f)
            }
        },
        _ => Err(RuntimeError::TypeError),
    }
}

pub open spec fn unit_seq(n: int) -> Seq<Value> {
    Seq::new(n as nat, |_i: int| Value::Unit)
}

pub open spec fn constant_to_value(k: Constant) -> Value {
    match k {
        Constant::Number(n) => Value::Number(n),
        Constant::Str(s) => Value::Str(s),
        Constant::Function(f) => Value::Function(f),
    }
}

/// Pops two operands and pushes the operator's result.
pub open spec fn binary_step(op: BinOp, stack: Seq<Value>) -> Result<Seq<Value>, RuntimeError> {
    if stack.len() < 2 {
        Err(RuntimeError::StackUnderflow)
    } else {
        match binary_result(op, stack[stack.len() - 2], stack[stack.len() - 1]) {
            Ok(v) => Ok(stack.subrange(0, stack.len() - 2).push(v)),
            Err(e) => Err(e),
        }
    }
}

pub open spec fn binop_of(i: Instr) -> BinOp {
    match i {
        Instr::Add => BinOp::Add,
        Instr::Sub => BinOp::Sub,
        Instr::Mul => BinOp::Mul,
        Instr::Div => BinOp::Div,
        _ => BinOp::Eq,
    }
}

/// The machine's meaning: running `code` from instruction `pc` with operand
/// stack `stack`, frame slots `locals` and globals `globals`, inside `depth`
/// calls, gives a result and the globals at the end. One case per
/// instruction; a call runs the callee in a new frame whose slots are the
/// arguments followed by units, then goes on with the returned value in
/// place of the callee and its arguments.
pub open spec fn run_from(
    p: ByteCode,
    code: CodeObject,
    pc: int,
    stack: Seq<Value>,
    locals: Seq<Value>,
    globals: Seq<Value>,
    depth: int,
) -> (Result<Value, RuntimeError>, Seq<Value>)
    decreases MAX_CALL_DEPTH - depth, code.code.len() - pc,
{
    if depth > MAX_CALL_DEPTH || pc < 0 || pc >= code.code.len() {
        (Ok(Value::Unit), globals)
    } else {
        let next = pc + 1;
        match code.code@[pc] {
            Instr::LoadConst(k) => run_from(
                p,
                code,
                next,
                stack.push(constant_to_value(p.constants@[k as int])),
                locals,
                globals,
                depth,
            ),
            Instr::LoadBool(b) => run_from(p, code, next, stack.push(Value::Bool(b)), locals, globals, depth),
            Instr::LoadUnit => run_from(p, code, next, stack.push(Value::Unit), locals, globals, depth),
            Instr::LoadLocal(s) => run_from(p, code, next, stack.push(locals[s as int]), locals, globals, depth),
            Instr::LoadGlobal(g) => run_from(p, code, next, stack.push(globals[g as int]), locals, globals, depth),
            Instr::StoreLocal(s) => if stack.len() == 0 {
                (Err(RuntimeError::StackUnderflow), globals)
            } else {
                run_from(p, code, next, stack, locals.update(s as int, stack.last()), globals, depth)
            },
            Instr::StoreGlobal(g) => if stack.len() == 0 {
                (Err(RuntimeError::StackUnderflow), globals)
            } else {
                run_from(p, code, next, stack, locals, globals.update(g as int, stack.last()), depth)
            },
            Instr::Add | Instr::Sub | Instr::Mul | Instr::Div | Instr::Eq => match binary_step(
                binop_of(code.code@[pc]),
                stack,
            ) {
                Ok(st) => run_from(p, code, next, st, locals, globals, depth),
                Err(e) => (Err(e), globals),
            },
            Instr::Jump(t) => if pc < t <= code.code.len() {
                run_from(p, code, t as int, stack, locals, globals, depth)
            } else {
                (Ok(Value::Unit), globals)
            },
            Instr::JumpIfFalse(t) => if stack.len() == 0 {
                (Err(RuntimeError::StackUnderflow), globals)
            } else {
                match stack.last() {
                    Value::Bool(b) => if b {
                        run_from(p, code, next, stack.drop_last(), locals, globals, depth)
                    } else if pc < t <= code.code.len() {
                        run_from(p, code, t as int, stack.drop_last(), locals, globals, depth)
                    } else {
                        (Ok(Value::Unit), globals)
                    },
                    _ => (Err(RuntimeError::TypeError), globals),
                }
            },
            Instr::Call(argc) => if stack.len() <= argc {
                (Err(RuntimeError::StackUnderflow), globals)
            } else {
                let base = stack.len() - argc;
                match call_check(stack[base - 1], argc as int, depth, p.functions@) {
                    Err(e) => (Err(e), globals),
                    Ok(f) => {
                        let callee = p.functions@[f as int];
                        let frame = stack.subrange(base, stack.len() as int) + unit_seq(
                            callee.n_slots - argc,
                        );
                        let (r, g2) = run_from(p, callee, 0, Seq::empty(), frame, globals, depth + 1);
                        match r {
                            Ok(v) => run_from(
                                p,
                                code,
                                next,
                                stack.subrange(0, base - 1).push(v),
                                locals,
                                g2,
                                depth,
                            ),
                            Err(e) => (Err(e), g2),
                        }
                    },
                }
            },
            Instr::Return => if stack.len() == 0 {
                (Err(RuntimeError::StackUnderflow), globals)
            } else {
                (Ok(stack.last()), globals)
            },
            Instr::Pop => if stack.len() == 0 {
                (Err(RuntimeError::StackUnderflow), globals)
            } else {
                run_from(p, code, next, stack.drop_last(), locals, globals, depth)
            },
        }
    }
}

/// The result of running a program in a fresh machine: the top-level code
/// at depth zero, with every global and slot unit.
pub open spec fn run_result(p: ByteCode) -> Result<Value, RuntimeError> {
    run_from(p, p.main, 0, Seq::empty(), unit_seq(p.main.n_slots as int), unit_seq(p.n_globals as int), 0).0
}

/// Arithmetic and equality refuse any operand that is not a number, with no
/// coercion: a string or a boolean beside a number is a type error.
pub proof fn lemma_operands_must_be_numbers(op: BinOp, a: Value, b: Value)
    requires
        !(a is Number && b is Number),
    ensures
        binary_result(op, a, b) == Err::<Value, RuntimeError>(RuntimeError::TypeError),
{
}

/// A call whose argument count differs from the callee's arity fails with
/// an arity error naming both counts; no argument is defaulted or dropped.
pub proof fn lemma_arity_enforced(f: usize, argc: int, depth: int, functions: Seq<CodeObject>)
    requires
        f < functions.len(),
        functions[f as int].arity != argc,
        0 <= argc <= usize::MAX,
    ensures
        call_check(Value::Function(f), argc, depth, functions) == Err::<usize, RuntimeError>(
            RuntimeError::ArityError { expected: functions[f as int].arity, got: argc as usize },
        ),
{
}

/// A call made at the depth bound fails with a stack overflow instead of
/// making another frame.
pub proof fn lemma_depth_bounded(f: usize, argc: int, depth: int, functions: Seq<CodeObject>)
    requires
        f < functions.len(),
        functions[f as int].arity == argc,
        depth >= MAX_CALL_DEPTH,
    ensures
        call_check(Value::Function(f), argc, depth, functions) == Err::<usize, RuntimeError>(
            RuntimeError::StackOverflow,
        ),
{
}

fn constant_value(k: &Constant) -> (r: Value)
    ensures
        match *k {
            Constant::Number(n) => r == Value::Number(n),
            Constant::Str(s) => r == Value::Str(s),
            Constant::Function(f) => r == Value::Function(f),
        },
{
    match k {
        Constant::Number(n) => Value::Number(*n),
        Constant::Str(s) => Value::Str(s.clone()),
        Constant::Function(f) => Value::Function(*f),
    }
}

fn units(n: usize) -> (r: Vec<Value>)
    ensures
        r@ == unit_seq(n as int),
{
    let mut r: Vec<Value> = Vec::new();
    while r.len() < n
        invariant
            r.len() <= n,
            forall|i: int| 0 <= i < r.len() ==> r@[i] == Value::Unit,
        decreases n - r.len(),
    {
        r.push(Value::Unit);
    }
    assert(r@ =~= unit_seq(n as int));
    r
}

/// Pops two operands and pushes the operator's result.
fn apply_binary(stack: &mut Vec<Value>, op: BinOp, n_functions: Ghost<int>) -> (r: Result<
    (),
    RuntimeError,
>)
    requires
        values_ok(old(stack)@, n_functions@),
    ensures
        values_ok(final(stack)@, n_functions@),
        old(stack).len() < 2 ==> r == Err::<(), RuntimeError>(RuntimeError::StackUnderflow),
        old(stack).len() >= 2 ==> {
            let n = old(stack).len() as int;
            match binary_result(op, old(stack)@[n - 2], old(stack)@[n - 1]) {
                Ok(v) => r is Ok && final(stack)@ == old(stack)@.subrange(0, n - 2).push(v),
                Err(e) => r == Err::<(), RuntimeError>(e),
            }
        },
{
    if stack.len() < 2 {
        return Err(RuntimeError::StackUnderflow);
    }
    let ghost s0 = stack@;
    let b = stack.pop().unwrap();
    let a = stack.pop().unwrap();
    assert(stack@ == s0.subrange(0, s0.len() - 2));
    let v = binary_op(op, a, b)?;
    stack.push(v);
    Ok(())
}

/// Runs one code object in a fresh frame whose slots are `locals`, and
/// gives the value it returns; reaching the end of the code returns unit.
/// `depth` is the number of calls that enclose this frame.
fn run_code(
    program: &ByteCode,
    code: &CodeObject,
    slots: Vec<Value>,
    globals: &mut Vec<Value>,
    depth: usize,
) -> (r: Result<Value, RuntimeError>)
    requires
        program.wf(),
        code_object_ok(*code, program.constants.len() as int, program.n_globals as int),
        slots.len() == code.n_slots,
        values_ok(slots@, program.functions.len() as int),
        old(globals).len() == program.n_globals,
        values_ok(old(globals)@, program.functions.len() as int),
        depth <= MAX_CALL_DEPTH,
    ensures
        final(globals).len() == program.n_globals,
        values_ok(final(globals)@, program.functions.len() as int),
        r matches Ok(v) ==> value_ok(v, program.functions.len() as int),
        (r, final(globals)@) == run_from(
            *program,
            *code,
            0,
            Seq::empty(),
            slots@,
            old(globals)@,
            depth as int,
        ),
    decreases MAX_CALL_DEPTH - depth,
{
    let ghost nf = program.functions.len() as int;
    let ghost target = run_from(
        *program,
        *code,
        0,
        Seq::empty(),
        slots@,
        old(globals)@,
        depth as int,
    );
    let mut locals = slots;
    let mut stack: Vec<Value> = Vec::new();
    let mut pc: usize = 0;
    while pc < code.code.len()
        invariant
            program.wf(),
            code_object_ok(*code, program.constants.len() as int, program.n_globals as int),
            nf == program.functions.len(),
            locals.len() == code.n_slots,
            values_ok(locals@, nf),
            globals.len() == program.n_globals,
            values_ok(globals@, nf),
            values_ok(stack@, nf),
            depth <= MAX_CALL_DEPTH,
            pc <= code.code.len(),
            run_from(*program, *code, pc as int, stack@, locals@, globals@, depth as int) == target,
            target == run_from(
                *program,
                *code,
                0,
                Seq::empty(),
                slots@,
                old(globals)@,
                depth as int,
            ),
        decreases code.code.len() - pc,
    {
        let ins = code.code[pc];
        assert(instr_ok(
            ins,
            pc as int,
            code.code.len() as int,
            program.constants.len() as int,
            code.n_slots as int,
            program.n_globals as int,
        ));
        match ins {
            Instr::LoadConst(k) => {
                assert(crate::bytecode::constant_ok(program.constants@[k as int], nf));
                stack.push(constant_value(&program.constants[k]));
                pc = pc + 1;
            },
            Instr::LoadBool(b) => {
                stack.push(Value::Bool(b));
                pc = pc + 1;
            },
            Instr::LoadUnit => {
                stack.push(Value::Unit);
                pc = pc + 1;
            },
            Instr::LoadLocal(s) => {
                assert(value_ok(locals@[s as int], nf));
                stack.push(locals[s].copy());
                pc = pc + 1;
            },
            Instr::StoreLocal(s) => {
                if stack.len() == 0 {
                    return Err(RuntimeError::StackUnderflow);
                }
                assert(value_ok(stack@[stack.len() - 1], nf));
                let v = stack[stack.len() - 1].copy();
                locals.set(s, v);
                pc = pc + 1;
            },
            Instr::LoadGlobal(g) => {
                assert(value_ok(globals@[g as int], nf));
                stack.push(globals[g].copy());
                pc = pc + 1;
            },
            Instr::StoreGlobal(g) => {
                if stack.len() == 0 {
                    return Err(RuntimeError::StackUnderflow);
                }
                assert(value_ok(stack@[stack.len() - 1], nf));
                let v = stack[stack.len() - 1].copy();
                globals.set(g, v);
                pc = pc + 1;
            },
            Instr::Add => {
                apply_binary(&mut stack, BinOp::Add, Ghost(nf))?;
                pc = pc + 1;
            },
            Instr::Sub => {
                apply_binary(&mut stack, BinOp::Sub, Ghost(nf))?;
                pc = pc + 1;
            },
            Instr::Mul => {
                apply_binary(&mut stack, BinOp::Mul, Ghost(nf))?;
                pc = pc + 1;
            },
            Instr::Div => {
                apply_binary(&mut stack, BinOp::Div, Ghost(nf))?;
                pc = pc + 1;
            },
            Instr::Eq => {
                apply_binary(&mut stack, BinOp::Eq, Ghost(nf))?;
                pc = pc + 1;
            },
            Instr::Jump(t) => {
                pc = t;
            },
            Instr::JumpIfFalse(t) => {
                match stack.pop() {
                    Some(Value::Bool(b)) => {
                        if b {
                            pc = pc + 1;
                        } else {
                            pc = t;
                        }
                    },
                    Some(_) => {
                        return Err(RuntimeError::TypeError);
                    },
                    None => {
                        return Err(RuntimeError::StackUnderflow);
                    },
                }
            },
            Instr::Call(argc) => {
                if stack.len() <= argc {
                    return Err(RuntimeError::StackUnderflow);
                }
                let base = stack.len() - argc;
                let f = check_call(&stack[base - 1], argc, depth, program)?;
                let callee = &program.functions[f];
                assert(code_object_ok(
                    program.functions@[f as int],
                    program.constants.len() as int,
                    program.n_globals as int,
                ));
                let ghost st0 = stack@;
                let mut frame: Vec<Value> = Vec::new();
                let mut i: usize = base;
                while i < stack.len()
                    invariant
                        base <= i <= stack.len(),
                        stack@ == st0,
                        stack.len() == base + argc,
                        frame@ == st0.subrange(base as int, i as int),
                        values_ok(stack@, nf),
                        values_ok(frame@, nf),
                    decreases stack.len() - i,
                {
                    assert(value_ok(stack@[i as int], nf));
                    frame.push(stack[i].copy());
                    assert(frame@ =~= st0.subrange(base as int, i + 1));
                    i = i + 1;
                }
                while frame.len() < callee.n_slots
                    invariant
                        values_ok(frame@, nf),
                        argc <= frame.len() <= callee.n_slots,
                        frame@ == st0.subrange(base as int, st0.len() as int) + unit_seq(
                            frame.len() - argc,
                        ),
                    decreases callee.n_slots - frame.len(),
                {
                    frame.push(Value::Unit);
                    assert(frame@ =~= st0.subrange(base as int, st0.len() as int) + unit_seq(
                        frame.len() - argc,
                    ));
                }
                stack.truncate(base - 1);
                let v = run_code(program, callee, frame, globals, depth + 1)?;
                stack.push(v);
                pc = pc + 1;
            },
            Instr::Return => {
                return match stack.pop() {
                    Some(v) => Ok(v),
                    None => Err(RuntimeError::StackUnderflow),
                };
            },
            Instr::Pop => {
                if stack.pop().is_none() {
                    return Err(RuntimeError::StackUnderflow);
                }
                pc = pc + 1;
            },
        }
    }
    Ok(Value::Unit)
}

/// Runs a compiled program in a fresh machine: its own operand stack,
/// frames and globals (all unit at the start). Gives the value that the
/// top level returns, or the error that stopped the run. Every run ends:
/// jumps only go forward and calls nest at most `MAX_CALL_DEPTH` deep.
pub fn execute(program: &ByteCode) -> (r: Result<Value, RuntimeError>)
    requires
        program.wf(),
    ensures
        r == run_result(*program),
        r matches Ok(v) ==> value_ok(v, program.functions.len() as int),
{
    let mut globals = units(program.n_globals);
    let locals = units(program.main.n_slots);
    run_code(program, &program.main, locals, &mut globals, 0)
}

} // verus!
