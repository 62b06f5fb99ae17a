use vstd::prelude::*;

verus! {

/// One VM instruction. Indices refer to the constant pool, the current
/// frame's local slots, the global table, or the current code sequence.
#[derive(Debug, Clone, Copy, PartialEq, Eq, Structural)]
pub enum Instr {
    LoadConst(usize),
    LoadBool(bool),
    LoadUnit,
    LoadLocal(usize),
    StoreLocal(usize),
    LoadGlobal(usize),
    StoreGlobal(usize),
    Add,
    Sub,
    Mul,
    Div,
    Eq,
    Jump(usize),
    JumpIfFalse(usize),
    /// Calls the value below the given number of arguments.
    Call(usize),
    Return,
    Pop,
}

/// An entry of the constant pool.
#[derive(Debug, Clone)]
pub enum Constant {
    Number(i64),
    Str(String),
    /// The code object at this index of the program's function table.
    Function(usize),
}

/// Compiled code of one function or of the program's top level.
#[derive(Debug, Clone)]
pub struct CodeObject {
    pub code: Vec<Instr>,
    pub arity: usize,
    pub n_slots: usize,
}

/// A compiled program: constant pool, function table, number of globals and
/// the top-level code.
#[derive(Debug, Clone)]
pub struct ByteCode {
    pub constants: Vec<Constant>,
    pub functions: Vec<CodeObject>,
    pub n_globals: usize,
    pub main: CodeObject,
}

/// A constant as a mathematical value.
pub enum ConstView {
    Number(i64),
    Str(Seq<char>),
    Function(usize),
}

impl View for Constant {
    type V = ConstView;

    open spec fn view(&self) -> ConstView {
        match self {
            Constant::Number(n) => ConstView::Number(*n),
            Constant::Str(s) => ConstView::Str(s@),
            Constant::Function(f) => ConstView::Function(*f),
        }
    }
}

/// A code object as a mathematical value.
pub struct CodeView {
    pub code: Seq<Instr>,
    pub arity: usize,
    pub n_slots: usize,
}

impl View for CodeObject {
    type V = CodeView;

    open spec fn view(&self) -> CodeView {
        CodeView { code: self.code@, arity: self.arity, n_slots: self.n_slots }
    }
}

/// A program as a mathematical value.
pub struct ByteCodeView {
    pub constants: Seq<ConstView>,
    pub functions: Seq<CodeView>,
    pub n_globals: usize,
    pub main: CodeView,
}

impl View for ByteCode {
    type V = ByteCodeView;

    open spec fn view(&self) -> ByteCodeView {
        ByteCodeView {
            constants: self.constants@.map_values(|c: Constant| c@),
            functions: self.functions@.map_values(|f: CodeObject| f@),
            n_globals: self.n_globals,
            main: self.main@,
        }
    }
}

/// Every index in `i`, at position `pc` of a sequence of `len`
/// instructions, is in range; jumps go strictly forward, at most to the end.
pub open spec fn instr_ok(
    i: Instr,
    pc: int,
    len: int,
    n_consts: int,
    n_slots: int,
    n_globals: int,
) -> bool {
    match i {
        Instr::LoadConst(k) => k < n_consts,
        Instr::LoadLocal(s) | Instr::StoreLocal(s) => s < n_slots,
        Instr::LoadGlobal(g) | Instr::StoreGlobal(g) => g < n_globals,
        Instr::Jump(t) | Instr::JumpIfFalse(t) => pc < t <= len,
        _ => true,
    }
}

pub open spec fn code_ok(code: Seq<Instr>, n_consts: int, n_slots: int, n_globals: int) -> bool {
    forall|pc: int|
        0 <= pc < code.len() ==> instr_ok(
            #[trigger] code[pc],
            pc,
            code.len() as int,
            n_consts,
            n_slots,
            n_globals,
        )
}

pub open spec fn code_object_ok(c: CodeObject, n_consts: int, n_globals: int) -> bool {
    &&& c.arity <= c.n_slots
    &&& code_ok(c.code@, n_consts, c.n_slots as int, n_globals)
}

pub open spec fn constant_ok(k: Constant, n_functions: int) -> bool {
    match k {
        Constant::Function(f) => f < n_functions,
        _ => true,
    }
}

impl ByteCode {
    /// Every index that the program holds is in range, so that a run never
    /// reads outside a table.
    pub open spec fn wf(&self) -> bool {
        &&& code_object_ok(self.main, self.constants.len() as int, self.n_globals as int)
        &&& forall|f: int|
            0 <= f < self.functions.len() ==> code_object_ok(
                #[trigger] self.functions@[f],
                self.constants.len() as int,
                self.n_globals as int,
            )
        &&& forall|k: int|
            0 <= k < self.constants.len() ==> constant_ok(
                #[trigger] self.constants@[k],
                self.functions.len() as int,
            )
    }
}

/// Indices stay in range when the tables grow.
pub proof fn lemma_code_ok_grow(
    code: Seq<Instr>,
    n_consts: int,
    n_slots: int,
    n_globals: int,
    n_consts2: int,
    n_slots2: int,
    n_globals2: int,
)
    requires
        code_ok(code, n_consts, n_slots, n_globals),
        n_consts <= n_consts2,
        n_slots <= n_slots2,
        n_globals <= n_globals2,
    ensures
        code_ok(code, n_consts2, n_slots2, n_globals2),
{
    assert forall|pc: int| 0 <= pc < code.len() implies instr_ok(
        #[trigger] code[pc],
        pc,
        code.len() as int,
        n_consts2,
        n_slots2,
        n_globals2,
    ) by {
        assert(instr_ok(code[pc], pc, code.len() as int, n_consts, n_slots, n_globals));
    }
}

} // verus!
