//! The chunk: the instructions that the generator writes and the machine
//! runs, the source line of each, and the functions and structures that
//! the code refers to.

use vstd::prelude::*;
use crate::environment::{find_function, EntryView, EnvView, Environment};
use crate::text::clone_strings;
use crate::value::{name_views, ClassType, ClassTypeView, CopperStruct, Value, ValueView};

verus! {

/// An instruction of the machine.
#[derive(Debug, PartialEq)]
pub enum OpCode {
    Return,
    EndScript,
    Push(Value),
    Pop,
    Add,
    Sub,
    Mul,
    Div,
    CallFunc(String),
    TransformToType(ClassType),
    CmpLess,
    CmpLessEqual,
    CmpGreater,
    CmpGreaterEqual,
    CmpEqual,
    CmpNotEqual,
    CmpAnd,
    CmpOr,
    Jmp(usize),
    JmpIfFalse(usize),
    Negate,
    Not,
    ArgumentStore(String, ClassType),
    Store(String, ClassType),
    InferStore(String),
    Load(String),
    Assign(String),
    NewStruct(String),
    StructGet(String),
    StructSet(String, Vec<String>),
    StructSetByIndex(usize),
    PopToCall,
    StartScope,
    EndScope,
}

/// An instruction as a mathematical value.
pub enum OpView {
    Return,
    EndScript,
    Push(ValueView),
    Pop,
    Add,
    Sub,
    Mul,
    Div,
    CallFunc(Seq<char>),
    TransformToType(ClassTypeView),
    CmpLess,
    CmpLessEqual,
    CmpGreater,
    CmpGreaterEqual,
    CmpEqual,
    CmpNotEqual,
    CmpAnd,
    CmpOr,
    Jmp(usize),
    JmpIfFalse(usize),
    Negate,
    Not,
    ArgumentStore(Seq<char>, ClassTypeView),
    Store(Seq<char>, ClassTypeView),
    InferStore(Seq<char>),
    Load(Seq<char>),
    Assign(Seq<char>),
    NewStruct(Seq<char>),
    StructGet(Seq<char>),
    StructSet(Seq<char>, Seq<Seq<char>>),
    StructSetByIndex(usize),
    PopToCall,
    StartScope,
    EndScope,
}

impl View for OpCode {
    type V = OpView;

    open spec fn view(&self) -> OpView {
        match self {
            OpCode::Return => OpView::Return,
            OpCode::EndScript => OpView::EndScript,
            OpCode::Push(a) => OpView::Push(a@),
            OpCode::Pop => OpView::Pop,
            OpCode::Add => OpView::Add,
            OpCode::Sub => OpView::Sub,
            OpCode::Mul => OpView::Mul,
            OpCode::Div => OpView::Div,
            OpCode::CallFunc(a) => OpView::CallFunc(a@),
            OpCode::TransformToType(a) => OpView::TransformToType(a@),
            OpCode::CmpLess => OpView::CmpLess,
            OpCode::CmpLessEqual => OpView::CmpLessEqual,
            OpCode::CmpGreater => OpView::CmpGreater,
            OpCode::CmpGreaterEqual => OpView::CmpGreaterEqual,
            OpCode::CmpEqual => OpView::CmpEqual,
            OpCode::CmpNotEqual => OpView::CmpNotEqual,
            OpCode::CmpAnd => OpView::CmpAnd,
            OpCode::CmpOr => OpView::CmpOr,
            OpCode::Jmp(a) => OpView::Jmp(*a),
            OpCode::JmpIfFalse(a) => OpView::JmpIfFalse(*a),
            OpCode::Negate => OpView::Negate,
            OpCode::Not => OpView::Not,
            OpCode::ArgumentStore(a, b) => OpView::ArgumentStore(a@, b@),
            OpCode::Store(a, b) => OpView::Store(a@, b@),
            OpCode::InferStore(a) => OpView::InferStore(a@),
            OpCode::Load(a) => OpView::Load(a@),
            OpCode::Assign(a) => OpView::Assign(a@),
            OpCode::NewStruct(a) => OpView::NewStruct(a@),
            OpCode::StructGet(a) => OpView::StructGet(a@),
            OpCode::StructSet(a, b) => OpView::StructSet(a@, name_views(b@)),
            OpCode::StructSetByIndex(a) => OpView::StructSetByIndex(*a),
            OpCode::PopToCall => OpView::PopToCall,
            OpCode::StartScope => OpView::StartScope,
            OpCode::EndScope => OpView::EndScope,
        }
    }
}

impl Clone for OpCode {
    fn clone(&self) -> (r: OpCode)
        ensures
            r@ == self@,
    {
        match self {
            OpCode::Return => OpCode::Return,
            OpCode::EndScript => OpCode::EndScript,
            OpCode::Push(a) => OpCode::Push(a.clone()),
            OpCode::Pop => OpCode::Pop,
            OpCode::Add => OpCode::Add,
            OpCode::Sub => OpCode::Sub,
            OpCode::Mul => OpCode::Mul,
            OpCode::Div => OpCode::Div,
            OpCode::CallFunc(a) => OpCode::CallFunc(a.clone()),
            OpCode::TransformToType(a) => OpCode::TransformToType(a.clone()),
            OpCode::CmpLess => OpCode::CmpLess,
            OpCode::CmpLessEqual => OpCode::CmpLessEqual,
            OpCode::CmpGreater => OpCode::CmpGreater,
            OpCode::CmpGreaterEqual => OpCode::CmpGreaterEqual,
            OpCode::CmpEqual => OpCode::CmpEqual,
            OpCode::CmpNotEqual => OpCode::CmpNotEqual,
            OpCode::CmpAnd => OpCode::CmpAnd,
            OpCode::CmpOr => OpCode::CmpOr,
            OpCode::Jmp(a) => OpCode::Jmp(*a),
            OpCode::JmpIfFalse(a) => OpCode::JmpIfFalse(*a),
            OpCode::Negate => OpCode::Negate,
            OpCode::Not => OpCode::Not,
            OpCode::ArgumentStore(a, b) => OpCode::ArgumentStore(a.clone(), b.clone()),
            OpCode::Store(a, b) => OpCode::Store(a.clone(), b.clone()),
            OpCode::InferStore(a) => OpCode::InferStore(a.clone()),
            OpCode::Load(a) => OpCode::Load(a.clone()),
            OpCode::Assign(a) => OpCode::Assign(a.clone()),
            OpCode::NewStruct(a) => OpCode::NewStruct(a.clone()),
            OpCode::StructGet(a) => OpCode::StructGet(a.clone()),
            OpCode::StructSet(a, b) => OpCode::StructSet(a.clone(), clone_strings(b)),
            OpCode::StructSetByIndex(a) => OpCode::StructSetByIndex(*a),
            OpCode::PopToCall => OpCode::PopToCall,
            OpCode::StartScope => OpCode::StartScope,
            OpCode::EndScope => OpCode::EndScope,
        }
    }
}

/// The views of a run of instructions.
pub open spec fn op_views(v: Seq<OpCode>) -> Seq<OpView> {
    Seq::new(v.len(), |i: int| v[i]@)
}

/// The views of a run of instructions with one more behind it.
pub proof fn lemma_op_views_push(v: Seq<OpCode>, op: OpCode)
    ensures
        op_views(v.push(op)) == op_views(v).push(op@),
{
    assert(op_views(v.push(op)) =~= op_views(v).push(op@));
}

/// A chunk of code. `lines[i]` is the source line of `code[i]`;
/// `functions` holds the functions and the structure declarations, and no
/// variable.
pub struct Chunk {
    pub code: Vec<OpCode>,
    pub lines: Vec<usize>,
    pub functions: Environment,
}

/// A chunk as a mathematical value.
pub struct ChunkView {
    pub code: Seq<OpView>,
    pub lines: Seq<usize>,
    pub functions: EnvView,
}

impl View for Chunk {
    type V = ChunkView;

    open spec fn view(&self) -> ChunkView {
        ChunkView { code: op_views(self.code@), lines: self.lines@, functions: self.functions@ }
    }
}

/// The chunk after one more instruction.
pub open spec fn written(c: ChunkView, op: OpView, line: usize) -> ChunkView {
    ChunkView { code: c.code.push(op), lines: c.lines.push(line), functions: c.functions }
}

impl Chunk {
    /// An empty chunk.
    pub fn new() -> (c: Chunk)
        ensures
            c@.code == Seq::<OpView>::empty(),
            c@.lines == Seq::<usize>::empty(),
            c@.functions == (EnvView { entries: Seq::empty(), current_scope: 0 }),
    {
        let c = Chunk { code: Vec::new(), lines: Vec::new(), functions: Environment::new() };
        assert(c@.code =~= Seq::empty());
        c
    }

    /// Empties the chunk.
    pub fn erase(&mut self)
        ensures
            final(self)@.code == Seq::<OpView>::empty(),
            final(self)@.lines == Seq::<usize>::empty(),
            final(self)@.functions == (EnvView { entries: Seq::empty(), current_scope: 0 }),
    {
        self.code = Vec::new();
        self.lines = Vec::new();
        self.functions = Environment::new();
        assert(self@.code =~= Seq::empty());
    }

    /// Writes one instruction, which stems from source line `line`.
    pub fn write(&mut self, byte: OpCode, line: usize)
        ensures
            final(self)@ == written(old(self)@, byte@, line),
    {
        proof {
            lemma_op_views_push(self.code@, byte);
        }
        self.code.push(byte);
        self.lines.push(line);
    }

    /// Writes `Store(name, ctype)`.
    pub fn write_store(&mut self, name: String, ctype: ClassType, line: usize)
        ensures
            final(self)@ == written(old(self)@, OpView::Store(name@, ctype@), line),
    {
        self.write(OpCode::Store(name, ctype), line);
    }

    /// Writes `InferStore(name)`.
    pub fn write_store_infer(&mut self, name: String, line: usize)
        ensures
            final(self)@ == written(old(self)@, OpView::InferStore(name@), line),
    {
        self.write(OpCode::InferStore(name), line);
    }

    /// Writes `ArgumentStore(name, ctype)`.
    pub fn write_argument_store(&mut self, name: String, ctype: ClassType, line: usize)
        ensures
            final(self)@ == written(old(self)@, OpView::ArgumentStore(name@, ctype@), line),
    {
        self.write(OpCode::ArgumentStore(name, ctype), line);
    }

    /// Writes `Load(name)`.
    pub fn write_load(&mut self, name: String, line: usize)
        ensures
            final(self)@ == written(old(self)@, OpView::Load(name@), line),
    {
        self.write(OpCode::Load(name), line);
    }

    /// Writes `Push(val)`.
    pub fn write_constant(&mut self, val: Value, line: usize)
        ensures
            final(self)@ == written(old(self)@, OpView::Push(val@), line),
    {
        self.write(OpCode::Push(val), line);
    }

    /// Writes `Jmp(jmp_to_point)`.
    pub fn write_jmp(&mut self, jmp_to_point: usize, line: usize)
        ensures
            final(self)@ == written(old(self)@, OpView::Jmp(jmp_to_point), line),
    {
        self.write(OpCode::Jmp(jmp_to_point), line);
    }

    /// Writes `JmpIfFalse(jmp_to_point)`.
    pub fn write_jmp_if_false(&mut self, jmp_to_point: usize, line: usize)
        ensures
            final(self)@ == written(old(self)@, OpView::JmpIfFalse(jmp_to_point), line),
    {
        self.write(OpCode::JmpIfFalse(jmp_to_point), line);
    }

    /// Writes `CallFunc(name)`.
    pub fn write_call(&mut self, name: String, line: usize)
        ensures
            final(self)@ == written(old(self)@, OpView::CallFunc(name@), line),
    {
        self.write(OpCode::CallFunc(name), line);
    }

    /// Writes `TransformToType(ctype)`.
    pub fn transform_to_type(&mut self, ctype: ClassType, line: usize)
        ensures
            final(self)@ == written(old(self)@, OpView::TransformToType(ctype@), line),
    {
        self.write(OpCode::TransformToType(ctype), line);
    }

    /// Replaces the instruction at `at`.
    pub fn patch(&mut self, at: usize, op: OpCode)
        requires
            at < old(self)@.code.len(),
        ensures
            final(self)@ == (ChunkView {
                code: old(self)@.code.update(at as int, op@),
                lines: old(self)@.lines,
                functions: old(self)@.functions,
            }),
    {
        let ghost before = self@.code;
        self.code[at] = op;
        assert(self@.code =~= before.update(at as int, op@));
    }

    /// Whether a function named `name` is bound.
    pub fn has_function(&self, name: &String) -> (b: bool)
        ensures
            b == (find_function(self@.functions.entries, name@, 0) is Some),
    {
        self.functions.function_index(name).is_some()
    }

    /// Binds a function of the script to the code at `bytecode_position`.
    pub fn bind_function(
        &mut self,
        name: String,
        ctype: ClassType,
        arg_count: usize,
        bytecode_position: usize,
    )
        requires
            find_function(old(self)@.functions.entries, name@, 0) is None,
        ensures
            final(self)@ == (ChunkView {
                code: old(self)@.code,
                lines: old(self)@.lines,
                functions: EnvView {
                    entries: old(self)@.functions.entries.push(
                        EntryView::Function(name@, ctype@, arg_count, bytecode_position),
                    ),
                    current_scope: old(self)@.functions.current_scope,
                },
            }),
    {
        self.functions.add_function(name, ctype, arg_count, bytecode_position);
    }

    /// Binds a function of the host, which takes `arg_count` arguments.
    pub fn bind_native_function(&mut self, name: String, arg_count: usize)
        requires
            find_function(old(self)@.functions.entries, name@, 0) is None,
        ensures
            final(self)@ == (ChunkView {
                code: old(self)@.code,
                lines: old(self)@.lines,
                functions: EnvView {
                    entries: old(self)@.functions.entries.push(
                        EntryView::NativeFunction(name@, arg_count),
                    ),
                    current_scope: old(self)@.functions.current_scope,
                },
            }),
    {
        self.functions.add_native_function(name, arg_count);
    }

    /// Binds a function of the host unless a function of that name is
    /// bound already; the result says whether it was bound now.
    pub fn try_bind_native_function(&mut self, name: String, arg_count: usize) -> (bound: bool)
        ensures
            bound == (find_function(old(self)@.functions.entries, name@, 0) is None),
            bound ==> final(self)@.functions.entries == old(self)@.functions.entries.push(
                EntryView::NativeFunction(name@, arg_count),
            ),
            !bound ==> final(self)@ == old(self)@,
            final(self)@.code == old(self)@.code,
            final(self)@.lines == old(self)@.lines,
    {
        if self.has_function(&name) {
            false
        } else {
            self.bind_native_function(name, arg_count);
            true
        }
    }

    /// Adds the declaration of a structure.
    pub fn bind_struct(&mut self, structure: CopperStruct)
        ensures
            final(self)@ == (ChunkView {
                code: old(self)@.code,
                lines: old(self)@.lines,
                functions: EnvView {
                    entries: old(self)@.functions.entries.push(EntryView::Structure(structure@)),
                    current_scope: old(self)@.functions.current_scope,
                },
            }),
    {
        self.functions.add_struct(structure);
    }
}

} // verus!
