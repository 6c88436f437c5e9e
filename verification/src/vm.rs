//! The machine: it runs the instructions of a chunk on a value stack, a
//! call stack that stages arguments, and an environment of variables.
//!
//! The machine does one instruction per step and never calls out. Where an
//! instruction needs what only the host has (a function of the host, or a
//! computation on decimals), the step changes nothing and says what is
//! needed; the host computes it and repeats the step with the answer.

use vstd::prelude::*;
use crate::chunk::{Chunk, ChunkView, OpCode, OpView};
use crate::environment::{
    declared, find_function, find_struct, lookup, without_scope, EntryView, EnvEntry, EnvView,
    Environment,
};
use crate::value::{
    arith, class_tag, coerce, compare, conv_view, infer_type, invert, is_equality,
    lemma_struct_view, lemma_value_views_push, logic, name_views, negate, promoted, tag_of,
    to_bool, value_views, with_path, with_value, BinOp, ClassType, ClassTypeView, Conv, Fault,
    Relation, StructView, Tag, Value, ValueView, field_value,
};

verus! {

/// What the machine asks of the host.
#[derive(Debug, PartialEq)]
pub enum HostRequest {
    /// Call the function of the host of that name on these arguments, in
    /// the order in which the script wrote them.
    Call(String, Vec<Value>),
    /// Convert the value to the type.
    Coerce(Value, ClassType),
    /// Apply the arithmetic operator to the two values.
    Arith(BinOp, Value, Value),
    /// Compare the two values.
    Compare(Relation, Value, Value),
    /// Negate the value.
    Negate(Value),
}

/// A request to the host as a mathematical value.
pub enum HostRequestView {
    Call(Seq<char>, Seq<ValueView>),
    Coerce(ValueView, ClassTypeView),
    Arith(BinOp, ValueView, ValueView),
    Compare(Relation, ValueView, ValueView),
    Negate(ValueView),
}

impl View for HostRequest {
    type V = HostRequestView;

    open spec fn view(&self) -> HostRequestView {
        match self {
            HostRequest::Call(name, args) => HostRequestView::Call(name@, value_views(args@)),
            HostRequest::Coerce(v, t) => HostRequestView::Coerce(v@, t@),
            HostRequest::Arith(op, a, b) => HostRequestView::Arith(*op, a@, b@),
            HostRequest::Compare(rel, a, b) => HostRequestView::Compare(*rel, a@, b@),
            HostRequest::Negate(v) => HostRequestView::Negate(v@),
        }
    }
}

/// How a step ended.
#[derive(Debug, PartialEq)]
pub enum Step {
    /// The instruction is done; the next can be run.
    Continue,
    /// The script has ended.
    Halt,
    /// Nothing was done: the host is to compute this and to repeat the
    /// step with the answer.
    Host(HostRequest),
    /// The instruction cannot be run; the machine must not be used
    /// further.
    Fault(Fault),
}

/// The machine.
pub struct VM<'a> {
    pub chunk: &'a Chunk,
    pub idx: usize,
    pub stack: Vec<Value>,
    pub call_stack: Vec<Value>,
    pub environment: Environment,
    pub function_starting_scope: Vec<usize>,
    pub function_jump_back: Vec<usize>,
    pub function_return_types: Vec<ClassType>,
}

/// The machine as a mathematical value.
pub struct VmView {
    pub chunk: ChunkView,
    pub idx: usize,
    pub stack: Seq<ValueView>,
    pub call_stack: Seq<ValueView>,
    pub environment: EnvView,
    pub function_starting_scope: Seq<usize>,
    pub function_jump_back: Seq<usize>,
    pub function_return_types: Seq<ClassTypeView>,
}

/// The views of a run of types.
pub open spec fn type_views(v: Seq<ClassType>) -> Seq<ClassTypeView> {
    Seq::new(v.len(), |i: int| v[i]@)
}

impl<'a> View for VM<'a> {
    type V = VmView;

    open spec fn view(&self) -> VmView {
        VmView {
            chunk: self.chunk@,
            idx: self.idx,
            stack: value_views(self.stack@),
            call_stack: value_views(self.call_stack@),
            environment: self.environment@,
            function_starting_scope: self.function_starting_scope@,
            function_jump_back: self.function_jump_back@,
            function_return_types: type_views(self.function_return_types@),
        }
    }
}

/// What a step makes of a state: the state after it, or what it asks of
/// the host, or why it cannot be done.
pub enum StepView {
    Continue(VmView),
    Halt(VmView),
    Host(HostRequestView),
    Fault(Fault),
}

/// The answer of the host as a mathematical value.
pub open spec fn answer_view(a: Option<Value>) -> Option<ValueView> {
    match a {
        Some(v) => Some(v@),
        None => None,
    }
}

/// What a conversion comes to once the host has or has not answered: a
/// conversion for the host is done by its answer, which must be of the
/// kind `want`; one that needs no host must get no answer.
pub open spec fn settled(c: Conv<ValueView>, answer: Option<ValueView>, want: Tag) -> Conv<
    ValueView,
> {
    match c {
        Conv::Done(v) => if answer is Some {
            Conv::Fault(Fault::BadAnswer)
        } else {
            Conv::Done(v)
        },
        Conv::Host => match answer {
            Some(a) => if tag_of(a) == want {
                Conv::Done(a)
            } else {
                Conv::Fault(Fault::BadAnswer)
            },
            None => Conv::Host,
        },
        Conv::Fault(f) => Conv::Fault(f),
    }
}

/// The kind of the values of a declared type (`Nil` stands for `Any`,
/// which no conversion for the host goes to).
pub open spec fn wanted(t: ClassTypeView) -> Tag {
    match class_tag(t) {
        Some(g) => g,
        None => Tag::Nil,
    }
}

/// The state with the instruction pointer on the next instruction.
pub open spec fn next(s: VmView) -> VmView {
    VmView { idx: (s.idx + 1) as usize, ..s }
}

/// The state with `v` on top of the value stack.
pub open spec fn pushed(s: VmView, v: ValueView) -> VmView {
    VmView { stack: s.stack.push(v), ..s }
}

/// The state without the top `n` values of the value stack.
pub open spec fn popped(s: VmView, n: int) -> VmView {
    VmView { stack: s.stack.subrange(0, s.stack.len() - n), ..s }
}

/// The state with the environment `env`.
pub open spec fn with_env(s: VmView, env: EnvView) -> VmView {
    VmView { environment: env, ..s }
}

/// An instruction that takes `n` values off the stack and puts one back,
/// the result of the conversion or operator `c`.
pub open spec fn replace_top(s: VmView, n: int, c: Conv<ValueView>, q: HostRequestView) -> StepView {
    match c {
        Conv::Done(v) => StepView::Continue(pushed(popped(next(s), n), v)),
        Conv::Host => StepView::Host(q),
        Conv::Fault(f) => StepView::Fault(f),
    }
}

/// An instruction that takes `n` values off the stack and puts one back,
/// the result of an operator that the host has no part in.
pub open spec fn replace_plain(s: VmView, n: int, c: Conv<ValueView>) -> StepView {
    match c {
        Conv::Done(v) => StepView::Continue(pushed(popped(next(s), n), v)),
        Conv::Host => StepView::Fault(Fault::Operand),
        Conv::Fault(f) => StepView::Fault(f),
    }
}

/// An arithmetic instruction.
#[verifier::opaque]
pub open spec fn step_arith(s: VmView, op: BinOp, answer: Option<ValueView>) -> StepView {
    if s.stack.len() < 2 {
        StepView::Fault(Fault::StackUnderflow)
    } else {
        let a = s.stack[s.stack.len() - 2];
        let b = s.stack[s.stack.len() - 1];
        replace_top(
            s,
            2,
            settled(arith(op, a, b), answer, promoted(a, b)),
            HostRequestView::Arith(op, a, b),
        )
    }
}

/// A comparison.
#[verifier::opaque]
pub open spec fn step_compare(s: VmView, rel: Relation, answer: Option<ValueView>) -> StepView {
    if s.stack.len() < 2 {
        StepView::Fault(Fault::StackUnderflow)
    } else {
        let a = s.stack[s.stack.len() - 2];
        let b = s.stack[s.stack.len() - 1];
        replace_top(
            s,
            2,
            settled(compare(rel, a, b), answer, Tag::Bool),
            HostRequestView::Compare(rel, a, b),
        )
    }
}

/// `CmpAnd` (when `both`) or `CmpOr`.
#[verifier::opaque]
pub open spec fn step_logic(s: VmView, both: bool, answer: Option<ValueView>) -> StepView {
    if answer is Some {
        StepView::Fault(Fault::BadAnswer)
    } else if s.stack.len() < 2 {
        StepView::Fault(Fault::StackUnderflow)
    } else {
        let a = s.stack[s.stack.len() - 2];
        let b = s.stack[s.stack.len() - 1];
        replace_plain(s, 2, logic(both, a, b))
    }
}

/// `Negate`.
#[verifier::opaque]
pub open spec fn step_negate(s: VmView, answer: Option<ValueView>) -> StepView {
    if s.stack.len() < 1 {
        StepView::Fault(Fault::StackUnderflow)
    } else {
        let v = s.stack.last();
        replace_top(s, 1, settled(negate(v), answer, Tag::Decimal), HostRequestView::Negate(v))
    }
}

/// `Not`.
#[verifier::opaque]
pub open spec fn step_not(s: VmView, answer: Option<ValueView>) -> StepView {
    if answer is Some {
        StepView::Fault(Fault::BadAnswer)
    } else if s.stack.len() < 1 {
        StepView::Fault(Fault::StackUnderflow)
    } else {
        replace_plain(s, 1, invert(s.stack.last()))
    }
}

/// `TransformToType(t)`.
#[verifier::opaque]
pub open spec fn step_transform(s: VmView, t: ClassTypeView, answer: Option<ValueView>) -> StepView {
    if s.stack.len() < 1 {
        StepView::Fault(Fault::StackUnderflow)
    } else {
        let v = s.stack.last();
        replace_top(s, 1, settled(coerce(v, t), answer, wanted(t)), HostRequestView::Coerce(v, t))
    }
}

/// `Store(name, t)`: the top of the stack, converted to `t`, becomes the
/// variable `name` of the current depth.
#[verifier::opaque]
pub open spec fn step_store(s: VmView, name: Seq<char>, t: ClassTypeView, answer: Option<ValueView>) -> StepView {
    if s.stack.len() < 1 {
        StepView::Fault(Fault::StackUnderflow)
    } else {
        let v = s.stack.last();
        match settled(coerce(v, t), answer, wanted(t)) {
            Conv::Done(w) => StepView::Continue(
                with_env(popped(next(s), 1), declared(s.environment, name, t, w)),
            ),
            Conv::Host => StepView::Host(HostRequestView::Coerce(v, t)),
            Conv::Fault(f) => StepView::Fault(f),
        }
    }
}

/// `ArgumentStore(name, t)`: like `Store`, with the value taken from the
/// call stack.
#[verifier::opaque]
pub open spec fn step_argument(s: VmView, name: Seq<char>, t: ClassTypeView, answer: Option<ValueView>) -> StepView {
    if s.call_stack.len() < 1 {
        StepView::Fault(Fault::StackUnderflow)
    } else {
        let v = s.call_stack.last();
        match settled(coerce(v, t), answer, wanted(t)) {
            Conv::Done(w) => StepView::Continue(
                VmView {
                    call_stack: s.call_stack.drop_last(),
                    environment: declared(s.environment, name, t, w),
                    ..next(s)
                },
            ),
            Conv::Host => StepView::Host(HostRequestView::Coerce(v, t)),
            Conv::Fault(f) => StepView::Fault(f),
        }
    }
}

/// `InferStore(name)`: the top of the stack becomes the variable `name`
/// of the current depth, with the type that the value has.
#[verifier::opaque]
pub open spec fn step_infer(s: VmView, name: Seq<char>, answer: Option<ValueView>) -> StepView {
    if answer is Some {
        StepView::Fault(Fault::BadAnswer)
    } else if s.stack.len() < 1 {
        StepView::Fault(Fault::StackUnderflow)
    } else {
        let v = s.stack.last();
        StepView::Continue(
            with_env(popped(next(s), 1), declared(s.environment, name, infer_type(v), v)),
        )
    }
}

/// `Load(name)`: the value of the variable that `name` means goes on the
/// stack.
#[verifier::opaque]
pub open spec fn step_load(s: VmView, name: Seq<char>, answer: Option<ValueView>) -> StepView {
    if answer is Some {
        StepView::Fault(Fault::BadAnswer)
    } else {
        match lookup(s.environment.entries, name, s.environment.current_scope as int) {
            Some(k) => match s.environment.entries[k] {
                EntryView::Variable(_, v, _, _) => StepView::Continue(pushed(next(s), v)),
                _ => StepView::Fault(Fault::UnknownVariable),
            },
            None => StepView::Fault(Fault::UnknownVariable),
        }
    }
}

/// The environment with the value `v` in the variable at index `k`.
pub open spec fn stored(env: EnvView, k: int, v: ValueView) -> EnvView {
    match env.entries[k] {
        EntryView::Variable(n, _, t, d) => EnvView {
            entries: env.entries.update(k, EntryView::Variable(n, v, t, d)),
            current_scope: env.current_scope,
        },
        _ => env,
    }
}

/// `Assign(name)`: the top of the stack, converted to the type of the
/// variable that `name` means, becomes its value; where `name` means no
/// variable the value is dropped.
#[verifier::opaque]
pub open spec fn step_assign(s: VmView, name: Seq<char>, answer: Option<ValueView>) -> StepView {
    if s.stack.len() < 1 {
        StepView::Fault(Fault::StackUnderflow)
    } else {
        let v = s.stack.last();
        match lookup(s.environment.entries, name, s.environment.current_scope as int) {
            Some(k) => match s.environment.entries[k] {
                EntryView::Variable(_, _, t, _) => match settled(coerce(v, t), answer, wanted(t)) {
                    Conv::Done(w) => StepView::Continue(
                        with_env(popped(next(s), 1), stored(s.environment, k, w)),
                    ),
                    Conv::Host => StepView::Host(HostRequestView::Coerce(v, t)),
                    Conv::Fault(f) => StepView::Fault(f),
                },
                _ => StepView::Fault(Fault::UnknownVariable),
            },
            None => if answer is Some {
                StepView::Fault(Fault::BadAnswer)
            } else {
                StepView::Continue(popped(next(s), 1))
            },
        }
    }
}

/// `StructSet(root, fields)`: the top of the stack is written into the
/// field that `fields` leads to in the structure held by the variable
/// `root`, and the variable takes the changed structure.
#[verifier::opaque]
pub open spec fn step_struct_set(
    s: VmView,
    root: Seq<char>,
    fields: Seq<Seq<char>>,
    answer: Option<ValueView>,
) -> StepView {
    match lookup(s.environment.entries, root, s.environment.current_scope as int) {
        Some(k) => match s.environment.entries[k] {
            EntryView::Variable(_, held, t, _) => if s.stack.len() < 1 {
                StepView::Fault(Fault::StackUnderflow)
            } else {
                match held {
                    ValueView::Struct(cs) => match with_path(cs, fields, 0, s.stack.last()) {
                        Some(changed) => {
                            let v = ValueView::Struct(changed);
                            match settled(coerce(v, t), answer, wanted(t)) {
                                Conv::Done(w) => StepView::Continue(
                                    with_env(popped(next(s), 1), stored(s.environment, k, w)),
                                ),
                                Conv::Host => StepView::Host(HostRequestView::Coerce(v, t)),
                                Conv::Fault(f) => StepView::Fault(f),
                            }
                        },
                        None => StepView::Fault(Fault::UnknownField),
                    },
                    _ => StepView::Fault(Fault::NotAStruct),
                }
            },
            _ => StepView::Fault(Fault::UnknownVariable),
        },
        None => StepView::Fault(Fault::UnknownVariable),
    }
}

/// `StructSetByIndex(i)`: a structure and, under it, a value are taken
/// off the stack, and the structure goes back with the value in its i-th
/// field. Where the structure has no i-th field it goes back as it was,
/// and one more value is taken off first if there is one.
#[verifier::opaque]
pub open spec fn step_set_index(s: VmView, i: usize, answer: Option<ValueView>) -> StepView {
    if answer is Some {
        StepView::Fault(Fault::BadAnswer)
    } else if s.stack.len() < 2 {
        StepView::Fault(Fault::StackUnderflow)
    } else {
        let top = s.stack[s.stack.len() - 1];
        let under = s.stack[s.stack.len() - 2];
        match top {
            ValueView::Struct(cs) => if i < cs.field_values.len() {
                StepView::Continue(
                    pushed(popped(next(s), 2), ValueView::Struct(with_value(cs, i as int, under))),
                )
            } else if s.stack.len() >= 3 {
                StepView::Continue(pushed(popped(next(s), 3), top))
            } else {
                StepView::Continue(pushed(popped(next(s), 2), top))
            },
            _ => StepView::Fault(Fault::NotAStruct),
        }
    }
}

/// `StructGet(field)`: the structure on top of the stack gives way to
/// the value of its field.
#[verifier::opaque]
pub open spec fn step_struct_get(s: VmView, field: Seq<char>, answer: Option<ValueView>) -> StepView {
    if answer is Some {
        StepView::Fault(Fault::BadAnswer)
    } else if s.stack.len() < 1 {
        StepView::Fault(Fault::StackUnderflow)
    } else {
        match s.stack.last() {
            ValueView::Struct(cs) => match field_value(cs, field) {
                Some(v) => StepView::Continue(pushed(popped(next(s), 1), v)),
                None => StepView::Fault(Fault::UnknownField),
            },
            _ => StepView::Fault(Fault::NotAStruct),
        }
    }
}

/// `NewStruct(name)`: the structure declared under `name` goes on the
/// stack.
#[verifier::opaque]
pub open spec fn step_new_struct(s: VmView, name: Seq<char>, answer: Option<ValueView>) -> StepView {
    if answer is Some {
        StepView::Fault(Fault::BadAnswer)
    } else {
        match find_struct(s.chunk.functions.entries, name, 0) {
            Some(k) => match s.chunk.functions.entries[k] {
                EntryView::Structure(cs) => StepView::Continue(
                    pushed(next(s), ValueView::Struct(cs)),
                ),
                _ => StepView::Fault(Fault::UnknownStruct),
            },
            None => StepView::Fault(Fault::UnknownStruct),
        }
    }
}

/// `CallFunc(name)`. A function of the script is entered: where to
/// return to, the depth that its scope will have and its return type are
/// noted, and the code goes on at its offset. A function of the host is
/// for the host, with the call stack turned round into the order of the
/// source; its answer goes on the stack and the call stack is emptied.
/// Either must find as many values on the call stack as it takes.
#[verifier::opaque]
pub open spec fn step_call(s: VmView, name: Seq<char>, answer: Option<ValueView>) -> StepView {
    match find_function(s.chunk.functions.entries, name, 0) {
        Some(k) => match s.chunk.functions.entries[k] {
            EntryView::Function(_, t, count, at) => if answer is Some {
                StepView::Fault(Fault::BadAnswer)
            } else if s.call_stack.len() != count {
                StepView::Fault(Fault::Arity)
            } else if s.environment.current_scope >= usize::MAX {
                StepView::Fault(Fault::ScopeOverflow)
            } else {
                StepView::Continue(
                    VmView {
                        idx: at,
                        function_jump_back: s.function_jump_back.push((s.idx + 1) as usize),
                        function_starting_scope: s.function_starting_scope.push(
                            (s.environment.current_scope + 1) as usize,
                        ),
                        function_return_types: s.function_return_types.push(t),
                        ..s
                    },
                )
            },
            EntryView::NativeFunction(_, count) => if s.call_stack.len() != count {
                StepView::Fault(Fault::Arity)
            } else {
                match answer {
                    Some(a) => StepView::Continue(
                        VmView { call_stack: Seq::empty(), ..pushed(next(s), a) },
                    ),
                    None => StepView::Host(HostRequestView::Call(name, s.call_stack.reverse())),
                }
            },
            _ => StepView::Fault(Fault::UnknownFunction),
        },
        None => StepView::Fault(Fault::UnknownFunction),
    }
}

/// `Return`: the frame noted by the call is taken off; every variable of
/// the function's depth or deeper goes; the depth is again that of the
/// call; the code goes on behind the call; and the value on top of the
/// stack is converted to the return type, unless that is `Any`.
#[verifier::opaque]
pub open spec fn step_return(s: VmView, answer: Option<ValueView>) -> StepView {
    if s.function_jump_back.len() == 0 || s.function_starting_scope.len() == 0
        || s.function_return_types.len() == 0 {
        StepView::Fault(Fault::ReturnOutsideFunction)
    } else if s.function_starting_scope.last() == 0 {
        StepView::Fault(Fault::ScopeOverflow)
    } else {
        let start = s.function_starting_scope.last();
        let t = s.function_return_types.last();
        let left = VmView {
            idx: s.function_jump_back.last(),
            function_jump_back: s.function_jump_back.drop_last(),
            function_starting_scope: s.function_starting_scope.drop_last(),
            function_return_types: s.function_return_types.drop_last(),
            environment: EnvView {
                entries: without_scope(s.environment.entries, start as int),
                current_scope: (start - 1) as usize,
            },
            ..s
        };
        if t is Any {
            if answer is Some {
                StepView::Fault(Fault::BadAnswer)
            } else {
                StepView::Continue(left)
            }
        } else if s.stack.len() < 1 {
            StepView::Fault(Fault::StackUnderflow)
        } else {
            let v = s.stack.last();
            match settled(coerce(v, t), answer, wanted(t)) {
                Conv::Done(w) => StepView::Continue(pushed(popped(left, 1), w)),
                Conv::Host => StepView::Host(HostRequestView::Coerce(v, t)),
                Conv::Fault(f) => StepView::Fault(f),
            }
        }
    }
}

/// `JmpIfFalse(at)`: the top of the stack is taken off, and the code
/// goes on at `at` if it is false.
#[verifier::opaque]
pub open spec fn step_branch(s: VmView, at: usize, answer: Option<ValueView>) -> StepView {
    if answer is Some {
        StepView::Fault(Fault::BadAnswer)
    } else if s.stack.len() < 1 {
        StepView::Fault(Fault::StackUnderflow)
    } else {
        match to_bool(s.stack.last()) {
            Conv::Done(b) => if b {
                StepView::Continue(popped(next(s), 1))
            } else {
                StepView::Continue(VmView { idx: at, ..popped(s, 1) })
            },
            Conv::Host => StepView::Fault(Fault::Conversion),
            Conv::Fault(f) => StepView::Fault(f),
        }
    }
}

/// The instructions that neither convert nor compute on values.
#[verifier::opaque]
pub open spec fn step_plain(s: VmView, op: OpView, answer: Option<ValueView>) -> StepView {
    if answer is Some {
        StepView::Fault(Fault::BadAnswer)
    } else {
        match op {
            OpView::EndScript => StepView::Halt(
                with_env(
                    next(s),
                    EnvView { entries: Seq::empty(), current_scope: s.environment.current_scope },
                ),
            ),
            OpView::Push(v) => StepView::Continue(pushed(next(s), v)),
            OpView::Pop => if s.stack.len() > 0 {
                StepView::Continue(popped(next(s), 1))
            } else {
                StepView::Continue(next(s))
            },
            OpView::Jmp(at) => StepView::Continue(VmView { idx: at, ..s }),
            OpView::PopToCall => if s.stack.len() < 1 {
                StepView::Fault(Fault::StackUnderflow)
            } else {
                StepView::Continue(
                    VmView { call_stack: s.call_stack.push(s.stack.last()), ..popped(next(s), 1) },
                )
            },
            OpView::StartScope => if s.environment.current_scope >= usize::MAX {
                StepView::Fault(Fault::ScopeOverflow)
            } else {
                StepView::Continue(
                    with_env(
                        next(s),
                        EnvView {
                            entries: s.environment.entries,
                            current_scope: (s.environment.current_scope + 1) as usize,
                        },
                    ),
                )
            },
            OpView::EndScope => StepView::Continue(
                with_env(
                    next(s),
                    EnvView {
                        entries: without_scope(
                            s.environment.entries,
                            s.environment.current_scope as int,
                        ),
                        current_scope: if s.environment.current_scope != 0 {
                            (s.environment.current_scope - 1) as usize
                        } else {
                            0
                        },
                    },
                ),
            ),
            _ => StepView::Fault(Fault::CodeOverrun),
        }
    }
}

/// One step of the machine from the state `s`, with the answer of the
/// host if the step is repeated with one.
pub open spec fn step(s: VmView, answer: Option<ValueView>) -> StepView {
    if s.idx >= s.chunk.code.len() {
        StepView::Fault(Fault::CodeOverrun)
    } else {
        match s.chunk.code[s.idx as int] {
            OpView::Return => step_return(s, answer),
            OpView::StructSet(root, fields) => step_struct_set(s, root, fields, answer),
            OpView::StructSetByIndex(i) => step_set_index(s, i, answer),
            OpView::StructGet(field) => step_struct_get(s, field, answer),
            OpView::NewStruct(name) => step_new_struct(s, name, answer),
            OpView::TransformToType(t) => step_transform(s, t, answer),
            OpView::Add => step_arith(s, BinOp::Add, answer),
            OpView::Sub => step_arith(s, BinOp::Sub, answer),
            OpView::Mul => step_arith(s, BinOp::Mul, answer),
            OpView::Div => step_arith(s, BinOp::Div, answer),
            OpView::CallFunc(name) => step_call(s, name, answer),
            OpView::CmpLess => step_compare(s, Relation::Less, answer),
            OpView::CmpLessEqual => step_compare(s, Relation::LessEqual, answer),
            OpView::CmpGreater => step_compare(s, Relation::Greater, answer),
            OpView::CmpGreaterEqual => step_compare(s, Relation::GreaterEqual, answer),
            OpView::CmpEqual => step_compare(s, Relation::Equal, answer),
            OpView::CmpNotEqual => step_compare(s, Relation::NotEqual, answer),
            OpView::CmpAnd => step_logic(s, true, answer),
            OpView::CmpOr => step_logic(s, false, answer),
            OpView::JmpIfFalse(at) => step_branch(s, at, answer),
            OpView::Negate => step_negate(s, answer),
            OpView::Not => step_not(s, answer),
            OpView::ArgumentStore(name, t) => step_argument(s, name, t, answer),
            OpView::Store(name, t) => step_store(s, name, t, answer),
            OpView::InferStore(name) => step_infer(s, name, answer),
            OpView::Load(name) => step_load(s, name, answer),
            OpView::Assign(name) => step_assign(s, name, answer),
            op => step_plain(s, op, answer),
        }
    }
}

/// Up to `fuel` steps from the state `s`, none of them with an answer:
/// the run stops at the first step that does not end in `Continue`.
pub open spec fn run(s: VmView, fuel: nat) -> StepView
    decreases fuel,
{
    if fuel == 0 {
        StepView::Continue(s)
    } else {
        match step(s, None) {
            StepView::Continue(t) => run(t, (fuel - 1) as nat),
            other => other,
        }
    }
}

/// The state in which a run of up to `fuel` steps from `s` stops: the
/// state after the last step that ended in `Continue`. A run that ends
/// in a request to the host or in a fault stops before the instruction
/// that asks or fails; a run that ends the script stops there too.
pub open spec fn stop(s: VmView, fuel: nat) -> VmView
    decreases fuel,
{
    if fuel == 0 {
        s
    } else {
        match step(s, None) {
            StepView::Continue(t) => stop(t, (fuel - 1) as nat),
            _ => s,
        }
    }
}

/// Whether the result `r` of a step and the state `after` it are what
/// `expected` says, from the state `before`. A step that asks the host
/// or fails leaves the machine as it was.
pub open spec fn outcome(r: Step, after: VmView, before: VmView, expected: StepView) -> bool {
    match expected {
        StepView::Continue(s) => r is Continue && after == s,
        StepView::Halt(s) => r is Halt && after == s,
        StepView::Host(q) => r is Host && r->Host_0@ == q && after == before,
        StepView::Fault(f) => r is Fault && r->Fault_0 == f && after == before,
    }
}

/// The views of the first `k` values of a run.
pub proof fn lemma_value_views_subrange(v: Seq<Value>, k: int)
    requires
        0 <= k <= v.len(),
    ensures
        value_views(v.subrange(0, k)) == value_views(v).subrange(0, k),
{
    assert(value_views(v.subrange(0, k)) =~= value_views(v).subrange(0, k));
}

/// The views of a run of types with one more behind it.
pub proof fn lemma_type_views_push(v: Seq<ClassType>, t: ClassType)
    ensures
        type_views(v.push(t)) == type_views(v).push(t@),
{
    assert(type_views(v.push(t)) =~= type_views(v).push(t@));
}

fn want_of(t: &ClassType) -> (g: Tag)
    ensures
        g == wanted(t@),
{
    match t {
        ClassType::Any => Tag::Nil,
        ClassType::Uint => Tag::Uint,
        ClassType::Int => Tag::Int,
        ClassType::Decimal => Tag::Decimal,
        ClassType::Str => Tag::Str,
        ClassType::Bool => Tag::Bool,
        ClassType::Struct(_) => Tag::Struct,
    }
}

fn same_tag(a: Tag, b: Tag) -> (r: bool)
    ensures
        r == (a == b),
{
    a == b
}

fn settle(c: Conv<Value>, answer: Option<Value>, want: Tag) -> (r: Conv<Value>)
    ensures
        conv_view(r) == settled(conv_view(c), answer_view(answer), want),
{
    match c {
        Conv::Done(v) => match answer {
            Some(_) => Conv::Fault(Fault::BadAnswer),
            None => Conv::Done(v),
        },
        Conv::Host => match answer {
            Some(a) => if same_tag(a.tag(), want) {
                Conv::Done(a)
            } else {
                Conv::Fault(Fault::BadAnswer)
            },
            None => Conv::Host,
        },
        Conv::Fault(f) => Conv::Fault(f),
    }
}

fn reversed(v: &Vec<Value>) -> (r: Vec<Value>)
    ensures
        value_views(r@) == value_views(v@).reverse(),
{
    let mut r: Vec<Value> = Vec::new();
    let mut i: usize = v.len();
    while i > 0
        invariant
            i <= v.len(),
            r@.len() == v.len() - i,
            forall|j: int| 0 <= j < r@.len() ==> r@[j]@ == v@[v.len() - 1 - j]@,
        decreases i,
    {
        i -= 1;
        r.push(v[i].clone());
    }
    assert(value_views(r@) =~= value_views(v@).reverse());
    r
}

impl<'a> VM<'a> {
    /// A machine at the start of `chunk`, with nothing on its stacks and
    /// no variable.
    pub fn new(chunk: &'a Chunk) -> (vm: VM<'a>)
        ensures
            vm@ == (VmView {
                chunk: chunk@,
                idx: 0,
                stack: Seq::empty(),
                call_stack: Seq::empty(),
                environment: EnvView { entries: Seq::empty(), current_scope: 0 },
                function_starting_scope: Seq::empty(),
                function_jump_back: Seq::empty(),
                function_return_types: Seq::empty(),
            }),
    {
        let vm = VM {
            chunk,
            idx: 0,
            environment: Environment::new(),
            stack: Vec::new(),
            call_stack: Vec::new(),
            function_starting_scope: Vec::new(),
            function_jump_back: Vec::new(),
            function_return_types: Vec::new(),
        };
        assert(vm@.stack =~= Seq::empty());
        assert(vm@.call_stack =~= Seq::empty());
        assert(vm@.function_return_types =~= Seq::empty());
        vm
    }

    fn advance(&mut self)
        requires
            old(self).idx < usize::MAX,
        ensures
            final(self)@ == next(old(self)@),
    {
        self.idx += 1;
    }

    fn push_value(&mut self, v: Value)
        ensures
            final(self)@ == pushed(old(self)@, v@),
    {
        proof {
            lemma_value_views_push(self.stack@, v);
        }
        self.stack.push(v);
    }

    fn drop_values(&mut self, n: usize)
        requires
            n <= old(self).stack@.len(),
        ensures
            final(self)@ == popped(old(self)@, n as int),
    {
        let keep = self.stack.len() - n;
        proof {
            lemma_value_views_subrange(self.stack@, keep as int);
        }
        self.stack.truncate(keep);
    }

    fn commit(&mut self, n: usize, c: Conv<Value>) -> (r: Step)
        requires
            n <= old(self).stack@.len(),
            old(self).idx < usize::MAX,
            !(c is Host),
        ensures
            forall|q: HostRequestView|
                outcome(
                    r,
                    final(self)@,
                    old(self)@,
                    #[trigger] replace_top(old(self)@, n as int, conv_view(c), q),
                ),
            outcome(r, final(self)@, old(self)@, replace_plain(old(self)@, n as int, conv_view(c))),
    {
        match c {
            Conv::Done(v) => {
                self.advance();
                self.drop_values(n);
                self.push_value(v);
                Step::Continue
            },
            Conv::Host => Step::Continue,
            Conv::Fault(f) => Step::Fault(f),
        }
    }

    fn do_arith(&mut self, op: BinOp, answer: Option<Value>) -> (r: Step)
        requires
            old(self).idx < usize::MAX,
        ensures
            outcome(
                r,
                final(self)@,
                old(self)@,
                step_arith(old(self)@, op, answer_view(answer)),
            ),
    {
        reveal(step_arith);
        let n = self.stack.len();
        if n < 2 {
            return Step::Fault(Fault::StackUnderflow);
        }
        let a = &self.stack[n - 2];
        let b = &self.stack[n - 1];
        let want = a.promoted_tag(b);
        match settle(a.arith(b, op), answer, want) {
            Conv::Host => Step::Host(HostRequest::Arith(op, a.clone(), b.clone())),
            c => self.commit(2, c),
        }
    }

    fn do_compare(&mut self, rel: Relation, answer: Option<Value>) -> (r: Step)
        requires
            old(self).idx < usize::MAX,
        ensures
            outcome(
                r,
                final(self)@,
                old(self)@,
                step_compare(old(self)@, rel, answer_view(answer)),
            ),
    {
        reveal(step_compare);
        let n = self.stack.len();
        if n < 2 {
            return Step::Fault(Fault::StackUnderflow);
        }
        let a = &self.stack[n - 2];
        let b = &self.stack[n - 1];
        match settle(a.compare(b, rel), answer, Tag::Bool) {
            Conv::Host => Step::Host(HostRequest::Compare(rel, a.clone(), b.clone())),
            c => self.commit(2, c),
        }
    }

    fn do_logic(&mut self, both: bool, answer: Option<Value>) -> (r: Step)
        requires
            old(self).idx < usize::MAX,
        ensures
            outcome(
                r,
                final(self)@,
                old(self)@,
                step_logic(old(self)@, both, answer_view(answer)),
            ),
    {
        reveal(step_logic);
        if answer.is_some() {
            return Step::Fault(Fault::BadAnswer);
        }
        let n = self.stack.len();
        if n < 2 {
            return Step::Fault(Fault::StackUnderflow);
        }
        let c = self.stack[n - 2].logic(&self.stack[n - 1], both);
        self.commit(2, c)
    }

    fn do_negate(&mut self, answer: Option<Value>) -> (r: Step)
        requires
            old(self).idx < usize::MAX,
        ensures
            outcome(r, final(self)@, old(self)@, step_negate(old(self)@, answer_view(answer))),
    {
        reveal(step_negate);
        let n = self.stack.len();
        if n < 1 {
            return Step::Fault(Fault::StackUnderflow);
        }
        let v = &self.stack[n - 1];
        match settle(v.negate(), answer, Tag::Decimal) {
            Conv::Host => Step::Host(HostRequest::Negate(v.clone())),
            c => self.commit(1, c),
        }
    }

    fn do_not(&mut self, answer: Option<Value>) -> (r: Step)
        requires
            old(self).idx < usize::MAX,
        ensures
            outcome(r, final(self)@, old(self)@, step_not(old(self)@, answer_view(answer))),
    {
        reveal(step_not);
        if answer.is_some() {
            return Step::Fault(Fault::BadAnswer);
        }
        let n = self.stack.len();
        if n < 1 {
            return Step::Fault(Fault::StackUnderflow);
        }
        let c = self.stack[n - 1].invert();
        self.commit(1, c)
    }

    fn do_transform(&mut self, t: &ClassType, answer: Option<Value>) -> (r: Step)
        requires
            old(self).idx < usize::MAX,
        ensures
            outcome(
                r,
                final(self)@,
                old(self)@,
                step_transform(old(self)@, t@, answer_view(answer)),
            ),
    {
        reveal(step_transform);
        let n = self.stack.len();
        if n < 1 {
            return Step::Fault(Fault::StackUnderflow);
        }
        let v = &self.stack[n - 1];
        match settle(v.coerce(t), answer, want_of(t)) {
            Conv::Host => Step::Host(HostRequest::Coerce(v.clone(), t.clone())),
            c => self.commit(1, c),
        }
    }

    fn do_store(&mut self, name: &String, t: &ClassType, answer: Option<Value>) -> (r: Step)
        requires
            old(self).idx < usize::MAX,
        ensures
            outcome(
                r,
                final(self)@,
                old(self)@,
                step_store(old(self)@, name@, t@, answer_view(answer)),
            ),
    {
        reveal(step_store);
        let n = self.stack.len();
        if n < 1 {
            return Step::Fault(Fault::StackUnderflow);
        }
        let v = &self.stack[n - 1];
        match settle(v.coerce(t), answer, want_of(t)) {
            Conv::Host => Step::Host(HostRequest::Coerce(v.clone(), t.clone())),
            Conv::Done(w) => {
                self.advance();
                self.drop_values(1);
                self.environment.declare(name.clone(), t.clone(), w);
                Step::Continue
            },
            Conv::Fault(f) => Step::Fault(f),
        }
    }

    fn do_argument(&mut self, name: &String, t: &ClassType, answer: Option<Value>) -> (r: Step)
        requires
            old(self).idx < usize::MAX,
        ensures
            outcome(
                r,
                final(self)@,
                old(self)@,
                step_argument(old(self)@, name@, t@, answer_view(answer)),
            ),
    {
        reveal(step_argument);
        let n = self.call_stack.len();
        if n < 1 {
            return Step::Fault(Fault::StackUnderflow);
        }
        let v = &self.call_stack[n - 1];
        match settle(v.coerce(t), answer, want_of(t)) {
            Conv::Host => Step::Host(HostRequest::Coerce(v.clone(), t.clone())),
            Conv::Done(w) => {
                self.advance();
                proof {
                    lemma_value_views_subrange(self.call_stack@, n - 1);
                    assert(value_views(self.call_stack@).subrange(0, n - 1) =~= value_views(
                        self.call_stack@,
                    ).drop_last());
                }
                self.call_stack.truncate(n - 1);
                self.environment.declare(name.clone(), t.clone(), w);
                Step::Continue
            },
            Conv::Fault(f) => Step::Fault(f),
        }
    }

    fn do_infer(&mut self, name: &String, answer: Option<Value>) -> (r: Step)
        requires
            old(self).idx < usize::MAX,
        ensures
            outcome(
                r,
                final(self)@,
                old(self)@,
                step_infer(old(self)@, name@, answer_view(answer)),
            ),
    {
        reveal(step_infer);
        if answer.is_some() {
            return Step::Fault(Fault::BadAnswer);
        }
        match self.stack.pop() {
            Some(v) => {
                proof {
                    lemma_value_views_subrange(old(self).stack@, old(self).stack@.len() - 1);
                    assert(self.stack@ =~= old(self).stack@.subrange(
                        0,
                        old(self).stack@.len() - 1,
                    ));
                }
                self.advance();
                self.environment.add_infer_variable(name.clone(), v);
                Step::Continue
            },
            None => Step::Fault(Fault::StackUnderflow),
        }
    }

    fn do_load(&mut self, name: &String, answer: Option<Value>) -> (r: Step)
        requires
            old(self).idx < usize::MAX,
        ensures
            outcome(r, final(self)@, old(self)@, step_load(old(self)@, name@, answer_view(answer))),
    {
        reveal(step_load);
        if answer.is_some() {
            return Step::Fault(Fault::BadAnswer);
        }
        match self.environment.variable_index(name) {
            Some(k) => {
                let v = match &self.environment.entries[k] {
                    EnvEntry::Variable(_, v, _, _) => v.clone(),
                    _ => Value::Nil,
                };
                self.advance();
                self.push_value(v);
                Step::Continue
            },
            None => Step::Fault(Fault::UnknownVariable),
        }
    }

    fn do_assign(&mut self, name: &String, answer: Option<Value>) -> (r: Step)
        requires
            old(self).idx < usize::MAX,
        ensures
            outcome(
                r,
                final(self)@,
                old(self)@,
                step_assign(old(self)@, name@, answer_view(answer)),
            ),
    {
        reveal(step_assign);
        let n = self.stack.len();
        if n < 1 {
            return Step::Fault(Fault::StackUnderflow);
        }
        match self.environment.variable_index(name) {
            Some(k) => {
                let v = &self.stack[n - 1];
                let c = match &self.environment.entries[k] {
                    EnvEntry::Variable(_, _, t, _) => {
                        match settle(v.coerce(t), answer, want_of(t)) {
                            Conv::Host => {
                                return Step::Host(HostRequest::Coerce(v.clone(), t.clone()));
                            },
                            c => c,
                        }
                    },
                    _ => Conv::Fault(Fault::UnknownVariable),
                };
                match c {
                    Conv::Done(w) => {
                        self.advance();
                        self.drop_values(1);
                        self.environment.store_at(k, w);
                        Step::Continue
                    },
                    Conv::Host => Step::Fault(Fault::UnknownVariable),
                    Conv::Fault(f) => Step::Fault(f),
                }
            },
            None => {
                if answer.is_some() {
                    return Step::Fault(Fault::BadAnswer);
                }
                self.advance();
                self.drop_values(1);
                Step::Continue
            },
        }
    }

    fn do_struct_set(&mut self, root: &String, fields: &Vec<String>, answer: Option<Value>) -> (r:
        Step)
        requires
            old(self).idx < usize::MAX,
        ensures
            outcome(
                r,
                final(self)@,
                old(self)@,
                step_struct_set(old(self)@, root@, name_views(fields@), answer_view(answer)),
            ),
    {
        reveal(step_struct_set);
        let k = match self.environment.variable_index(root) {
            Some(k) => k,
            None => {
                return Step::Fault(Fault::UnknownVariable);
            },
        };
        let n = self.stack.len();
        if n < 1 {
            return Step::Fault(Fault::StackUnderflow);
        }
        let c = match &self.environment.entries[k] {
            EnvEntry::Variable(_, held, t, _) => match held {
                Value::Struct(cs) => {
                    proof {
                        lemma_struct_view(*cs);
                    }
                    match cs.set_path(fields, 0, &self.stack[n - 1]) {
                        Some(changed) => {
                            proof {
                                lemma_struct_view(changed);
                            }
                            let v = Value::Struct(changed);
                            match settle(v.coerce(t), answer, want_of(t)) {
                                Conv::Host => {
                                    return Step::Host(HostRequest::Coerce(v, t.clone()));
                                },
                                c => c,
                            }
                        },
                        None => Conv::Fault(Fault::UnknownField),
                    }
                },
                _ => Conv::Fault(Fault::NotAStruct),
            },
            _ => Conv::Fault(Fault::UnknownVariable),
        };
        match c {
            Conv::Done(w) => {
                self.advance();
                self.drop_values(1);
                self.environment.store_at(k, w);
                Step::Continue
            },
            Conv::Host => Step::Fault(Fault::UnknownVariable),
            Conv::Fault(f) => Step::Fault(f),
        }
    }

    fn do_set_index(&mut self, i: usize, answer: Option<Value>) -> (r: Step)
        requires
            old(self).idx < usize::MAX,
        ensures
            outcome(
                r,
                final(self)@,
                old(self)@,
                step_set_index(old(self)@, i, answer_view(answer)),
            ),
    {
        reveal(step_set_index);
        if answer.is_some() {
            return Step::Fault(Fault::BadAnswer);
        }
        let n = self.stack.len();
        if n < 2 {
            return Step::Fault(Fault::StackUnderflow);
        }
        let changed = match &self.stack[n - 1] {
            Value::Struct(cs) => {
                proof {
                    lemma_struct_view(*cs);
                }
                if i < cs.field_values.len() {
                    let mut c = cs.clone();
                    proof {
                        lemma_struct_view(c);
                    }
                    assert(c.field_values@.len() == cs.field_values@.len()) by {
                        assert(value_views(c.field_values@).len() == value_views(
                            cs.field_values@,
                        ).len());
                    }
                    let ghost before = value_views(c.field_values@);
                    c.field_values[i] = self.stack[n - 2].clone();
                    proof {
                        lemma_struct_view(c);
                        assert(value_views(c.field_values@) =~= before.update(
                            i as int,
                            self.stack@[n - 2]@,
                        ));
                    }
                    Some(c)
                } else {
                    None
                }
            },
            _ => {
                return Step::Fault(Fault::NotAStruct);
            },
        };
        match changed {
            Some(c) => {
                proof {
                    lemma_struct_view(c);
                }
                self.advance();
                self.drop_values(2);
                self.push_value(Value::Struct(c));
            },
            None => {
                let top = self.stack[n - 1].clone();
                self.advance();
                if n >= 3 {
                    self.drop_values(3);
                } else {
                    self.drop_values(2);
                }
                self.push_value(top);
            },
        }
        Step::Continue
    }

    fn do_struct_get(&mut self, field: &String, answer: Option<Value>) -> (r: Step)
        requires
            old(self).idx < usize::MAX,
        ensures
            outcome(
                r,
                final(self)@,
                old(self)@,
                step_struct_get(old(self)@, field@, answer_view(answer)),
            ),
    {
        reveal(step_struct_get);
        if answer.is_some() {
            return Step::Fault(Fault::BadAnswer);
        }
        let n = self.stack.len();
        if n < 1 {
            return Step::Fault(Fault::StackUnderflow);
        }
        let v = match &self.stack[n - 1] {
            Value::Struct(cs) => {
                proof {
                    lemma_struct_view(*cs);
                }
                match cs.find(field) {
                    Some(k) => cs.field_values[k].clone(),
                    None => {
                        return Step::Fault(Fault::UnknownField);
                    },
                }
            },
            _ => {
                return Step::Fault(Fault::NotAStruct);
            },
        };
        self.advance();
        self.drop_values(1);
        self.push_value(v);
        Step::Continue
    }

    fn do_new_struct(&mut self, name: &String, answer: Option<Value>) -> (r: Step)
        requires
            old(self).idx < usize::MAX,
        ensures
            outcome(
                r,
                final(self)@,
                old(self)@,
                step_new_struct(old(self)@, name@, answer_view(answer)),
            ),
    {
        reveal(step_new_struct);
        if answer.is_some() {
            return Step::Fault(Fault::BadAnswer);
        }
        match self.chunk.functions.struct_index(name) {
            Some(k) => {
                let cs = match &self.chunk.functions.entries[k] {
                    EnvEntry::Structure(cs) => cs.clone(),
                    _ => {
                        return Step::Fault(Fault::UnknownStruct);
                    },
                };
                proof {
                    lemma_struct_view(cs);
                }
                self.advance();
                self.push_value(Value::Struct(cs));
                Step::Continue
            },
            None => Step::Fault(Fault::UnknownStruct),
        }
    }

    fn do_call(&mut self, name: &String, answer: Option<Value>) -> (r: Step)
        requires
            old(self).idx < usize::MAX,
        ensures
            outcome(r, final(self)@, old(self)@, step_call(old(self)@, name@, answer_view(answer))),
    {
        reveal(step_call);
        let k = match self.chunk.functions.function_index(name) {
            Some(k) => k,
            None => {
                return Step::Fault(Fault::UnknownFunction);
            },
        };
        match &self.chunk.functions.entries[k] {
            EnvEntry::Function(_, t, count, at) => {
                if answer.is_some() {
                    return Step::Fault(Fault::BadAnswer);
                }
                if self.call_stack.len() != *count {
                    return Step::Fault(Fault::Arity);
                }
                if self.environment.current_scope >= usize::MAX {
                    return Step::Fault(Fault::ScopeOverflow);
                }
                proof {
                    lemma_type_views_push(self.function_return_types@, *t);
                }
                self.function_jump_back.push(self.idx + 1);
                self.function_starting_scope.push(self.environment.current_scope + 1);
                self.function_return_types.push(t.clone());
                proof {
                    assert(self@.function_return_types =~= old(self)@.function_return_types.push(
                        t@,
                    ));
                }
                self.idx = *at;
                Step::Continue
            },
            EnvEntry::NativeFunction(_, count) => {
                if self.call_stack.len() != *count {
                    return Step::Fault(Fault::Arity);
                }
                match answer {
                    Some(a) => {
                        self.advance();
                        self.push_value(a);
                        self.call_stack.clear();
                        assert(self@.call_stack =~= Seq::empty());
                        Step::Continue
                    },
                    None => Step::Host(HostRequest::Call(name.clone(), reversed(&self.call_stack))),
                }
            },
            _ => Step::Fault(Fault::UnknownFunction),
        }
    }

    fn do_return(&mut self, answer: Option<Value>) -> (r: Step)
        ensures
            outcome(r, final(self)@, old(self)@, step_return(old(self)@, answer_view(answer))),
    {
        reveal(step_return);
        let frames = self.function_jump_back.len();
        let scopes = self.function_starting_scope.len();
        let types = self.function_return_types.len();
        if frames == 0 || scopes == 0 || types == 0 {
            return Step::Fault(Fault::ReturnOutsideFunction);
        }
        let start = self.function_starting_scope[scopes - 1];
        if start == 0 {
            return Step::Fault(Fault::ScopeOverflow);
        }
        let n = self.stack.len();
        let c = match &self.function_return_types[types - 1] {
            ClassType::Any => {
                if answer.is_some() {
                    return Step::Fault(Fault::BadAnswer);
                }
                None
            },
            t => {
                if n < 1 {
                    return Step::Fault(Fault::StackUnderflow);
                }
                let v = &self.stack[n - 1];
                match settle(v.coerce(t), answer, want_of(t)) {
                    Conv::Host => {
                        return Step::Host(HostRequest::Coerce(v.clone(), t.clone()));
                    },
                    Conv::Done(w) => Some(w),
                    Conv::Fault(f) => {
                        return Step::Fault(f);
                    },
                }
            },
        };
        self.idx = self.function_jump_back[frames - 1];
        self.function_jump_back.truncate(frames - 1);
        self.function_starting_scope.truncate(scopes - 1);
        self.function_return_types.truncate(types - 1);
        proof {
            assert(self@.function_return_types =~= old(self)@.function_return_types.drop_last());
            assert(self@.function_jump_back =~= old(self)@.function_jump_back.drop_last());
            assert(self@.function_starting_scope =~= old(self)@.function_starting_scope.drop_last());
        }
        self.environment.remove_from_scope(start);
        self.environment.current_scope = start - 1;
        match c {
            Some(w) => {
                self.drop_values(1);
                self.push_value(w);
            },
            None => {},
        }
        Step::Continue
    }

    fn do_branch(&mut self, at: usize, answer: Option<Value>) -> (r: Step)
        requires
            old(self).idx < usize::MAX,
        ensures
            outcome(r, final(self)@, old(self)@, step_branch(old(self)@, at, answer_view(answer))),
    {
        reveal(step_branch);
        if answer.is_some() {
            return Step::Fault(Fault::BadAnswer);
        }
        let n = self.stack.len();
        if n < 1 {
            return Step::Fault(Fault::StackUnderflow);
        }
        match self.stack[n - 1].bool_conv() {
            Conv::Done(b) => {
                if b {
                    self.advance();
                } else {
                    self.idx = at;
                }
                self.drop_values(1);
                Step::Continue
            },
            Conv::Host => Step::Fault(Fault::Conversion),
            Conv::Fault(f) => Step::Fault(f),
        }
    }

    fn do_plain(&mut self, op: &OpCode, answer: Option<Value>) -> (r: Step)
        requires
            old(self).idx < usize::MAX,
        ensures
            outcome(r, final(self)@, old(self)@, step_plain(old(self)@, op@, answer_view(answer))),
    {
        reveal(step_plain);
        if answer.is_some() {
            return Step::Fault(Fault::BadAnswer);
        }
        match op {
            OpCode::EndScript => {
                self.advance();
                self.environment.entries.clear();
                assert(self@.environment.entries =~= Seq::empty());
                Step::Halt
            },
            OpCode::Push(v) => {
                self.advance();
                self.push_value(v.clone());
                Step::Continue
            },
            OpCode::Pop => {
                self.advance();
                if self.stack.len() > 0 {
                    self.drop_values(1);
                }
                Step::Continue
            },
            OpCode::Jmp(at) => {
                self.idx = *at;
                Step::Continue
            },
            OpCode::PopToCall => {
                match self.stack.pop() {
                    Some(v) => {
                        proof {
                            lemma_value_views_subrange(
                                old(self).stack@,
                                old(self).stack@.len() - 1,
                            );
                            assert(self.stack@ =~= old(self).stack@.subrange(
                                0,
                                old(self).stack@.len() - 1,
                            ));
                            lemma_value_views_push(self.call_stack@, v);
                            assert(value_views(old(self).stack@).last() == v@);
                        }
                        self.advance();
                        self.call_stack.push(v);
                        assert(self@.call_stack == old(self)@.call_stack.push(
                            old(self)@.stack.last(),
                        ));
                        Step::Continue
                    },
                    None => Step::Fault(Fault::StackUnderflow),
                }
            },
            OpCode::StartScope => {
                if self.environment.current_scope >= usize::MAX {
                    return Step::Fault(Fault::ScopeOverflow);
                }
                self.advance();
                self.environment.current_scope += 1;
                Step::Continue
            },
            OpCode::EndScope => {
                self.advance();
                let depth = self.environment.current_scope;
                self.environment.remove_from_scope(depth);
                if self.environment.current_scope != 0 {
                    self.environment.current_scope -= 1;
                }
                Step::Continue
            },
            _ => Step::Fault(Fault::CodeOverrun),
        }
    }

    /// Runs the instruction under the instruction pointer. `answer` is
    /// `None`, unless the step before ended in `Step::Host`: then it is
    /// what the host computed.
    pub fn step(&mut self, answer: Option<Value>) -> (r: Step)
        ensures
            outcome(r, final(self)@, old(self)@, step(old(self)@, answer_view(answer))),
    {
        let chunk = self.chunk;
        if self.idx >= chunk.code.len() {
            return Step::Fault(Fault::CodeOverrun);
        }
        match &chunk.code[self.idx] {
            OpCode::Return => self.do_return(answer),
            OpCode::StructSet(root, fields) => self.do_struct_set(root, fields, answer),
            OpCode::StructSetByIndex(i) => self.do_set_index(*i, answer),
            OpCode::StructGet(field) => self.do_struct_get(field, answer),
            OpCode::NewStruct(name) => self.do_new_struct(name, answer),
            OpCode::TransformToType(t) => self.do_transform(t, answer),
            OpCode::Add => self.do_arith(BinOp::Add, answer),
            OpCode::Sub => self.do_arith(BinOp::Sub, answer),
            OpCode::Mul => self.do_arith(BinOp::Mul, answer),
            OpCode::Div => self.do_arith(BinOp::Div, answer),
            OpCode::CallFunc(name) => self.do_call(name, answer),
            OpCode::CmpLess => self.do_compare(Relation::Less, answer),
            OpCode::CmpLessEqual => self.do_compare(Relation::LessEqual, answer),
            OpCode::CmpGreater => self.do_compare(Relation::Greater, answer),
            OpCode::CmpGreaterEqual => self.do_compare(Relation::GreaterEqual, answer),
            OpCode::CmpEqual => self.do_compare(Relation::Equal, answer),
            OpCode::CmpNotEqual => self.do_compare(Relation::NotEqual, answer),
            OpCode::CmpAnd => self.do_logic(true, answer),
            OpCode::CmpOr => self.do_logic(false, answer),
            OpCode::JmpIfFalse(at) => self.do_branch(*at, answer),
            OpCode::Negate => self.do_negate(answer),
            OpCode::Not => self.do_not(answer),
            OpCode::ArgumentStore(name, t) => self.do_argument(name, t, answer),
            OpCode::Store(name, t) => self.do_store(name, t, answer),
            OpCode::InferStore(name) => self.do_infer(name, answer),
            OpCode::Load(name) => self.do_load(name, answer),
            OpCode::Assign(name) => self.do_assign(name, answer),
            op => self.do_plain(op, answer),
        }
    }

    /// Runs up to `fuel` instructions and stops at the first step that
    /// does not end in `Continue`: at the end of the script, at a request
    /// to the host, or at a fault. The result is `Continue` when `fuel`
    /// instructions have been run and the script can go on.
    pub fn interpret(&mut self, fuel: usize) -> (r: Step)
        ensures
            outcome_of_run(
                r,
                final(self)@,
                run(old(self)@, fuel as nat),
                stop(old(self)@, fuel as nat),
            ),
    {
        let mut left = fuel;
        while left > 0
            invariant
                run(self@, left as nat) == run(old(self)@, fuel as nat),
                stop(self@, left as nat) == stop(old(self)@, fuel as nat),
            decreases left,
        {
            match self.step(None) {
                Step::Continue => {},
                other => {
                    return other;
                },
            }
            left -= 1;
        }
        Step::Continue
    }
}

/// Whether the result `r` of a run and the state `after` it are what
/// `expected` says. A run that ends in a request to the host or in a
/// fault leaves the machine in the state `at` in which it came to the
/// instruction that asks or fails, so that the next step, with the
/// answer, goes on from there, and a fault can be reported with what the
/// machine held.
pub open spec fn outcome_of_run(r: Step, after: VmView, expected: StepView, at: VmView) -> bool {
    match expected {
        StepView::Continue(s) => r is Continue && after == s,
        StepView::Halt(s) => r is Halt && after == s,
        StepView::Host(q) => r is Host && r->Host_0@ == q && after == at,
        StepView::Fault(f) => r is Fault && r->Fault_0 == f && after == at,
    }
}

} // verus!
