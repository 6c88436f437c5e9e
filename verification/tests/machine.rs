use copper::chunk::{Chunk, OpCode};
use copper::environment::{CopperStruct, EnvEntry};
use copper::value::{BinOp, ClassType, Fault, Value};
use copper::vm::{HostRequest, Step, VM};

fn name(text: &str) -> String {
    text.to_string()
}

fn chunk_of(code: Vec<OpCode>) -> Chunk {
    let mut chunk = Chunk::new();
    for op in code {
        chunk.write(op, 1);
    }
    chunk
}

#[test]
fn push_and_pop() {
    let chunk = chunk_of(vec![OpCode::Push(Value::Int(1)), OpCode::Pop, OpCode::Pop, OpCode::EndScript]);
    let mut vm = VM::new(&chunk);
    assert_eq!(vm.step(None), Step::Continue);
    assert_eq!(vm.stack, vec![Value::Int(1)]);
    assert_eq!(vm.step(None), Step::Continue);
    assert_eq!(vm.step(None), Step::Continue);
    assert!(vm.stack.is_empty());
    assert_eq!(vm.idx, 3);
    assert_eq!(vm.step(None), Step::Halt);
    assert_eq!(vm.step(None), Step::Fault(Fault::CodeOverrun));
}

#[test]
fn end_script_clears_the_environment() {
    let chunk = chunk_of(vec![OpCode::Push(Value::Int(1)), OpCode::InferStore(name("x")), OpCode::EndScript]);
    let mut vm = VM::new(&chunk);
    assert_eq!(vm.interpret(2), Step::Continue);
    assert_eq!(vm.environment.entries.len(), 1);
    assert_eq!(vm.interpret(10), Step::Halt);
    assert!(vm.environment.entries.is_empty());
}

#[test]
fn interpret_stops_when_fuel_is_used_up() {
    let chunk = chunk_of(vec![OpCode::Jmp(0)]);
    let mut vm = VM::new(&chunk);
    assert_eq!(vm.interpret(1000), Step::Continue);
    assert_eq!(vm.idx, 0);
    assert_eq!(vm.interpret(0), Step::Continue);
}

#[test]
fn start_and_end_scope() {
    let chunk = chunk_of(vec![
        OpCode::StartScope,
        OpCode::Push(Value::Int(1)),
        OpCode::InferStore(name("x")),
        OpCode::EndScope,
        OpCode::EndScope,
    ]);
    let mut vm = VM::new(&chunk);
    assert_eq!(vm.interpret(3), Step::Continue);
    assert_eq!(vm.environment.current_scope, 1);
    assert_eq!(vm.environment.entries.len(), 1);
    assert_eq!(vm.step(None), Step::Continue);
    assert_eq!(vm.environment.current_scope, 0);
    assert!(vm.environment.entries.is_empty());
    assert_eq!(vm.step(None), Step::Continue);
    assert_eq!(vm.environment.current_scope, 0);
}

#[test]
fn jump_if_false_pops_its_condition() {
    let chunk = chunk_of(vec![
        OpCode::Push(Value::Bool(false)),
        OpCode::JmpIfFalse(3),
        OpCode::Push(Value::Int(1)),
        OpCode::Push(Value::Bool(true)),
        OpCode::JmpIfFalse(0),
        OpCode::EndScript,
    ]);
    let mut vm = VM::new(&chunk);
    assert_eq!(vm.interpret(2), Step::Continue);
    assert_eq!(vm.idx, 3);
    assert!(vm.stack.is_empty());
    assert_eq!(vm.interpret(2), Step::Continue);
    assert_eq!(vm.idx, 5);
    assert!(vm.stack.is_empty());
}

#[test]
fn return_converts_to_the_return_type() {
    let mut chunk = chunk_of(vec![
        OpCode::CallFunc(name("f")),
        OpCode::EndScript,
        OpCode::StartScope,
        OpCode::Push(Value::Int(7)),
        OpCode::InferStore(name("local")),
        OpCode::Push(Value::Int(42)),
        OpCode::Return,
    ]);
    chunk.bind_function(name("f"), ClassType::Str, 0, 2);
    let mut vm = VM::new(&chunk);
    assert_eq!(vm.step(None), Step::Continue);
    assert_eq!(vm.function_jump_back, vec![1]);
    assert_eq!(vm.function_starting_scope, vec![1]);
    assert_eq!(vm.function_return_types, vec![ClassType::Str]);
    assert_eq!(vm.idx, 2);
    assert_eq!(vm.interpret(4), Step::Continue);
    assert_eq!(vm.environment.entries.len(), 1);
    assert_eq!(vm.step(None), Step::Continue);
    assert_eq!(vm.stack, vec![Value::Str(name("42"))]);
    assert_eq!(vm.idx, 1);
    assert_eq!(vm.environment.current_scope, 0);
    assert!(vm.environment.entries.is_empty());
    assert!(vm.function_jump_back.is_empty());
}

#[test]
fn struct_set_by_index_out_of_range_takes_one_more_value() {
    let mut chunk = chunk_of(vec![
        OpCode::Push(Value::Int(1)),
        OpCode::Push(Value::Int(2)),
        OpCode::NewStruct(name("E")),
        OpCode::StructSetByIndex(0),
    ]);
    chunk.bind_struct(CopperStruct::new(name("E")));
    let mut vm = VM::new(&chunk);
    assert_eq!(vm.interpret(4), Step::Continue);
    assert_eq!(vm.stack, vec![Value::Struct(CopperStruct::new(name("E")))]);
}

#[test]
fn host_is_asked_and_nothing_changes_until_it_answers() {
    let chunk = chunk_of(vec![
        OpCode::Push(Value::Decimal(name("1.5"))),
        OpCode::Push(Value::Int(2)),
        OpCode::Add,
    ]);
    let mut vm = VM::new(&chunk);
    let asked = vm.interpret(10);
    assert_eq!(
        asked,
        Step::Host(HostRequest::Arith(BinOp::Add, Value::Decimal(name("1.5")), Value::Int(2)))
    );
    assert_eq!(vm.idx, 2);
    assert_eq!(vm.stack.len(), 2);
    assert_eq!(vm.step(None), asked);
    assert_eq!(vm.step(Some(Value::Int(3))), Step::Fault(Fault::BadAnswer));
}

#[test]
fn answer_of_the_right_kind_completes_the_instruction() {
    let chunk = chunk_of(vec![
        OpCode::Push(Value::Decimal(name("1.5"))),
        OpCode::Store(name("n"), ClassType::Int),
        OpCode::Load(name("n")),
    ]);
    let mut vm = VM::new(&chunk);
    assert_eq!(
        vm.interpret(10),
        Step::Host(HostRequest::Coerce(Value::Decimal(name("1.5")), ClassType::Int))
    );
    assert_eq!(vm.step(Some(Value::Int(1))), Step::Continue);
    assert_eq!(
        vm.environment.entries,
        vec![EnvEntry::Variable(name("n"), Value::Int(1), ClassType::Int, 0)]
    );
    assert!(vm.stack.is_empty());
}

#[test]
fn unasked_answer_is_a_fault() {
    let chunk = chunk_of(vec![OpCode::Push(Value::Int(1))]);
    let mut vm = VM::new(&chunk);
    assert_eq!(vm.step(Some(Value::Nil)), Step::Fault(Fault::BadAnswer));
}

#[test]
fn stack_underflow_and_scope_faults() {
    for op in [
        OpCode::Add,
        OpCode::CmpLess,
        OpCode::CmpAnd,
        OpCode::Negate,
        OpCode::Not,
        OpCode::PopToCall,
        OpCode::JmpIfFalse(0),
        OpCode::Store(name("x"), ClassType::Any),
        OpCode::InferStore(name("x")),
        OpCode::Assign(name("x")),
        OpCode::ArgumentStore(name("x"), ClassType::Any),
        OpCode::TransformToType(ClassType::Int),
        OpCode::StructGet(name("f")),
        OpCode::StructSetByIndex(0),
    ] {
        let chunk = chunk_of(vec![op]);
        let mut vm = VM::new(&chunk);
        assert_eq!(vm.step(None), Step::Fault(Fault::StackUnderflow));
    }
    let chunk = chunk_of(vec![OpCode::StartScope]);
    let mut vm = VM::new(&chunk);
    vm.environment.current_scope = usize::MAX;
    assert_eq!(vm.step(None), Step::Fault(Fault::ScopeOverflow));
}

#[test]
fn assignment_to_an_unknown_name_drops_the_value() {
    let chunk = chunk_of(vec![OpCode::Push(Value::Int(1)), OpCode::Assign(name("nobody"))]);
    let mut vm = VM::new(&chunk);
    assert_eq!(vm.interpret(2), Step::Continue);
    assert!(vm.stack.is_empty());
    assert!(vm.environment.entries.is_empty());
}

#[test]
fn chunk_writers() {
    let mut chunk = Chunk::new();
    chunk.write_constant(Value::Int(1), 1);
    chunk.write_store(name("a"), ClassType::Int, 1);
    chunk.write_store_infer(name("b"), 2);
    chunk.write_argument_store(name("c"), ClassType::Any, 2);
    chunk.write_load(name("a"), 3);
    chunk.write_jmp(0, 3);
    chunk.write_jmp_if_false(1, 4);
    chunk.write_call(name("f"), 4);
    chunk.transform_to_type(ClassType::Bool, 5);
    assert_eq!(
        chunk.code,
        vec![
            OpCode::Push(Value::Int(1)),
            OpCode::Store(name("a"), ClassType::Int),
            OpCode::InferStore(name("b")),
            OpCode::ArgumentStore(name("c"), ClassType::Any),
            OpCode::Load(name("a")),
            OpCode::Jmp(0),
            OpCode::JmpIfFalse(1),
            OpCode::CallFunc(name("f")),
            OpCode::TransformToType(ClassType::Bool),
        ]
    );
    assert_eq!(chunk.lines, vec![1, 1, 2, 2, 3, 3, 4, 4, 5]);
    chunk.patch(5, OpCode::Jmp(9));
    assert_eq!(chunk.code[5], OpCode::Jmp(9));
    chunk.bind_native_function(name("print"), 1);
    assert!(chunk.has_function(&name("print")));
    assert!(!chunk.try_bind_native_function(name("print"), 2));
    chunk.erase();
    assert!(chunk.code.is_empty() && chunk.lines.is_empty() && chunk.functions.entries.is_empty());
}

#[test]
fn run_stops_at_a_native_call_with_the_machine_as_it_came_there() {
    let mut chunk = chunk_of(vec![
        OpCode::Push(Value::Int(9)),
        OpCode::Push(Value::Int(1)),
        OpCode::Push(Value::Int(2)),
        OpCode::PopToCall,
        OpCode::PopToCall,
        OpCode::CallFunc(name("pair")),
        OpCode::EndScript,
    ]);
    assert!(chunk.try_bind_native_function(name("pair"), 2));
    let mut vm = VM::new(&chunk);
    assert_eq!(
        vm.interpret(100),
        Step::Host(HostRequest::Call(name("pair"), vec![Value::Int(1), Value::Int(2)]))
    );
    assert_eq!(vm.idx, 5);
    assert_eq!(vm.stack, vec![Value::Int(9)]);
    assert_eq!(vm.call_stack, vec![Value::Int(2), Value::Int(1)]);
    assert_eq!(vm.environment.current_scope, 0);
    assert_eq!(vm.step(Some(Value::Int(3))), Step::Continue);
    assert_eq!(vm.stack, vec![Value::Int(9), Value::Int(3)]);
    assert!(vm.call_stack.is_empty());
    assert_eq!(vm.idx, 6);
    assert_eq!(vm.interpret(100), Step::Halt);
}

#[test]
fn path_through_a_missing_field_is_a_fault() {
    let mut p = CopperStruct::new(name("P"));
    p.insert(name("x"), Value::Int(1));
    let chunk = chunk_of(vec![
        OpCode::Push(Value::Struct(p)),
        OpCode::InferStore(name("p")),
        OpCode::Push(Value::Int(5)),
        OpCode::StructSet(name("p"), vec![name("nope"), name("x")]),
        OpCode::EndScript,
    ]);
    let mut vm = VM::new(&chunk);
    assert_eq!(vm.interpret(100), Step::Fault(Fault::UnknownField));
}

#[test]
fn variable_of_a_structure_type_takes_no_structure_of_another_name() {
    let a = CopperStruct::new(name("A"));
    let b = CopperStruct::new(name("B"));
    let chunk = chunk_of(vec![
        OpCode::Push(Value::Struct(a.clone())),
        OpCode::Store(name("x"), ClassType::Struct(name("A"))),
        OpCode::Push(Value::Struct(a.clone())),
        OpCode::Assign(name("x")),
        OpCode::Push(Value::Struct(b)),
        OpCode::Assign(name("x")),
        OpCode::EndScript,
    ]);
    let mut vm = VM::new(&chunk);
    assert_eq!(vm.interpret(4), Step::Continue);
    assert_eq!(vm.interpret(100), Step::Fault(Fault::Conversion));
    match &vm.environment.entries[0] {
        EnvEntry::Variable(_, held, _, _) => assert_eq!(held, &Value::Struct(a)),
        other => panic!("not a variable: {:?}", other),
    }
}

#[test]
fn fault_leaves_the_machine_as_it_was() {
    let mut chunk = chunk_of(vec![
        OpCode::Push(Value::Int(1)),
        OpCode::PopToCall,
        OpCode::CallFunc(name("pair")),
        OpCode::EndScript,
    ]);
    assert!(chunk.try_bind_native_function(name("pair"), 2));
    let mut vm = VM::new(&chunk);
    assert_eq!(vm.interpret(100), Step::Fault(Fault::Arity));
    assert_eq!(vm.idx, 2);
    assert_eq!(vm.call_stack, vec![Value::Int(1)]);
    assert!(vm.stack.is_empty());

    let sum = chunk_of(vec![
        OpCode::Push(Value::Int(1)),
        OpCode::Push(Value::Bool(true)),
        OpCode::Add,
        OpCode::EndScript,
    ]);
    let mut vm = VM::new(&sum);
    assert_eq!(vm.interpret(100), Step::Fault(Fault::Operand));
    assert_eq!(vm.idx, 2);
    assert_eq!(vm.stack, vec![Value::Int(1), Value::Bool(true)]);
}
