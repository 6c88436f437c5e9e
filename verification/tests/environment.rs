use copper::environment::{CopperStruct, EnvEntry, Environment};
use copper::value::{ClassType, Value};

fn name(text: &str) -> String {
    text.to_string()
}

#[test]
fn innermost_declaration_wins() {
    let mut env = Environment::new();
    env.add_infer_variable(name("x"), Value::Int(1));
    env.current_scope = 1;
    env.add_infer_variable(name("x"), Value::Int(2));
    env.current_scope = 2;
    assert_eq!(
        env.get_variable(name("x")),
        EnvEntry::Variable(name("x"), Value::Int(2), ClassType::Int, 1)
    );
    env.remove_from_scope(1);
    env.current_scope = 0;
    assert_eq!(
        env.get_variable(name("x")),
        EnvEntry::Variable(name("x"), Value::Int(1), ClassType::Int, 0)
    );
    assert_eq!(env.variable_index(&name("y")), None);
}

#[test]
fn redeclaration_at_the_same_depth_replaces() {
    let mut env = Environment::new();
    env.add_variable(name("x"), ClassType::Int, Value::Str(name("5")));
    env.add_infer_variable(name("y"), Value::Nil);
    env.add_variable(name("x"), ClassType::Str, Value::Int(7));
    assert_eq!(
        env.entries,
        vec![
            EnvEntry::Variable(name("y"), Value::Nil, ClassType::Any, 0),
            EnvEntry::Variable(name("x"), Value::Str(name("7")), ClassType::Str, 0),
        ]
    );
}

#[test]
fn assignment_converts_to_the_declared_type() {
    let mut env = Environment::new();
    env.add_variable(name("n"), ClassType::Uint, Value::Nil);
    env.assign_variable(name("n"), Value::Str(name(" 12 ")));
    assert_eq!(
        env.get_variable(name("n")),
        EnvEntry::Variable(name("n"), Value::Uint(12), ClassType::Uint, 0)
    );
    env.assign_variable(name("absent"), Value::Int(1));
    assert_eq!(env.entries.len(), 1);
}

#[test]
fn inferred_types() {
    let mut env = Environment::new();
    env.add_infer_variable(name("a"), Value::Nil);
    env.add_infer_variable(name("b"), Value::Uint(1));
    env.add_infer_variable(name("c"), Value::Decimal(name("1.5")));
    env.add_infer_variable(name("d"), Value::Bool(true));
    env.add_infer_variable(name("e"), Value::Struct(CopperStruct::new(name("S"))));
    let types: Vec<ClassType> = env
        .entries
        .iter()
        .map(|e| match e {
            EnvEntry::Variable(_, _, t, _) => t.clone(),
            _ => panic!(),
        })
        .collect();
    assert_eq!(
        types,
        vec![
            ClassType::Any,
            ClassType::Uint,
            ClassType::Decimal,
            ClassType::Bool,
            ClassType::Struct(name("S")),
        ]
    );
}

#[test]
fn scope_eviction_keeps_functions_and_shallower_variables() {
    let mut env = Environment::new();
    env.add_function(name("f"), ClassType::Any, 0, 3);
    env.add_infer_variable(name("a"), Value::Int(0));
    env.current_scope = 2;
    env.add_infer_variable(name("b"), Value::Int(2));
    env.add_struct(CopperStruct::new(name("S")));
    env.current_scope = 3;
    env.add_infer_variable(name("c"), Value::Int(3));
    env.remove_from_scope(2);
    assert_eq!(
        env.entries,
        vec![
            EnvEntry::Function(name("f"), ClassType::Any, 0, 3),
            EnvEntry::Variable(name("a"), Value::Int(0), ClassType::Int, 0),
            EnvEntry::Structure(CopperStruct::new(name("S"))),
        ]
    );
}

#[test]
fn functions_and_structures_are_found_by_name() {
    let mut env = Environment::new();
    env.add_function(name("f"), ClassType::Int, 2, 10);
    env.add_native_function(name("print"), 1);
    let mut s = CopperStruct::new(name("P"));
    s.insert(name("x"), Value::Nil);
    env.add_struct(s);
    assert_eq!(env.get_function(name("f")), EnvEntry::Function(name("f"), ClassType::Int, 2, 10));
    assert_eq!(env.get_function(name("print")), EnvEntry::NativeFunction(name("print"), 1));
    assert_eq!(env.function_index(&name("g")), None);
    assert_eq!(env.function_index(&name("print")), Some(1));
    assert_eq!(env.get_struct(name("P")).field_names, vec![name("x")]);
    assert_eq!(env.struct_index(&name("Q")), None);
}
