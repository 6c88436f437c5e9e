use copper::chunk::{Chunk, OpCode};
use copper::codegen::{CopperGen, GenError};
use copper::value::{BinOp, ClassType, Fault, Relation, Value};
use copper::vm::{HostRequest, Step, VM};

fn decimal_of(v: &Value) -> f64 {
    match v {
        Value::Nil => 0.0,
        Value::Uint(n) => *n as f64,
        Value::Int(n) => *n as f64,
        Value::Decimal(t) => t.parse().unwrap(),
        Value::Str(s) => s.trim().parse().unwrap(),
        _ => panic!("not a number"),
    }
}

fn text_of(v: &Value) -> String {
    match v {
        Value::Nil => String::new(),
        Value::Uint(n) => n.to_string(),
        Value::Int(n) => n.to_string(),
        Value::Decimal(t) => t.parse::<f64>().unwrap().to_string(),
        Value::Str(s) => s.clone(),
        Value::Bool(b) => b.to_string(),
        Value::Struct(cs) => {
            let mut s = format!("struct '{}': ", cs.name);
            for i in 0..cs.field_names.len() {
                s.push_str(&format!("'{}': ", cs.field_names[i]));
                s.push_str(&text_of(&cs.field_values[i]));
                if i != cs.field_names.len() - 1 {
                    s.push_str(", ");
                }
            }
            s
        }
    }
}

fn decimal(x: f64) -> Value {
    Value::Decimal(x.to_string())
}

fn answer(request: &HostRequest, out: &mut String) -> Value {
    match request {
        HostRequest::Call(name, args) => match name.as_str() {
            "print" => {
                out.push_str(&text_of(&args[0]));
                Value::Nil
            }
            "println" => {
                out.push_str(&text_of(&args[0]));
                out.push('\n');
                Value::Nil
            }
            "first" => args[0].clone(),
            "type_str" => Value::Str(args[0].type_to_string()),
            other => panic!("no native function {}", other),
        },
        HostRequest::Arith(op, a, b) => {
            if matches!(a, Value::Str(_)) || matches!(b, Value::Str(_)) {
                return Value::Str(text_of(a) + &text_of(b));
            }
            let (x, y) = (decimal_of(a), decimal_of(b));
            decimal(match op {
                BinOp::Add => x + y,
                BinOp::Sub => x - y,
                BinOp::Mul => x * y,
                BinOp::Div => x / y,
            })
        }
        HostRequest::Compare(rel, a, b) => {
            if matches!(a, Value::Str(_)) || matches!(b, Value::Str(_)) {
                let same = text_of(a) == text_of(b);
                return Value::Bool(same == matches!(rel, Relation::Equal));
            }
            let (x, y) = (decimal_of(a), decimal_of(b));
            Value::Bool(match rel {
                Relation::Less => x < y,
                Relation::LessEqual => x <= y,
                Relation::Greater => x > y,
                Relation::GreaterEqual => x >= y,
                Relation::Equal => x == y,
                Relation::NotEqual => x != y,
            })
        }
        HostRequest::Negate(v) => decimal(-decimal_of(v)),
        HostRequest::Coerce(v, t) => match t {
            ClassType::Int => Value::Int(decimal_of(v) as i64),
            ClassType::Uint => Value::Uint(decimal_of(v) as u64),
            ClassType::Decimal => decimal(decimal_of(v)),
            ClassType::Str => Value::Str(text_of(v)),
            _ => panic!("no such conversion"),
        },
    }
}

fn compile(source: &str) -> (Chunk, CopperGen) {
    let mut gen = CopperGen::new();
    gen.provide("main.cu".to_string(), source.to_string());
    let mut chunk = gen.generate_chunk(vec!["main.cu".to_string()]);
    for name in ["print", "println", "first", "type_str"] {
        assert!(chunk.try_bind_native_function(name.to_string(), 1));
    }
    (chunk, gen)
}

fn execute(chunk: &Chunk) -> Result<String, Fault> {
    let mut vm = VM::new(chunk);
    let mut out = String::new();
    let mut step = vm.interpret(100_000);
    let mut rounds = 0;
    loop {
        rounds += 1;
        assert!(rounds < 10_000, "the script does not end");
        match step {
            Step::Continue => step = vm.interpret(100_000),
            Step::Halt => return Ok(out),
            Step::Host(request) => {
                let value = answer(&request, &mut out);
                step = vm.step(Some(value));
            }
            Step::Fault(f) => return Err(f),
        }
    }
}

fn run(source: &str) -> String {
    let (chunk, gen) = compile(source);
    assert_eq!(gen.errors, vec![]);
    assert!(gen.missing.is_empty());
    execute(&chunk).unwrap()
}

fn fault(source: &str) -> Fault {
    let (chunk, gen) = compile(source);
    assert_eq!(gen.errors, vec![]);
    execute(&chunk).unwrap_err()
}

#[test]
fn arithmetic_and_println() {
    assert_eq!(run("var x: int = 2 + 3 * 4; println(x);"), "14\n");
}

#[test]
fn function_and_recursion() {
    let src = "func fact(n: int): int { if n <= 1 { return 1; } return n * fact(n - 1); }\nprintln(fact(5));";
    assert_eq!(run(src), "120\n");
}

#[test]
fn ternary_and_string_concat() {
    let src = "var n = 7; println(\"parity=\" + (n - (n/2)*2 == 0 ? \"even\" : \"odd\"));";
    assert_eq!(run(src), "parity=odd\n");
}

#[test]
fn struct_field_set_and_get() {
    assert_eq!(run("struct P { x; y; } var p = new P(3, 4); println(p.x + p.y);"), "7\n");
}

#[test]
fn block_as_expression() {
    assert_eq!(run("var v = { var a = 10; var b = 20; a + b }; println(v);"), "30\n");
}

#[test]
fn macro_expansion() {
    let src = "defmacro greet($who) { println(\"hi \" + $who); }\ngreet!(\"world\");";
    assert_eq!(run(src), "hi world\n");
}

#[test]
fn while_loop_counts() {
    let src = "var i = 0; var sum = 0; while i < 5 { sum += i; i += 1; } println(sum);";
    assert_eq!(run(src), "10\n");
}

#[test]
fn for_loop_desugars_to_while() {
    let src = "var total = 0; for (var i = 1; i <= 4; i += 1) { total = total + i; } println(total);";
    assert_eq!(run(src), "10\n");
    let bare = "var total = 0; for i = 0; i < 3; i += 1 { total += 2; } println(total);";
    assert_eq!(run(bare), "6\n");
}

#[test]
fn if_else_chain() {
    let src = "func sign(n: int): string { if n < 0 { return \"neg\"; } else if n == 0 { return \"zero\"; } else { return \"pos\"; } }\nprintln(sign(0 - 3)); println(sign(0)); println(sign(9));";
    assert_eq!(run(src), "neg\nzero\npos\n");
}

#[test]
fn call_stack_holds_arguments_reversed_and_parameters_take_them_in_order() {
    let src = "func pair(a: int, b: int): int { return a - b; }\nprintln(pair(5, 2));";
    assert_eq!(run(src), "3\n");
    let (chunk, _) = compile("func two(a: int, b: int) { }\ntwo(1, 2);");
    let mut vm = VM::new(&chunk);
    loop {
        if vm.call_stack.len() == 2 {
            break;
        }
        assert_eq!(vm.step(None), Step::Continue);
    }
    assert_eq!(vm.call_stack, vec![Value::Int(2), Value::Int(1)]);
}

#[test]
fn native_function_gets_arguments_in_source_order() {
    let mut gen = CopperGen::new();
    gen.provide("m".to_string(), "join(1, 2, 3);".to_string());
    let mut chunk = gen.generate_chunk(vec!["m".to_string()]);
    assert!(chunk.try_bind_native_function("join".to_string(), 3));
    let mut vm = VM::new(&chunk);
    match vm.interpret(1000) {
        Step::Host(HostRequest::Call(name, args)) => {
            assert_eq!(name, "join");
            assert_eq!(args, vec![Value::Int(1), Value::Int(2), Value::Int(3)]);
        }
        other => panic!("unexpected {:?}", other),
    }
    assert_eq!(vm.call_stack.len(), 3);
    assert_eq!(vm.step(Some(Value::Int(9))), Step::Continue);
    assert!(vm.call_stack.is_empty());
    assert_eq!(vm.stack, vec![Value::Int(9)]);
}

#[test]
fn nested_field_assignment() {
    let src = "struct In { v; } struct Out { inner; } var o = new Out(new In(1)); o.inner.v = 5; println(o.inner.v);";
    assert_eq!(run(src), "5\n");
}

#[test]
fn structure_is_copied_on_assignment() {
    let src = "struct P { x; } var a = new P(1); var b = a; b.x = 2; println(a.x); println(b.x);";
    assert_eq!(run(src), "1\n2\n");
}

#[test]
fn type_call_converts() {
    assert_eq!(run("println(int(\" 42 \") + 1);"), "43\n");
    assert_eq!(run("println(string(12) + \"!\");"), "12!\n");
    assert_eq!(run("println(type_str(uint(3)));"), "uint\n");
}

#[test]
fn declared_type_coerces_every_assignment() {
    let src = "var s: string = 5; s = 7; println(type_str(s)); println(s + 1);";
    assert_eq!(run(src), "string\n71\n");
}

#[test]
fn decimal_arithmetic_goes_through_the_host() {
    assert_eq!(run("var d = 1.5 + 2; println(d);"), "3.5\n");
    assert_eq!(run("var d: decimal = 3; println(d / 2);"), "1.5\n");
    assert_eq!(run("println(2.5 > 2);"), "true\n");
    assert_eq!(run("var i: int = 2.9; println(i);"), "2\n");
    assert_eq!(run("println(-1.25);"), "-1.25\n");
}

#[test]
fn quit_ends_the_script() {
    assert_eq!(run("println(1); quit; println(2);"), "1\n");
}

#[test]
fn logic_operators() {
    assert_eq!(run("println(true and false); println(true or false); println(not true);"), "false\ntrue\nfalse\n");
    assert_eq!(run("println(1 < 2 && 2 < 3); println(1 > 2 || 2 > 3);"), "true\nfalse\n");
}

#[test]
fn scopes_are_evicted() {
    let src = "var x = 1; { var x = 2; println(x); } println(x);";
    assert_eq!(run(src), "2\n1\n");
}

#[test]
fn import_is_read_once() {
    let mut gen = CopperGen::new();
    gen.provide("lib/util.cu".to_string(), "var shared = 41;".to_string());
    gen.provide(
        "lib/main.cu".to_string(),
        "import \"util.cu\"; import \"util.cu\"; println(shared + 1);".to_string(),
    );
    let mut chunk = gen.generate_chunk(vec!["lib/main.cu".to_string()]);
    assert_eq!(gen.errors, vec![]);
    assert_eq!(gen.imported, vec!["lib/main.cu".to_string(), "lib/util.cu".to_string()]);
    assert!(chunk.try_bind_native_function("println".to_string(), 1));
    assert_eq!(execute(&chunk).unwrap(), "42\n");

    let mut once = CopperGen::new();
    once.provide("lib/util.cu".to_string(), "var shared = 41;".to_string());
    once.provide("lib/main.cu".to_string(), "import \"util.cu\"; println(shared + 1);".to_string());
    let single = once.generate_chunk(vec!["lib/main.cu".to_string()]);
    assert_eq!(single.code, {
        let mut twice = CopperGen::new();
        twice.provide("lib/util.cu".to_string(), "var shared = 41;".to_string());
        twice.provide(
            "lib/main.cu".to_string(),
            "import \"util.cu\"; import \"util.cu\"; println(shared + 1);".to_string(),
        );
        twice.generate_chunk(vec!["lib/main.cu".to_string()]).code
    });
}

#[test]
fn import_cycle_ends() {
    let mut gen = CopperGen::new();
    gen.provide("a.cu".to_string(), "import \"b.cu\"; var a = 1;".to_string());
    gen.provide("b.cu".to_string(), "import \"a.cu\"; var b = 2;".to_string());
    let chunk = gen.generate_chunk(vec!["a.cu".to_string()]);
    assert_eq!(gen.errors, vec![]);
    assert_eq!(gen.imported, vec!["a.cu".to_string(), "b.cu".to_string()]);
    assert!(chunk.code.len() > 4);
}

#[test]
fn missing_import_is_reported() {
    let mut gen = CopperGen::new();
    gen.provide("main.cu".to_string(), "import \"gone.cu\";".to_string());
    let _ = gen.generate_chunk(vec!["main.cu".to_string()]);
    assert_eq!(gen.missing, vec!["gone.cu".to_string()]);
}

#[test]
fn syntax_error_is_reported_with_its_line() {
    let (_, gen) = compile("var x = 1;\nvar = 2;");
    assert_eq!(
        gen.errors,
        vec![GenError::Syntax(copper::parser::SyntaxError::ExpectedVariableName, 2)]
    );
}

#[test]
fn assignment_to_a_call_is_reported() {
    let (_, gen) = compile("f().x = 1;");
    assert_eq!(gen.errors, vec![GenError::InvalidTarget]);
}

#[test]
fn duplicate_function_is_reported() {
    let (_, gen) = compile("func f() { } func f() { }");
    assert_eq!(gen.errors, vec![GenError::DuplicateFunction]);
}

#[test]
fn runtime_faults() {
    assert_eq!(fault("println(missing);"), Fault::UnknownVariable);
    assert_eq!(fault("nothing(1);"), Fault::UnknownFunction);
    assert_eq!(fault("func f(a: int) { } f(1, 2);"), Fault::Arity);
    assert_eq!(fault("return 1;"), Fault::ReturnOutsideFunction);
    assert_eq!(fault("println(1 + true);"), Fault::Operand);
    assert_eq!(fault("println(1 / 0);"), Fault::DivisionByZero);
    assert_eq!(fault("println(9223372036854775807 + 1);"), Fault::Overflow);
    assert_eq!(fault("var b: bool = 1;"), Fault::Conversion);
    assert_eq!(fault("println(\"a\" < \"b\");"), Fault::Operand);
    assert_eq!(fault("var x = new Nope;"), Fault::UnknownStruct);
    assert_eq!(fault("struct P { x; } var p = new P(1); println(p.y);"), Fault::UnknownField);
    assert_eq!(fault("var n = 1; println(n.x);"), Fault::NotAStruct);
    assert_eq!(fault("var i: int = \"abc\";"), Fault::Conversion);
}

#[test]
fn infer_store_then_load_gives_the_value_back() {
    assert_eq!(run("var a = 5; println(type_str(a)); var s = \"x\"; println(type_str(s)); var b = true; println(type_str(b));"), "int\nstring\nbool\n");
}

#[test]
fn call_leaves_one_value_and_an_empty_call_stack() {
    let (chunk, _) = compile("func f(a: int, b: int): int { return a + b; }\nvar r = f(1, 2) + f(3, 4);");
    let mut vm = VM::new(&chunk);
    assert_eq!(vm.interpret(10_000), Step::Halt);
    assert!(vm.call_stack.is_empty());
    assert!(vm.stack.is_empty());
    assert_eq!(vm.environment.current_scope, 0);
    assert!(vm.function_jump_back.is_empty());
}

#[test]
fn fibonacci_by_recursion_and_by_loop() {
    let src = "func fib(n: int): int { if n < 2 { return n; } return fib(n - 1) + fib(n - 2); }\n\
               var a = 0; var b = 1; for (var i = 0; i < 10; i += 1) { var t = a + b; a = b; b = t; }\n\
               println(fib(10)); println(a);";
    assert_eq!(run(src), "55\n55\n");
}

#[test]
fn lookup_walks_every_depth_from_the_current_one_down() {
    let src = "var g = 1; func show(): int { return g; }\n{ var g = 2; println(show()); }";
    assert_eq!(run(src), "2\n");
}

#[test]
fn function_without_return_gives_nil() {
    assert_eq!(run("func nothing() { var x = 1; }\nprintln(type_str(nothing()));"), "none\n");
}

#[test]
fn structures_pass_through_functions() {
    let src = "struct P { x; y; }\nfunc swap(p: P): P { var q = new P(p.y, p.x); return q; }\n\
               var r = swap(new P(1, 2)); println(r.x); println(r.y);";
    assert_eq!(run(src), "2\n1\n");
}

#[test]
fn comments_and_escapes() {
    let src = "// first line\nprintln(\"a\\tb\\\\c\\\"d\"); // trailing\n// last";
    assert_eq!(run(src), "a\tb\\c\"d\n");
}

#[test]
fn unsigned_numbers() {
    assert_eq!(run("var u: uint = 7; println(u / 2); println(type_str(u + 1));"), "3\nint\n");
    assert_eq!(run("var u: uint = 7; var v: uint = 2; println(type_str(u * v)); println(u * v);"), "uint\n14\n");
    assert_eq!(fault("var u: uint = 1; var v: uint = 2; println(u - v);"), Fault::Overflow);
}

#[test]
fn nested_blocks_as_values() {
    let src = "var v = { var a = { 1 + 1 }; a * 3 }; println(v);";
    assert_eq!(run(src), "6\n");
}

#[test]
fn block_as_an_argument() {
    assert_eq!(run("println({ var a = 2; a * 21 });"), "42\n");
}

#[test]
fn ternary_chooses_at_run_time() {
    let src = "func pick(c: bool): string { return c ? \"yes\" : \"no\"; }\nprintln(pick(true)); println(pick(false));";
    assert_eq!(run(src), "yes\nno\n");
}

#[test]
fn macro_with_two_parameters_in_a_function() {
    let src = "defmacro swap($a, $b) { var t = $a; $a = $b; $b = t; }\n\
               var x = 1; var y = 2; swap!(x, y); println(x); println(y);";
    assert_eq!(run(src), "2\n1\n");
}

#[test]
fn struct_declared_type_accepts_only_its_own_structures() {
    let src = "struct A { v; } struct B { v; } var a: A = new A(1); println(a.v);";
    assert_eq!(run(src), "1\n");
    assert_eq!(fault("struct A { v; } struct B { v; } var a: A = new B(1);"), Fault::Conversion);
}

#[test]
fn fewer_positional_values_than_fields_leave_fields_unset() {
    let src = "struct Two { a; b; } var t = new Two(1); println(t.a); println(type_str(t.b));";
    assert_eq!(run(src), "1\nnone\n");
}

#[test]
fn while_with_a_false_condition_runs_nothing() {
    assert_eq!(run("while false { println(1); } println(2);"), "2\n");
}

fn stack_before_the_pop(source: &str) -> Vec<Value> {
    let (chunk, gen) = compile(source);
    assert!(gen.errors.is_empty());
    let mut vm = VM::new(&chunk);
    let mut rounds = 0;
    while !(matches!(chunk.code[vm.idx], OpCode::Pop) && vm.function_jump_back.is_empty()) {
        rounds += 1;
        assert!(rounds < 10_000, "the script does not come to the pop");
        assert_eq!(vm.step(None), Step::Continue);
    }
    assert!(vm.call_stack.is_empty());
    assert_eq!(vm.environment.current_scope, 0);
    vm.stack.clone()
}

#[test]
fn function_of_declarations_and_a_return_leaves_one_value() {
    let stack = stack_before_the_pop(
        "func f(a: int): int { var b = a + 1; b = b * 2; b += 1; return b; }\nf(5);",
    );
    assert_eq!(stack, vec![Value::Int(13)]);
}

#[test]
fn name_as_a_statement_leaves_its_value_under_the_returned_one() {
    let stack = stack_before_the_pop("var x = 1; func f(): int { x; return 2; }\nf();");
    assert_eq!(stack, vec![Value::Int(1), Value::Int(2)]);
}

#[test]
fn factorial_asks_for_its_print_at_the_outermost_depth() {
    let (chunk, gen) = compile(
        "func fact(n: int): int { if n <= 1 { return 1; } return n * fact(n - 1); }\nprintln(fact(5));",
    );
    assert!(gen.errors.is_empty());
    let mut vm = VM::new(&chunk);
    assert_eq!(
        vm.interpret(100_000),
        Step::Host(HostRequest::Call("println".to_string(), vec![Value::Int(120)]))
    );
    assert_eq!(vm.environment.current_scope, 0);
    assert!(vm.stack.is_empty());
    assert_eq!(vm.call_stack, vec![Value::Int(120)]);
    assert!(vm.function_jump_back.is_empty());
    assert_eq!(vm.step(Some(Value::Nil)), Step::Continue);
    assert!(vm.call_stack.is_empty());
    assert_eq!(vm.stack, vec![Value::Nil]);
    assert_eq!(vm.interpret(100_000), Step::Halt);
    assert_eq!(vm.environment.current_scope, 0);
}

#[test]
fn structures_keep_to_their_types() {
    let source = "struct A { x; } struct B { y; }\nvar a: A = new A(1); a = new B(2);";
    assert_eq!(fault(source), Fault::Conversion);
    assert_eq!(
        fault("struct A { x; } struct B { y; }\nfunc f(): A { return new B(1); }\nvar r = f();"),
        Fault::Conversion
    );
    assert_eq!(
        run("struct A { x; }\nfunc f(): A { return new A(1); }\nvar a: A = f(); a = new A(2); println(a.x);"),
        "2\n"
    );
    assert_eq!(fault("struct P { x; } var p = new P(1); p.nope.x = 5;"), Fault::UnknownField);
}
