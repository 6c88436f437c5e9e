use copper::chunk::{Chunk, OpCode};
use copper::codegen::{directory_of, CopperGen};
use copper::environment::EnvEntry;
use copper::parser::{AstExpr, AstStmt, CopperParser, ParseError, SyntaxError};
use copper::tokens::Token;
use copper::value::{ClassType, Value};

fn name(text: &str) -> String {
    text.to_string()
}

fn code(source: &str) -> Vec<OpCode> {
    let mut gen = CopperGen::new();
    gen.provide(name("m"), name(source));
    let chunk = gen.generate_chunk(vec![name("m")]);
    assert_eq!(gen.errors, vec![]);
    chunk.code
}

fn parse_all(source: &str) -> (Vec<AstStmt>, Vec<ParseError>) {
    let mut parser = CopperParser::new(name(source));
    let mut out = Vec::new();
    while let Some(stmt) = parser.parse() {
        out.push(stmt);
    }
    (out, parser.errors)
}

fn lit(n: i64) -> AstExpr {
    AstExpr::Literal(Value::Int(n))
}

fn var(text: &str) -> AstExpr {
    AstExpr::Variable(name(text))
}

fn binary(a: AstExpr, op: Token, b: AstExpr) -> AstExpr {
    AstExpr::Binary(Box::new(a), op, Box::new(b))
}

#[test]
fn multiplication_binds_tighter_than_addition() {
    let (stmts, errors) = parse_all("1 + 2 * 3 - 4;");
    assert!(errors.is_empty());
    assert_eq!(
        stmts,
        vec![AstStmt::Expr(binary(
            binary(lit(1), Token::Plus, binary(lit(2), Token::Star, lit(3))),
            Token::Minus,
            lit(4)
        ))]
    );
}

#[test]
fn precedence_from_or_down_to_unary() {
    let (stmts, _) = parse_all("a or b and c == d < -e;");
    assert_eq!(
        stmts,
        vec![AstStmt::Expr(binary(
            var("a"),
            Token::CmpOr,
            binary(
                var("b"),
                Token::CmpAnd,
                binary(
                    var("c"),
                    Token::EqualEqual,
                    binary(
                        var("d"),
                        Token::Less,
                        AstExpr::Unary(Token::Minus, Box::new(var("e")))
                    )
                )
            )
        ))]
    );
}

#[test]
fn assignment_is_right_associative() {
    let (stmts, _) = parse_all("a = b = 1;");
    assert_eq!(
        stmts,
        vec![AstStmt::Expr(AstExpr::Assign(
            Box::new(var("a")),
            Box::new(AstExpr::Assign(Box::new(var("b")), Box::new(lit(1))))
        ))]
    );
}

#[test]
fn dot_access_leans_left() {
    let (stmts, _) = parse_all("a.b.c;");
    assert_eq!(
        stmts,
        vec![AstStmt::Expr(AstExpr::StructCall(
            Box::new(AstExpr::StructCall(Box::new(var("a")), Box::new(var("b")))),
            Box::new(var("c"))
        ))]
    );
}

#[test]
fn calls_type_calls_and_new() {
    let (stmts, _) = parse_all("f(1, x); int(x); new T; new T(1);");
    assert_eq!(
        stmts,
        vec![
            AstStmt::Expr(AstExpr::Call(name("f"), vec![lit(1), var("x")])),
            AstStmt::Expr(AstExpr::TypeCall(Token::TypeInt, Box::new(var("x")))),
            AstStmt::Expr(AstExpr::New(name("T"))),
            AstStmt::Expr(AstExpr::NewCall(name("T"), vec![lit(1)])),
        ]
    );
}

#[test]
fn declarations() {
    let (stmts, _) = parse_all("var a; var b: uint; var c = 1; var d: P = e;");
    assert_eq!(
        stmts,
        vec![
            AstStmt::InferDeclaration(name("a"), AstExpr::Literal(Value::Nil)),
            AstStmt::Declaration(name("b"), ClassType::Uint, AstExpr::Literal(Value::Nil)),
            AstStmt::InferDeclaration(name("c"), lit(1)),
            AstStmt::Declaration(name("d"), ClassType::Struct(name("P")), var("e")),
        ]
    );
}

#[test]
fn for_is_a_block_with_a_while() {
    let (stmts, _) = parse_all("for (var i = 0; i < 3; i += 1) { f(i); }");
    assert_eq!(
        stmts,
        vec![AstStmt::Expr(AstExpr::Block(vec![
            AstStmt::InferDeclaration(name("i"), lit(0)),
            AstStmt::While(
                binary(var("i"), Token::Less, lit(3)),
                AstExpr::Block(vec![
                    AstStmt::Expr(AstExpr::Call(name("f"), vec![var("i")])),
                    AstStmt::Expr(AstExpr::AssignByOp(name("i"), Token::PlusEqual, Box::new(lit(1)))),
                ])
            ),
        ]))]
    );
}

#[test]
fn function_struct_import_quit_return() {
    let (stmts, errors) = parse_all("func f(a: int, b: any): string { return; } struct P { x; y; } import \"lib.cu\"; quit;");
    assert!(errors.is_empty());
    assert_eq!(
        stmts,
        vec![
            AstStmt::Function(
                name("f"),
                ClassType::Str,
                vec![name("a"), name("b")],
                vec![ClassType::Int, ClassType::Any],
                AstExpr::Block(vec![AstStmt::Return(None)])
            ),
            AstStmt::Struct(name("P"), vec![name("x"), name("y")]),
            AstStmt::Import(name("lib.cu")),
            AstStmt::Quit,
        ]
    );
}

#[test]
fn words_of_statements_are_names_elsewhere() {
    let (stmts, errors) = parse_all("var new = 1; var struct = new; quit = 2;");
    assert!(errors.is_empty());
    assert_eq!(stmts.len(), 3);
}

fn first_error(source: &str) -> (SyntaxError, usize, Option<String>) {
    let (_, errors) = parse_all(source);
    assert_eq!(errors.len(), 1);
    (errors[0].kind, errors[0].line, errors[0].lexeme.clone())
}

#[test]
fn every_syntax_error() {
    assert_eq!(first_error("1 + ;"), (SyntaxError::ExpectedExpression, 1, Some(name(";"))));
    assert_eq!(first_error("(1 + 2;").0, SyntaxError::ExpectedRightParen);
    assert_eq!(first_error("1(2);").0, SyntaxError::ExpectedCallee);
    assert_eq!(first_error("1 = 2;").0, SyntaxError::InvalidAssignment);
    assert_eq!(first_error("1 += 2;").0, SyntaxError::InvalidAssignment);
    assert_eq!(first_error("a ? 1 ; 2;").0, SyntaxError::ExpectedColonInTernary);
    assert_eq!(first_error("a.1;").0, SyntaxError::ExpectedName);
    assert_eq!(first_error("\nvar 1;"), (SyntaxError::ExpectedVariableName, 2, Some(name("1"))));
    assert_eq!(first_error("var a: 1;").0, SyntaxError::ExpectedType);
    assert_eq!(first_error("var a = 1"), (SyntaxError::ExpectedSemicolon, 1, None));
    assert_eq!(first_error("{ var a = 1;").0, SyntaxError::ExpectedRightBrace);
    assert_eq!(first_error("while a f();").0, SyntaxError::ExpectedLeftBrace);
    assert_eq!(first_error("func 1() { }").0, SyntaxError::ExpectedFunctionName);
    assert_eq!(first_error("func f { }").0, SyntaxError::ExpectedLeftParen);
    assert_eq!(first_error("func f(1) { }").0, SyntaxError::ExpectedParameter);
    assert_eq!(first_error("func f(a) { }").0, SyntaxError::ExpectedColon);
    assert_eq!(first_error("struct P { 1; }").0, SyntaxError::ExpectedFieldName);
    let many = format!("f({});", vec!["1"; 256].join(", "));
    assert_eq!(first_error(&many).0, SyntaxError::TooManyArguments);
    let params: Vec<String> = (0..256).map(|i| format!("p{}: int", i)).collect();
    let wide = format!("func f({}) {{ }}", params.join(", "));
    assert_eq!(first_error(&wide).0, SyntaxError::TooManyParameters);
    let fits = format!("f({});", vec!["1"; 255].join(", "));
    assert!(parse_all(&fits).1.is_empty());
}

#[test]
fn no_statement_after_an_error() {
    let mut parser = CopperParser::new(name("var = 1; var b = 2;"));
    assert_eq!(parser.parse(), None);
    assert!(!parser.continue_parsing);
    assert_eq!(parser.parse(), None);
    assert_eq!(parser.errors.len(), 1);
}

#[test]
fn expression_code_is_postfix() {
    assert_eq!(
        code("var x: int = 2 + 3 * 4;"),
        vec![
            OpCode::Push(Value::Int(2)),
            OpCode::Push(Value::Int(3)),
            OpCode::Push(Value::Int(4)),
            OpCode::Mul,
            OpCode::Add,
            OpCode::Store(name("x"), ClassType::Int),
            OpCode::EndScript,
        ]
    );
}

#[test]
fn if_else_jumps_are_patched() {
    assert_eq!(
        code("if a { b = 1; } else { b = 2; }"),
        vec![
            OpCode::Load(name("a")),
            OpCode::JmpIfFalse(7),
            OpCode::StartScope,
            OpCode::Push(Value::Int(1)),
            OpCode::Assign(name("b")),
            OpCode::EndScope,
            OpCode::Jmp(11),
            OpCode::StartScope,
            OpCode::Push(Value::Int(2)),
            OpCode::Assign(name("b")),
            OpCode::EndScope,
            OpCode::EndScript,
        ]
    );
}

#[test]
fn while_jumps_back_to_its_condition() {
    assert_eq!(
        code("var i = 0; while i < 3 { i += 1; }"),
        vec![
            OpCode::Push(Value::Int(0)),
            OpCode::InferStore(name("i")),
            OpCode::Load(name("i")),
            OpCode::Push(Value::Int(3)),
            OpCode::CmpLess,
            OpCode::JmpIfFalse(13),
            OpCode::StartScope,
            OpCode::Load(name("i")),
            OpCode::Push(Value::Int(1)),
            OpCode::Add,
            OpCode::Assign(name("i")),
            OpCode::EndScope,
            OpCode::Jmp(2),
            OpCode::EndScript,
        ]
    );
}

#[test]
fn ternary_code() {
    assert_eq!(
        code("var r = c ? 1 : 2;"),
        vec![
            OpCode::Load(name("c")),
            OpCode::JmpIfFalse(4),
            OpCode::Push(Value::Int(1)),
            OpCode::Jmp(5),
            OpCode::Push(Value::Int(2)),
            OpCode::InferStore(name("r")),
            OpCode::EndScript,
        ]
    );
}

#[test]
fn function_is_jumped_over_and_bound_behind_the_jump() {
    let mut gen = CopperGen::new();
    gen.provide(name("m"), name("func add(a: int, b: int): int { return a + b; }"));
    let chunk: Chunk = gen.generate_chunk(vec![name("m")]);
    assert_eq!(
        chunk.code,
        vec![
            OpCode::Jmp(13),
            OpCode::StartScope,
            OpCode::ArgumentStore(name("a"), ClassType::Int),
            OpCode::ArgumentStore(name("b"), ClassType::Int),
            OpCode::StartScope,
            OpCode::Load(name("a")),
            OpCode::Load(name("b")),
            OpCode::Add,
            OpCode::Return,
            OpCode::EndScope,
            OpCode::Push(Value::Nil),
            OpCode::Return,
            OpCode::EndScope,
            OpCode::EndScript,
        ]
    );
    assert_eq!(
        chunk.functions.entries,
        vec![EnvEntry::Function(name("add"), ClassType::Int, 2, 1)]
    );
    assert_eq!(chunk.lines.len(), chunk.code.len());
}

#[test]
fn call_stages_its_arguments() {
    assert_eq!(
        code("f(1, g(2));"),
        vec![
            OpCode::Push(Value::Int(1)),
            OpCode::Push(Value::Int(2)),
            OpCode::PopToCall,
            OpCode::CallFunc(name("g")),
            OpCode::PopToCall,
            OpCode::PopToCall,
            OpCode::CallFunc(name("f")),
            OpCode::Pop,
            OpCode::EndScript,
        ]
    );
}

#[test]
fn block_in_the_place_of_a_value_becomes_a_function() {
    let mut gen = CopperGen::new();
    gen.provide(name("m"), name("var v = { 1 };"));
    let chunk = gen.generate_chunk(vec![name("m")]);
    assert_eq!(
        chunk.code,
        vec![
            OpCode::Jmp(9),
            OpCode::StartScope,
            OpCode::StartScope,
            OpCode::Push(Value::Int(1)),
            OpCode::Return,
            OpCode::EndScope,
            OpCode::Push(Value::Nil),
            OpCode::Return,
            OpCode::EndScope,
            OpCode::CallFunc(name("@block_func:0")),
            OpCode::InferStore(name("v")),
            OpCode::EndScript,
        ]
    );
    assert_eq!(
        chunk.functions.entries,
        vec![EnvEntry::Function(name("@block_func:0"), ClassType::Any, 0, 1)]
    );
    assert_eq!(gen.block_increment, 1);
}

#[test]
fn structure_code() {
    assert_eq!(
        code("struct P { x; y; } var p = new P(1, 2); p.x = p.y; q.a.b = 3;"),
        vec![
            OpCode::Push(Value::Int(1)),
            OpCode::Push(Value::Int(2)),
            OpCode::NewStruct(name("P")),
            OpCode::StructSetByIndex(1),
            OpCode::StructSetByIndex(0),
            OpCode::InferStore(name("p")),
            OpCode::Load(name("p")),
            OpCode::StructGet(name("y")),
            OpCode::StructSet(name("p"), vec![name("x")]),
            OpCode::Push(Value::Int(3)),
            OpCode::StructSet(name("q"), vec![name("a"), name("b")]),
            OpCode::EndScript,
        ]
    );
}

#[test]
fn statements_of_pure_expressions_write_nothing() {
    assert_eq!(code("1; -x; 1 + 2; quit;"), vec![OpCode::EndScript, OpCode::EndScript]);
    assert_eq!(
        code("int(x); not true;"),
        vec![OpCode::Load(name("x")), OpCode::TransformToType(ClassType::Int), OpCode::EndScript]
    );
}

#[test]
fn compound_assignment_and_return() {
    assert_eq!(
        code("x -= 2; return;"),
        vec![
            OpCode::Load(name("x")),
            OpCode::Push(Value::Int(2)),
            OpCode::Sub,
            OpCode::Assign(name("x")),
            OpCode::Push(Value::Nil),
            OpCode::Return,
            OpCode::EndScript,
        ]
    );
}

#[test]
fn directory_of_a_path() {
    assert_eq!(directory_of(&name("a/b/main.cu")), "a/b/");
    assert_eq!(directory_of(&name("main.cu")), "");
    assert_eq!(directory_of(&name("../lib/x.cu")), "../lib/");
    assert_eq!(directory_of(&name("dir")), "dir/");
    assert_eq!(directory_of(&name("")), "");
    assert_eq!(directory_of(&name("/abs/x.cu")), "/abs/");
}

#[test]
fn lines_follow_the_source() {
    let mut gen = CopperGen::new();
    gen.provide(name("m"), name("var a = 1;\n\nvar b = 2;\nvar c = 3;"));
    let chunk = gen.generate_chunk(vec![name("m")]);
    assert_eq!(chunk.lines, vec![3, 3, 4, 4, 4, 4, 4]);
}

#[test]
fn content_is_added_to_the_chunk() {
    let mut gen = CopperGen::new();
    gen.add_content(name("var CONST_INT = 5;"));
    let chunk = gen.generate_chunk(vec![]);
    assert_eq!(
        chunk.code,
        vec![OpCode::Push(Value::Int(5)), OpCode::InferStore(name("CONST_INT")), OpCode::EndScript]
    );
    assert!(gen.chunk.code.is_empty());
}

#[test]
fn import_statement_twice_writes_what_once_writes() {
    let mut gen = CopperGen::new();
    gen.provide(name("util.cu"), name("func two(): int { return 2; }\nvar shared = 41;"));
    let import = AstStmt::Import(name("util.cu"));
    gen.generate_stmt(&import, 4);
    assert_eq!(gen.errors, vec![]);
    assert_eq!(gen.imported, vec![name("util.cu")]);
    assert!(!gen.chunk.code.is_empty());
    let code = gen.chunk.code.clone();
    let lines = gen.chunk.lines.clone();
    let functions = gen.chunk.functions.entries.clone();
    gen.generate_stmt(&import, 4);
    assert_eq!(gen.chunk.code, code);
    assert_eq!(gen.chunk.lines, lines);
    assert_eq!(gen.chunk.functions.entries, functions);
    assert_eq!(gen.errors, vec![]);
    assert_eq!(gen.imported, vec![name("util.cu")]);
}

#[test]
fn block_expression_opens_and_closes_its_scope() {
    let mut gen = CopperGen::new();
    gen.generate_expr(&lit(7), 4);
    let start = gen.chunk.code.len();
    let block = AstExpr::Block(vec![
        AstStmt::InferDeclaration(name("a"), lit(1)),
        AstStmt::Expr(AstExpr::Block(vec![AstStmt::InferDeclaration(name("b"), var("a"))])),
    ]);
    gen.generate_expr(&block, 4);
    assert_eq!(
        gen.chunk.code[start..].to_vec(),
        vec![
            OpCode::StartScope,
            OpCode::Push(Value::Int(1)),
            OpCode::InferStore(name("a")),
            OpCode::StartScope,
            OpCode::Load(name("a")),
            OpCode::InferStore(name("b")),
            OpCode::EndScope,
            OpCode::EndScope,
        ]
    );
    assert_eq!(gen.chunk.lines.len(), gen.chunk.code.len());
}

#[test]
fn chunk_has_a_line_for_each_instruction_and_the_generator_keeps_none() {
    let mut gen = CopperGen::new();
    gen.provide(
        name("m"),
        name("func f(a: int): int { if a < 1 { return 0; } return a; }\nvar x = f(2);\nwhile x > 0 { x -= 1; }"),
    );
    let chunk = gen.generate_chunk(vec![name("m")]);
    assert_eq!(gen.errors, vec![]);
    assert_eq!(chunk.lines.len(), chunk.code.len());
    assert_eq!(chunk.code.last(), Some(&OpCode::EndScript));
    for op in &chunk.code {
        match op {
            OpCode::Jmp(at) | OpCode::JmpIfFalse(at) => assert!(*at < chunk.code.len()),
            _ => {}
        }
    }
    for entry in &chunk.functions.entries {
        if let EnvEntry::Function(_, _, _, at) = entry {
            assert_eq!(chunk.code[*at], OpCode::StartScope);
            assert!(matches!(chunk.code[*at - 1], OpCode::Jmp(_)));
        }
    }
    assert!(gen.chunk.code.is_empty());
    assert!(gen.chunk.lines.is_empty());
    assert!(gen.chunk.functions.entries.is_empty());
    assert_eq!(gen.chunk.functions.current_scope, 0);
}

#[test]
fn parser_of_the_generator_holds_the_error_that_stopped_it() {
    let mut gen = CopperGen::new();
    gen.provide(name("m"), name("var x = 1;\nvar = 2;"));
    gen.generate_chunk(vec![name("m")]);
    assert_eq!(
        gen.parser.errors,
        vec![ParseError {
            kind: SyntaxError::ExpectedVariableName,
            line: 2,
            lexeme: Some(name("=")),
        }]
    );
    assert!(!gen.parser.continue_parsing);
    assert_eq!(gen.parser.position, 5);
    assert_eq!(gen.parser.source, "var x = 1;\nvar = 2;");

    let mut fine = CopperGen::new();
    fine.add_content(name("var x = 1;"));
    assert_eq!(fine.parser.errors, vec![]);
    assert!(fine.parser.continue_parsing);
    assert_eq!(fine.parser.position, fine.parser.tokens.len());
}

#[test]
fn generator_keeps_its_parser_when_no_file_is_stored() {
    let mut gen = CopperGen::new();
    gen.add_content(name("var x = 1;"));
    let tokens = gen.parser.tokens.len();
    gen.generate_chunk(vec![name("nowhere")]);
    assert_eq!(gen.missing, vec![name("nowhere")]);
    assert_eq!(gen.parser.tokens.len(), tokens);
    assert_eq!(gen.parser.source, "var x = 1;");
}
