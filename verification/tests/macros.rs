use copper::mini_macros::tokenizer::{
    MacroAst, MacroDefs, MacroExpander, MacroTokenizer, MiniToken,
};

fn expand(text: &str) -> String {
    let mut e = MacroExpander::new(vec!["main".to_string()]);
    e.provide("main".to_string(), text.to_string());
    e.compile()
}

#[test]
fn macro_call_is_replaced_by_the_body() {
    let out = expand("defmacro greet($who) { println(\"hi \" + $who); }\ngreet!(\"world\");");
    assert_eq!(out, "\n{ println(\"hi \" + \"world\"); }");
}

#[test]
fn unknown_macro_expands_to_nothing() {
    assert_eq!(expand("a nope!(1); b"), "a  b");
}

#[test]
fn plain_text_is_written_back_verbatim() {
    let text = "var x: int = 2 + 3 * 4; // note\nprintln(x);\n";
    assert_eq!(expand(text), text);
}

#[test]
fn tokenizer_marks_call_sites_and_parameters() {
    let mut t = MacroTokenizer::new("f!($a, 12.5)".to_string());
    let mut seen = Vec::new();
    while let Some(tok) = t.new_token() {
        seen.push(tok);
    }
    assert_eq!(
        seen,
        vec![
            MiniToken::CallIdentifer("f!".to_string()),
            MiniToken::LeftParen,
            MiniToken::Identifer("$a".to_string()),
            MiniToken::Comma,
            MiniToken::Space,
            MiniToken::Rest("12.5".to_string()),
            MiniToken::RightParen,
        ]
    );
}

#[test]
fn two_arguments_fill_two_parameters() {
    let out = expand("defmacro add($a, $b) {$a + $b}\nvar x = add!(1, 2);");
    assert_eq!(out, "\nvar x = {1 + 2}");
}

#[test]
fn nested_call_expands_inside_body() {
    let out = expand("defmacro one() {1}\ndefmacro two() {one!(); + 1}\ntwo!();");
    assert_eq!(out, "\n\n{{1} + 1}");
}

#[test]
fn macro_that_calls_itself_stops() {
    let out = expand("defmacro loop() {x loop!();}\nloop!();");
    assert_eq!(out, "\n{x }");
}

#[test]
fn definitions_are_found_by_name() {
    let mut defs = MacroDefs::new(vec!["m".to_string()]);
    defs.sources.add("m".to_string(), "defmacro one() {1}\ndefmacro two($a) {$a}".to_string());
    defs.compile();
    assert_eq!(defs.defines.len(), 2);
    assert_eq!(
        defs.find_define("two".to_string()),
        MacroAst::Def(
            "two".to_string(),
            vec![MiniToken::Identifer("$a".to_string())],
            Box::new(MacroAst::Block(vec![MacroAst::Normal(MiniToken::Identifer("$a".to_string()))]))
        )
    );
    assert_eq!(
        defs.find_define("three".to_string()),
        MacroAst::Def(String::new(), vec![], Box::new(MacroAst::Normal(MiniToken::Space)))
    );
    assert_eq!(defs.file_content, vec![MacroAst::Normal(MiniToken::NewLine)]);
}

#[test]
fn commas_alone_split_the_arguments_and_a_call_ends_in_a_semicolon() {
    assert_eq!(expand("defmacro p($a, $b) {$a$b}\np!(1,2);"), "\n{12}");
    assert_eq!(expand("defmacro p($a, $b) {$a$b}\np!(1, 2);"), "\n{12}");
    assert_eq!(expand("defmacro p($a, $b) {$a|$b}\np!(1,  2);"), "\n{1| 2}");
    assert_eq!(expand("defmacro p($a, $b) {$a|$b}\np!(1 ,\n2);"), "\n{1 |\n2}");
    assert_eq!(expand("defmacro p($a, $b) {$a$b}\np!(1, 2)"), "\n");
}

#[test]
fn call_without_a_blank_behind_the_comma_has_both_arguments() {
    let mut toks = Vec::new();
    let mut t = MacroTokenizer::new("add!(1,2);".to_string());
    while let Some(tok) = t.new_token() {
        toks.push(tok);
    }
    assert_eq!(toks[0], MiniToken::CallIdentifer("add!".to_string()));
    let (call, next) = MacroDefs::parse_call(&toks, 1, &"add!".to_string());
    assert_eq!(
        call,
        Some(MacroAst::Call(
            "add!".to_string(),
            vec![MiniToken::Rest("1".to_string()), MiniToken::Rest("2".to_string())]
        ))
    );
    assert_eq!(next, toks.len());
}

#[test]
fn blocks_keep_their_braces_and_calls_inside_them_expand() {
    let out = expand("defmacro k() {7}\nfunc f() { var x = { k!(); }; }");
    assert_eq!(out, "\nfunc f() { var x = { {7} }; }");
}

#[test]
fn missing_argument_is_replaced_by_nothing() {
    assert_eq!(expand("defmacro p($a, $b) {[$a|$b]}\np!(1);"), "\n{[1|]}");
}

#[test]
fn file_is_expanded_on_its_own() {
    let mut e = MacroExpander::new(vec!["main".to_string()]);
    e.provide("main".to_string(), "defmacro a() {1}\n".to_string());
    e.provide("lib/other".to_string(), "defmacro b() {2}\na!(); b!();".to_string());
    assert_eq!(e.compile(), "\n");
    assert_eq!(e.compile_with_path("other".to_string(), "lib/".to_string()), "\n {2}");
    assert_eq!(e.defs.defines.len(), 1);
    assert_eq!(e.defs.sources.find(&"lib/none".to_string()), None);
}

#[test]
fn every_kind_of_macro_token() {
    let mut t = MacroTokenizer::new("defmacro x { } ( ) , ; \"a b\" // c\n7 @".to_string());
    let mut seen = Vec::new();
    while let Some(tok) = t.new_token() {
        if tok != MiniToken::Space {
            seen.push(tok);
        }
    }
    assert_eq!(
        seen,
        vec![
            MiniToken::DefMacro,
            MiniToken::Rest("x".to_string()),
            MiniToken::LeftBrace,
            MiniToken::RightBrace,
            MiniToken::LeftParen,
            MiniToken::RightParen,
            MiniToken::Comma,
            MiniToken::SemiColon,
            MiniToken::Rest("\"a b\"".to_string()),
            MiniToken::Rest("// c".to_string()),
            MiniToken::NewLine,
            MiniToken::Rest("7".to_string()),
            MiniToken::Rest("@".to_string()),
        ]
    );
}
