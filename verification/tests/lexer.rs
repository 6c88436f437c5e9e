use copper::tokens::{Lexer, Token};

fn lex(text: &str) -> Vec<Token> {
    let mut l = Lexer::new(text.to_string());
    let mut out = Vec::new();
    while let Some(t) = l.next() {
        out.push(t);
    }
    out
}

#[test]
fn declaration_is_split_into_tokens() {
    assert_eq!(
        lex("var x: int = 2 + 3 * 4;"),
        vec![
            Token::Var,
            Token::Identifer("x".to_string()),
            Token::Colon,
            Token::TypeInt,
            Token::Equal,
            Token::Int(2),
            Token::Plus,
            Token::Int(3),
            Token::Star,
            Token::Int(4),
            Token::Semicolon,
        ]
    );
}

#[test]
fn two_character_operators() {
    assert_eq!(
        lex("== != <= >= += -= *= /= := && ||"),
        vec![
            Token::EqualEqual,
            Token::NotEqual,
            Token::LessEqual,
            Token::GreaterEqual,
            Token::PlusEqual,
            Token::MinusEqual,
            Token::StarEqual,
            Token::SlashEqual,
            Token::ColonEqual,
            Token::CmpAnd,
            Token::CmpOr,
        ]
    );
}

#[test]
fn string_escapes_are_resolved() {
    assert_eq!(lex(r#""a\n\t\"b\\""#), vec![Token::Str("a\n\t\"b\\".to_string())]);
}

#[test]
fn unterminated_string_is_an_error_token() {
    assert_eq!(lex("\"abc"), vec![Token::ERROR]);
}

#[test]
fn invalid_escape_is_an_error_token() {
    assert_eq!(lex("\"a\\q\"")[0], Token::ERROR);
}

#[test]
fn decimal_keeps_its_text() {
    assert_eq!(lex("12.50"), vec![Token::Decimal("12.50".to_string())]);
    assert_eq!(lex("12."), vec![Token::Int(12), Token::Dot]);
}

#[test]
fn integer_too_large_reads_as_zero() {
    assert_eq!(lex("9223372036854775807"), vec![Token::Int(i64::MAX)]);
    assert_eq!(lex("9223372036854775808"), vec![Token::Int(0)]);
}

#[test]
fn comments_and_blanks_are_skipped_and_lines_counted() {
    let mut l = Lexer::new("a // one\n\n  b".to_string());
    assert_eq!(l.line, 1);
    assert_eq!(l.next(), Some(Token::Identifer("a".to_string())));
    assert_eq!(l.line, 1);
    assert_eq!(l.next(), Some(Token::Identifer("b".to_string())));
    assert_eq!(l.line, 3);
    assert_eq!(l.slice(), "b");
    assert_eq!(l.next(), None);
}

#[test]
fn keywords_are_recognised() {
    assert_eq!(
        lex("if else for while func return var and or not true false int uint decimal string bool any"),
        vec![
            Token::If,
            Token::Else,
            Token::For,
            Token::While,
            Token::Func,
            Token::Return,
            Token::Var,
            Token::CmpAnd,
            Token::CmpOr,
            Token::Not,
            Token::CmpTrue,
            Token::CmpFalse,
            Token::TypeInt,
            Token::TypeUint,
            Token::TypeDecimal,
            Token::TypeString,
            Token::TypeBool,
            Token::TypeAny,
        ]
    );
}
