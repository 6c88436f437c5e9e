//! The lexer: source text to tokens.

use vstd::prelude::*;
use crate::text::{
    chars_of, digit_value, digits_value, is_digit, push_char, range_is, string_of,
};

verus! {

/// A token of the script language.
#[derive(Debug, PartialEq)]
pub enum Token {
    Str(String),
    Int(i64),
    Uint(u64),
    Decimal(String),
    If,
    Else,
    For,
    Return,
    LeftParen,
    RightParen,
    LeftBrace,
    RightBrace,
    LeftBracket,
    RightBracket,
    Comma,
    Plus,
    PlusEqual,
    Minus,
    MinusEqual,
    Star,
    StarEqual,
    Slash,
    SlashEqual,
    Dot,
    Semicolon,
    Func,
    While,
    Colon,
    ColonEqual,
    Equal,
    EqualEqual,
    Not,
    NotEqual,
    Greater,
    GreaterEqual,
    Less,
    LessEqual,
    CmpOr,
    CmpAnd,
    CmpTrue,
    CmpFalse,
    Var,
    Identifer(String),
    TypeInt,
    TypeUint,
    TypeDecimal,
    TypeString,
    TypeBool,
    TypeAny,
    Question,
    NewLine,
    Comment,
    ERROR,
}

/// A token as a mathematical value: text is a sequence of characters.
pub enum TokenView {
    Str(Seq<char>),
    Int(i64),
    Uint(u64),
    Decimal(Seq<char>),
    If,
    Else,
    For,
    Return,
    LeftParen,
    RightParen,
    LeftBrace,
    RightBrace,
    LeftBracket,
    RightBracket,
    Comma,
    Plus,
    PlusEqual,
    Minus,
    MinusEqual,
    Star,
    StarEqual,
    Slash,
    SlashEqual,
    Dot,
    Semicolon,
    Func,
    While,
    Colon,
    ColonEqual,
    Equal,
    EqualEqual,
    Not,
    NotEqual,
    Greater,
    GreaterEqual,
    Less,
    LessEqual,
    CmpOr,
    CmpAnd,
    CmpTrue,
    CmpFalse,
    Var,
    Identifer(Seq<char>),
    TypeInt,
    TypeUint,
    TypeDecimal,
    TypeString,
    TypeBool,
    TypeAny,
    Question,
    NewLine,
    Comment,
    ERROR,
}

impl View for Token {
    type V = TokenView;

    open spec fn view(&self) -> TokenView {
        match self {
            Token::Str(s) => TokenView::Str(s@),
            Token::Int(n) => TokenView::Int(*n),
            Token::Uint(n) => TokenView::Uint(*n),
            Token::Decimal(s) => TokenView::Decimal(s@),
            Token::If => TokenView::If,
            Token::Else => TokenView::Else,
            Token::For => TokenView::For,
            Token::Return => TokenView::Return,
            Token::LeftParen => TokenView::LeftParen,
            Token::RightParen => TokenView::RightParen,
            Token::LeftBrace => TokenView::LeftBrace,
            Token::RightBrace => TokenView::RightBrace,
            Token::LeftBracket => TokenView::LeftBracket,
            Token::RightBracket => TokenView::RightBracket,
            Token::Comma => TokenView::Comma,
            Token::Plus => TokenView::Plus,
            Token::PlusEqual => TokenView::PlusEqual,
            Token::Minus => TokenView::Minus,
            Token::MinusEqual => TokenView::MinusEqual,
            Token::Star => TokenView::Star,
            Token::StarEqual => TokenView::StarEqual,
            Token::Slash => TokenView::Slash,
            Token::SlashEqual => TokenView::SlashEqual,
            Token::Dot => TokenView::Dot,
            Token::Semicolon => TokenView::Semicolon,
            Token::Func => TokenView::Func,
            Token::While => TokenView::While,
            Token::Colon => TokenView::Colon,
            Token::ColonEqual => TokenView::ColonEqual,
            Token::Equal => TokenView::Equal,
            Token::EqualEqual => TokenView::EqualEqual,
            Token::Not => TokenView::Not,
            Token::NotEqual => TokenView::NotEqual,
            Token::Greater => TokenView::Greater,
            Token::GreaterEqual => TokenView::GreaterEqual,
            Token::Less => TokenView::Less,
            Token::LessEqual => TokenView::LessEqual,
            Token::CmpOr => TokenView::CmpOr,
            Token::CmpAnd => TokenView::CmpAnd,
            Token::CmpTrue => TokenView::CmpTrue,
            Token::CmpFalse => TokenView::CmpFalse,
            Token::Var => TokenView::Var,
            Token::Identifer(s) => TokenView::Identifer(s@),
            Token::TypeInt => TokenView::TypeInt,
            Token::TypeUint => TokenView::TypeUint,
            Token::TypeDecimal => TokenView::TypeDecimal,
            Token::TypeString => TokenView::TypeString,
            Token::TypeBool => TokenView::TypeBool,
            Token::TypeAny => TokenView::TypeAny,
            Token::Question => TokenView::Question,
            Token::NewLine => TokenView::NewLine,
            Token::Comment => TokenView::Comment,
            Token::ERROR => TokenView::ERROR,
        }
    }
}

impl Clone for Token {
    fn clone(&self) -> (r: Token)
        ensures
            r@ == self@,
    {
        match self {
            Token::Str(s) => Token::Str(s.clone()),
            Token::Int(n) => Token::Int(*n),
            Token::Uint(n) => Token::Uint(*n),
            Token::Decimal(s) => Token::Decimal(s.clone()),
            Token::If => Token::If,
            Token::Else => Token::Else,
            Token::For => Token::For,
            Token::Return => Token::Return,
            Token::LeftParen => Token::LeftParen,
            Token::RightParen => Token::RightParen,
            Token::LeftBrace => Token::LeftBrace,
            Token::RightBrace => Token::RightBrace,
            Token::LeftBracket => Token::LeftBracket,
            Token::RightBracket => Token::RightBracket,
            Token::Comma => Token::Comma,
            Token::Plus => Token::Plus,
            Token::PlusEqual => Token::PlusEqual,
            Token::Minus => Token::Minus,
            Token::MinusEqual => Token::MinusEqual,
            Token::Star => Token::Star,
            Token::StarEqual => Token::StarEqual,
            Token::Slash => Token::Slash,
            Token::SlashEqual => Token::SlashEqual,
            Token::Dot => Token::Dot,
            Token::Semicolon => Token::Semicolon,
            Token::Func => Token::Func,
            Token::While => Token::While,
            Token::Colon => Token::Colon,
            Token::ColonEqual => Token::ColonEqual,
            Token::Equal => Token::Equal,
            Token::EqualEqual => Token::EqualEqual,
            Token::Not => Token::Not,
            Token::NotEqual => Token::NotEqual,
            Token::Greater => Token::Greater,
            Token::GreaterEqual => Token::GreaterEqual,
            Token::Less => Token::Less,
            Token::LessEqual => Token::LessEqual,
            Token::CmpOr => Token::CmpOr,
            Token::CmpAnd => Token::CmpAnd,
            Token::CmpTrue => Token::CmpTrue,
            Token::CmpFalse => Token::CmpFalse,
            Token::Var => Token::Var,
            Token::Identifer(s) => Token::Identifer(s.clone()),
            Token::TypeInt => Token::TypeInt,
            Token::TypeUint => Token::TypeUint,
            Token::TypeDecimal => Token::TypeDecimal,
            Token::TypeString => Token::TypeString,
            Token::TypeBool => Token::TypeBool,
            Token::TypeAny => Token::TypeAny,
            Token::Question => Token::Question,
            Token::NewLine => Token::NewLine,
            Token::Comment => Token::Comment,
            Token::ERROR => Token::ERROR,
        }
    }
}

/// Space, tab and carriage return separate tokens and are otherwise ignored.
pub open spec fn is_blank(c: char) -> bool {
    c == ' ' || c == '\t' || c == '\r'
}

/// A character that may start an identifier.
pub open spec fn is_letter(c: char) -> bool {
    ('a' <= c && c <= 'z') || ('A' <= c && c <= 'Z') || c == '_'
}

/// A character that may continue an identifier.
pub open spec fn is_word_char(c: char) -> bool {
    is_letter(c) || is_digit(c)
}

/// The line counter after one more line feed; it stops at the largest `usize`.
pub open spec fn bump(line: int) -> int {
    if line < usize::MAX {
        line + 1
    } else {
        line
    }
}

/// Where the next token starts when scanning from `pos`, and the line
/// counter there: blanks, line feeds and `//` comments are passed over, and
/// every line feed passed counts one line.
pub open spec fn skip(src: Seq<char>, pos: int, line: int, in_comment: bool) -> (int, int)
    decreases src.len() - pos,
{
    if pos < 0 || pos >= src.len() {
        (pos, line)
    } else if in_comment {
        if src[pos] == '\n' {
            skip(src, pos + 1, bump(line), false)
        } else {
            skip(src, pos + 1, line, true)
        }
    } else if is_blank(src[pos]) {
        skip(src, pos + 1, line, false)
    } else if src[pos] == '\n' {
        skip(src, pos + 1, bump(line), false)
    } else if src[pos] == '/' && pos + 1 < src.len() && src[pos + 1] == '/' {
        skip(src, pos + 2, line, true)
    } else {
        (pos, line)
    }
}

/// `skip` goes forward, and the line counter with it.
pub proof fn lemma_skip_forward(src: Seq<char>, pos: int, line: int, in_comment: bool)
    requires
        0 <= pos,
    ensures
        pos <= skip(src, pos, line, in_comment).0,
        line <= skip(src, pos, line, in_comment).1,
    decreases src.len() - pos,
{
    if pos < src.len() {
        if in_comment {
            if src[pos] == '\n' {
                lemma_skip_forward(src, pos + 1, bump(line), false);
            } else {
                lemma_skip_forward(src, pos + 1, line, true);
            }
        } else if is_blank(src[pos]) {
            lemma_skip_forward(src, pos + 1, line, false);
        } else if src[pos] == '\n' {
            lemma_skip_forward(src, pos + 1, bump(line), false);
        } else if src[pos] == '/' && pos + 1 < src.len() && src[pos + 1] == '/' {
            lemma_skip_forward(src, pos + 2, line, true);
        }
    }
}

/// The first index at or after `pos` that holds no digit.
pub open spec fn digits_end(src: Seq<char>, pos: int) -> int
    decreases src.len() - pos,
{
    if 0 <= pos < src.len() && is_digit(src[pos]) {
        digits_end(src, pos + 1)
    } else {
        pos
    }
}

/// The first index at or after `pos` that holds no identifier character.
pub open spec fn word_end(src: Seq<char>, pos: int) -> int
    decreases src.len() - pos,
{
    if 0 <= pos < src.len() && is_word_char(src[pos]) {
        word_end(src, pos + 1)
    } else {
        pos
    }
}

/// A token and the index just past it.
pub struct Scanned {
    pub token: TokenView,
    pub end: int,
}

/// The keyword that `w` spells, or the identifier `w`.
pub open spec fn word_token(w: Seq<char>) -> TokenView {
    if w == "or"@ {
        TokenView::CmpOr
    } else if w == "and"@ {
        TokenView::CmpAnd
    } else if w == "true"@ {
        TokenView::CmpTrue
    } else if w == "false"@ {
        TokenView::CmpFalse
    } else if w == "for"@ {
        TokenView::For
    } else if w == "func"@ {
        TokenView::Func
    } else if w == "while"@ {
        TokenView::While
    } else if w == "not"@ {
        TokenView::Not
    } else if w == "var"@ {
        TokenView::Var
    } else if w == "if"@ {
        TokenView::If
    } else if w == "else"@ {
        TokenView::Else
    } else if w == "return"@ {
        TokenView::Return
    } else if w == "int"@ {
        TokenView::TypeInt
    } else if w == "uint"@ {
        TokenView::TypeUint
    } else if w == "decimal"@ {
        TokenView::TypeDecimal
    } else if w == "string"@ {
        TokenView::TypeString
    } else if w == "any"@ {
        TokenView::TypeAny
    } else if w == "bool"@ {
        TokenView::TypeBool
    } else {
        TokenView::Identifer(w)
    }
}

/// The character that `\` followed by `c` stands for inside a string literal.
pub open spec fn escape(c: char) -> Option<char> {
    if c == '"' {
        Some('"')
    } else if c == '\\' {
        Some('\\')
    } else if c == 'n' {
        Some('\n')
    } else if c == 't' {
        Some('\t')
    } else if c == 'r' {
        Some('\r')
    } else if c == '\'' {
        Some('\'')
    } else {
        None
    }
}

/// The rest of a string literal from `pos`, just inside the opening quote or
/// further in, with `acc` the characters gathered so far. A literal that
/// the text ends before closing, or that holds an unknown escape, is an
/// `ERROR` token.
pub open spec fn string_rest(src: Seq<char>, pos: int, acc: Seq<char>) -> Scanned
    decreases src.len() - pos,
{
    if pos < 0 || pos >= src.len() {
        Scanned { token: TokenView::ERROR, end: pos }
    } else if src[pos] == '"' {
        Scanned { token: TokenView::Str(acc), end: pos + 1 }
    } else if src[pos] == '\\' {
        if pos + 1 < src.len() && escape(src[pos + 1]) is Some {
            string_rest(src, pos + 2, acc.push(escape(src[pos + 1])->0))
        } else {
            Scanned { token: TokenView::ERROR, end: pos + 1 }
        }
    } else {
        string_rest(src, pos + 1, acc.push(src[pos]))
    }
}

/// A number starting at `pos`: digits give an `Int` (0 when too large for
/// one), digits, a point and digits give a `Decimal` that keeps its text.
pub open spec fn number_at(src: Seq<char>, pos: int) -> Scanned {
    let e = digits_end(src, pos);
    if e + 1 < src.len() && src[e] == '.' && is_digit(src[e + 1]) {
        let e2 = digits_end(src, e + 1);
        Scanned { token: TokenView::Decimal(src.subrange(pos, e2)), end: e2 }
    } else {
        let v = digits_value(src.subrange(pos, e));
        Scanned { token: TokenView::Int(if v <= i64::MAX { v as i64 } else { 0 }), end: e }
    }
}

/// `single` alone, or `double` when an `=` follows.
pub open spec fn with_equal(src: Seq<char>, pos: int, single: TokenView, double: TokenView) -> Scanned {
    if pos + 1 < src.len() && src[pos + 1] == '=' {
        Scanned { token: double, end: pos + 2 }
    } else {
        Scanned { token: single, end: pos + 1 }
    }
}

/// The token that starts at `pos`, where `pos` holds a character that
/// `skip` stops at.
pub open spec fn scan(src: Seq<char>, pos: int) -> Scanned {
    let c = src[pos];
    if c == '=' {
        with_equal(src, pos, TokenView::Equal, TokenView::EqualEqual)
    } else if c == '!' {
        with_equal(src, pos, TokenView::Not, TokenView::NotEqual)
    } else if c == '>' {
        with_equal(src, pos, TokenView::Greater, TokenView::GreaterEqual)
    } else if c == '<' {
        with_equal(src, pos, TokenView::Less, TokenView::LessEqual)
    } else if c == ':' {
        with_equal(src, pos, TokenView::Colon, TokenView::ColonEqual)
    } else if c == '/' {
        with_equal(src, pos, TokenView::Slash, TokenView::SlashEqual)
    } else if c == '*' {
        with_equal(src, pos, TokenView::Star, TokenView::StarEqual)
    } else if c == '+' {
        with_equal(src, pos, TokenView::Plus, TokenView::PlusEqual)
    } else if c == '-' {
        with_equal(src, pos, TokenView::Minus, TokenView::MinusEqual)
    } else if c == ';' {
        Scanned { token: TokenView::Semicolon, end: pos + 1 }
    } else if c == ',' {
        Scanned { token: TokenView::Comma, end: pos + 1 }
    } else if c == '.' {
        Scanned { token: TokenView::Dot, end: pos + 1 }
    } else if c == '?' {
        Scanned { token: TokenView::Question, end: pos + 1 }
    } else if c == '(' {
        Scanned { token: TokenView::LeftParen, end: pos + 1 }
    } else if c == ')' {
        Scanned { token: TokenView::RightParen, end: pos + 1 }
    } else if c == '{' {
        Scanned { token: TokenView::LeftBrace, end: pos + 1 }
    } else if c == '}' {
        Scanned { token: TokenView::RightBrace, end: pos + 1 }
    } else if c == '[' {
        Scanned { token: TokenView::LeftBracket, end: pos + 1 }
    } else if c == ']' {
        Scanned { token: TokenView::RightBracket, end: pos + 1 }
    } else if c == '"' {
        string_rest(src, pos + 1, Seq::empty())
    } else if is_letter(c) {
        let e = word_end(src, pos + 1);
        Scanned { token: word_token(src.subrange(pos, e)), end: e }
    } else if is_digit(c) {
        number_at(src, pos)
    } else if pos + 1 < src.len() && c == '&' && src[pos + 1] == '&' {
        Scanned { token: TokenView::CmpAnd, end: pos + 2 }
    } else if pos + 1 < src.len() && c == '|' && src[pos + 1] == '|' {
        Scanned { token: TokenView::CmpOr, end: pos + 2 }
    } else if pos + 1 < src.len() {
        Scanned { token: TokenView::ERROR, end: pos + 2 }
    } else {
        Scanned { token: TokenView::ERROR, end: pos + 1 }
    }
}

/// One step of the lexer: the token found, where it starts and ends, and
/// the line counter after it.
pub struct LexStep {
    pub token: TokenView,
    pub start: int,
    pub end: int,
    pub line: int,
}

/// The next token of `src` when scanning from `pos` with the line counter
/// at `line`; `None` when only blanks and comments are left.
pub open spec fn lex_next(src: Seq<char>, pos: int, line: int) -> Option<LexStep> {
    let (p, l) = skip(src, pos, line, false);
    if p >= src.len() {
        None
    } else {
        let s = scan(src, p);
        Some(LexStep { token: s.token, start: p, end: s.end, line: l })
    }
}

/// All tokens of `src` from `pos` on, each with its place and line.
pub open spec fn lex_all(src: Seq<char>, pos: int, line: int) -> Seq<LexStep>
    decreases src.len() - pos,
{
    match lex_next(src, pos, line) {
        None => Seq::empty(),
        Some(step) => if pos < step.end <= src.len() {
            seq![step] + lex_all(src, step.end, step.line)
        } else {
            seq![step]
        },
    }
}

/// A lexer over a source text. `line` is the line counter, starting at 1;
/// `start..end` is the place of the token found last.
pub struct Lexer {
    source: Vec<char>,
    pub line: usize,
    start: usize,
    end: usize,
}

/// A lexer as a mathematical value.
pub struct LexerView {
    pub source: Seq<char>,
    pub line: int,
    pub start: int,
    pub end: int,
}

impl View for Lexer {
    type V = LexerView;

    closed spec fn view(&self) -> LexerView {
        LexerView {
            source: self.source@,
            line: self.line as int,
            start: self.start as int,
            end: self.end as int,
        }
    }
}

impl Lexer {
    /// The token's place lies inside the text.
    pub open spec fn wf(&self) -> bool {
        0 <= self@.start <= self@.end <= self@.source.len()
    }

    /// A lexer at the start of `source`, on line 1.
    pub fn new(source: String) -> (lexer: Lexer)
        ensures
            lexer.wf(),
            lexer@ == (LexerView { source: source@, line: 1, start: 0, end: 0 }),
    {
        Lexer { source: chars_of(source.as_str()), line: 1, start: 0, end: 0 }
    }

    /// The text of the token found last.
    pub fn slice(&self) -> (s: String)
        requires
            self.wf(),
        ensures
            s@ == self@.source.subrange(self@.start, self@.end),
    {
        string_of(&self.source, self.start, self.end)
    }

    /// The line counter, as the view gives it.
    pub fn line_number(&self) -> (n: usize)
        ensures
            n == self@.line,
    {
        self.line
    }

    fn skip_blanks(&mut self)
        requires
            old(self).wf(),
        ensures
            final(self).wf(),
            final(self)@.source == old(self)@.source,
            final(self)@.start == final(self)@.end,
            (final(self)@.end, final(self)@.line) == skip(
                old(self)@.source,
                old(self)@.end,
                old(self)@.line,
                false,
            ),
    {
        let mut in_comment = false;
        let n = self.source.len();
        loop
            invariant
                self.end <= n,
                n == self.source.len(),
                self.source@ == old(self).source@,
                skip(self.source@, self.end as int, self.line as int, in_comment) == skip(
                    old(self).source@,
                    old(self).end as int,
                    old(self).line as int,
                    false,
                ),
            ensures
                self.end <= n,
                n == self.source.len(),
                self.source@ == old(self).source@,
                (self.end as int, self.line as int) == skip(
                    old(self).source@,
                    old(self).end as int,
                    old(self).line as int,
                    false,
                ),
            decreases n - self.end,
        {
            if self.end >= n {
                break ;
            }
            let c = self.source[self.end];
            if in_comment {
                if c == '\n' {
                    if self.line < usize::MAX {
                        self.line += 1;
                    }
                    in_comment = false;
                }
                self.end += 1;
            } else if c == ' ' || c == '\t' || c == '\r' {
                self.end += 1;
            } else if c == '\n' {
                if self.line < usize::MAX {
                    self.line += 1;
                }
                self.end += 1;
            } else if c == '/' && self.end + 1 < n && self.source[self.end + 1] == '/' {
                self.end += 2;
                in_comment = true;
            } else {
                break ;
            }
        }
        self.start = self.end;
    }

    /// The next token, or `None` at the end of the text.
    pub fn next(&mut self) -> (r: Option<Token>)
        requires
            old(self).wf(),
        ensures
            final(self).wf(),
            final(self)@.source == old(self)@.source,
            match lex_next(old(self)@.source, old(self)@.end, old(self)@.line) {
                None => r is None && final(self)@.start == final(self)@.end && (
                final(self)@.end,
                final(self)@.line,
                ) == skip(old(self)@.source, old(self)@.end, old(self)@.line, false),
                Some(step) => r is Some && r->0@ == step.token && final(self)@.start == step.start
                    && final(self)@.end == step.end && final(self)@.line == step.line
                    && old(self)@.end < step.end,
            },
    {
        self.skip_blanks();
        proof {
            lemma_skip_forward(old(self)@.source, old(self)@.end, old(self)@.line, false);
        }
        if self.start >= self.source.len() {
            return None;
        }
        let (token, end) = scan_token(&self.source, self.start);
        self.end = end;
        Some(token)
    }
}

pub(crate) fn scan_digits(src: &Vec<char>, pos: usize) -> (e: usize)
    requires
        pos <= src.len(),
    ensures
        e == digits_end(src@, pos as int),
        pos <= e <= src.len(),
{
    let mut e = pos;
    while e < src.len() && '0' <= src[e] && src[e] <= '9'
        invariant
            pos <= e <= src.len(),
            digits_end(src@, e as int) == digits_end(src@, pos as int),
        decreases src.len() - e,
    {
        e += 1;
    }
    e
}

pub(crate) fn letter(c: char) -> (b: bool)
    ensures
        b == is_letter(c),
{
    ('a' <= c && c <= 'z') || ('A' <= c && c <= 'Z') || c == '_'
}

pub(crate) fn scan_word(src: &Vec<char>, pos: usize) -> (e: usize)
    requires
        pos <= src.len(),
    ensures
        e == word_end(src@, pos as int),
        pos <= e <= src.len(),
{
    let mut e = pos;
    while e < src.len() && (letter(src[e]) || ('0' <= src[e] && src[e] <= '9'))
        invariant
            pos <= e <= src.len(),
            word_end(src@, e as int) == word_end(src@, pos as int),
        decreases src.len() - e,
    {
        e += 1;
    }
    e
}

fn int_value(src: &Vec<char>, from: usize, to: usize) -> (n: i64)
    requires
        from <= to <= src.len(),
        forall|i: int| from <= i < to ==> is_digit(#[trigger] src@[i]),
    ensures
        n == ({
            let v = digits_value(src@.subrange(from as int, to as int));
            if v <= i64::MAX {
                v as i64
            } else {
                0
            }
        }),
{
    let mut acc: i64 = 0;
    let mut over = false;
    let mut i: usize = from;
    while i < to
        invariant
            from <= i <= to <= src.len(),
            forall|k: int| from <= k < to ==> is_digit(#[trigger] src@[k]),
            0 <= digits_value(src@.subrange(from as int, i as int)),
            !over ==> acc == digits_value(src@.subrange(from as int, i as int)),
            over ==> digits_value(src@.subrange(from as int, i as int)) > i64::MAX,
        decreases to - i,
    {
        let c = src[i];
        let d: i64 = (c as u32 - 48) as i64;
        assert(src@.subrange(from as int, i + 1).drop_last() =~= src@.subrange(
            from as int,
            i as int,
        ));
        assert(src@.subrange(from as int, i + 1).last() == c);
        if !over {
            if acc > (i64::MAX - d) / 10 {
                over = true;
            } else {
                acc = acc * 10 + d;
            }
        }
        i += 1;
    }
    if over {
        0
    } else {
        acc
    }
}

fn word_of(src: &Vec<char>, from: usize, to: usize) -> (t: Token)
    requires
        from <= to <= src.len(),
    ensures
        t@ == word_token(src@.subrange(from as int, to as int)),
{
    if range_is(src, from, to, "or") {
        Token::CmpOr
    } else if range_is(src, from, to, "and") {
        Token::CmpAnd
    } else if range_is(src, from, to, "true") {
        Token::CmpTrue
    } else if range_is(src, from, to, "false") {
        Token::CmpFalse
    } else if range_is(src, from, to, "for") {
        Token::For
    } else if range_is(src, from, to, "func") {
        Token::Func
    } else if range_is(src, from, to, "while") {
        Token::While
    } else if range_is(src, from, to, "not") {
        Token::Not
    } else if range_is(src, from, to, "var") {
        Token::Var
    } else if range_is(src, from, to, "if") {
        Token::If
    } else if range_is(src, from, to, "else") {
        Token::Else
    } else if range_is(src, from, to, "return") {
        Token::Return
    } else if range_is(src, from, to, "int") {
        Token::TypeInt
    } else if range_is(src, from, to, "uint") {
        Token::TypeUint
    } else if range_is(src, from, to, "decimal") {
        Token::TypeDecimal
    } else if range_is(src, from, to, "string") {
        Token::TypeString
    } else if range_is(src, from, to, "any") {
        Token::TypeAny
    } else if range_is(src, from, to, "bool") {
        Token::TypeBool
    } else {
        Token::Identifer(string_of(src, from, to))
    }
}

fn unescape(c: char) -> (r: Option<char>)
    ensures
        r == escape(c),
{
    if c == '"' {
        Some('"')
    } else if c == '\\' {
        Some('\\')
    } else if c == 'n' {
        Some('\n')
    } else if c == 't' {
        Some('\t')
    } else if c == 'r' {
        Some('\r')
    } else if c == '\'' {
        Some('\'')
    } else {
        None
    }
}

fn scan_string(src: &Vec<char>, pos: usize) -> (r: (Token, usize))
    requires
        pos <= src.len(),
    ensures
        r.0@ == string_rest(src@, pos as int, Seq::empty()).token,
        r.1 == string_rest(src@, pos as int, Seq::empty()).end,
        pos <= r.1 <= src.len(),
{
    let mut text = String::new();
    let mut p = pos;
    let n = src.len();
    loop
        invariant
            pos <= p <= n,
            n == src.len(),
            string_rest(src@, p as int, text@) == string_rest(src@, pos as int, Seq::empty()),
        decreases n - p,
    {
        if p >= n {
            return (Token::ERROR, p);
        }
        let c = src[p];
        if c == '"' {
            return (Token::Str(text), p + 1);
        } else if c == '\\' {
            if p + 1 < n {
                match unescape(src[p + 1]) {
                    Some(e) => {
                        push_char(&mut text, e);
                        p += 2;
                    },
                    None => {
                        return (Token::ERROR, p + 1);
                    },
                }
            } else {
                return (Token::ERROR, p + 1);
            }
        } else {
            push_char(&mut text, c);
            p += 1;
        }
    }
}

fn scan_number(src: &Vec<char>, pos: usize) -> (r: (Token, usize))
    requires
        pos < src.len(),
        is_digit(src@[pos as int]),
    ensures
        r.0@ == number_at(src@, pos as int).token,
        r.1 == number_at(src@, pos as int).end,
        pos < r.1 <= src.len(),
{
    let e = scan_digits(src, pos + 1);
    assert(digits_end(src@, pos as int) == digits_end(src@, pos + 1));
    if e < src.len() && e + 1 < src.len() && src[e] == '.' && '0' <= src[e + 1] && src[e + 1]
        <= '9' {
        let e2 = scan_digits(src, e + 1);
        (Token::Decimal(string_of(src, pos, e2)), e2)
    } else {
        proof {
            lemma_digits_run(src@, pos as int);
        }
        (Token::Int(int_value(src, pos, e)), e)
    }
}

/// Every character between `pos` and `digits_end` is a digit.
pub proof fn lemma_digits_run(src: Seq<char>, pos: int)
    requires
        0 <= pos <= src.len(),
    ensures
        pos <= digits_end(src, pos) <= src.len(),
        forall|i: int| pos <= i < digits_end(src, pos) ==> is_digit(#[trigger] src[i]),
    decreases src.len() - pos,
{
    if pos < src.len() && is_digit(src[pos]) {
        lemma_digits_run(src, pos + 1);
    }
}

fn pick(src: &Vec<char>, pos: usize, single: Token, double: Token) -> (r: (Token, usize))
    requires
        pos < src.len(),
    ensures
        r.0@ == with_equal(src@, pos as int, single@, double@).token,
        r.1 == with_equal(src@, pos as int, single@, double@).end,
        pos < r.1 <= src.len(),
{
    if pos + 1 < src.len() && src[pos + 1] == '=' {
        (double, pos + 2)
    } else {
        (single, pos + 1)
    }
}

fn scan_token(src: &Vec<char>, pos: usize) -> (r: (Token, usize))
    requires
        pos < src.len(),
    ensures
        r.0@ == scan(src@, pos as int).token,
        r.1 == scan(src@, pos as int).end,
        pos < r.1 <= src.len(),
{
    let c = src[pos];
    if c == '=' {
        pick(src, pos, Token::Equal, Token::EqualEqual)
    } else if c == '!' {
        pick(src, pos, Token::Not, Token::NotEqual)
    } else if c == '>' {
        pick(src, pos, Token::Greater, Token::GreaterEqual)
    } else if c == '<' {
        pick(src, pos, Token::Less, Token::LessEqual)
    } else if c == ':' {
        pick(src, pos, Token::Colon, Token::ColonEqual)
    } else if c == '/' {
        pick(src, pos, Token::Slash, Token::SlashEqual)
    } else if c == '*' {
        pick(src, pos, Token::Star, Token::StarEqual)
    } else if c == '+' {
        pick(src, pos, Token::Plus, Token::PlusEqual)
    } else if c == '-' {
        pick(src, pos, Token::Minus, Token::MinusEqual)
    } else if c == ';' {
        (Token::Semicolon, pos + 1)
    } else if c == ',' {
        (Token::Comma, pos + 1)
    } else if c == '.' {
        (Token::Dot, pos + 1)
    } else if c == '?' {
        (Token::Question, pos + 1)
    } else if c == '(' {
        (Token::LeftParen, pos + 1)
    } else if c == ')' {
        (Token::RightParen, pos + 1)
    } else if c == '{' {
        (Token::LeftBrace, pos + 1)
    } else if c == '}' {
        (Token::RightBrace, pos + 1)
    } else if c == '[' {
        (Token::LeftBracket, pos + 1)
    } else if c == ']' {
        (Token::RightBracket, pos + 1)
    } else if c == '"' {
        scan_string(src, pos + 1)
    } else if letter(c) {
        let e = scan_word(src, pos + 1);
        (word_of(src, pos, e), e)
    } else if '0' <= c && c <= '9' {
        scan_number(src, pos)
    } else if pos + 1 < src.len() && c == '&' && src[pos + 1] == '&' {
        (Token::CmpAnd, pos + 2)
    } else if pos + 1 < src.len() && c == '|' && src[pos + 1] == '|' {
        (Token::CmpOr, pos + 2)
    } else if pos + 1 < src.len() {
        (Token::ERROR, pos + 2)
    } else {
        (Token::ERROR, pos + 1)
    }
}

} // verus!
