//! The parser: tokens to statements and expressions.

use vstd::prelude::*;
use crate::text::{chars_of, range_is};
use crate::tokens::{lex_all, LexStep, Lexer, Token, TokenView};
use crate::value::{ClassType, ClassTypeView, Value, ValueView};

verus! {

/// An expression.
#[derive(Debug, PartialEq)]
pub enum AstExpr {
    Nothing,
    Binary(Box<AstExpr>, Token, Box<AstExpr>),
    Ternary(Box<AstExpr>, Box<AstExpr>, Box<AstExpr>),
    Group(Box<AstExpr>),
    Literal(Value),
    Unary(Token, Box<AstExpr>),
    Variable(String),
    Assign(Box<AstExpr>, Box<AstExpr>),
    AssignByOp(String, Token, Box<AstExpr>),
    Call(String, Vec<AstExpr>),
    TypeCall(Token, Box<AstExpr>),
    New(String),
    NewCall(String, Vec<AstExpr>),
    StructCall(Box<AstExpr>, Box<AstExpr>),
    Block(Vec<AstStmt>),
}

/// A statement.
#[derive(Debug, PartialEq)]
pub enum AstStmt {
    Expr(AstExpr),
    Declaration(String, ClassType, AstExpr),
    InferDeclaration(String, AstExpr),
    If(AstExpr, Box<AstStmt>, Option<Box<AstStmt>>),
    While(AstExpr, AstExpr),
    Function(String, ClassType, Vec<String>, Vec<ClassType>, AstExpr),
    Struct(String, Vec<String>),
    Return(Option<AstExpr>),
    Quit,
    Import(String),
}

/// An expression as a mathematical value.
pub enum ExprView {
    Nothing,
    Binary(Box<ExprView>, TokenView, Box<ExprView>),
    Ternary(Box<ExprView>, Box<ExprView>, Box<ExprView>),
    Group(Box<ExprView>),
    Literal(ValueView),
    Unary(TokenView, Box<ExprView>),
    Variable(Seq<char>),
    Assign(Box<ExprView>, Box<ExprView>),
    AssignByOp(Seq<char>, TokenView, Box<ExprView>),
    Call(Seq<char>, Seq<ExprView>),
    TypeCall(TokenView, Box<ExprView>),
    New(Seq<char>),
    NewCall(Seq<char>, Seq<ExprView>),
    StructCall(Box<ExprView>, Box<ExprView>),
    Block(Seq<StmtView>),
}

/// A statement as a mathematical value.
pub enum StmtView {
    Expr(ExprView),
    Declaration(Seq<char>, ClassTypeView, ExprView),
    InferDeclaration(Seq<char>, ExprView),
    If(ExprView, Box<StmtView>, Option<Box<StmtView>>),
    While(ExprView, ExprView),
    Function(Seq<char>, ClassTypeView, Seq<Seq<char>>, Seq<ClassTypeView>, ExprView),
    Struct(Seq<char>, Seq<Seq<char>>),
    Return(Option<ExprView>),
    Quit,
    Import(Seq<char>),
}

impl AstExpr {
    /// The expression as a mathematical value.
    pub open spec fn model(&self) -> ExprView
        decreases self,
    {
        match self {
            AstExpr::Nothing => ExprView::Nothing,
            AstExpr::Binary(a, op, b) => ExprView::Binary(
                Box::new(a.model()),
                op@,
                Box::new(b.model()),
            ),
            AstExpr::Ternary(c, t, f) => ExprView::Ternary(
                Box::new(c.model()),
                Box::new(t.model()),
                Box::new(f.model()),
            ),
            AstExpr::Group(e) => ExprView::Group(Box::new(e.model())),
            AstExpr::Literal(v) => ExprView::Literal(v@),
            AstExpr::Unary(op, e) => ExprView::Unary(op@, Box::new(e.model())),
            AstExpr::Variable(name) => ExprView::Variable(name@),
            AstExpr::Assign(target, e) => ExprView::Assign(
                Box::new(target.model()),
                Box::new(e.model()),
            ),
            AstExpr::AssignByOp(name, op, e) => ExprView::AssignByOp(
                name@,
                op@,
                Box::new(e.model()),
            ),
            AstExpr::Call(name, args) => ExprView::Call(
                name@,
                Seq::new(
                    args@.len(),
                    |i: int|
                        if 0 <= i < args@.len() {
                            args@[i].model()
                        } else {
                            ExprView::Nothing
                        },
                ),
            ),
            AstExpr::TypeCall(t, e) => ExprView::TypeCall(t@, Box::new(e.model())),
            AstExpr::New(name) => ExprView::New(name@),
            AstExpr::NewCall(name, args) => ExprView::NewCall(
                name@,
                Seq::new(
                    args@.len(),
                    |i: int|
                        if 0 <= i < args@.len() {
                            args@[i].model()
                        } else {
                            ExprView::Nothing
                        },
                ),
            ),
            AstExpr::StructCall(left, right) => ExprView::StructCall(
                Box::new(left.model()),
                Box::new(right.model()),
            ),
            AstExpr::Block(stmts) => ExprView::Block(
                Seq::new(
                    stmts@.len(),
                    |i: int|
                        if 0 <= i < stmts@.len() {
                            stmts@[i].model()
                        } else {
                            StmtView::Quit
                        },
                ),
            ),
        }
    }
}

impl AstStmt {
    /// The statement as a mathematical value.
    pub open spec fn model(&self) -> StmtView
        decreases self,
    {
        match self {
            AstStmt::Expr(e) => StmtView::Expr(e.model()),
            AstStmt::Declaration(name, t, e) => StmtView::Declaration(name@, t@, e.model()),
            AstStmt::InferDeclaration(name, e) => StmtView::InferDeclaration(name@, e.model()),
            AstStmt::If(c, then, other) => StmtView::If(
                c.model(),
                Box::new(then.model()),
                match other {
                    Some(s) => Some(Box::new(s.model())),
                    None => None,
                },
            ),
            AstStmt::While(c, body) => StmtView::While(c.model(), body.model()),
            AstStmt::Function(name, t, names, types, body) => StmtView::Function(
                name@,
                t@,
                crate::value::name_views(names@),
                crate::vm::type_views(types@),
                body.model(),
            ),
            AstStmt::Struct(name, fields) => StmtView::Struct(
                name@,
                crate::value::name_views(fields@),
            ),
            AstStmt::Return(e) => StmtView::Return(
                match e {
                    Some(x) => Some(x.model()),
                    None => None,
                },
            ),
            AstStmt::Quit => StmtView::Quit,
            AstStmt::Import(path) => StmtView::Import(path@),
        }
    }
}

impl View for AstExpr {
    type V = ExprView;

    open spec fn view(&self) -> ExprView {
        self.model()
    }
}

impl View for AstStmt {
    type V = StmtView;

    open spec fn view(&self) -> StmtView {
        self.model()
    }
}

/// The views of a run of expressions.
pub open spec fn expr_views(v: Seq<AstExpr>) -> Seq<ExprView> {
    Seq::new(v.len(), |i: int| v[i]@)
}

/// The views of a run of statements.
pub open spec fn stmt_views(v: Seq<AstStmt>) -> Seq<StmtView> {
    Seq::new(v.len(), |i: int| v[i]@)
}

/// The view of a call holds the views of its arguments.
pub proof fn lemma_call_view(name: String, args: Vec<AstExpr>)
    ensures
        AstExpr::Call(name, args)@ == ExprView::Call(name@, expr_views(args@)),
        AstExpr::NewCall(name, args)@ == ExprView::NewCall(name@, expr_views(args@)),
{
    assert(AstExpr::Call(name, args)@->Call_1 =~= expr_views(args@));
    assert(AstExpr::NewCall(name, args)@->NewCall_1 =~= expr_views(args@));
}

/// The view of a block holds the views of its statements.
pub proof fn lemma_block_view(stmts: Vec<AstStmt>)
    ensures
        AstExpr::Block(stmts)@ == ExprView::Block(stmt_views(stmts@)),
{
    assert(AstExpr::Block(stmts)@->Block_0 =~= stmt_views(stmts@));
}

/// The views of a run of expressions with one more behind it.
pub proof fn lemma_expr_views_push(v: Seq<AstExpr>, e: AstExpr)
    ensures
        expr_views(v.push(e)) == expr_views(v).push(e@),
{
    assert(expr_views(v.push(e)) =~= expr_views(v).push(e@));
}

/// The views of a run of statements with one more behind it.
pub proof fn lemma_stmt_views_push(v: Seq<AstStmt>, s: AstStmt)
    ensures
        stmt_views(v.push(s)) == stmt_views(v).push(s@),
{
    assert(stmt_views(v.push(s)) =~= stmt_views(v).push(s@));
}

/// What is wrong with a source text.
#[derive(Debug, Clone, Copy, PartialEq, Eq, Structural)]
pub enum SyntaxError {
    ExpectedExpression,
    ExpectedRightParen,
    ExpectedCallee,
    TooManyArguments,
    InvalidAssignment,
    ExpectedColonInTernary,
    ExpectedName,
    ExpectedVariableName,
    ExpectedType,
    ExpectedSemicolon,
    ExpectedRightBrace,
    ExpectedLeftBrace,
    ExpectedFunctionName,
    ExpectedLeftParen,
    TooManyParameters,
    ExpectedParameter,
    ExpectedColon,
    ExpectedFieldName,
}

/// The result of reading a construct from a place in the tokens: the
/// construct and the index just past it, or what is wrong and where.
pub enum Got<T> {
    Read(T, int),
    Wrong(SyntaxError, int),
}

/// The most arguments that a call, and the most parameters that a
/// function, can have.
pub const ARGUMENT_LIMIT: usize = 255;

/// The token at `i`, if there is one.
pub open spec fn tok(toks: Seq<TokenView>, i: int) -> Option<TokenView> {
    if 0 <= i < toks.len() {
        Some(toks[i])
    } else {
        None
    }
}

/// The place of a binary operator among the six levels of precedence,
/// from `or`, which binds least, to `*` and `/`.
pub open spec fn level_of(t: Option<TokenView>) -> int {
    match t {
        Some(TokenView::CmpOr) => 0,
        Some(TokenView::CmpAnd) => 1,
        Some(TokenView::EqualEqual) => 2,
        Some(TokenView::NotEqual) => 2,
        Some(TokenView::Less) => 3,
        Some(TokenView::LessEqual) => 3,
        Some(TokenView::Greater) => 3,
        Some(TokenView::GreaterEqual) => 3,
        Some(TokenView::Minus) => 4,
        Some(TokenView::Plus) => 4,
        Some(TokenView::Star) => 5,
        Some(TokenView::Slash) => 5,
        _ => -1,
    }
}

/// The type that a token names in an annotation: one of the six type
/// words, or the name of a structure.
pub open spec fn type_of_token(t: Option<TokenView>) -> Option<ClassTypeView> {
    match t {
        Some(TokenView::TypeBool) => Some(ClassTypeView::Bool),
        Some(TokenView::TypeAny) => Some(ClassTypeView::Any),
        Some(TokenView::TypeDecimal) => Some(ClassTypeView::Decimal),
        Some(TokenView::TypeUint) => Some(ClassTypeView::Uint),
        Some(TokenView::TypeInt) => Some(ClassTypeView::Int),
        Some(TokenView::TypeString) => Some(ClassTypeView::Str),
        Some(TokenView::Identifer(name)) => Some(ClassTypeView::Struct(name)),
        _ => None,
    }
}

/// Whether the token is one of the six type words.
pub open spec fn is_type_word(t: Option<TokenView>) -> bool {
    t is Some && !(t->0 is Identifer) && type_of_token(t) is Some
}

/// Whether the token is `+=`, `-=`, `*=` or `/=`.
pub open spec fn is_assign_op(t: Option<TokenView>) -> bool {
    t == Some(TokenView::PlusEqual) || t == Some(TokenView::MinusEqual) || t == Some(
        TokenView::StarEqual,
    ) || t == Some(TokenView::SlashEqual)
}

/// What ends a declaration: `;`.
pub open spec fn p_end<T>(toks: Seq<TokenView>, i: int, item: T) -> Got<T> {
    if tok(toks, i) == Some(TokenView::Semicolon) {
        Got::Read(item, i + 1)
    } else {
        Got::Wrong(SyntaxError::ExpectedSemicolon, i)
    }
}

/// The parameters of a function from `i`, after those gathered:
/// `name: type` separated by commas, then `)`.
pub open spec fn p_params(
    toks: Seq<TokenView>,
    i: int,
    names: Seq<Seq<char>>,
    types: Seq<ClassTypeView>,
) -> Got<(Seq<Seq<char>>, Seq<ClassTypeView>)>
    decreases toks.len() - i,
{
    if names.len() >= ARGUMENT_LIMIT {
        Got::Wrong(SyntaxError::TooManyParameters, i)
    } else {
        match tok(toks, i) {
            Some(TokenView::Identifer(name)) => if tok(toks, i + 1) == Some(TokenView::Colon) {
                match type_of_token(tok(toks, i + 2)) {
                    Some(t) => if tok(toks, i + 3) == Some(TokenView::Comma) {
                        p_params(toks, i + 4, names.push(name), types.push(t))
                    } else if tok(toks, i + 3) == Some(TokenView::RightParen) {
                        Got::Read((names.push(name), types.push(t)), i + 4)
                    } else {
                        Got::Wrong(SyntaxError::ExpectedRightParen, i + 3)
                    },
                    None => Got::Wrong(SyntaxError::ExpectedType, i + 2),
                }
            } else {
                Got::Wrong(SyntaxError::ExpectedColon, i + 1)
            },
            _ => Got::Wrong(SyntaxError::ExpectedParameter, i),
        }
    }
}

/// The loop that `for` stands for: a block that holds the
/// initialisation and a `while` whose body ends in the step.
pub open spec fn for_loop(init: StmtView, cond: ExprView, step: ExprView, body: Seq<StmtView>) -> StmtView {
    StmtView::Expr(
        ExprView::Block(
            seq![
                init,
                StmtView::While(cond, ExprView::Block(body.push(StmtView::Expr(step)))),
            ],
        ),
    )
}

/// The fields of a structure from `i`, after those in `acc`: `name ;`
/// as often as wanted, then `}`.
pub open spec fn p_fields(toks: Seq<TokenView>, i: int, acc: Seq<Seq<char>>) -> Got<Seq<Seq<char>>>
    decreases toks.len() - i,
{
    match tok(toks, i) {
        Some(TokenView::RightBrace) => Got::Read(acc, i + 1),
        Some(TokenView::Identifer(name)) => if tok(toks, i + 1) == Some(TokenView::Semicolon) {
            p_fields(toks, i + 2, acc.push(name))
        } else {
            Got::Wrong(SyntaxError::ExpectedSemicolon, i + 1)
        },
        _ => Got::Wrong(SyntaxError::ExpectedFieldName, i),
    }
}

/// The constructs that the grammar is made of. A construct that goes on
/// from what has been read carries that with it.
pub enum Rule {
    Primary,
    Args(Seq<ExprView>),
    PostfixRest(ExprView),
    Postfix,
    Unary,
    Binary(int),
    BinaryRest(int, ExprView),
    Conditional,
    AssignOp,
    Assignment,
    Block(Seq<StmtView>),
    VarDecl,
    FunctionBody(Seq<char>, Seq<Seq<char>>, Seq<ClassTypeView>),
    Function,
    Braces,
    While,
    If,
    Return,
    Optional(TokenView),
    ForRest(StmtView, bool),
    For,
    ExprStmt,
    Statement,
    Declaration,
}

/// What reading a construct gives.
pub enum Node {
    Expr(ExprView),
    Exprs(Seq<ExprView>),
    Stmt(StmtView),
    Stmts(Seq<StmtView>),
}

/// An expression that was read, as a node.
pub open spec fn of_expr(g: Got<ExprView>) -> Got<Node> {
    match g {
        Got::Read(e, j) => Got::Read(Node::Expr(e), j),
        Got::Wrong(k, at) => Got::Wrong(k, at),
    }
}

/// Expressions that were read, as a node.
pub open spec fn of_exprs(g: Got<Seq<ExprView>>) -> Got<Node> {
    match g {
        Got::Read(e, j) => Got::Read(Node::Exprs(e), j),
        Got::Wrong(k, at) => Got::Wrong(k, at),
    }
}

/// A statement that was read, as a node.
pub open spec fn of_stmt(g: Got<StmtView>) -> Got<Node> {
    match g {
        Got::Read(s, j) => Got::Read(Node::Stmt(s), j),
        Got::Wrong(k, at) => Got::Wrong(k, at),
    }
}

/// Statements that were read, as a node.
pub open spec fn of_stmts(g: Got<Seq<StmtView>>) -> Got<Node> {
    match g {
        Got::Read(s, j) => Got::Read(Node::Stmts(s), j),
        Got::Wrong(k, at) => Got::Wrong(k, at),
    }
}

/// The expression that a node holds.
pub open spec fn as_expr(g: Got<Node>) -> Got<ExprView> {
    match g {
        Got::Read(Node::Expr(e), j) => Got::Read(e, j),
        Got::Read(_, j) => Got::Wrong(SyntaxError::ExpectedExpression, j),
        Got::Wrong(k, at) => Got::Wrong(k, at),
    }
}

/// The expressions that a node holds.
pub open spec fn as_exprs(g: Got<Node>) -> Got<Seq<ExprView>> {
    match g {
        Got::Read(Node::Exprs(e), j) => Got::Read(e, j),
        Got::Read(_, j) => Got::Wrong(SyntaxError::ExpectedExpression, j),
        Got::Wrong(k, at) => Got::Wrong(k, at),
    }
}

/// The statement that a node holds.
pub open spec fn as_stmt(g: Got<Node>) -> Got<StmtView> {
    match g {
        Got::Read(Node::Stmt(s), j) => Got::Read(s, j),
        Got::Read(_, j) => Got::Wrong(SyntaxError::ExpectedExpression, j),
        Got::Wrong(k, at) => Got::Wrong(k, at),
    }
}

/// The statements that a node holds.
pub open spec fn as_stmts(g: Got<Node>) -> Got<Seq<StmtView>> {
    match g {
        Got::Read(Node::Stmts(s), j) => Got::Read(s, j),
        Got::Read(_, j) => Got::Wrong(SyntaxError::ExpectedExpression, j),
        Got::Wrong(k, at) => Got::Wrong(k, at),
    }
}

/// The order in which the constructs may begin one another at the same
/// token: a construct only begins, where it stands, with one of lower rank.
pub open spec fn rank(rule: Rule) -> int {
    match rule {
        Rule::Primary => 1,
        Rule::Args(_) => 21,
        Rule::PostfixRest(_) => 0,
        Rule::Postfix => 2,
        Rule::Unary => 3,
        Rule::Binary(level) => if 0 <= level < 6 {
            16 - 2 * level
        } else {
            4
        },
        Rule::BinaryRest(_, _) => 0,
        Rule::Conditional => 18,
        Rule::AssignOp => 19,
        Rule::Assignment => 20,
        Rule::Block(_) => 31,
        Rule::VarDecl => 22,
        Rule::FunctionBody(_, _, _) => 0,
        Rule::Function => 1,
        Rule::Braces => 0,
        Rule::While => 21,
        Rule::If => 21,
        Rule::Return => 21,
        Rule::Optional(_) => 21,
        Rule::ForRest(_, _) => 22,
        Rule::For => 23,
        Rule::ExprStmt => 28,
        Rule::Statement => 29,
        Rule::Declaration => 30,
    }
}

/// The grammar: what reading the construct `rule` from the token at `i`
/// gives.
pub open spec fn parse(toks: Seq<TokenView>, i: int, rule: Rule) -> Got<Node>
    decreases toks.len() - i, rank(rule),
{
    match rule {
        Rule::Primary => of_expr({
        match tok(toks, i) {
            Some(TokenView::CmpTrue) => Got::Read(ExprView::Literal(ValueView::Bool(true)), i + 1),
            Some(TokenView::CmpFalse) => Got::Read(ExprView::Literal(ValueView::Bool(false)), i + 1),
            Some(TokenView::Int(x)) => Got::Read(ExprView::Literal(ValueView::Int(x)), i + 1),
            Some(TokenView::Uint(x)) => Got::Read(ExprView::Literal(ValueView::Uint(x)), i + 1),
            Some(TokenView::Decimal(t)) => Got::Read(ExprView::Literal(ValueView::Decimal(t)), i + 1),
            Some(TokenView::Str(t)) => Got::Read(ExprView::Literal(ValueView::Str(t)), i + 1),
            Some(TokenView::Identifer(name)) => if name == "new"@ && tok(toks, i + 1) is Some && tok(
                toks,
                i + 1,
            )->0 is Identifer {
                let made = tok(toks, i + 1)->0->Identifer_0;
                if tok(toks, i + 2) == Some(TokenView::LeftParen) {
                    if tok(toks, i + 3) == Some(TokenView::RightParen) {
                        Got::Read(ExprView::NewCall(made, Seq::empty()), i + 4)
                    } else {
                        match as_exprs(parse(toks, i + 3, Rule::Args(Seq::empty()))) {
                            Got::Read(args, j) => Got::Read(ExprView::NewCall(made, args), j),
                            Got::Wrong(e, at) => Got::Wrong(e, at),
                        }
                    }
                } else {
                    Got::Read(ExprView::New(made), i + 2)
                }
            } else {
                Got::Read(ExprView::Variable(name), i + 1)
            },
            Some(TokenView::LeftParen) => match as_expr(parse(toks, i + 1, Rule::Assignment)) {
                Got::Read(e, j) => if tok(toks, j) == Some(TokenView::RightParen) {
                    Got::Read(ExprView::Group(Box::new(e)), j + 1)
                } else {
                    Got::Wrong(SyntaxError::ExpectedRightParen, j)
                },
                Got::Wrong(e, at) => Got::Wrong(e, at),
            },
            Some(TokenView::LeftBrace) => match as_stmts(parse(toks, i + 1, Rule::Block(Seq::empty()))) {
                Got::Read(stmts, j) => Got::Read(ExprView::Block(stmts), j),
                Got::Wrong(e, at) => Got::Wrong(e, at),
            },
            Some(t) => if is_type_word(Some(t)) && tok(toks, i + 1) == Some(TokenView::LeftParen) {
                match as_expr(parse(toks, i + 2, Rule::Assignment)) {
                    Got::Read(e, j) => if tok(toks, j) == Some(TokenView::RightParen) {
                        Got::Read(ExprView::TypeCall(t, Box::new(e)), j + 1)
                    } else {
                        Got::Wrong(SyntaxError::ExpectedRightParen, j)
                    },
                    Got::Wrong(e, at) => Got::Wrong(e, at),
                }
            } else {
                Got::Wrong(SyntaxError::ExpectedExpression, i)
            },
            None => Got::Wrong(SyntaxError::ExpectedExpression, i),
        }
        }),
        Rule::Args(acc) => of_exprs({
        if acc.len() >= ARGUMENT_LIMIT {
            Got::Wrong(SyntaxError::TooManyArguments, i)
        } else {
            match as_expr(parse(toks, i, Rule::Assignment)) {
                Got::Read(e, j) => if tok(toks, j) == Some(TokenView::Comma) && j >= i {
                    as_exprs(parse(toks, j + 1, Rule::Args(acc.push(e))))
                } else if tok(toks, j) == Some(TokenView::RightParen) {
                    Got::Read(acc.push(e), j + 1)
                } else {
                    Got::Wrong(SyntaxError::ExpectedRightParen, j)
                },
                Got::Wrong(e, at) => Got::Wrong(e, at),
            }
        }
        }),
        Rule::PostfixRest(left) => of_expr({
        match tok(toks, i) {
            Some(TokenView::LeftParen) => match left {
                ExprView::Variable(name) => if tok(toks, i + 1) == Some(TokenView::RightParen) {
                    as_expr(parse(toks, i + 2, Rule::PostfixRest(ExprView::Call(name, Seq::empty()))))
                } else {
                    match as_exprs(parse(toks, i + 1, Rule::Args(Seq::empty()))) {
                        Got::Read(args, j) => if i < j <= toks.len() {
                            as_expr(parse(toks, j, Rule::PostfixRest(ExprView::Call(name, args))))
                        } else {
                            Got::Wrong(SyntaxError::ExpectedRightParen, j)
                        },
                        Got::Wrong(e, at) => Got::Wrong(e, at),
                    }
                },
                _ => Got::Wrong(SyntaxError::ExpectedCallee, i),
            },
            Some(TokenView::Dot) => match tok(toks, i + 1) {
                Some(TokenView::Identifer(name)) => as_expr(parse(toks, i + 2, Rule::PostfixRest(ExprView::StructCall(Box::new(left), Box::new(ExprView::Variable(name)))))),
                _ => Got::Wrong(SyntaxError::ExpectedName, i + 1),
            },
            _ => Got::Read(left, i),
        }
        }),
        Rule::Postfix => of_expr({
        match as_expr(parse(toks, i, Rule::Primary)) {
            Got::Read(e, j) => if i < j <= toks.len() {
                as_expr(parse(toks, j, Rule::PostfixRest(e)))
            } else {
                Got::Wrong(SyntaxError::ExpectedExpression, j)
            },
            Got::Wrong(e, at) => Got::Wrong(e, at),
        }
        }),
        Rule::Unary => of_expr({
        if tok(toks, i) == Some(TokenView::Minus) || tok(toks, i) == Some(TokenView::Not) {
            match as_expr(parse(toks, i + 1, Rule::Unary)) {
                Got::Read(e, j) => Got::Read(ExprView::Unary(tok(toks, i)->0, Box::new(e)), j),
                Got::Wrong(e, at) => Got::Wrong(e, at),
            }
        } else {
            as_expr(parse(toks, i, Rule::Postfix))
        }
        }),
        Rule::Binary(level) => of_expr({
        if level < 0 || level >= 6 {
            as_expr(parse(toks, i, Rule::Unary))
        } else {
            match as_expr(parse(toks, i, Rule::Binary(level + 1))) {
                Got::Read(left, j) => if i < j <= toks.len() {
                    as_expr(parse(toks, j, Rule::BinaryRest(level, left)))
                } else {
                    Got::Wrong(SyntaxError::ExpectedExpression, j)
                },
                Got::Wrong(e, at) => Got::Wrong(e, at),
            }
        }
        }),
        Rule::BinaryRest(level, left) => of_expr({
        if 0 <= level < 6 && level_of(tok(toks, i)) == level {
            match as_expr(parse(toks, i + 1, Rule::Binary(level + 1))) {
                Got::Read(right, j) => if i < j <= toks.len() {
                    as_expr(parse(toks, j, Rule::BinaryRest(level, ExprView::Binary(Box::new(left), tok(toks, i)->0, Box::new(right)))))
                } else {
                    Got::Wrong(SyntaxError::ExpectedExpression, j)
                },
                Got::Wrong(e, at) => Got::Wrong(e, at),
            }
        } else {
            Got::Read(left, i)
        }
        }),
        Rule::Conditional => of_expr({
        match as_expr(parse(toks, i, Rule::Binary(0))) {
            Got::Read(c, j) => if tok(toks, j) == Some(TokenView::Question) && j >= i {
                match as_expr(parse(toks, j + 1, Rule::Assignment)) {
                    Got::Read(t, k) => if tok(toks, k) == Some(TokenView::Colon) && k >= i {
                        match as_expr(parse(toks, k + 1, Rule::Assignment)) {
                            Got::Read(f, m) => Got::Read(
                                ExprView::Ternary(Box::new(c), Box::new(t), Box::new(f)),
                                m,
                            ),
                            Got::Wrong(e, at) => Got::Wrong(e, at),
                        }
                    } else {
                        Got::Wrong(SyntaxError::ExpectedColonInTernary, k)
                    },
                    Got::Wrong(e, at) => Got::Wrong(e, at),
                }
            } else {
                Got::Read(c, j)
            },
            Got::Wrong(e, at) => Got::Wrong(e, at),
        }
        }),
        Rule::AssignOp => of_expr({
        match as_expr(parse(toks, i, Rule::Conditional)) {
            Got::Read(e, j) => if is_assign_op(tok(toks, j)) && j >= i {
                match as_expr(parse(toks, j + 1, Rule::Assignment)) {
                    Got::Read(v, k) => match e {
                        ExprView::Variable(name) => Got::Read(
                            ExprView::AssignByOp(name, tok(toks, j)->0, Box::new(v)),
                            k,
                        ),
                        _ => Got::Wrong(SyntaxError::InvalidAssignment, j),
                    },
                    Got::Wrong(e, at) => Got::Wrong(e, at),
                }
            } else {
                Got::Read(e, j)
            },
            Got::Wrong(e, at) => Got::Wrong(e, at),
        }
        }),
        Rule::Assignment => of_expr({
        match as_expr(parse(toks, i, Rule::AssignOp)) {
            Got::Read(e, j) => if tok(toks, j) == Some(TokenView::Equal) && j >= i {
                match as_expr(parse(toks, j + 1, Rule::Assignment)) {
                    Got::Read(v, k) => if e is Variable || e is StructCall {
                        Got::Read(ExprView::Assign(Box::new(e), Box::new(v)), k)
                    } else {
                        Got::Wrong(SyntaxError::InvalidAssignment, j)
                    },
                    Got::Wrong(e, at) => Got::Wrong(e, at),
                }
            } else {
                Got::Read(e, j)
            },
            Got::Wrong(e, at) => Got::Wrong(e, at),
        }
        }),
        Rule::Block(acc) => of_stmts({
        match tok(toks, i) {
            Some(TokenView::RightBrace) => Got::Read(acc, i + 1),
            None => Got::Wrong(SyntaxError::ExpectedRightBrace, i),
            _ => match as_stmt(parse(toks, i, Rule::Declaration)) {
                Got::Read(s, j) => if i < j <= toks.len() {
                    as_stmts(parse(toks, j, Rule::Block(acc.push(s))))
                } else {
                    Got::Wrong(SyntaxError::ExpectedRightBrace, j)
                },
                Got::Wrong(e, at) => Got::Wrong(e, at),
            },
        }
        }),
        Rule::VarDecl => of_stmt({
        match tok(toks, i) {
            Some(TokenView::Identifer(name)) => if tok(toks, i + 1) == Some(TokenView::Colon) {
                match type_of_token(tok(toks, i + 2)) {
                    Some(t) => if tok(toks, i + 3) == Some(TokenView::Equal) {
                        match as_expr(parse(toks, i + 4, Rule::Assignment)) {
                            Got::Read(e, j) => p_end(toks, j, StmtView::Declaration(name, t, e)),
                            Got::Wrong(e, at) => Got::Wrong(e, at),
                        }
                    } else {
                        p_end(
                            toks,
                            i + 3,
                            StmtView::Declaration(name, t, ExprView::Literal(ValueView::Nil)),
                        )
                    },
                    None => Got::Wrong(SyntaxError::ExpectedType, i + 2),
                }
            } else if tok(toks, i + 1) == Some(TokenView::Equal) {
                match as_expr(parse(toks, i + 2, Rule::Assignment)) {
                    Got::Read(e, j) => p_end(toks, j, StmtView::InferDeclaration(name, e)),
                    Got::Wrong(e, at) => Got::Wrong(e, at),
                }
            } else {
                p_end(toks, i + 1, StmtView::InferDeclaration(name, ExprView::Literal(ValueView::Nil)))
            },
            _ => Got::Wrong(SyntaxError::ExpectedVariableName, i),
        }
        }),
        Rule::FunctionBody(name, names, types) => of_stmt({
        let typed = tok(toks, i) == Some(TokenView::Colon);
        let t = if typed {
            type_of_token(tok(toks, i + 1))
        } else {
            Some(ClassTypeView::Any)
        };
        let j = if typed {
            i + 2
        } else {
            i
        };
        match t {
            Some(ret) => if tok(toks, j) == Some(TokenView::LeftBrace) {
                match as_stmts(parse(toks, j + 1, Rule::Block(Seq::empty()))) {
                    Got::Read(stmts, k) => Got::Read(
                        StmtView::Function(name, ret, names, types, ExprView::Block(stmts)),
                        k,
                    ),
                    Got::Wrong(e, at) => Got::Wrong(e, at),
                }
            } else {
                Got::Wrong(SyntaxError::ExpectedLeftBrace, j)
            },
            None => Got::Wrong(SyntaxError::ExpectedType, i + 1),
        }
        }),
        Rule::Function => of_stmt({
        match tok(toks, i) {
            Some(TokenView::Identifer(name)) => if tok(toks, i + 1) == Some(TokenView::LeftParen) {
                if tok(toks, i + 2) == Some(TokenView::RightParen) {
                    as_stmt(parse(toks, i + 3, Rule::FunctionBody(name, Seq::empty(), Seq::empty())))
                } else {
                    match p_params(toks, i + 2, Seq::empty(), Seq::empty()) {
                        Got::Read(ps, j) => if i < j <= toks.len() {
                            as_stmt(parse(toks, j, Rule::FunctionBody(name, ps.0, ps.1)))
                        } else {
                            Got::Wrong(SyntaxError::ExpectedRightParen, j)
                        },
                        Got::Wrong(e, at) => Got::Wrong(e, at),
                    }
                }
            } else {
                Got::Wrong(SyntaxError::ExpectedLeftParen, i + 1)
            },
            _ => Got::Wrong(SyntaxError::ExpectedFunctionName, i),
        }
        }),
        Rule::Braces => of_expr({
        if tok(toks, i) == Some(TokenView::LeftBrace) {
            match as_stmts(parse(toks, i + 1, Rule::Block(Seq::empty()))) {
                Got::Read(stmts, j) => Got::Read(ExprView::Block(stmts), j),
                Got::Wrong(e, at) => Got::Wrong(e, at),
            }
        } else {
            Got::Wrong(SyntaxError::ExpectedLeftBrace, i)
        }
        }),
        Rule::While => of_stmt({
        match as_expr(parse(toks, i, Rule::Assignment)) {
            Got::Read(c, j) => if i <= j <= toks.len() {
                match as_expr(parse(toks, j, Rule::Braces)) {
                    Got::Read(body, k) => Got::Read(StmtView::While(c, body), k),
                    Got::Wrong(e, at) => Got::Wrong(e, at),
                }
            } else {
                Got::Wrong(SyntaxError::ExpectedLeftBrace, j)
            },
            Got::Wrong(e, at) => Got::Wrong(e, at),
        }
        }),
        Rule::If => of_stmt({
        match as_expr(parse(toks, i, Rule::Assignment)) {
            Got::Read(c, j) => if i <= j <= toks.len() {
                match as_expr(parse(toks, j, Rule::Braces)) {
                    Got::Read(then, k) => if tok(toks, k) == Some(TokenView::Else) && k > i {
                        if tok(toks, k + 1) == Some(TokenView::If) {
                            match as_stmt(parse(toks, k + 2, Rule::If)) {
                                Got::Read(other, m) => Got::Read(
                                    StmtView::If(
                                        c,
                                        Box::new(StmtView::Expr(then)),
                                        Some(Box::new(other)),
                                    ),
                                    m,
                                ),
                                Got::Wrong(e, at) => Got::Wrong(e, at),
                            }
                        } else {
                            match as_expr(parse(toks, k + 1, Rule::Braces)) {
                                Got::Read(other, m) => Got::Read(
                                    StmtView::If(
                                        c,
                                        Box::new(StmtView::Expr(then)),
                                        Some(Box::new(StmtView::Expr(other))),
                                    ),
                                    m,
                                ),
                                Got::Wrong(e, at) => Got::Wrong(e, at),
                            }
                        }
                    } else {
                        Got::Read(StmtView::If(c, Box::new(StmtView::Expr(then)), None), k)
                    },
                    Got::Wrong(e, at) => Got::Wrong(e, at),
                }
            } else {
                Got::Wrong(SyntaxError::ExpectedLeftBrace, j)
            },
            Got::Wrong(e, at) => Got::Wrong(e, at),
        }
        }),
        Rule::Return => of_stmt({
        if tok(toks, i) == Some(TokenView::Semicolon) {
            Got::Read(StmtView::Return(None), i + 1)
        } else {
            match as_expr(parse(toks, i, Rule::Conditional)) {
                Got::Read(e, j) => p_end(toks, j, StmtView::Return(Some(e))),
                Got::Wrong(e, at) => Got::Wrong(e, at),
            }
        }
        }),
        Rule::Optional(stop) => of_expr({
        if tok(toks, i) == Some(stop) {
            Got::Read(ExprView::Nothing, i)
        } else {
            as_expr(parse(toks, i, Rule::Assignment))
        }
        }),
        Rule::ForRest(init, paren) => of_stmt({
        match as_expr(parse(toks, i, Rule::Optional(TokenView::Semicolon))) {
            Got::Read(cond, j) => if tok(toks, j) == Some(TokenView::Semicolon) && j >= i {
                match as_expr(parse(toks, j + 1, Rule::Optional(if paren {
                        TokenView::RightParen
                    } else {
                        TokenView::LeftBrace
                    }))) {
                    Got::Read(step, k) => if paren && tok(toks, k) != Some(TokenView::RightParen) {
                        Got::Wrong(SyntaxError::ExpectedRightParen, k)
                    } else if k >= i {
                        let b = if paren {
                            k + 1
                        } else {
                            k
                        };
                        if tok(toks, b) == Some(TokenView::LeftBrace) {
                            match as_stmts(parse(toks, b + 1, Rule::Block(Seq::empty()))) {
                                Got::Read(body, m) => Got::Read(for_loop(init, cond, step, body), m),
                                Got::Wrong(e, at) => Got::Wrong(e, at),
                            }
                        } else {
                            Got::Wrong(SyntaxError::ExpectedLeftBrace, b)
                        }
                    } else {
                        Got::Wrong(SyntaxError::ExpectedLeftBrace, k)
                    },
                    Got::Wrong(e, at) => Got::Wrong(e, at),
                }
            } else {
                Got::Wrong(SyntaxError::ExpectedSemicolon, j)
            },
            Got::Wrong(e, at) => Got::Wrong(e, at),
        }
        }),
        Rule::For => of_stmt({
        let paren = tok(toks, i) == Some(TokenView::LeftParen);
        let a = if paren {
            i + 1
        } else {
            i
        };
        if tok(toks, a) == Some(TokenView::Semicolon) {
            as_stmt(parse(toks, a + 1, Rule::ForRest(StmtView::Expr(ExprView::Nothing), paren)))
        } else {
            let b = if tok(toks, a) == Some(TokenView::Var) {
                a + 1
            } else {
                a
            };
            match as_stmt(parse(toks, b, Rule::VarDecl)) {
                Got::Read(init, j) => if i < j <= toks.len() {
                    as_stmt(parse(toks, j, Rule::ForRest(init, paren)))
                } else {
                    Got::Wrong(SyntaxError::ExpectedSemicolon, j)
                },
                Got::Wrong(e, at) => Got::Wrong(e, at),
            }
        }
        }),
        Rule::ExprStmt => of_stmt({
        match as_expr(parse(toks, i, Rule::Assignment)) {
            Got::Read(e, j) => if tok(toks, j) == Some(TokenView::Semicolon) {
                Got::Read(StmtView::Expr(e), j + 1)
            } else if tok(toks, j) == Some(TokenView::RightBrace) {
                Got::Read(StmtView::Expr(e), j)
            } else {
                Got::Wrong(SyntaxError::ExpectedSemicolon, j)
            },
            Got::Wrong(e, at) => Got::Wrong(e, at),
        }
        }),
        Rule::Statement => of_stmt({
        match tok(toks, i) {
            Some(TokenView::Func) => as_stmt(parse(toks, i + 1, Rule::Function)),
            Some(TokenView::While) => as_stmt(parse(toks, i + 1, Rule::While)),
            Some(TokenView::For) => as_stmt(parse(toks, i + 1, Rule::For)),
            Some(TokenView::If) => as_stmt(parse(toks, i + 1, Rule::If)),
            Some(TokenView::Return) => as_stmt(parse(toks, i + 1, Rule::Return)),
            Some(TokenView::Identifer(word)) => if word == "struct"@ && tok(toks, i + 1) is Some
                && tok(toks, i + 1)->0 is Identifer {
                if tok(toks, i + 2) == Some(TokenView::LeftBrace) {
                    match p_fields(toks, i + 3, Seq::empty()) {
                        Got::Read(fields, j) => Got::Read(
                            StmtView::Struct(tok(toks, i + 1)->0->Identifer_0, fields),
                            j,
                        ),
                        Got::Wrong(e, at) => Got::Wrong(e, at),
                    }
                } else {
                    Got::Wrong(SyntaxError::ExpectedLeftBrace, i + 2)
                }
            } else if word == "import"@ && tok(toks, i + 1) is Some && tok(toks, i + 1)->0 is Str {
                p_end(toks, i + 2, StmtView::Import(tok(toks, i + 1)->0->Str_0))
            } else if word == "quit"@ && tok(toks, i + 1) == Some(TokenView::Semicolon) {
                Got::Read(StmtView::Quit, i + 2)
            } else {
                as_stmt(parse(toks, i, Rule::ExprStmt))
            },
            _ => as_stmt(parse(toks, i, Rule::ExprStmt)),
        }
        }),
        Rule::Declaration => of_stmt({
        match tok(toks, i) {
            Some(TokenView::Var) => as_stmt(parse(toks, i + 1, Rule::VarDecl)),
            Some(TokenView::LeftBrace) => match as_stmts(parse(toks, i + 1, Rule::Block(Seq::empty()))) {
                Got::Read(stmts, j) => Got::Read(StmtView::Expr(ExprView::Block(stmts)), j),
                Got::Wrong(e, at) => Got::Wrong(e, at),
            },
            _ => as_stmt(parse(toks, i, Rule::Statement)),
        }
        }),
    }
}

/// `primary`: a literal, a name, `new T` or `new T(args)`, an expression
/// in parentheses, a block in braces, or a type word applied to an
/// expression.
pub open spec fn p_primary(toks: Seq<TokenView>, i: int) -> Got<ExprView> {
    as_expr(parse(toks, i, Rule::Primary))
}

/// The arguments of a call from `i`, after those in `acc`: expressions
/// separated by commas, then `)`.
pub open spec fn p_args(toks: Seq<TokenView>, i: int, acc: Seq<ExprView>) -> Got<Seq<ExprView>> {
    as_exprs(parse(toks, i, Rule::Args(acc)))
}

/// What follows a primary expression: calls `(args)` on a name and
/// field accesses `.name`, as many as there are, each applied to what
/// stands to its left.
pub open spec fn p_postfix_rest(toks: Seq<TokenView>, left: ExprView, i: int) -> Got<ExprView> {
    as_expr(parse(toks, i, Rule::PostfixRest(left)))
}

/// `postfix`: a primary expression and what follows it.
pub open spec fn p_postfix(toks: Seq<TokenView>, i: int) -> Got<ExprView> {
    as_expr(parse(toks, i, Rule::Postfix))
}

/// `unary`: `-` or `not` before a unary expression, or a postfix
/// expression.
pub open spec fn p_unary(toks: Seq<TokenView>, i: int) -> Got<ExprView> {
    as_expr(parse(toks, i, Rule::Unary))
}

/// A binary expression of the level `level` or a higher one; the
/// operators of one level associate to the left.
pub open spec fn p_binary(toks: Seq<TokenView>, level: int, i: int) -> Got<ExprView> {
    as_expr(parse(toks, i, Rule::Binary(level)))
}

/// The operators of the level `level` that follow `left`, each with
/// its right operand.
pub open spec fn p_binary_rest(toks: Seq<TokenView>, level: int, left: ExprView, i: int) -> Got<ExprView> {
    as_expr(parse(toks, i, Rule::BinaryRest(level, left)))
}

/// `conditional`: a binary expression, or `cond ? then : else`.
pub open spec fn p_conditional(toks: Seq<TokenView>, i: int) -> Got<ExprView> {
    as_expr(parse(toks, i, Rule::Conditional))
}

/// `compound`: a conditional expression, or `name op= value`.
pub open spec fn p_assign_op(toks: Seq<TokenView>, i: int) -> Got<ExprView> {
    as_expr(parse(toks, i, Rule::AssignOp))
}

/// `expression`: a compound expression, or `target = value`, where the
/// target is a name or a chain of field accesses.
pub open spec fn p_assignment(toks: Seq<TokenView>, i: int) -> Got<ExprView> {
    as_expr(parse(toks, i, Rule::Assignment))
}

/// The statements of a block from `i`, after those in `acc`, up to its
/// `}`.
pub open spec fn p_block(toks: Seq<TokenView>, i: int, acc: Seq<StmtView>) -> Got<Seq<StmtView>> {
    as_stmts(parse(toks, i, Rule::Block(acc)))
}

/// The declaration of a variable, from its name at `i`:
/// `name (: type)? (= expression)? ;`. Without `= expression` the
/// variable starts as `Nil`.
pub open spec fn p_var_decl(toks: Seq<TokenView>, i: int) -> Got<StmtView> {
    as_stmt(parse(toks, i, Rule::VarDecl))
}

/// The body of a function, from where its return type may stand:
/// `(: type)? { statements }`.
pub open spec fn p_function_body(toks: Seq<TokenView>, i: int, name: Seq<char>, names: Seq<Seq<char>>, types: Seq<ClassTypeView>) -> Got<StmtView> {
    as_stmt(parse(toks, i, Rule::FunctionBody(name, names, types)))
}

/// A function, from its name at `i`:
/// `name(parameters) (: type)? { statements }`.
pub open spec fn p_function(toks: Seq<TokenView>, i: int) -> Got<StmtView> {
    as_stmt(parse(toks, i, Rule::Function))
}

/// A block that must start at `i`: `{ statements }`.
pub open spec fn p_braces(toks: Seq<TokenView>, i: int) -> Got<ExprView> {
    as_expr(parse(toks, i, Rule::Braces))
}

/// `while`, from its condition at `i`: `condition { statements }`.
pub open spec fn p_while(toks: Seq<TokenView>, i: int) -> Got<StmtView> {
    as_stmt(parse(toks, i, Rule::While))
}

/// `if`, from its condition at `i`:
/// `condition { statements } (else if .. | else { statements })?`.
pub open spec fn p_if(toks: Seq<TokenView>, i: int) -> Got<StmtView> {
    as_stmt(parse(toks, i, Rule::If))
}

/// `return`, from what follows the word: `;` or `expression ;`.
pub open spec fn p_return(toks: Seq<TokenView>, i: int) -> Got<StmtView> {
    as_stmt(parse(toks, i, Rule::Return))
}

/// An optional expression that ends before the token `stop`: nothing
/// where `stop` stands at `i`.
pub open spec fn p_optional(toks: Seq<TokenView>, i: int, stop: TokenView) -> Got<ExprView> {
    as_expr(parse(toks, i, Rule::Optional(stop)))
}

/// The rest of `for` from its condition at `i`:
/// `condition? ; step? )? { statements }`; the `)` must stand if `(`
/// stood.
pub open spec fn p_for_rest(toks: Seq<TokenView>, i: int, init: StmtView, paren: bool) -> Got<StmtView> {
    as_stmt(parse(toks, i, Rule::ForRest(init, paren)))
}

/// `for`, from what follows the word:
/// `(? (var? declaration | ;) condition? ; step? )? { statements }`.
pub open spec fn p_for(toks: Seq<TokenView>, i: int) -> Got<StmtView> {
    as_stmt(parse(toks, i, Rule::For))
}

/// An expression as a statement: it ends in `;`, or stands last in its
/// block, just before the `}`.
pub open spec fn p_expr_stmt(toks: Seq<TokenView>, i: int) -> Got<StmtView> {
    as_stmt(parse(toks, i, Rule::ExprStmt))
}

/// A statement that starts with a word of its own: a function, a loop,
/// `if`, `return`, the declaration of a structure, an import, `quit`;
/// or an expression.
pub open spec fn p_statement(toks: Seq<TokenView>, i: int) -> Got<StmtView> {
    as_stmt(parse(toks, i, Rule::Statement))
}

/// A declaration: `var ..`, a block, or a statement.
pub open spec fn p_declaration(toks: Seq<TokenView>, i: int) -> Got<StmtView> {
    as_stmt(parse(toks, i, Rule::Declaration))
}

/// The views of a run of tokens.
pub open spec fn token_views(v: Seq<Token>) -> Seq<TokenView> {
    Seq::new(v.len(), |i: int| v[i]@)
}

/// The result of reading an expression, as a mathematical value.
pub open spec fn got_expr(r: Result<(AstExpr, usize), (SyntaxError, usize)>) -> Got<ExprView> {
    match r {
        Ok((e, j)) => Got::Read(e@, j as int),
        Err((k, at)) => Got::Wrong(k, at as int),
    }
}

/// The result of reading a statement, as a mathematical value.
pub open spec fn got_stmt(r: Result<(AstStmt, usize), (SyntaxError, usize)>) -> Got<StmtView> {
    match r {
        Ok((s, j)) => Got::Read(s@, j as int),
        Err((k, at)) => Got::Wrong(k, at as int),
    }
}

/// The result of reading expressions, as a mathematical value.
pub open spec fn got_exprs(r: Result<(Vec<AstExpr>, usize), (SyntaxError, usize)>) -> Got<
    Seq<ExprView>,
> {
    match r {
        Ok((v, j)) => Got::Read(expr_views(v@), j as int),
        Err((k, at)) => Got::Wrong(k, at as int),
    }
}

/// The result of reading statements, as a mathematical value.
pub open spec fn got_stmts(r: Result<(Vec<AstStmt>, usize), (SyntaxError, usize)>) -> Got<
    Seq<StmtView>,
> {
    match r {
        Ok((v, j)) => Got::Read(stmt_views(v@), j as int),
        Err((k, at)) => Got::Wrong(k, at as int),
    }
}

/// The result of reading names, as a mathematical value.
pub open spec fn got_names(r: Result<(Vec<String>, usize), (SyntaxError, usize)>) -> Got<
    Seq<Seq<char>>,
> {
    match r {
        Ok((v, j)) => Got::Read(crate::value::name_views(v@), j as int),
        Err((k, at)) => Got::Wrong(k, at as int),
    }
}

/// The result of reading parameters, as a mathematical value.
pub open spec fn got_params(
    r: Result<((Vec<String>, Vec<ClassType>), usize), (SyntaxError, usize)>,
) -> Got<(Seq<Seq<char>>, Seq<ClassTypeView>)> {
    match r {
        Ok((v, j)) => Got::Read(
            (crate::value::name_views(v.0@), crate::vm::type_views(v.1@)),
            j as int,
        ),
        Err((k, at)) => Got::Wrong(k, at as int),
    }
}

/// Whether a result reads on from `i` and stays inside the tokens.
pub open spec fn moves<T>(r: Result<(T, usize), (SyntaxError, usize)>, i: usize, len: nat) -> bool {
    match r {
        Ok((_, j)) => i < j <= len,
        Err((_, at)) => at <= len,
    }
}

fn at<'a>(toks: &'a Vec<Token>, i: usize) -> (r: Option<&'a Token>)
    ensures
        answer_token(r) == tok(token_views(toks@), i as int),
        r is Some <==> i < toks.len(),
        r is Some ==> *r->0 == toks@[i as int],
{
    if i < toks.len() {
        Some(&toks[i])
    } else {
        None
    }
}

/// A token that may be missing, as a mathematical value.
pub open spec fn answer_token(r: Option<&Token>) -> Option<TokenView> {
    match r {
        Some(t) => Some(t@),
        None => None,
    }
}

fn is_text(s: &String, word: &str) -> (b: bool)
    ensures
        b == (s@ == word@),
{
    let v = chars_of(s.as_str());
    assert(v@.subrange(0, v@.len() as int) =~= v@);
    range_is(&v, 0, v.len(), word)
}

fn level(t: Option<&Token>) -> (r: i8)
    ensures
        r == level_of(answer_token(t)),
{
    match t {
        Some(Token::CmpOr) => 0,
        Some(Token::CmpAnd) => 1,
        Some(Token::EqualEqual) => 2,
        Some(Token::NotEqual) => 2,
        Some(Token::Less) => 3,
        Some(Token::LessEqual) => 3,
        Some(Token::Greater) => 3,
        Some(Token::GreaterEqual) => 3,
        Some(Token::Minus) => 4,
        Some(Token::Plus) => 4,
        Some(Token::Star) => 5,
        Some(Token::Slash) => 5,
        _ => -1,
    }
}

fn type_named(t: Option<&Token>) -> (r: Option<ClassType>)
    ensures
        r is Some <==> type_of_token(answer_token(t)) is Some,
        r is Some ==> Some(r->0@) == type_of_token(answer_token(t)),
{
    match t {
        Some(Token::TypeBool) => Some(ClassType::Bool),
        Some(Token::TypeAny) => Some(ClassType::Any),
        Some(Token::TypeDecimal) => Some(ClassType::Decimal),
        Some(Token::TypeUint) => Some(ClassType::Uint),
        Some(Token::TypeInt) => Some(ClassType::Int),
        Some(Token::TypeString) => Some(ClassType::Str),
        Some(Token::Identifer(name)) => Some(ClassType::Struct(name.clone())),
        _ => None,
    }
}

fn type_word(t: Option<&Token>) -> (b: bool)
    ensures
        b == is_type_word(answer_token(t)),
{
    match t {
        Some(Token::TypeBool) => true,
        Some(Token::TypeAny) => true,
        Some(Token::TypeDecimal) => true,
        Some(Token::TypeUint) => true,
        Some(Token::TypeInt) => true,
        Some(Token::TypeString) => true,
        _ => false,
    }
}

fn is_tok(t: Option<&Token>, want: &Token) -> (b: bool)
    requires
        plain(want@),
    ensures
        b == (answer_token(t) == Some(want@)),
{
    match t {
        Some(x) => same_kind(x, want),
        None => false,
    }
}

/// The tokens that the parser asks for by equality: those that carry
/// nothing.
pub open spec fn plain(t: TokenView) -> bool {
    t is LeftParen || t is RightParen || t is LeftBrace || t is RightBrace || t is Comma || t is Dot
        || t is Semicolon || t is Colon || t is Equal || t is Question || t is Else || t is If
        || t is Var || t is Minus || t is Not || t is PlusEqual || t is MinusEqual || t is StarEqual
        || t is SlashEqual
}

fn same_kind(x: &Token, want: &Token) -> (b: bool)
    requires
        plain(want@),
    ensures
        b == (x@ == want@),
{
    match (x, want) {
        (Token::LeftParen, Token::LeftParen) => true,
        (Token::RightParen, Token::RightParen) => true,
        (Token::LeftBrace, Token::LeftBrace) => true,
        (Token::RightBrace, Token::RightBrace) => true,
        (Token::Comma, Token::Comma) => true,
        (Token::Dot, Token::Dot) => true,
        (Token::Semicolon, Token::Semicolon) => true,
        (Token::Colon, Token::Colon) => true,
        (Token::Equal, Token::Equal) => true,
        (Token::Question, Token::Question) => true,
        (Token::Else, Token::Else) => true,
        (Token::If, Token::If) => true,
        (Token::Var, Token::Var) => true,
        (Token::Minus, Token::Minus) => true,
        (Token::Not, Token::Not) => true,
        (Token::PlusEqual, Token::PlusEqual) => true,
        (Token::MinusEqual, Token::MinusEqual) => true,
        (Token::StarEqual, Token::StarEqual) => true,
        (Token::SlashEqual, Token::SlashEqual) => true,
        _ => false,
    }
}

fn end_of<T>(toks: &Vec<Token>, i: usize, item: T) -> (r: Result<(T, usize), (SyntaxError, usize)>)
    requires
        i <= toks.len(),
    ensures
        match p_end(token_views(toks@), i as int, item) {
            Got::Read(x, j) => r == Ok::<(T, usize), (SyntaxError, usize)>((x, j as usize)) && j
                == i + 1 && i < toks.len(),
            Got::Wrong(k, at) => r == Err::<(T, usize), (SyntaxError, usize)>((k, at as usize))
                && at == i,
        },
{
    if is_tok(at(toks, i), &Token::Semicolon) {
        Ok((item, i + 1))
    } else {
        Err((SyntaxError::ExpectedSemicolon, i))
    }
}

fn primary(toks: &Vec<Token>, i: usize) -> (r: Result<(AstExpr, usize), (SyntaxError, usize)>)
    requires
        i <= toks.len(),
    ensures
        got_expr(r) == p_primary(token_views(toks@), i as int),
        moves(r, i, toks@.len()),
    decreases toks.len() - i, 1int,
{
    match at(toks, i) {
        Some(Token::CmpTrue) => Ok((AstExpr::Literal(Value::Bool(true)), i + 1)),
        Some(Token::CmpFalse) => Ok((AstExpr::Literal(Value::Bool(false)), i + 1)),
        Some(Token::Int(x)) => Ok((AstExpr::Literal(Value::Int(*x)), i + 1)),
        Some(Token::Uint(x)) => Ok((AstExpr::Literal(Value::Uint(*x)), i + 1)),
        Some(Token::Decimal(t)) => Ok((AstExpr::Literal(Value::Decimal(t.clone())), i + 1)),
        Some(Token::Str(t)) => Ok((AstExpr::Literal(Value::Str(t.clone())), i + 1)),
        Some(Token::Identifer(name)) => {
            let made = match at(toks, i + 1) {
                Some(Token::Identifer(m)) => if is_text(name, "new") {
                    Some(m)
                } else {
                    None
                },
                _ => None,
            };
            match made {
                Some(m) => {
                    if is_tok(at(toks, i + 2), &Token::LeftParen) {
                        if is_tok(at(toks, i + 3), &Token::RightParen) {
                            let none: Vec<AstExpr> = Vec::new();
                            proof {
                                lemma_call_view(*m, none);
                                assert(expr_views(none@) =~= Seq::empty());
                            }
                            Ok((AstExpr::NewCall(m.clone(), none), i + 4))
                        } else {
                            let none: Vec<AstExpr> = Vec::new();
                            assert(expr_views(none@) =~= Seq::empty());
                            match args(toks, i + 3, none) {
                                Ok((list, j)) => {
                                    proof {
                                        lemma_call_view(*m, list);
                                    }
                                    Ok((AstExpr::NewCall(m.clone(), list), j))
                                },
                                Err(e) => Err(e),
                            }
                        }
                    } else {
                        Ok((AstExpr::New(m.clone()), i + 2))
                    }
                },
                None => Ok((AstExpr::Variable(name.clone()), i + 1)),
            }
        },
        Some(Token::LeftParen) => match assignment(toks, i + 1) {
            Ok((e, j)) => if is_tok(at(toks, j), &Token::RightParen) {
                Ok((AstExpr::Group(Box::new(e)), j + 1))
            } else {
                Err((SyntaxError::ExpectedRightParen, j))
            },
            Err(e) => Err(e),
        },
        Some(Token::LeftBrace) => {
            let none: Vec<AstStmt> = Vec::new();
            assert(stmt_views(none@) =~= Seq::empty());
            match block(toks, i + 1, none) {
                Ok((stmts, j)) => {
                    proof {
                        lemma_block_view(stmts);
                    }
                    Ok((AstExpr::Block(stmts), j))
                },
                Err(e) => Err(e),
            }
        },
        Some(t) => if type_word(Some(t)) && is_tok(at(toks, i + 1), &Token::LeftParen) {
            match assignment(toks, i + 2) {
                Ok((e, j)) => if is_tok(at(toks, j), &Token::RightParen) {
                    Ok((AstExpr::TypeCall(t.clone(), Box::new(e)), j + 1))
                } else {
                    Err((SyntaxError::ExpectedRightParen, j))
                },
                Err(e) => Err(e),
            }
        } else {
            Err((SyntaxError::ExpectedExpression, i))
        },
        None => Err((SyntaxError::ExpectedExpression, i)),
    }
}

fn args(toks: &Vec<Token>, i: usize, acc: Vec<AstExpr>) -> (r: Result<
    (Vec<AstExpr>, usize),
    (SyntaxError, usize),
>)
    requires
        i <= toks.len(),
    ensures
        got_exprs(r) == p_args(token_views(toks@), i as int, expr_views(acc@)),
        moves(r, i, toks@.len()),
    decreases toks.len() - i, 21int,
{
    if acc.len() >= ARGUMENT_LIMIT {
        return Err((SyntaxError::TooManyArguments, i));
    }
    match assignment(toks, i) {
        Ok((e, j)) => {
            let mut acc = acc;
            proof {
                lemma_expr_views_push(acc@, e);
            }
            if is_tok(at(toks, j), &Token::Comma) {
                acc.push(e);
                args(toks, j + 1, acc)
            } else if is_tok(at(toks, j), &Token::RightParen) {
                acc.push(e);
                Ok((acc, j + 1))
            } else {
                Err((SyntaxError::ExpectedRightParen, j))
            }
        },
        Err(e) => Err(e),
    }
}

fn postfix_rest(toks: &Vec<Token>, left: AstExpr, i: usize) -> (r: Result<
    (AstExpr, usize),
    (SyntaxError, usize),
>)
    requires
        i <= toks.len(),
    ensures
        got_expr(r) == p_postfix_rest(token_views(toks@), left@, i as int),
        r is Ok ==> i <= r->Ok_0.1 <= toks@.len(),
        r is Err ==> r->Err_0.1 <= toks@.len(),
    decreases toks.len() - i, 0int,
{
    match at(toks, i) {
        Some(Token::LeftParen) => match left {
            AstExpr::Variable(name) => {
                if is_tok(at(toks, i + 1), &Token::RightParen) {
                    let none: Vec<AstExpr> = Vec::new();
                    proof {
                        lemma_call_view(name, none);
                        assert(expr_views(none@) =~= Seq::empty());
                    }
                    postfix_rest(toks, AstExpr::Call(name, none), i + 2)
                } else {
                    let none: Vec<AstExpr> = Vec::new();
                    assert(expr_views(none@) =~= Seq::empty());
                    match args(toks, i + 1, none) {
                        Ok((list, j)) => {
                            proof {
                                lemma_call_view(name, list);
                            }
                            postfix_rest(toks, AstExpr::Call(name, list), j)
                        },
                        Err(e) => Err(e),
                    }
                }
            },
            _ => Err((SyntaxError::ExpectedCallee, i)),
        },
        Some(Token::Dot) => match at(toks, i + 1) {
            Some(Token::Identifer(name)) => {
                let field = AstExpr::Variable(name.clone());
                assert(field@ == ExprView::Variable(name@));
                postfix_rest(toks, AstExpr::StructCall(Box::new(left), Box::new(field)), i + 2)
            },
            _ => Err((SyntaxError::ExpectedName, i + 1)),
        },
        _ => Ok((left, i)),
    }
}

fn postfix(toks: &Vec<Token>, i: usize) -> (r: Result<(AstExpr, usize), (SyntaxError, usize)>)
    requires
        i <= toks.len(),
    ensures
        got_expr(r) == p_postfix(token_views(toks@), i as int),
        moves(r, i, toks@.len()),
    decreases toks.len() - i, 2int,
{
    match primary(toks, i) {
        Ok((e, j)) => postfix_rest(toks, e, j),
        Err(e) => Err(e),
    }
}

fn unary(toks: &Vec<Token>, i: usize) -> (r: Result<(AstExpr, usize), (SyntaxError, usize)>)
    requires
        i <= toks.len(),
    ensures
        got_expr(r) == p_unary(token_views(toks@), i as int),
        moves(r, i, toks@.len()),
    decreases toks.len() - i, 3int,
{
    if is_tok(at(toks, i), &Token::Minus) || is_tok(at(toks, i), &Token::Not) {
        match unary(toks, i + 1) {
            Ok((e, j)) => Ok((AstExpr::Unary(toks[i].clone(), Box::new(e)), j)),
            Err(e) => Err(e),
        }
    } else {
        postfix(toks, i)
    }
}

fn binary(toks: &Vec<Token>, lv: i8, i: usize) -> (r: Result<
    (AstExpr, usize),
    (SyntaxError, usize),
>)
    requires
        i <= toks.len(),
    ensures
        got_expr(r) == p_binary(token_views(toks@), lv as int, i as int),
        moves(r, i, toks@.len()),
    decreases toks.len() - i, (if 0 <= lv < 6 {
        16 - 2 * lv
    } else {
        4
    }),
{
    if lv < 0 || lv >= 6 {
        unary(toks, i)
    } else {
        match binary(toks, lv + 1, i) {
            Ok((left, j)) => binary_rest(toks, lv, left, j),
            Err(e) => Err(e),
        }
    }
}

fn binary_rest(toks: &Vec<Token>, lv: i8, left: AstExpr, i: usize) -> (r: Result<
    (AstExpr, usize),
    (SyntaxError, usize),
>)
    requires
        i <= toks.len(),
    ensures
        got_expr(r) == p_binary_rest(token_views(toks@), lv as int, left@, i as int),
        r is Ok ==> i <= r->Ok_0.1 <= toks@.len(),
        r is Err ==> r->Err_0.1 <= toks@.len(),
    decreases toks.len() - i, 0int,
{
    if 0 <= lv && lv < 6 && level(at(toks, i)) == lv {
        match binary(toks, lv + 1, i + 1) {
            Ok((right, j)) => binary_rest(
                toks,
                lv,
                AstExpr::Binary(Box::new(left), toks[i].clone(), Box::new(right)),
                j,
            ),
            Err(e) => Err(e),
        }
    } else {
        Ok((left, i))
    }
}

fn conditional(toks: &Vec<Token>, i: usize) -> (r: Result<(AstExpr, usize), (SyntaxError, usize)>)
    requires
        i <= toks.len(),
    ensures
        got_expr(r) == p_conditional(token_views(toks@), i as int),
        moves(r, i, toks@.len()),
    decreases toks.len() - i, 18int,
{
    match binary(toks, 0, i) {
        Ok((c, j)) => if is_tok(at(toks, j), &Token::Question) {
            match assignment(toks, j + 1) {
                Ok((t, k)) => if is_tok(at(toks, k), &Token::Colon) {
                    match assignment(toks, k + 1) {
                        Ok((f, m)) => Ok(
                            (AstExpr::Ternary(Box::new(c), Box::new(t), Box::new(f)), m),
                        ),
                        Err(e) => Err(e),
                    }
                } else {
                    Err((SyntaxError::ExpectedColonInTernary, k))
                },
                Err(e) => Err(e),
            }
        } else {
            Ok((c, j))
        },
        Err(e) => Err(e),
    }
}

fn assign_op_token(t: Option<&Token>) -> (b: bool)
    ensures
        b == is_assign_op(answer_token(t)),
{
    match t {
        Some(Token::PlusEqual) => true,
        Some(Token::MinusEqual) => true,
        Some(Token::StarEqual) => true,
        Some(Token::SlashEqual) => true,
        _ => false,
    }
}

fn assign_op(toks: &Vec<Token>, i: usize) -> (r: Result<(AstExpr, usize), (SyntaxError, usize)>)
    requires
        i <= toks.len(),
    ensures
        got_expr(r) == p_assign_op(token_views(toks@), i as int),
        moves(r, i, toks@.len()),
    decreases toks.len() - i, 19int,
{
    match conditional(toks, i) {
        Ok((e, j)) => if assign_op_token(at(toks, j)) {
            match assignment(toks, j + 1) {
                Ok((v, k)) => match e {
                    AstExpr::Variable(name) => Ok(
                        (AstExpr::AssignByOp(name, toks[j].clone(), Box::new(v)), k),
                    ),
                    _ => Err((SyntaxError::InvalidAssignment, j)),
                },
                Err(e) => Err(e),
            }
        } else {
            Ok((e, j))
        },
        Err(e) => Err(e),
    }
}

fn assignment(toks: &Vec<Token>, i: usize) -> (r: Result<(AstExpr, usize), (SyntaxError, usize)>)
    requires
        i <= toks.len(),
    ensures
        got_expr(r) == p_assignment(token_views(toks@), i as int),
        moves(r, i, toks@.len()),
    decreases toks.len() - i, 20int,
{
    match assign_op(toks, i) {
        Ok((e, j)) => if is_tok(at(toks, j), &Token::Equal) {
            match assignment(toks, j + 1) {
                Ok((v, k)) => {
                    let target = match &e {
                        AstExpr::Variable(_) => true,
                        AstExpr::StructCall(_, _) => true,
                        _ => false,
                    };
                    if target {
                        Ok((AstExpr::Assign(Box::new(e), Box::new(v)), k))
                    } else {
                        Err((SyntaxError::InvalidAssignment, j))
                    }
                },
                Err(e) => Err(e),
            }
        } else {
            Ok((e, j))
        },
        Err(e) => Err(e),
    }
}

fn block(toks: &Vec<Token>, i: usize, acc: Vec<AstStmt>) -> (r: Result<
    (Vec<AstStmt>, usize),
    (SyntaxError, usize),
>)
    requires
        i <= toks.len(),
    ensures
        got_stmts(r) == p_block(token_views(toks@), i as int, stmt_views(acc@)),
        moves(r, i, toks@.len()),
    decreases toks.len() - i, 31int,
{
    match at(toks, i) {
        Some(Token::RightBrace) => Ok((acc, i + 1)),
        None => Err((SyntaxError::ExpectedRightBrace, i)),
        _ => match declaration(toks, i) {
            Ok((s, j)) => {
                let mut acc = acc;
                proof {
                    lemma_stmt_views_push(acc@, s);
                }
                acc.push(s);
                block(toks, j, acc)
            },
            Err(e) => Err(e),
        },
    }
}

fn var_decl(toks: &Vec<Token>, i: usize) -> (r: Result<(AstStmt, usize), (SyntaxError, usize)>)
    requires
        i <= toks.len(),
    ensures
        got_stmt(r) == p_var_decl(token_views(toks@), i as int),
        moves(r, i, toks@.len()),
    decreases toks.len() - i, 22int,
{
    match at(toks, i) {
        Some(Token::Identifer(name)) => {
            if is_tok(at(toks, i + 1), &Token::Colon) {
                match type_named(at(toks, i + 2)) {
                    Some(t) => if is_tok(at(toks, i + 3), &Token::Equal) {
                        match assignment(toks, i + 4) {
                            Ok((e, j)) => end_of(
                                toks,
                                j,
                                AstStmt::Declaration(name.clone(), t, e),
                            ),
                            Err(e) => Err(e),
                        }
                    } else {
                        let nil = AstExpr::Literal(Value::Nil);
                        assert(nil@ == ExprView::Literal(ValueView::Nil));
                        end_of(toks, i + 3, AstStmt::Declaration(name.clone(), t, nil))
                    },
                    None => Err((SyntaxError::ExpectedType, i + 2)),
                }
            } else if is_tok(at(toks, i + 1), &Token::Equal) {
                match assignment(toks, i + 2) {
                    Ok((e, j)) => end_of(toks, j, AstStmt::InferDeclaration(name.clone(), e)),
                    Err(e) => Err(e),
                }
            } else {
                let nil = AstExpr::Literal(Value::Nil);
                assert(nil@ == ExprView::Literal(ValueView::Nil));
                end_of(toks, i + 1, AstStmt::InferDeclaration(name.clone(), nil))
            }
        },
        _ => Err((SyntaxError::ExpectedVariableName, i)),
    }
}

fn params(toks: &Vec<Token>, i: usize, names: Vec<String>, types: Vec<ClassType>) -> (r: Result<
    ((Vec<String>, Vec<ClassType>), usize),
    (SyntaxError, usize),
>)
    requires
        i <= toks.len(),
    ensures
        got_params(r) == p_params(
            token_views(toks@),
            i as int,
            crate::value::name_views(names@),
            crate::vm::type_views(types@),
        ),
        moves(r, i, toks@.len()),
    decreases toks.len() - i,
{
    if names.len() >= ARGUMENT_LIMIT {
        return Err((SyntaxError::TooManyParameters, i));
    }
    match at(toks, i) {
        Some(Token::Identifer(name)) => {
            if is_tok(at(toks, i + 1), &Token::Colon) {
                match type_named(at(toks, i + 2)) {
                    Some(t) => {
                        let mut names = names;
                        let mut types = types;
                        proof {
                            crate::value::lemma_name_views_push(names@, *name);
                            crate::vm::lemma_type_views_push(types@, t);
                        }
                        if is_tok(at(toks, i + 3), &Token::Comma) {
                            names.push(name.clone());
                            types.push(t);
                            params(toks, i + 4, names, types)
                        } else if is_tok(at(toks, i + 3), &Token::RightParen) {
                            names.push(name.clone());
                            types.push(t);
                            Ok(((names, types), i + 4))
                        } else {
                            Err((SyntaxError::ExpectedRightParen, i + 3))
                        }
                    },
                    None => Err((SyntaxError::ExpectedType, i + 2)),
                }
            } else {
                Err((SyntaxError::ExpectedColon, i + 1))
            }
        },
        _ => Err((SyntaxError::ExpectedParameter, i)),
    }
}

fn function_body(
    toks: &Vec<Token>,
    i: usize,
    name: String,
    names: Vec<String>,
    types: Vec<ClassType>,
) -> (r: Result<(AstStmt, usize), (SyntaxError, usize)>)
    requires
        i <= toks.len(),
    ensures
        got_stmt(r) == p_function_body(
            token_views(toks@),
            i as int,
            name@,
            crate::value::name_views(names@),
            crate::vm::type_views(types@),
        ),
        moves(r, i, toks@.len()),
    decreases toks.len() - i, 0int,
{
    let typed = is_tok(at(toks, i), &Token::Colon);
    let t = if typed {
        type_named(at(toks, i + 1))
    } else {
        Some(ClassType::Any)
    };
    match t {
        Some(ret) => {
            let j = if typed {
                i + 2
            } else {
                i
            };
            if is_tok(at(toks, j), &Token::LeftBrace) {
                let none: Vec<AstStmt> = Vec::new();
                assert(stmt_views(none@) =~= Seq::empty());
                match block(toks, j + 1, none) {
                    Ok((stmts, k)) => {
                        proof {
                            lemma_block_view(stmts);
                        }
                        Ok((AstStmt::Function(name, ret, names, types, AstExpr::Block(stmts)), k))
                    },
                    Err(e) => Err(e),
                }
            } else {
                Err((SyntaxError::ExpectedLeftBrace, j))
            }
        },
        None => Err((SyntaxError::ExpectedType, i + 1)),
    }
}

fn function(toks: &Vec<Token>, i: usize) -> (r: Result<(AstStmt, usize), (SyntaxError, usize)>)
    requires
        i <= toks.len(),
    ensures
        got_stmt(r) == p_function(token_views(toks@), i as int),
        moves(r, i, toks@.len()),
    decreases toks.len() - i, 1int,
{
    match at(toks, i) {
        Some(Token::Identifer(name)) => {
            if is_tok(at(toks, i + 1), &Token::LeftParen) {
                let names: Vec<String> = Vec::new();
                let types: Vec<ClassType> = Vec::new();
                assert(crate::value::name_views(names@) =~= Seq::empty());
                assert(crate::vm::type_views(types@) =~= Seq::empty());
                if is_tok(at(toks, i + 2), &Token::RightParen) {
                    function_body(toks, i + 3, name.clone(), names, types)
                } else {
                    match params(toks, i + 2, names, types) {
                        Ok((ps, j)) => function_body(toks, j, name.clone(), ps.0, ps.1),
                        Err(e) => Err(e),
                    }
                }
            } else {
                Err((SyntaxError::ExpectedLeftParen, i + 1))
            }
        },
        _ => Err((SyntaxError::ExpectedFunctionName, i)),
    }
}

fn braces(toks: &Vec<Token>, i: usize) -> (r: Result<(AstExpr, usize), (SyntaxError, usize)>)
    requires
        i <= toks.len(),
    ensures
        got_expr(r) == p_braces(token_views(toks@), i as int),
        moves(r, i, toks@.len()),
    decreases toks.len() - i, 0int,
{
    if is_tok(at(toks, i), &Token::LeftBrace) {
        let none: Vec<AstStmt> = Vec::new();
        assert(stmt_views(none@) =~= Seq::empty());
        match block(toks, i + 1, none) {
            Ok((stmts, j)) => {
                proof {
                    lemma_block_view(stmts);
                }
                Ok((AstExpr::Block(stmts), j))
            },
            Err(e) => Err(e),
        }
    } else {
        Err((SyntaxError::ExpectedLeftBrace, i))
    }
}

fn while_loop(toks: &Vec<Token>, i: usize) -> (r: Result<(AstStmt, usize), (SyntaxError, usize)>)
    requires
        i <= toks.len(),
    ensures
        got_stmt(r) == p_while(token_views(toks@), i as int),
        moves(r, i, toks@.len()),
    decreases toks.len() - i, 21int,
{
    match assignment(toks, i) {
        Ok((c, j)) => match braces(toks, j) {
            Ok((body, k)) => Ok((AstStmt::While(c, body), k)),
            Err(e) => Err(e),
        },
        Err(e) => Err(e),
    }
}

fn if_else(toks: &Vec<Token>, i: usize) -> (r: Result<(AstStmt, usize), (SyntaxError, usize)>)
    requires
        i <= toks.len(),
    ensures
        got_stmt(r) == p_if(token_views(toks@), i as int),
        moves(r, i, toks@.len()),
    decreases toks.len() - i, 21int,
{
    match assignment(toks, i) {
        Ok((c, j)) => match braces(toks, j) {
            Ok((then, k)) => {
                let ghost then_view = then@;
                let first = AstStmt::Expr(then);
                assert(first@ == StmtView::Expr(then_view));
                if is_tok(at(toks, k), &Token::Else) {
                    if is_tok(at(toks, k + 1), &Token::If) {
                        match if_else(toks, k + 2) {
                            Ok((other, m)) => Ok(
                                (AstStmt::If(c, Box::new(first), Some(Box::new(other))), m),
                            ),
                            Err(e) => Err(e),
                        }
                    } else {
                        match braces(toks, k + 1) {
                            Ok((other, m)) => {
                                let ghost other_view = other@;
                                let second = AstStmt::Expr(other);
                                assert(second@ == StmtView::Expr(other_view));
                                Ok((AstStmt::If(c, Box::new(first), Some(Box::new(second))), m))
                            },
                            Err(e) => Err(e),
                        }
                    }
                } else {
                    Ok((AstStmt::If(c, Box::new(first), None), k))
                }
            },
            Err(e) => Err(e),
        },
        Err(e) => Err(e),
    }
}

fn return_stmt(toks: &Vec<Token>, i: usize) -> (r: Result<(AstStmt, usize), (SyntaxError, usize)>)
    requires
        i <= toks.len(),
    ensures
        got_stmt(r) == p_return(token_views(toks@), i as int),
        moves(r, i, toks@.len()),
    decreases toks.len() - i, 21int,
{
    if is_tok(at(toks, i), &Token::Semicolon) {
        Ok((AstStmt::Return(None), i + 1))
    } else {
        match conditional(toks, i) {
            Ok((e, j)) => end_of(toks, j, AstStmt::Return(Some(e))),
            Err(e) => Err(e),
        }
    }
}

fn optional(toks: &Vec<Token>, i: usize, stop: &Token) -> (r: Result<
    (AstExpr, usize),
    (SyntaxError, usize),
>)
    requires
        i <= toks.len(),
        plain(stop@),
    ensures
        got_expr(r) == p_optional(token_views(toks@), i as int, stop@),
        r is Ok ==> i <= r->Ok_0.1 <= toks@.len(),
        r is Err ==> r->Err_0.1 <= toks@.len(),
    decreases toks.len() - i, 21int,
{
    if is_tok(at(toks, i), stop) {
        Ok((AstExpr::Nothing, i))
    } else {
        assignment(toks, i)
    }
}

fn desugar(init: AstStmt, cond: AstExpr, step: AstExpr, body: Vec<AstStmt>) -> (r: AstStmt)
    ensures
        r@ == for_loop(init@, cond@, step@, stmt_views(body@)),
{
    let ghost body_views = stmt_views(body@);
    let ghost step_view = step@;
    let ghost cond_view = cond@;
    let ghost init_view = init@;
    let mut body = body;
    let last = AstStmt::Expr(step);
    assert(last@ == StmtView::Expr(step_view));
    proof {
        lemma_stmt_views_push(body@, last);
    }
    body.push(last);
    proof {
        lemma_block_view(body);
    }
    let inner = AstExpr::Block(body);
    assert(inner@ == ExprView::Block(body_views.push(StmtView::Expr(step_view))));
    let looped = AstStmt::While(cond, inner);
    assert(looped@ == StmtView::While(cond_view, inner@));
    let mut outer: Vec<AstStmt> = Vec::new();
    outer.push(init);
    outer.push(looped);
    proof {
        lemma_block_view(outer);
        assert(stmt_views(outer@) =~= seq![init_view, looped@]);
    }
    let whole = AstExpr::Block(outer);
    assert(whole@ == ExprView::Block(seq![init_view, looped@]));
    let r = AstStmt::Expr(whole);
    assert(r@ == StmtView::Expr(whole@));
    r
}

fn for_rest(toks: &Vec<Token>, i: usize, init: AstStmt, paren: bool) -> (r: Result<
    (AstStmt, usize),
    (SyntaxError, usize),
>)
    requires
        i <= toks.len(),
    ensures
        got_stmt(r) == p_for_rest(token_views(toks@), i as int, init@, paren),
        moves(r, i, toks@.len()),
    decreases toks.len() - i, 22int,
{
    match optional(toks, i, &Token::Semicolon) {
        Ok((cond, j)) => {
            if !is_tok(at(toks, j), &Token::Semicolon) {
                return Err((SyntaxError::ExpectedSemicolon, j));
            }
            let stop = if paren {
                Token::RightParen
            } else {
                Token::LeftBrace
            };
            match optional(toks, j + 1, &stop) {
                Ok((step, k)) => {
                    if paren && !is_tok(at(toks, k), &Token::RightParen) {
                        return Err((SyntaxError::ExpectedRightParen, k));
                    }
                    let b = if paren {
                        k + 1
                    } else {
                        k
                    };
                    if !is_tok(at(toks, b), &Token::LeftBrace) {
                        return Err((SyntaxError::ExpectedLeftBrace, b));
                    }
                    let none: Vec<AstStmt> = Vec::new();
                    assert(stmt_views(none@) =~= Seq::empty());
                    match block(toks, b + 1, none) {
                        Ok((body, m)) => Ok((desugar(init, cond, step, body), m)),
                        Err(e) => Err(e),
                    }
                },
                Err(e) => Err(e),
            }
        },
        Err(e) => Err(e),
    }
}

fn for_loop_stmt(toks: &Vec<Token>, i: usize) -> (r: Result<(AstStmt, usize), (SyntaxError, usize)>)
    requires
        i <= toks.len(),
    ensures
        got_stmt(r) == p_for(token_views(toks@), i as int),
        moves(r, i, toks@.len()),
    decreases toks.len() - i, 23int,
{
    let paren = is_tok(at(toks, i), &Token::LeftParen);
    let a = if paren {
        i + 1
    } else {
        i
    };
    if is_tok(at(toks, a), &Token::Semicolon) {
        let empty = AstExpr::Nothing;
        assert(empty@ == ExprView::Nothing);
        let nothing = AstStmt::Expr(empty);
        assert(nothing@ == StmtView::Expr(ExprView::Nothing));
        for_rest(toks, a + 1, nothing, paren)
    } else {
        let b = if is_tok(at(toks, a), &Token::Var) {
            a + 1
        } else {
            a
        };
        match var_decl(toks, b) {
            Ok((init, j)) => for_rest(toks, j, init, paren),
            Err(e) => Err(e),
        }
    }
}

fn fields(toks: &Vec<Token>, i: usize, acc: Vec<String>) -> (r: Result<
    (Vec<String>, usize),
    (SyntaxError, usize),
>)
    requires
        i <= toks.len(),
    ensures
        got_names(r) == p_fields(token_views(toks@), i as int, crate::value::name_views(acc@)),
        moves(r, i, toks@.len()),
    decreases toks.len() - i,
{
    match at(toks, i) {
        Some(Token::RightBrace) => Ok((acc, i + 1)),
        Some(Token::Identifer(name)) => {
            if is_tok(at(toks, i + 1), &Token::Semicolon) {
                let mut acc = acc;
                proof {
                    crate::value::lemma_name_views_push(acc@, *name);
                }
                acc.push(name.clone());
                fields(toks, i + 2, acc)
            } else {
                Err((SyntaxError::ExpectedSemicolon, i + 1))
            }
        },
        _ => Err((SyntaxError::ExpectedFieldName, i)),
    }
}

fn expr_stmt(toks: &Vec<Token>, i: usize) -> (r: Result<(AstStmt, usize), (SyntaxError, usize)>)
    requires
        i <= toks.len(),
    ensures
        got_stmt(r) == p_expr_stmt(token_views(toks@), i as int),
        moves(r, i, toks@.len()),
    decreases toks.len() - i, 28int,
{
    match assignment(toks, i) {
        Ok((e, j)) => if is_tok(at(toks, j), &Token::Semicolon) {
            Ok((AstStmt::Expr(e), j + 1))
        } else if is_tok(at(toks, j), &Token::RightBrace) {
            Ok((AstStmt::Expr(e), j))
        } else {
            Err((SyntaxError::ExpectedSemicolon, j))
        },
        Err(e) => Err(e),
    }
}

fn statement(toks: &Vec<Token>, i: usize) -> (r: Result<(AstStmt, usize), (SyntaxError, usize)>)
    requires
        i <= toks.len(),
    ensures
        got_stmt(r) == p_statement(token_views(toks@), i as int),
        moves(r, i, toks@.len()),
    decreases toks.len() - i, 29int,
{
    match at(toks, i) {
        Some(Token::Func) => function(toks, i + 1),
        Some(Token::While) => while_loop(toks, i + 1),
        Some(Token::For) => for_loop_stmt(toks, i + 1),
        Some(Token::If) => if_else(toks, i + 1),
        Some(Token::Return) => return_stmt(toks, i + 1),
        Some(Token::Identifer(word)) => {
            match at(toks, i + 1) {
                Some(Token::Identifer(name)) => {
                    if is_text(word, "struct") {
                        if is_tok(at(toks, i + 2), &Token::LeftBrace) {
                            let none: Vec<String> = Vec::new();
                            assert(crate::value::name_views(none@) =~= Seq::empty());
                            return match fields(toks, i + 3, none) {
                                Ok((list, j)) => Ok((AstStmt::Struct(name.clone(), list), j)),
                                Err(e) => Err(e),
                            };
                        } else {
                            return Err((SyntaxError::ExpectedLeftBrace, i + 2));
                        }
                    }
                },
                Some(Token::Str(path)) => {
                    if is_text(word, "import") {
                        return end_of(toks, i + 2, AstStmt::Import(path.clone()));
                    }
                },
                Some(Token::Semicolon) => {
                    if is_text(word, "quit") {
                        return Ok((AstStmt::Quit, i + 2));
                    }
                },
                _ => {},
            }
            proof {
                reveal_strlit("struct");
                reveal_strlit("import");
                reveal_strlit("quit");
            }
            expr_stmt(toks, i)
        },
        _ => expr_stmt(toks, i),
    }
}

fn declaration(toks: &Vec<Token>, i: usize) -> (r: Result<(AstStmt, usize), (SyntaxError, usize)>)
    requires
        i <= toks.len(),
    ensures
        got_stmt(r) == p_declaration(token_views(toks@), i as int),
        moves(r, i, toks@.len()),
    decreases toks.len() - i, 30int,
{
    match at(toks, i) {
        Some(Token::Var) => var_decl(toks, i + 1),
        Some(Token::LeftBrace) => {
            let none: Vec<AstStmt> = Vec::new();
            assert(stmt_views(none@) =~= Seq::empty());
            match block(toks, i + 1, none) {
                Ok((stmts, j)) => {
                    proof {
                        lemma_block_view(stmts);
                    }
                    Ok((AstStmt::Expr(AstExpr::Block(stmts)), j))
                },
                Err(e) => Err(e),
            }
        },
        _ => statement(toks, i),
    }
}

/// The statement that starts at the token `i`, and the index just past
/// it: what `p_declaration` reads there.
#[verifier::opaque]
pub open spec fn statement_at(toks: Seq<TokenView>, i: int) -> Got<StmtView> {
    p_declaration(toks, i)
}

/// An error found by the parser: what is wrong, on which line, and at
/// which text (`None` at the end of the source).
#[derive(Debug, PartialEq)]
pub struct ParseError {
    pub kind: SyntaxError,
    pub line: usize,
    pub lexeme: Option<String>,
}

/// The tokens of the steps of a lexer.
pub open spec fn tokens_of(steps: Seq<LexStep>) -> Seq<TokenView> {
    Seq::new(steps.len(), |i: int| steps[i].token)
}

/// The line counter after each step of a lexer.
pub open spec fn lines_of(steps: Seq<LexStep>) -> Seq<int> {
    Seq::new(steps.len(), |i: int| steps[i].line)
}

/// The text of each token of the steps of a lexer over `src`.
pub open spec fn texts_of(src: Seq<char>, steps: Seq<LexStep>) -> Seq<Seq<char>> {
    Seq::new(steps.len(), |i: int| src.subrange(steps[i].start, steps[i].end))
}

/// A token that may be missing, as a mathematical value.
pub open spec fn held(t: Option<Token>) -> Option<TokenView> {
    match t {
        Some(x) => Some(x@),
        None => None,
    }
}

/// The lines as numbers without a type.
pub open spec fn line_views(lines: Seq<usize>) -> Seq<int> {
    Seq::new(lines.len(), |i: int| lines[i] as int)
}

/// The line of the token at `p`, or of the last token when `p` is the
/// end.
pub open spec fn line_at(lines: Seq<usize>, p: int) -> usize {
    if 0 <= p < lines.len() {
        lines[p]
    } else if lines.len() > 0 {
        lines[lines.len() - 1]
    } else {
        1
    }
}

/// The parser: it holds the tokens of a source and hands out its
/// statements one by one.
pub struct CopperParser {
    pub current_token: Option<Token>,
    pub previous_token: Option<Token>,
    pub source: String,
    pub tokens: Vec<Token>,
    pub lines: Vec<usize>,
    pub lexemes: Vec<String>,
    pub position: usize,
    pub current_lexeme: String,
    pub current_line: usize,
    pub continue_parsing: bool,
    pub errors: Vec<ParseError>,
}

impl CopperParser {
    /// Every token has its line and its text, and the place of the
    /// parser is among them or at their end.
    pub open spec fn wf(&self) -> bool {
        &&& self.lines@.len() == self.tokens@.len()
        &&& self.lexemes@.len() == self.tokens@.len()
        &&& self.position <= self.tokens@.len()
    }

    /// A parser at the start of `source`.
    pub fn new(source: String) -> (parser: CopperParser)
        ensures
            parser.wf(),
            parser.source@ == source@,
            token_views(parser.tokens@) == tokens_of(lex_all(source@, 0, 1)),
            line_views(parser.lines@) == lines_of(lex_all(source@, 0, 1)),
            crate::value::name_views(parser.lexemes@) == texts_of(source@, lex_all(source@, 0, 1)),
            parser.position == 0,
            parser.continue_parsing,
            parser.errors@.len() == 0,
            parser.current_token is None,
            parser.previous_token is None,
            parser.current_lexeme@.len() == 0,
            parser.current_line == 1,
    {
        let mut lexer = Lexer::new(source.clone());
        let mut tokens: Vec<Token> = Vec::new();
        let mut lines: Vec<usize> = Vec::new();
        let mut lexemes: Vec<String> = Vec::new();
        let ghost all = lex_all(source@, 0, 1);
        assert(token_views(tokens@) =~= Seq::empty());
        assert(line_views(lines@) =~= Seq::empty());
        assert(crate::value::name_views(lexemes@) =~= Seq::empty());
        loop
            invariant
                lexer.wf(),
                lexer@.source == source@,
                all == lex_all(source@, 0, 1),
                lines@.len() == tokens@.len(),
                lexemes@.len() == tokens@.len(),
                crate::value::name_views(lexemes@) + texts_of(
                    source@,
                    lex_all(source@, lexer@.end, lexer@.line),
                ) == texts_of(source@, all),
                token_views(tokens@) + tokens_of(lex_all(source@, lexer@.end, lexer@.line))
                    == tokens_of(all),
                line_views(lines@) + lines_of(lex_all(source@, lexer@.end, lexer@.line))
                    == lines_of(all),
            ensures
                lines@.len() == tokens@.len(),
                lexemes@.len() == tokens@.len(),
                token_views(tokens@) == tokens_of(all),
                line_views(lines@) == lines_of(all),
                crate::value::name_views(lexemes@) == texts_of(source@, all),
            decreases source@.len() - lexer@.end,
        {
            let ghost before = lexer@;
            let ghost seen = token_views(tokens@);
            let ghost seen_lines = line_views(lines@);
            let ghost seen_texts = crate::value::name_views(lexemes@);
            let ghost rest = lex_all(source@, before.end, before.line);
            match lexer.next() {
                Some(t) => {
                    let ghost after = lex_all(source@, lexer@.end, lexer@.line);
                    let ln = lexer.line_number();
                    let text = lexer.slice();
                    proof {
                        assert(texts_of(source@, rest) =~= seq![text@] + texts_of(source@, after));
                        assert(crate::value::name_views(lexemes@.push(text)) =~= seen_texts.push(
                            text@,
                        ));
                        assert(seen_texts.push(text@) + texts_of(source@, after) =~= seen_texts
                            + texts_of(source@, rest));
                        assert(rest =~= seq![rest[0]] + after);
                        assert(tokens_of(rest) =~= seq![t@] + tokens_of(after));
                        assert(lines_of(rest) =~= seq![lexer@.line] + lines_of(after));
                        assert(token_views(tokens@.push(t)) =~= seen.push(t@));
                        assert(seen.push(t@) + tokens_of(after) =~= seen + tokens_of(rest));
                        assert(line_views(lines@.push(ln)) =~= seen_lines.push(lexer@.line));
                        assert(seen_lines.push(lexer@.line) + lines_of(after) =~= seen_lines
                            + lines_of(rest));
                    }
                    lexemes.push(text);
                    lines.push(ln);
                    tokens.push(t);
                },
                None => {
                    proof {
                        assert(rest =~= Seq::empty());
                        assert(tokens_of(rest) =~= Seq::empty());
                        assert(lines_of(rest) =~= Seq::empty());
                        assert(texts_of(source@, rest) =~= Seq::empty());
                        assert(seen_texts + texts_of(source@, rest) =~= seen_texts);
                        assert(seen + tokens_of(rest) =~= seen);
                        assert(seen_lines + lines_of(rest) =~= seen_lines);
                    }
                    break ;
                },
            }
        }
        CopperParser {
            current_token: None,
            previous_token: None,
            source,
            tokens,
            lines,
            lexemes,
            position: 0,
            current_lexeme: String::new(),
            current_line: 1,
            continue_parsing: true,
            errors: Vec::new(),
        }
    }

    /// Whether the parser has come to the end of its tokens.
    pub fn at_end(&self) -> (b: bool)
        ensures
            b == (self.position >= self.tokens@.len()),
    {
        self.position >= self.tokens.len()
    }

    fn note(&mut self, kind: SyntaxError, at: usize)
        requires
            old(self).wf(),
            at <= old(self).tokens@.len(),
        ensures
            final(self).wf(),
            final(self).tokens == old(self).tokens,
            final(self).lines == old(self).lines,
            final(self).lexemes == old(self).lexemes,
            final(self).source == old(self).source,
            final(self).position == old(self).position,
            final(self).current_line == old(self).current_line,
            !final(self).continue_parsing,
            final(self).errors@.len() == old(self).errors@.len() + 1,
            final(self).errors@.subrange(0, old(self).errors@.len() as int) == old(self).errors@,
            final(self).errors@.last().kind == kind,
            final(self).errors@.last().line == line_at(old(self).lines@, at as int),
            final(self).errors@.last().lexeme is Some <==> at < old(self).tokens@.len(),
            at < old(self).tokens@.len() ==> final(self).errors@.last().lexeme->0@
                == old(self).lexemes@[at as int]@,
    {
        let n = self.lines.len();
        let line = if at < n {
            self.lines[at]
        } else if n > 0 {
            self.lines[n - 1]
        } else {
            1
        };
        let lexeme = if at < self.lexemes.len() {
            Some(self.lexemes[at].clone())
        } else {
            None
        };
        self.errors.push(ParseError { kind, line, lexeme });
        self.continue_parsing = false;
        assert(self.errors@.subrange(0, old(self).errors@.len() as int) =~= old(self).errors@);
    }

    /// The next statement. `None` at the end of the source, and after an
    /// error: the first error is noted in `errors`, `continue_parsing`
    /// turns false, and no further statement is handed out.
    pub fn parse(&mut self) -> (r: Option<AstStmt>)
        requires
            old(self).wf(),
        ensures
            final(self).wf(),
            final(self).tokens == old(self).tokens,
            final(self).lines == old(self).lines,
            final(self).lexemes == old(self).lexemes,
            final(self).source == old(self).source,
            r is Some ==> old(self).position < final(self).position,
            !old(self).continue_parsing || old(self).position >= old(self).tokens@.len() ==> r is None
                && final(self).position == old(self).position && final(self).continue_parsing
                == old(self).continue_parsing && final(self).errors == old(self).errors,
            old(self).continue_parsing && old(self).position < old(self).tokens@.len() ==> (
            match statement_at(token_views(old(self).tokens@), old(self).position as int) {
                Got::Read(s, j) => {
                    &&& r is Some
                    &&& r->0@ == s
                    &&& final(self).position == j
                    &&& old(self).position < j <= old(self).tokens@.len()
                    &&& final(self).continue_parsing
                    &&& final(self).errors == old(self).errors
                    &&& final(self).current_line == line_at(old(self).lines@, j)
                    &&& held(final(self).current_token) == tok(token_views(old(self).tokens@), j)
                    &&& held(final(self).previous_token) == tok(
                        token_views(old(self).tokens@),
                        j - 1,
                    )
                    &&& j < old(self).tokens@.len() ==> final(self).current_lexeme@ == old(
                        self,
                    ).lexemes@[j]@
                    &&& j >= old(self).tokens@.len() ==> final(self).current_lexeme == old(
                        self,
                    ).current_lexeme
                },
                Got::Wrong(k, at) => {
                    &&& r is None
                    &&& final(self).position == old(self).position
                    &&& !final(self).continue_parsing
                    &&& final(self).errors@.len() == old(self).errors@.len() + 1
                    &&& final(self).errors@.last().kind == k
                    &&& final(self).errors@.last().line == line_at(old(self).lines@, at)
                    &&& final(self).errors@.last().lexeme is Some <==> at < old(self).tokens@.len()
                    &&& at < old(self).tokens@.len() ==> final(self).errors@.last().lexeme->0@
                        == old(self).lexemes@[at]@
                    &&& final(self).errors@.subrange(0, old(self).errors@.len() as int) == old(
                        self,
                    ).errors@
                },
            }),
    {
        reveal(statement_at);
        if !self.continue_parsing || self.position >= self.tokens.len() {
            return None;
        }
        match declaration(&self.tokens, self.position) {
            Ok((stmt, j)) => {
                self.previous_token = if j > 0 {
                    Some(self.tokens[j - 1].clone())
                } else {
                    None
                };
                self.current_token = if j < self.tokens.len() {
                    Some(self.tokens[j].clone())
                } else {
                    None
                };
                if j < self.lexemes.len() {
                    self.current_lexeme = self.lexemes[j].clone();
                }
                let n = self.lines.len();
                self.current_line = if j < n {
                    self.lines[j]
                } else if n > 0 {
                    self.lines[n - 1]
                } else {
                    1
                };
                self.position = j;
                Some(stmt)
            },
            Err((kind, at)) => {
                self.note(kind, at);
                None
            },
        }
    }
}

} // verus!
