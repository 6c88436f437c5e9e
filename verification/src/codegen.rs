//! The code generator: statements and expressions to instructions.

use vstd::prelude::*;
use crate::chunk::{written, Chunk, ChunkView, OpCode, OpView};
use crate::environment::{find_function, EntryView, EnvView};
use crate::mini_macros::tokenizer::{expand_all, parse_file, MacroExpander, Parsed};
use crate::parser::{
    lemma_block_view, lemma_call_view, line_at, line_views, lines_of, statement_at, stmt_views,
    texts_of,
    expr_views, token_views, tokens_of, AstExpr, AstStmt, CopperParser, ExprView, Got, ParseError,
    StmtView, SyntaxError,
};
use crate::text::{
    chars_of, push_char, push_text, source_text, string_of, uint_text, uint_to_text, SourceFile,
    Sources,
};
use crate::tokens::{lex_all, Token, TokenView};
use crate::value::{
    lemma_name_views_push, lemma_struct_view, name_views, value_views, ClassType, ClassTypeView,
    CopperStruct, StructView, Value, ValueView,
};

verus! {

/// What the generator could not make code of.
#[derive(Debug, Clone, Copy, PartialEq, Eq, Structural)]
pub enum GenError {
    /// The source has an error, on this line.
    Syntax(SyntaxError, usize),
    /// A function is defined under a name that is bound already.
    DuplicateFunction,
    /// An assignment to what is neither a variable nor a field.
    InvalidTarget,
    /// Imports are nested deeper than there are files.
    ImportTooDeep,
}

/// The generator as a mathematical value: the chunk written so far, the
/// source line of what is being written, the number of the next block
/// function, the path of the file being read, the paths imported so far,
/// those that were asked for and not stored, and the errors met.
pub struct GenView {
    pub chunk: ChunkView,
    pub current_line: usize,
    pub block_increment: usize,
    pub file_path: Seq<char>,
    pub imported: Seq<Seq<char>>,
    pub missing: Seq<Seq<char>>,
    pub errors: Seq<GenError>,
    pub sources: Seq<SourceFile>,
}

/// The number of nodes of an expression.
pub open spec fn size_e(e: ExprView) -> nat
    decreases e,
{
    match e {
        ExprView::Binary(a, _, b) => 1 + size_e(*a) + size_e(*b),
        ExprView::Ternary(c, t, f) => 1 + size_e(*c) + size_e(*t) + size_e(*f),
        ExprView::Group(x) => 1 + size_e(*x),
        ExprView::Unary(_, x) => 1 + size_e(*x),
        ExprView::Assign(target, x) => 1 + size_e(*target) + size_e(*x),
        ExprView::AssignByOp(_, _, x) => 1 + size_e(*x),
        ExprView::Call(_, args) => 1 + size_es(args, 0),
        ExprView::TypeCall(_, x) => 1 + size_e(*x),
        ExprView::NewCall(_, args) => 1 + size_es(args, 0),
        ExprView::StructCall(left, right) => 1 + size_e(*left) + size_e(*right),
        ExprView::Block(stmts) => 3 + size_ss(stmts, 0),
        _ => 1,
    }
}

/// The number of nodes of the expressions `es[i..]`.
pub open spec fn size_es(es: Seq<ExprView>, i: int) -> nat
    decreases es, es.len() - i,
{
    if 0 <= i < es.len() {
        1 + size_e(es[i]) + size_es(es, i + 1)
    } else {
        0
    }
}

/// The number of nodes of a statement.
pub open spec fn size_s(s: StmtView) -> nat
    decreases s,
{
    match s {
        StmtView::Expr(e) => 1 + size_e(e),
        StmtView::Declaration(_, _, e) => 1 + size_e(e),
        StmtView::InferDeclaration(_, e) => 1 + size_e(e),
        StmtView::If(c, then, other) => 1 + size_e(c) + size_s(*then) + (match other {
            Some(x) => size_s(*x),
            None => 0,
        }),
        StmtView::While(c, body) => 1 + size_e(c) + size_e(body),
        StmtView::Function(_, _, _, _, body) => 1 + size_e(body),
        StmtView::Return(e) => 1 + (match e {
            Some(x) => size_e(x),
            None => 0,
        }),
        _ => 1,
    }
}

/// The number of nodes of the statements `ss[i..]`.
pub open spec fn size_ss(ss: Seq<StmtView>, i: int) -> nat
    decreases ss, ss.len() - i,
{
    if 0 <= i < ss.len() {
        1 + size_s(ss[i]) + size_ss(ss, i + 1)
    } else {
        0
    }
}

/// What the generator is given to make code of.
pub enum Item {
    /// An expression, whose value is left on the stack.
    Expr(ExprView),
    /// An expression in the place of a value: a block there becomes a
    /// block function and a call of it.
    Value(ExprView),
    /// The expressions from the i-th on, each in the place of a value.
    Values(Seq<ExprView>, int),
    /// A block in the place of a value.
    BlockFunction(ExprView),
    /// An expression that stands as a statement: nothing of its value is
    /// kept.
    Discard(ExprView),
    /// A statement.
    Stmt(StmtView),
    /// The statements of a block from the i-th on; when `last` is set and
    /// the last of them is an expression, its value is returned.
    Stmts(Seq<StmtView>, int, bool),
    /// The statements of a source from the token at the index on.
    Source(Seq<TokenView>, Seq<usize>, int),
}

/// The size by which the generator's work on an item is measured.
pub open spec fn item_size(item: Item) -> nat {
    match item {
        Item::Expr(e) => size_e(e),
        Item::Value(e) => size_e(e),
        Item::Values(es, i) => size_es(es, i),
        Item::BlockFunction(e) => size_e(e),
        Item::Discard(e) => size_e(e),
        Item::Stmt(s) => size_s(s),
        Item::Stmts(ss, i, _) => size_ss(ss, i),
        Item::Source(_, _, _) => 0,
    }
}

/// The index of the next instruction to be written.
pub open spec fn here(g: GenView) -> usize {
    g.chunk.code.len() as usize
}

/// The generator after writing `op`.
pub open spec fn emit(g: GenView, op: OpView) -> GenView {
    GenView { chunk: written(g.chunk, op, g.current_line), ..g }
}

/// The generator with the instruction at `at` replaced by `op`.
pub open spec fn patch(g: GenView, at: usize, op: OpView) -> GenView {
    GenView {
        chunk: ChunkView {
            code: g.chunk.code.update(at as int, op),
            lines: g.chunk.lines,
            functions: g.chunk.functions,
        },
        ..g
    }
}

/// The generator with one more entry in the registry of its chunk.
pub open spec fn registered(g: GenView, e: EntryView) -> GenView {
    GenView {
        chunk: ChunkView {
            code: g.chunk.code,
            lines: g.chunk.lines,
            functions: EnvView {
                entries: g.chunk.functions.entries.push(e),
                current_scope: g.chunk.functions.current_scope,
            },
        },
        ..g
    }
}

/// The generator with one more error noted.
pub open spec fn blamed(g: GenView, e: GenError) -> GenView {
    GenView { errors: g.errors.push(e), ..g }
}

/// The generator after binding the function `name` to the code at `at`:
/// a name that is bound already stays as it is, and the error is noted.
pub open spec fn bound(g: GenView, name: Seq<char>, t: ClassTypeView, count: usize, at: usize) -> GenView {
    if find_function(g.chunk.functions.entries, name, 0) is Some {
        blamed(g, GenError::DuplicateFunction)
    } else {
        registered(g, EntryView::Function(name, t, count, at))
    }
}

/// The generator after writing `op` `n` times.
pub open spec fn emit_times(g: GenView, op: OpView, n: nat) -> GenView
    decreases n,
{
    if n == 0 {
        g
    } else {
        emit_times(emit(g, op), op, (n - 1) as nat)
    }
}

/// The generator after writing `StructSetByIndex(n - 1)` down to
/// `StructSetByIndex(0)`.
pub open spec fn emit_indices(g: GenView, n: nat) -> GenView
    decreases n,
{
    if n == 0 {
        g
    } else {
        emit_indices(emit(g, OpView::StructSetByIndex((n - 1) as usize)), (n - 1) as nat)
    }
}

/// The generator after writing `ArgumentStore` for the parameters from
/// the i-th on.
pub open spec fn emit_arguments(
    g: GenView,
    names: Seq<Seq<char>>,
    types: Seq<ClassTypeView>,
    i: int,
) -> GenView
    decreases names.len() - i,
{
    if 0 <= i < names.len() && i < types.len() {
        emit_arguments(emit(g, OpView::ArgumentStore(names[i], types[i])), names, types, i + 1)
    } else {
        g
    }
}

/// The instruction of a binary operator.
pub open spec fn binary_op(t: TokenView) -> Option<OpView> {
    match t {
        TokenView::CmpAnd => Some(OpView::CmpAnd),
        TokenView::CmpOr => Some(OpView::CmpOr),
        TokenView::Plus => Some(OpView::Add),
        TokenView::Minus => Some(OpView::Sub),
        TokenView::Star => Some(OpView::Mul),
        TokenView::Slash => Some(OpView::Div),
        TokenView::Not => Some(OpView::Not),
        TokenView::EqualEqual => Some(OpView::CmpEqual),
        TokenView::NotEqual => Some(OpView::CmpNotEqual),
        TokenView::Less => Some(OpView::CmpLess),
        TokenView::LessEqual => Some(OpView::CmpLessEqual),
        TokenView::Greater => Some(OpView::CmpGreater),
        TokenView::GreaterEqual => Some(OpView::CmpGreaterEqual),
        _ => None,
    }
}

/// The instruction of a compound assignment.
pub open spec fn compound_op(t: TokenView) -> Option<OpView> {
    match t {
        TokenView::PlusEqual => Some(OpView::Add),
        TokenView::MinusEqual => Some(OpView::Sub),
        TokenView::StarEqual => Some(OpView::Mul),
        TokenView::SlashEqual => Some(OpView::Div),
        _ => None,
    }
}

/// The instruction of a unary operator; any other token drops the value.
pub open spec fn unary_op(t: TokenView) -> OpView {
    match t {
        TokenView::Minus => OpView::Negate,
        TokenView::Not => OpView::Not,
        _ => OpView::Pop,
    }
}

/// The type that a type word names in a type call.
pub open spec fn called_type(t: TokenView) -> ClassTypeView {
    match t {
        TokenView::TypeInt => ClassTypeView::Int,
        TokenView::TypeUint => ClassTypeView::Uint,
        TokenView::TypeDecimal => ClassTypeView::Decimal,
        TokenView::TypeString => ClassTypeView::Str,
        TokenView::TypeBool => ClassTypeView::Bool,
        _ => ClassTypeView::Any,
    }
}

/// The generator after writing `op`, if there is one.
pub open spec fn emit_some(g: GenView, op: Option<OpView>) -> GenView {
    match op {
        Some(o) => emit(g, o),
        None => g,
    }
}

/// The names that a chain of field accesses is made of, from its root
/// on: `a.b.c` gives `a`, `b`, `c`. `None` where the chain does not
/// start at a variable or a link of it is no name.
pub open spec fn chain(e: ExprView) -> Option<Seq<Seq<char>>>
    decreases e,
{
    match e {
        ExprView::Variable(name) => Some(seq![name]),
        ExprView::StructCall(left, right) => match (chain(*left), *right) {
            (Some(names), ExprView::Variable(field)) => Some(names.push(field)),
            _ => None,
        },
        _ => None,
    }
}

/// The number of parameters, as a `usize`.
pub open spec fn count_of(names: Seq<Seq<char>>) -> usize {
    if names.len() <= usize::MAX {
        names.len() as usize
    } else {
        usize::MAX
    }
}

/// A chain of names has at least one.
pub proof fn lemma_chain_has_names(e: ExprView)
    ensures
        chain(e) is Some ==> chain(e)->0.len() >= 1,
    decreases e,
{
    match e {
        ExprView::StructCall(left, right) => {
            lemma_chain_has_names(*left);
        },
        _ => {},
    }
}

/// The name of the n-th block function.
pub open spec fn block_name(n: usize) -> Seq<char> {
    "@block_func:"@ + uint_to_text(n as nat)
}

/// A counter after one more; it stops at the largest `usize`.
pub open spec fn bump(n: usize) -> usize {
    if n < usize::MAX {
        (n + 1) as usize
    } else {
        n
    }
}

/// The structure that a declaration with these fields stands for: every
/// field starts as `Nil`.
pub open spec fn template(name: Seq<char>, fields: Seq<Seq<char>>) -> StructView {
    StructView {
        name,
        field_names: fields,
        field_values: Seq::new(fields.len(), |i: int| ValueView::Nil),
    }
}

/// Whether the path segment `seg` belongs to the directory of a file: a
/// segment without a `.` does, and so does one that holds `..`.
pub open spec fn is_directory(seg: Seq<char>) -> bool {
    !has_dot(seg, 0) || has_two_dots(seg, 0)
}

/// Whether a `.` stands in `seg[i..]`.
pub open spec fn has_dot(seg: Seq<char>, i: int) -> bool
    decreases seg.len() - i,
{
    if 0 <= i < seg.len() {
        seg[i] == '.' || has_dot(seg, i + 1)
    } else {
        false
    }
}

/// Whether `..` stands in `seg[i..]`.
pub open spec fn has_two_dots(seg: Seq<char>, i: int) -> bool
    decreases seg.len() - i,
{
    if 0 <= i && i + 1 < seg.len() {
        (seg[i] == '.' && seg[i + 1] == '.') || has_two_dots(seg, i + 1)
    } else {
        false
    }
}

/// The directory of the path `path[start..]` after `acc`, read from `i`
/// on, where `start` is the start of the segment that holds `i`: every
/// segment that `is_directory` is kept, with a `/` after it.
pub open spec fn directory(path: Seq<char>, start: int, i: int, acc: Seq<char>) -> Seq<char>
    decreases path.len() - i,
{
    if !(0 <= start <= i <= path.len()) {
        acc
    } else if i == path.len() {
        if start < i && is_directory(path.subrange(start, i)) {
            acc + path.subrange(start, i) + seq!['/']
        } else {
            acc
        }
    } else if path[i] == '/' {
        if is_directory(path.subrange(start, i)) {
            directory(path, i + 1, i + 1, acc + path.subrange(start, i) + seq!['/'])
        } else {
            directory(path, i + 1, i + 1, acc)
        }
    } else {
        directory(path, start, i + 1, acc)
    }
}

/// The path that an import of `path` means in the file `file_path`.
pub open spec fn resolved(file_path: Seq<char>, path: Seq<char>) -> Seq<char> {
    directory(file_path, 0, 0, Seq::empty()) + path
}

/// The text of the source stored under `path`, after the expansion of
/// its macros.
pub open spec fn expanded(sources: Seq<SourceFile>, path: Seq<char>) -> Seq<char> {
    expand_all(parse_file(sources, path, Parsed { defines: Seq::empty(), content: Seq::empty() }))
}

/// The tokens of the source stored under `path`, after the expansion of
/// its macros, and the line of each.
pub open spec fn source_steps(sources: Seq<SourceFile>, path: Seq<char>) -> Seq<crate::tokens::LexStep> {
    lex_all(expanded(sources, path), 0, 1)
}

/// The work of the generator: the generator after making code of `item`.
/// `depth` is how many imports may still be entered one inside the other.
pub open spec fn generate(g: GenView, depth: nat, item: Item) -> GenView
    decreases depth, item_size(item), (match item {
        Item::Source(toks, _, i) => toks.len() - i,
        Item::Value(_) => 1,
        Item::Discard(_) => 1,
        _ => 0,
    }),
{
    match item {
        Item::Expr(e) => match e {
            ExprView::Nothing => g,
            ExprView::TypeCall(t, x) => emit(
                generate(g, depth, Item::Expr(*x)),
                OpView::TransformToType(called_type(t)),
            ),
            ExprView::Binary(a, op, b) => emit_some(
                generate(generate(g, depth, Item::Expr(*a)), depth, Item::Expr(*b)),
                binary_op(op),
            ),
            ExprView::Ternary(c, t, f) => {
                let g1 = generate(g, depth, Item::Expr(*c));
                let g2 = generate(emit(g1, OpView::Jmp(0)), depth, Item::Expr(*t));
                let g3 = patch(emit(g2, OpView::Jmp(0)), here(g1), OpView::JmpIfFalse(here(emit(g2, OpView::Jmp(0)))));
                let g4 = generate(g3, depth, Item::Expr(*f));
                patch(g4, here(g2), OpView::Jmp(here(g4)))
            },
            ExprView::Group(x) => generate(g, depth, Item::Expr(*x)),
            ExprView::Literal(v) => emit(g, OpView::Push(v)),
            ExprView::Unary(op, x) => emit(generate(g, depth, Item::Expr(*x)), unary_op(op)),
            ExprView::Variable(name) => emit(g, OpView::Load(name)),
            ExprView::Assign(target, x) => {
                let g1 = generate(g, depth, Item::Value(*x));
                match chain(*target) {
                    Some(names) => if names.len() == 1 {
                        emit(g1, OpView::Assign(names[0]))
                    } else {
                        emit(g1, OpView::StructSet(names[0], names.subrange(1, names.len() as int)))
                    },
                    None => blamed(g1, GenError::InvalidTarget),
                }
            },
            ExprView::AssignByOp(name, op, x) => emit(
                emit_some(
                    generate(emit(g, OpView::Load(name)), depth, Item::Value(*x)),
                    compound_op(op),
                ),
                OpView::Assign(name),
            ),
            ExprView::Call(name, args) => emit(
                emit_times(generate(g, depth, Item::Values(args, 0)), OpView::PopToCall, args.len()),
                OpView::CallFunc(name),
            ),
            ExprView::New(name) => emit(g, OpView::NewStruct(name)),
            ExprView::NewCall(name, args) => emit_indices(
                emit(generate(g, depth, Item::Values(args, 0)), OpView::NewStruct(name)),
                args.len(),
            ),
            ExprView::StructCall(left, right) => {
                let g1 = generate(g, depth, Item::Expr(*left));
                match *right {
                    ExprView::Variable(field) => emit(g1, OpView::StructGet(field)),
                    _ => blamed(g1, GenError::InvalidTarget),
                }
            },
            ExprView::Block(stmts) => emit(
                generate(emit(g, OpView::StartScope), depth, Item::Stmts(stmts, 0, false)),
                OpView::EndScope,
            ),
        },
        Item::Value(e) => if e is Block {
            generate(g, depth, Item::BlockFunction(e))
        } else {
            generate(g, depth, Item::Expr(e))
        },
        Item::Values(es, i) => if 0 <= i < es.len() {
            generate(generate(g, depth, Item::Value(es[i])), depth, Item::Values(es, i + 1))
        } else {
            g
        },
        Item::BlockFunction(e) => match e {
            ExprView::Block(stmts) => {
                let name = block_name(g.block_increment);
                let g1 = emit(GenView { block_increment: bump(g.block_increment), ..g }, OpView::Jmp(0));
                let g2 = bound(g1, name, ClassTypeView::Any, 0, here(g1));
                let g3 = emit(emit(g2, OpView::StartScope), OpView::StartScope);
                let g4 = generate(g3, depth, Item::Stmts(stmts, 0, true));
                let g5 = emit(
                    emit(
                        emit(emit(g4, OpView::EndScope), OpView::Push(ValueView::Nil)),
                        OpView::Return,
                    ),
                    OpView::EndScope,
                );
                emit(patch(g5, here(g), OpView::Jmp(here(g5))), OpView::CallFunc(name))
            },
            _ => g,
        },
        Item::Discard(e) => match e {
            ExprView::Unary(_, _) => g,
            ExprView::Literal(_) => g,
            ExprView::Binary(a, _, b) => generate(
                generate(g, depth, Item::Discard(*a)),
                depth,
                Item::Discard(*b),
            ),
            ExprView::Group(x) => generate(g, depth, Item::Expr(*x)),
            ExprView::Call(_, _) => emit(generate(g, depth, Item::Expr(e)), OpView::Pop),
            ExprView::Ternary(c, t, f) => {
                let g1 = generate(g, depth, Item::Expr(*c));
                let g2 = generate(emit(g1, OpView::Jmp(0)), depth, Item::Discard(*t));
                let g3 = patch(emit(g2, OpView::Jmp(0)), here(g1), OpView::JmpIfFalse(here(emit(g2, OpView::Jmp(0)))));
                let g4 = generate(g3, depth, Item::Discard(*f));
                patch(g4, here(g2), OpView::Jmp(here(g4)))
            },
            _ => generate(g, depth, Item::Expr(e)),
        },
        Item::Stmts(ss, i, last) => if 0 <= i < ss.len() {
            if last && i == ss.len() - 1 && ss[i] is Expr {
                proof {
                    assert(size_s(ss[i]) == 1 + size_e(ss[i]->Expr_0));
                }
                emit(generate(g, depth, Item::Expr(ss[i]->Expr_0)), OpView::Return)
            } else {
                generate(generate(g, depth, Item::Stmt(ss[i])), depth, Item::Stmts(ss, i + 1, last))
            }
        } else {
            g
        },
        Item::Stmt(s) => match s {
            StmtView::Expr(e) => generate(g, depth, Item::Discard(e)),
            StmtView::Declaration(name, t, e) => emit(
                generate(g, depth, Item::Value(e)),
                OpView::Store(name, t),
            ),
            StmtView::InferDeclaration(name, e) => emit(
                generate(g, depth, Item::Value(e)),
                OpView::InferStore(name),
            ),
            StmtView::If(c, then, other) => {
                let g1 = generate(g, depth, Item::Expr(c));
                let g2 = generate(emit(g1, OpView::Jmp(0)), depth, Item::Stmt(*then));
                let g3 = patch(emit(g2, OpView::Jmp(0)), here(g1), OpView::JmpIfFalse(here(emit(g2, OpView::Jmp(0)))));
                let g4 = match other {
                    Some(x) => generate(g3, depth, Item::Stmt(*x)),
                    None => g3,
                };
                patch(g4, here(g2), OpView::Jmp(here(g4)))
            },
            StmtView::While(c, body) => {
                let g1 = generate(g, depth, Item::Expr(c));
                let g2 = emit(
                    generate(emit(g1, OpView::Jmp(0)), depth, Item::Expr(body)),
                    OpView::Jmp(here(g)),
                );
                patch(g2, here(g1), OpView::JmpIfFalse(here(g2)))
            },
            StmtView::Function(name, t, names, types, body) => {
                let g1 = emit_arguments(
                    emit(emit(g, OpView::Jmp(0)), OpView::StartScope),
                    names,
                    types,
                    0,
                );
                let g2 = generate(g1, depth, Item::Expr(body));
                let g3 = emit(
                    emit(emit(g2, OpView::Push(ValueView::Nil)), OpView::Return),
                    OpView::EndScope,
                );
                let g4 = bound(g3, name, t, count_of(names), here(emit(g, OpView::Jmp(0))));
                patch(g4, here(g), OpView::Jmp(here(g4)))
            },
            StmtView::Struct(name, fields) => registered(
                g,
                EntryView::Structure(template(name, fields)),
            ),
            StmtView::Return(e) => emit(
                match e {
                    Some(x) => generate(g, depth, Item::Expr(x)),
                    None => emit(g, OpView::Push(ValueView::Nil)),
                },
                OpView::Return,
            ),
            StmtView::Quit => emit(g, OpView::EndScript),
            StmtView::Import(path) => {
                let full = resolved(g.file_path, path);
                let g1 = GenView { imported: g.imported.push(full), ..g };
                if g.imported.contains(full) {
                    g
                } else if source_text(g.sources, full) is None {
                    GenView { missing: g1.missing.push(full), ..g1 }
                } else if depth == 0 {
                    blamed(g, GenError::ImportTooDeep)
                } else {
                    let steps = source_steps(g.sources, full);
                    let g2 = generate(
                        GenView { file_path: full, ..g1 },
                        (depth - 1) as nat,
                        Item::Source(tokens_of(steps), lines_as_usize(steps), 0),
                    );
                    GenView { file_path: g.file_path, current_line: g.current_line, ..g2 }
                }
            },
        },
        Item::Source(toks, lines, i) => if 0 <= i < toks.len() {
            match statement_at(toks, i) {
                Got::Read(s, j) => if i < j <= toks.len() {
                    let g1 = GenView { current_line: line_at(lines, j), ..g };
                    if depth == 0 {
                        blamed(g1, GenError::ImportTooDeep)
                    } else {
                        generate(
                            generate(g1, (depth - 1) as nat, Item::Stmt(s)),
                            depth,
                            Item::Source(toks, lines, j),
                        )
                    }
                } else {
                    g
                },
                Got::Wrong(k, at) => blamed(g, GenError::Syntax(k, line_at(lines, at))),
            }
        } else {
            g
        },
    }
}

/// Where the reading of a source stops that starts with the statement at
/// `i`, and the error that stopped it, if one did: reading goes from
/// statement to statement to the end of the tokens or to the first
/// statement that is wrong, where it stays; at depth 0 it stops behind
/// the first statement.
pub open spec fn read_end(toks: Seq<TokenView>, i: int, depth: nat) -> (int, Option<(SyntaxError, int)>)
    decreases toks.len() - i,
{
    if 0 <= i < toks.len() {
        match statement_at(toks, i) {
            Got::Read(_, j) => if i < j <= toks.len() {
                if depth == 0 {
                    (j, None)
                } else {
                    read_end(toks, j, depth)
                }
            } else {
                (i, None)
            },
            Got::Wrong(k, at) => (i, Some((k, at))),
        }
    } else {
        (i, None)
    }
}

/// Whether the parser `after` is the parser `before` once the generator
/// has read its source to the end: it holds the same source and tokens,
/// stands where the reading stopped, and has noted the error that
/// stopped it, with its line and its text, behind those it held.
pub open spec fn has_read(before: CopperParser, after: CopperParser, depth: nat) -> bool {
    let toks = token_views(before.tokens@);
    let end = read_end(toks, before.position as int, depth);
    &&& after.wf()
    &&& after.source == before.source
    &&& after.tokens == before.tokens
    &&& after.lines == before.lines
    &&& after.lexemes == before.lexemes
    &&& after.position == end.0
    &&& match end.1 {
        None => after.continue_parsing && after.errors == before.errors,
        Some((k, at)) => {
            &&& !after.continue_parsing
            &&& after.errors@.len() == before.errors@.len() + 1
            &&& after.errors@.subrange(0, before.errors@.len() as int) == before.errors@
            &&& after.errors@.last().kind == k
            &&& after.errors@.last().line == line_at(before.lines@, at)
            &&& after.errors@.last().lexeme is Some <==> at < toks.len()
            &&& at < toks.len() ==> after.errors@.last().lexeme->0@ == before.lexemes@[at]@
        },
    }
}

/// Whether `parser` is a parser over the text `text` with which the
/// generator has read that text to the end: it holds the tokens of the
/// text with their lines and texts, stands where the reading stopped, and
/// holds the error that stopped it, if one did, and no other.
pub open spec fn has_read_text(parser: CopperParser, text: Seq<char>, depth: nat) -> bool {
    let steps = lex_all(text, 0, 1);
    let toks = tokens_of(steps);
    let end = read_end(toks, 0, depth);
    &&& parser.wf()
    &&& parser.source@ == text
    &&& token_views(parser.tokens@) == toks
    &&& line_views(parser.lines@) == lines_of(steps)
    &&& name_views(parser.lexemes@) == texts_of(text, steps)
    &&& parser.position == end.0
    &&& match end.1 {
        None => parser.continue_parsing && parser.errors@.len() == 0,
        Some((k, at)) => {
            &&& !parser.continue_parsing
            &&& parser.errors@.len() == 1
            &&& parser.errors@[0].kind == k
            &&& parser.errors@[0].line == line_at(parser.lines@, at)
            &&& parser.errors@[0].lexeme is Some <==> at < toks.len()
            &&& at < toks.len() ==> parser.errors@[0].lexeme->0@ == parser.lexemes@[at]@
        },
    }
}

/// The index of the last of the first `n` paths of `files` under which a
/// text is stored.
pub open spec fn last_stored(sources: Seq<SourceFile>, files: Seq<String>, n: int) -> Option<int>
    decreases n,
{
    if n <= 0 {
        None
    } else if n <= files.len() && source_text(sources, files[n - 1]@) is Some {
        Some(n - 1)
    } else {
        last_stored(sources, files, n - 1)
    }
}

/// A fresh parser that has read the text it was made for is one that
/// `has_read_text` describes.
proof fn lemma_has_read_text(before: CopperParser, after: CopperParser, text: Seq<char>, depth: nat)
    requires
        before.wf(),
        before.source@ == text,
        token_views(before.tokens@) == tokens_of(lex_all(text, 0, 1)),
        line_views(before.lines@) == lines_of(lex_all(text, 0, 1)),
        name_views(before.lexemes@) == texts_of(text, lex_all(text, 0, 1)),
        before.position == 0,
        before.errors@.len() == 0,
        has_read(before, after, depth),
    ensures
        has_read_text(after, text, depth),
{
}

/// The line counter after each step of a lexer, as the parser keeps it.
pub open spec fn lines_as_usize(steps: Seq<crate::tokens::LexStep>) -> Seq<usize> {
    Seq::new(steps.len(), |i: int| steps[i].line as usize)
}

/// The paths read so far, with `path` among them.
pub open spec fn noted(imported: Seq<Seq<char>>, path: Seq<char>) -> Seq<Seq<char>> {
    if imported.contains(path) {
        imported
    } else {
        imported.push(path)
    }
}

/// The files read one after the other from the i-th on, each as a source
/// of its own and noted as read, so that no import reads it again; a
/// file that is not stored is noted as missing.
pub open spec fn generate_files(g: GenView, depth: nat, files: Seq<String>, i: int) -> GenView
    decreases files.len() - i,
{
    if 0 <= i < files.len() {
        let path = files[i]@;
        let g1 = if source_text(g.sources, path) is None {
            GenView { missing: g.missing.push(path), ..g }
        } else {
            let steps = source_steps(g.sources, path);
            generate(
                GenView { file_path: path, imported: noted(g.imported, path), ..g },
                depth,
                Item::Source(tokens_of(steps), lines_as_usize(steps), 0),
            )
        };
        generate_files(g1, depth, files, i + 1)
    } else {
        g
    }
}

/// The generator.
pub struct CopperGen {
    pub parser: CopperParser,
    pub current_line: usize,
    pub chunk: Chunk,
    pub block_increment: usize,
    pub file_path: String,
    pub imported: Vec<String>,
    pub missing: Vec<String>,
    pub errors: Vec<GenError>,
    pub sources: Sources,
}

impl View for CopperGen {
    type V = GenView;

    open spec fn view(&self) -> GenView {
        GenView {
            chunk: self.chunk@,
            current_line: self.current_line,
            block_increment: self.block_increment,
            file_path: self.file_path@,
            imported: name_views(self.imported@),
            missing: name_views(self.missing@),
            errors: self.errors@,
            sources: self.sources.files@,
        }
    }
}

fn binary_instr(t: &Token) -> (r: Option<OpCode>)
    ensures
        r is Some <==> binary_op(t@) is Some,
        r is Some ==> Some(r->0@) == binary_op(t@),
{
    match t {
        Token::CmpAnd => Some(OpCode::CmpAnd),
        Token::CmpOr => Some(OpCode::CmpOr),
        Token::Plus => Some(OpCode::Add),
        Token::Minus => Some(OpCode::Sub),
        Token::Star => Some(OpCode::Mul),
        Token::Slash => Some(OpCode::Div),
        Token::Not => Some(OpCode::Not),
        Token::EqualEqual => Some(OpCode::CmpEqual),
        Token::NotEqual => Some(OpCode::CmpNotEqual),
        Token::Less => Some(OpCode::CmpLess),
        Token::LessEqual => Some(OpCode::CmpLessEqual),
        Token::Greater => Some(OpCode::CmpGreater),
        Token::GreaterEqual => Some(OpCode::CmpGreaterEqual),
        _ => None,
    }
}

fn compound_instr(t: &Token) -> (r: Option<OpCode>)
    ensures
        r is Some <==> compound_op(t@) is Some,
        r is Some ==> Some(r->0@) == compound_op(t@),
{
    match t {
        Token::PlusEqual => Some(OpCode::Add),
        Token::MinusEqual => Some(OpCode::Sub),
        Token::StarEqual => Some(OpCode::Mul),
        Token::SlashEqual => Some(OpCode::Div),
        _ => None,
    }
}

fn unary_instr(t: &Token) -> (r: OpCode)
    ensures
        r@ == unary_op(t@),
{
    match t {
        Token::Minus => OpCode::Negate,
        Token::Not => OpCode::Not,
        _ => OpCode::Pop,
    }
}

fn type_called(t: &Token) -> (r: ClassType)
    ensures
        r@ == called_type(t@),
{
    match t {
        Token::TypeInt => ClassType::Int,
        Token::TypeUint => ClassType::Uint,
        Token::TypeDecimal => ClassType::Decimal,
        Token::TypeString => ClassType::Str,
        Token::TypeBool => ClassType::Bool,
        _ => ClassType::Any,
    }
}

fn flatten(e: &AstExpr) -> (r: Option<Vec<String>>)
    ensures
        r is Some <==> chain(e@) is Some,
        r is Some ==> Some(name_views(r->0@)) == chain(e@),
    decreases e,
{
    match e {
        AstExpr::Variable(name) => {
            let mut v: Vec<String> = Vec::new();
            v.push(name.clone());
            assert(name_views(v@) =~= seq![name@]);
            Some(v)
        },
        AstExpr::StructCall(left, right) => match flatten(left) {
            Some(names) => match &**right {
                AstExpr::Variable(field) => {
                    let mut names = names;
                    proof {
                        lemma_name_views_push(names@, *field);
                        assert(right@ == ExprView::Variable(field@));
                    }
                    names.push(field.clone());
                    Some(names)
                },
                _ => {
                    assert(!(right@ is Variable));
                    None
                },
            },
            None => None,
        },
        _ => None,
    }
}

fn tail_of(names: &Vec<String>) -> (r: Vec<String>)
    requires
        names@.len() >= 1,
    ensures
        name_views(r@) == name_views(names@).subrange(1, names@.len() as int),
{
    let mut r: Vec<String> = Vec::new();
    let mut i: usize = 1;
    while i < names.len()
        invariant
            1 <= i <= names.len(),
            r@.len() == i - 1,
            forall|j: int| 0 <= j < r@.len() ==> r@[j]@ == names@[j + 1]@,
        decreases names.len() - i,
    {
        r.push(names[i].clone());
        i += 1;
    }
    assert(name_views(r@) =~= name_views(names@).subrange(1, names@.len() as int));
    r
}

fn has_name(v: &Vec<String>, s: &String) -> (b: bool)
    ensures
        b == name_views(v@).contains(s@),
{
    let mut i: usize = 0;
    while i < v.len()
        invariant
            i <= v.len(),
            forall|j: int| 0 <= j < i ==> name_views(v@)[j] != s@,
        decreases v.len() - i,
    {
        if v[i] == *s {
            assert(name_views(v@)[i as int] == s@);
            return true;
        }
        i += 1;
    }
    false
}

fn block_function_name(n: usize) -> (s: String)
    ensures
        s@ == block_name(n),
{
    let mut s = String::new();
    push_text(&mut s, "@block_func:");
    let digits = uint_text(n as u64);
    push_text(&mut s, digits.as_str());
    assert(s@ =~= block_name(n));
    s
}

fn struct_template(name: &String, fields: &Vec<String>) -> (r: CopperStruct)
    ensures
        r@ == template(name@, name_views(fields@)),
{
    let mut names: Vec<String> = Vec::new();
    let mut values: Vec<Value> = Vec::new();
    let mut i: usize = 0;
    while i < fields.len()
        invariant
            i <= fields.len(),
            names@.len() == i,
            values@.len() == i,
            forall|j: int| 0 <= j < i ==> names@[j]@ == fields@[j]@,
            forall|j: int| 0 <= j < i ==> values@[j]@ == ValueView::Nil,
        decreases fields.len() - i,
    {
        names.push(fields[i].clone());
        values.push(Value::Nil);
        i += 1;
    }
    let r = CopperStruct { name: name.clone(), field_names: names, field_values: values };
    proof {
        lemma_struct_view(r);
        assert(name_views(r.field_names@) =~= name_views(fields@));
        assert(value_views(r.field_values@) =~= template(name@, name_views(fields@)).field_values);
    }
    r
}

/// The directory part of a path, as `directory` defines it.
pub fn directory_of(path: &String) -> (r: String)
    ensures
        r@ == directory(path@, 0, 0, Seq::empty()),
{
    let chars = chars_of(path.as_str());
    let mut out = String::new();
    let mut start: usize = 0;
    let mut i: usize = 0;
    while i < chars.len()
        invariant
            start <= i <= chars.len(),
            chars@ == path@,
            directory(chars@, start as int, i as int, out@) == directory(
                path@,
                0,
                0,
                Seq::empty(),
            ),
        decreases chars.len() - i,
    {
        if chars[i] == '/' {
            if segment_is_directory(&chars, start, i) {
                let ghost before = out@;
                let seg = string_of(&chars, start, i);
                push_text(&mut out, seg.as_str());
                push_char(&mut out, '/');
                assert(out@ =~= before + chars@.subrange(start as int, i as int) + seq!['/']);
            }
            start = i + 1;
        }
        i += 1;
    }
    if start < i && segment_is_directory(&chars, start, i) {
        let ghost before = out@;
        let seg = string_of(&chars, start, i);
        push_text(&mut out, seg.as_str());
        push_char(&mut out, '/');
        assert(out@ =~= before + chars@.subrange(start as int, i as int) + seq!['/']);
    }
    out
}

fn segment_is_directory(chars: &Vec<char>, from: usize, to: usize) -> (b: bool)
    requires
        from <= to <= chars.len(),
    ensures
        b == is_directory(chars@.subrange(from as int, to as int)),
{
    let ghost seg = chars@.subrange(from as int, to as int);
    let mut dot = false;
    let mut two = false;
    let mut i: usize = to;
    while i > from
        invariant
            from <= i <= to <= chars.len(),
            seg == chars@.subrange(from as int, to as int),
            dot == has_dot(seg, i - from),
            two == has_two_dots(seg, i - from),
        decreases i,
    {
        i -= 1;
        assert(seg[i - from] == chars@[i as int]);
        if chars[i] == '.' {
            dot = true;
            if i + 1 < to && chars[i + 1] == '.' {
                assert(seg[i - from + 1] == chars@[i + 1]);
                two = true;
            }
        }
    }
    !dot || two
}

/// The depth that an outermost source is read with. Each import takes
/// two of it, one for the source and one for its statements, and no
/// file is read twice, so twice the number of files, and two more, is
/// enough for every chain of imports.
pub open spec fn import_depth(sources: Seq<SourceFile>) -> nat {
    if sources.len() < usize::MAX / 2 - 1 {
        2 * (sources.len() + 1)
    } else {
        usize::MAX as nat
    }
}

impl CopperGen {
    /// A generator with an empty chunk, no sources, nothing imported and
    /// no error noted, at line 0 and with no block function numbered yet;
    /// its parser is one over the empty text, at its start.
    pub fn new() -> (gen: CopperGen)
        ensures
            gen@ == (GenView {
                chunk: ChunkView {
                    code: Seq::empty(),
                    lines: Seq::empty(),
                    functions: EnvView { entries: Seq::empty(), current_scope: 0 },
                },
                current_line: 0,
                block_increment: 0,
                file_path: Seq::empty(),
                imported: Seq::empty(),
                missing: Seq::empty(),
                errors: Seq::empty(),
                sources: Seq::empty(),
            }),
            gen.parser.wf(),
            gen.parser.source@ == Seq::<char>::empty(),
            token_views(gen.parser.tokens@) == tokens_of(lex_all(Seq::empty(), 0, 1)),
            gen.parser.position == 0,
            gen.parser.continue_parsing,
            gen.parser.errors@ == Seq::<ParseError>::empty(),
    {
        let gen = CopperGen {
            parser: CopperParser::new(String::new()),
            current_line: 0,
            chunk: Chunk::new(),
            block_increment: 0,
            file_path: String::new(),
            imported: Vec::new(),
            missing: Vec::new(),
            errors: Vec::new(),
            sources: Sources::new(),
        };
        proof {
            assert(gen@.chunk.code =~= Seq::empty());
            assert(gen@.chunk.lines =~= Seq::empty());
            assert(gen@.chunk.functions.entries =~= Seq::empty());
            assert(gen@.file_path =~= Seq::empty());
            assert(gen@.imported =~= Seq::empty());
            assert(gen@.missing =~= Seq::empty());
            assert(gen@.errors =~= Seq::empty());
            assert(gen@.sources =~= Seq::empty());
            assert(gen.parser.source@ =~= Seq::empty());
            assert(gen.parser.errors@ =~= Seq::empty());
        }
        gen
    }

    /// Stores the text of the file at `path`, for imports and for
    /// `generate_chunk` to read.
    pub fn provide(&mut self, path: String, text: String)
        ensures
            final(self).parser == old(self).parser,
            final(self)@ == (GenView {
                sources: old(self)@.sources.push(SourceFile { path, text }),
                ..old(self)@
            }),
    {
        self.sources.add(path, text);
    }

    fn write(&mut self, op: OpCode)
        ensures
            final(self)@ == emit(old(self)@, op@),
            final(self)@.chunk.code.len() == old(self)@.chunk.code.len() + 1,
            final(self).parser == old(self).parser,
    {
        self.chunk.write(op, self.current_line);
    }

    fn write_some(&mut self, op: Option<OpCode>)
        ensures
            final(self).parser == old(self).parser,
            final(self)@ == (match op {
                Some(o) => emit(old(self)@, o@),
                None => old(self)@,
            }),
            final(self)@.chunk.code.len() >= old(self)@.chunk.code.len(),
            final(self)@.sources == old(self)@.sources,
    {
        match op {
            Some(o) => self.write(o),
            None => {},
        }
    }

    fn blame(&mut self, e: GenError)
        ensures
            final(self).parser == old(self).parser,
            final(self)@ == blamed(old(self)@, e),
    {
        self.errors.push(e);
    }

    fn generate_patch_jmp(&mut self) -> (at: usize)
        ensures
            final(self).parser == old(self).parser,
            final(self)@ == emit(old(self)@, OpView::Jmp(0)),
            at == here(old(self)@),
            at < final(self)@.chunk.code.len(),
            final(self)@.chunk.code.len() == old(self)@.chunk.code.len() + 1,
    {
        let at = self.chunk.code.len();
        self.write(OpCode::Jmp(0));
        at
    }

    fn patch_if_false_jmp(&mut self, new_position: usize, patch_num: usize)
        requires
            patch_num < old(self)@.chunk.code.len(),
        ensures
            final(self).parser == old(self).parser,
            final(self)@ == patch(old(self)@, patch_num, OpView::JmpIfFalse(new_position)),
            final(self)@.chunk.code.len() == old(self)@.chunk.code.len(),
    {
        self.chunk.patch(patch_num, OpCode::JmpIfFalse(new_position));
    }

    fn patch_jmp(&mut self, new_position: usize, patch_num: usize)
        requires
            patch_num < old(self)@.chunk.code.len(),
        ensures
            final(self).parser == old(self).parser,
            final(self)@ == patch(old(self)@, patch_num, OpView::Jmp(new_position)),
            final(self)@.chunk.code.len() == old(self)@.chunk.code.len(),
    {
        self.chunk.patch(patch_num, OpCode::Jmp(new_position));
    }

    fn bind(&mut self, name: String, t: ClassType, count: usize, at: usize)
        ensures
            final(self).parser == old(self).parser,
            final(self)@ == bound(old(self)@, name@, t@, count, at),
            final(self)@.chunk.code.len() == old(self)@.chunk.code.len(),
    {
        if self.chunk.has_function(&name) {
            self.blame(GenError::DuplicateFunction);
        } else {
            self.chunk.bind_function(name, t, count, at);
        }
    }

    fn write_times(&mut self, op: &OpCode, n: usize)
        ensures
            final(self).parser == old(self).parser,
            final(self)@ == emit_times(old(self)@, op@, n as nat),
            final(self)@.chunk.code.len() >= old(self)@.chunk.code.len(),
            final(self)@.sources == old(self)@.sources,
    {
        let mut k: usize = n;
        while k > 0
            invariant
                self.parser == old(self).parser,
                k <= n,
                emit_times(self@, op@, k as nat) == emit_times(old(self)@, op@, n as nat),
                self@.chunk.code.len() >= old(self)@.chunk.code.len(),
                self@.sources == old(self)@.sources,
            decreases k,
        {
            self.write(op.clone());
            k -= 1;
        }
    }

    fn write_indices(&mut self, n: usize)
        ensures
            final(self).parser == old(self).parser,
            final(self)@ == emit_indices(old(self)@, n as nat),
            final(self)@.chunk.code.len() >= old(self)@.chunk.code.len(),
            final(self)@.sources == old(self)@.sources,
    {
        let mut k: usize = n;
        while k > 0
            invariant
                self.parser == old(self).parser,
                k <= n,
                emit_indices(self@, k as nat) == emit_indices(old(self)@, n as nat),
                self@.chunk.code.len() >= old(self)@.chunk.code.len(),
                self@.sources == old(self)@.sources,
            decreases k,
        {
            self.write(OpCode::StructSetByIndex(k - 1));
            k -= 1;
        }
    }

    fn write_arguments(&mut self, names: &Vec<String>, types: &Vec<ClassType>)
        ensures
            final(self).parser == old(self).parser,
            final(self)@ == emit_arguments(
                old(self)@,
                name_views(names@),
                crate::vm::type_views(types@),
                0,
            ),
            final(self)@.chunk.code.len() >= old(self)@.chunk.code.len(),
            final(self)@.sources == old(self)@.sources,
    {
        let mut i: usize = 0;
        while i < names.len() && i < types.len()
            invariant
                self.parser == old(self).parser,
                i <= names.len(),
                emit_arguments(self@, name_views(names@), crate::vm::type_views(types@), i as int)
                    == emit_arguments(
                    old(self)@,
                    name_views(names@),
                    crate::vm::type_views(types@),
                    0,
                ),
                self@.chunk.code.len() >= old(self)@.chunk.code.len(),
                self@.sources == old(self)@.sources,
            decreases names.len() - i,
        {
            self.write(OpCode::ArgumentStore(names[i].clone(), types[i].clone()));
            i += 1;
        }
    }

    /// Writes the code of the expression `expr`, which leaves the value
    /// of the expression on the stack. `depth` is how many imports may
    /// still be entered one inside the other.
    pub fn generate_expr(&mut self, expr: &AstExpr, depth: usize)
        ensures
            final(self).parser == old(self).parser,
            final(self)@ == generate(old(self)@, depth as nat, Item::Expr(expr@)),
            final(self)@.chunk.code.len() >= old(self)@.chunk.code.len(),
            final(self)@.sources == old(self)@.sources,
        decreases depth, expr, 2int,
    {
        match expr {
            AstExpr::Nothing => {},
            AstExpr::Literal(v) => self.write(OpCode::Push(v.clone())),
            AstExpr::Variable(name) => self.write(OpCode::Load(name.clone())),
            AstExpr::New(name) => self.write(OpCode::NewStruct(name.clone())),
            AstExpr::TypeCall(_, _) => self.expr_wrapped(expr, depth),
            AstExpr::Group(_) => self.expr_wrapped(expr, depth),
            AstExpr::Unary(_, _) => self.expr_wrapped(expr, depth),
            AstExpr::Binary(_, _, _) => self.expr_binary(expr, depth),
            AstExpr::Ternary(_, _, _) => self.expr_ternary(expr, depth),
            AstExpr::Assign(_, _) => self.expr_assign(expr, depth),
            AstExpr::AssignByOp(_, _, _) => self.expr_assign_op(expr, depth),
            AstExpr::Call(_, _) => self.expr_call(expr, depth),
            AstExpr::NewCall(_, _) => self.expr_new_call(expr, depth),
            AstExpr::StructCall(_, _) => self.expr_struct_call(expr, depth),
            AstExpr::Block(_) => self.expr_block(expr, depth),
        }
    }

    fn expr_wrapped(&mut self, expr: &AstExpr, depth: usize)
        requires
            expr is TypeCall || expr is Group || expr is Unary,
        ensures
            final(self).parser == old(self).parser,
            final(self)@ == generate(old(self)@, depth as nat, Item::Expr(expr@)),
            final(self)@.chunk.code.len() >= old(self)@.chunk.code.len(),
            final(self)@.sources == old(self)@.sources,
        decreases depth, expr, 1int,
    {
        match expr {
            AstExpr::TypeCall(t, x) => {
                self.generate_expr(x, depth);
                self.write(OpCode::TransformToType(type_called(t)));
            },
            AstExpr::Group(x) => self.generate_expr(x, depth),
            AstExpr::Unary(op, x) => {
                self.generate_expr(x, depth);
                self.write(unary_instr(op));
            },
            _ => {},
        }
    }

    fn expr_binary(&mut self, expr: &AstExpr, depth: usize)
        requires
            expr is Binary,
        ensures
            final(self).parser == old(self).parser,
            final(self)@ == generate(old(self)@, depth as nat, Item::Expr(expr@)),
            final(self)@.chunk.code.len() >= old(self)@.chunk.code.len(),
            final(self)@.sources == old(self)@.sources,
        decreases depth, expr, 1int,
    {
        match expr {
            AstExpr::Binary(a, op, b) => {
                self.generate_expr(a, depth);
                self.generate_expr(b, depth);
                self.write_some(binary_instr(op));
            },
            _ => {},
        }
    }

    fn expr_ternary(&mut self, expr: &AstExpr, depth: usize)
        requires
            expr is Ternary,
        ensures
            final(self).parser == old(self).parser,
            final(self)@ == generate(old(self)@, depth as nat, Item::Expr(expr@)),
            final(self)@.chunk.code.len() >= old(self)@.chunk.code.len(),
            final(self)@.sources == old(self)@.sources,
        decreases depth, expr, 1int,
    {
        match expr {
            AstExpr::Ternary(c, t, f) => {
                self.generate_expr(c, depth);
                let jmp_over = self.generate_patch_jmp();
                self.generate_expr(t, depth);
                let jmp_over_false = self.generate_patch_jmp();
                self.patch_if_false_jmp(self.chunk.code.len(), jmp_over);
                self.generate_expr(f, depth);
                self.patch_jmp(self.chunk.code.len(), jmp_over_false);
            },
            _ => {},
        }
    }

    fn write_target(&mut self, target: &AstExpr)
        ensures
            final(self).parser == old(self).parser,
            final(self)@ == (match chain(target@) {
                Some(names) => if names.len() == 1 {
                    emit(old(self)@, OpView::Assign(names[0]))
                } else {
                    emit(
                        old(self)@,
                        OpView::StructSet(names[0], names.subrange(1, names.len() as int)),
                    )
                },
                None => blamed(old(self)@, GenError::InvalidTarget),
            }),
            final(self)@.chunk.code.len() >= old(self)@.chunk.code.len(),
            final(self)@.sources == old(self)@.sources,
    {
        match flatten(target) {
            Some(names) => {
                proof {
                    lemma_chain_has_names(target@);
                }
                if names.len() == 1 {
                    self.write(OpCode::Assign(names[0].clone()));
                } else {
                    let fields = tail_of(&names);
                    self.write(OpCode::StructSet(names[0].clone(), fields));
                }
            },
            None => self.blame(GenError::InvalidTarget),
        }
    }

    fn expr_assign(&mut self, expr: &AstExpr, depth: usize)
        requires
            expr is Assign,
        ensures
            final(self).parser == old(self).parser,
            final(self)@ == generate(old(self)@, depth as nat, Item::Expr(expr@)),
            final(self)@.chunk.code.len() >= old(self)@.chunk.code.len(),
            final(self)@.sources == old(self)@.sources,
        decreases depth, expr, 1int,
    {
        match expr {
            AstExpr::Assign(target, x) => {
                self.generate_value(x, depth);
                self.write_target(target);
            },
            _ => {},
        }
    }

    fn expr_assign_op(&mut self, expr: &AstExpr, depth: usize)
        requires
            expr is AssignByOp,
        ensures
            final(self).parser == old(self).parser,
            final(self)@ == generate(old(self)@, depth as nat, Item::Expr(expr@)),
            final(self)@.chunk.code.len() >= old(self)@.chunk.code.len(),
            final(self)@.sources == old(self)@.sources,
        decreases depth, expr, 1int,
    {
        match expr {
            AstExpr::AssignByOp(name, op, x) => {
                self.write(OpCode::Load(name.clone()));
                self.generate_value(x, depth);
                self.write_some(compound_instr(op));
                self.write(OpCode::Assign(name.clone()));
            },
            _ => {},
        }
    }

    fn expr_call(&mut self, expr: &AstExpr, depth: usize)
        requires
            expr is Call,
        ensures
            final(self).parser == old(self).parser,
            final(self)@ == generate(old(self)@, depth as nat, Item::Expr(expr@)),
            final(self)@.chunk.code.len() >= old(self)@.chunk.code.len(),
            final(self)@.sources == old(self)@.sources,
        decreases depth, expr, 1int,
    {
        match expr {
            AstExpr::Call(name, args) => {
                proof {
                    lemma_call_view(*name, *args);
                }
                self.generate_values(args, 0, depth);
                self.write_times(&OpCode::PopToCall, args.len());
                self.write(OpCode::CallFunc(name.clone()));
            },
            _ => {},
        }
    }

    fn expr_new_call(&mut self, expr: &AstExpr, depth: usize)
        requires
            expr is NewCall,
        ensures
            final(self).parser == old(self).parser,
            final(self)@ == generate(old(self)@, depth as nat, Item::Expr(expr@)),
            final(self)@.chunk.code.len() >= old(self)@.chunk.code.len(),
            final(self)@.sources == old(self)@.sources,
        decreases depth, expr, 1int,
    {
        match expr {
            AstExpr::NewCall(name, args) => {
                proof {
                    lemma_call_view(*name, *args);
                }
                self.generate_values(args, 0, depth);
                self.write(OpCode::NewStruct(name.clone()));
                self.write_indices(args.len());
            },
            _ => {},
        }
    }

    fn expr_struct_call(&mut self, expr: &AstExpr, depth: usize)
        requires
            expr is StructCall,
        ensures
            final(self).parser == old(self).parser,
            final(self)@ == generate(old(self)@, depth as nat, Item::Expr(expr@)),
            final(self)@.chunk.code.len() >= old(self)@.chunk.code.len(),
            final(self)@.sources == old(self)@.sources,
        decreases depth, expr, 1int,
    {
        match expr {
            AstExpr::StructCall(left, right) => {
                self.generate_expr(left, depth);
                match &**right {
                    AstExpr::Variable(field) => {
                        assert(right@ == ExprView::Variable(field@));
                        self.write(OpCode::StructGet(field.clone()));
                    },
                    _ => {
                        assert(!(right@ is Variable));
                        self.blame(GenError::InvalidTarget);
                    },
                }
            },
            _ => {},
        }
    }

    fn expr_block(&mut self, expr: &AstExpr, depth: usize)
        requires
            expr is Block,
        ensures
            final(self).parser == old(self).parser,
            final(self)@ == generate(old(self)@, depth as nat, Item::Expr(expr@)),
            final(self)@.chunk.code.len() >= old(self)@.chunk.code.len(),
            final(self)@.sources == old(self)@.sources,
        decreases depth, expr, 1int,
    {
        match expr {
            AstExpr::Block(stmts) => {
                proof {
                    lemma_block_view(*stmts);
                }
                self.write(OpCode::StartScope);
                self.generate_stmts(stmts, 0, false, depth);
                self.write(OpCode::EndScope);
            },
            _ => {},
        }
    }

    fn generate_value(&mut self, expr: &AstExpr, depth: usize)
        ensures
            final(self).parser == old(self).parser,
            final(self)@ == generate(old(self)@, depth as nat, Item::Value(expr@)),
            final(self)@.chunk.code.len() >= old(self)@.chunk.code.len(),
            final(self)@.sources == old(self)@.sources,
        decreases depth, expr, 3int,
    {
        match expr {
            AstExpr::Block(_) => self.generate_block_function(expr, depth),
            _ => self.generate_expr(expr, depth),
        }
    }

    fn generate_values(&mut self, args: &Vec<AstExpr>, from: usize, depth: usize)
        ensures
            final(self).parser == old(self).parser,
            final(self)@ == generate(
                old(self)@,
                depth as nat,
                Item::Values(expr_views(args@), from as int),
            ),
            final(self)@.chunk.code.len() >= old(self)@.chunk.code.len(),
            final(self)@.sources == old(self)@.sources,
        decreases depth, args, args.len() - from,
    {
        if from < args.len() {
            assert(decreases_to!(args => args[from as int]));
            self.generate_value(&args[from], depth);
            self.generate_values(args, from + 1, depth);
        }
    }

    fn generate_block_function(&mut self, block: &AstExpr, depth: usize)
        ensures
            final(self).parser == old(self).parser,
            final(self)@ == generate(old(self)@, depth as nat, Item::BlockFunction(block@)),
            final(self)@.chunk.code.len() >= old(self)@.chunk.code.len(),
            final(self)@.sources == old(self)@.sources,
        decreases depth, block, 2int,
    {
        match block {
            AstExpr::Block(stmts) => {
                proof {
                    lemma_block_view(*stmts);
                }
                let name = block_function_name(self.block_increment);
                if self.block_increment < usize::MAX {
                    self.block_increment += 1;
                }
                let jmp_over = self.generate_patch_jmp();
                self.bind(name.clone(), ClassType::Any, 0, self.chunk.code.len());
                self.write(OpCode::StartScope);
                self.write(OpCode::StartScope);
                self.generate_stmts(stmts, 0, true, depth);
                self.block_function_end(jmp_over, name);
            },
            _ => {},
        }
    }

    fn block_function_end(&mut self, jmp_over: usize, name: String)
        requires
            jmp_over < old(self)@.chunk.code.len(),
        ensures
            final(self).parser == old(self).parser,
            final(self)@ == ({
                let g5 = emit(
                    emit(
                        emit(emit(old(self)@, OpView::EndScope), OpView::Push(ValueView::Nil)),
                        OpView::Return,
                    ),
                    OpView::EndScope,
                );
                emit(patch(g5, jmp_over, OpView::Jmp(here(g5))), OpView::CallFunc(name@))
            }),
            final(self)@.chunk.code.len() >= old(self)@.chunk.code.len(),
            final(self)@.sources == old(self)@.sources,
    {
        self.write(OpCode::EndScope);
        self.write(OpCode::Push(Value::Nil));
        self.write(OpCode::Return);
        self.write(OpCode::EndScope);
        self.patch_jmp(self.chunk.code.len(), jmp_over);
        self.write(OpCode::CallFunc(name));
    }

    fn blacklist_expr(&mut self, expr: &AstExpr, depth: usize)
        ensures
            final(self).parser == old(self).parser,
            final(self)@ == generate(old(self)@, depth as nat, Item::Discard(expr@)),
            final(self)@.chunk.code.len() >= old(self)@.chunk.code.len(),
            final(self)@.sources == old(self)@.sources,
        decreases depth, expr, 3int,
    {
        match expr {
            AstExpr::Unary(_, _) => {},
            AstExpr::Literal(_) => {},
            AstExpr::Binary(_, _, _) => self.discard_binary(expr, depth),
            AstExpr::Group(x) => self.generate_expr(x, depth),
            AstExpr::Call(name, args) => {
                proof {
                    lemma_call_view(*name, *args);
                }
                self.generate_expr(expr, depth);
                self.write(OpCode::Pop);
            },
            AstExpr::Ternary(_, _, _) => self.discard_ternary(expr, depth),
            _ => self.generate_expr(expr, depth),
        }
    }

    fn discard_binary(&mut self, expr: &AstExpr, depth: usize)
        requires
            expr is Binary,
        ensures
            final(self).parser == old(self).parser,
            final(self)@ == generate(old(self)@, depth as nat, Item::Discard(expr@)),
            final(self)@.chunk.code.len() >= old(self)@.chunk.code.len(),
            final(self)@.sources == old(self)@.sources,
        decreases depth, expr, 1int,
    {
        match expr {
            AstExpr::Binary(a, _, b) => {
                self.blacklist_expr(a, depth);
                self.blacklist_expr(b, depth);
            },
            _ => {},
        }
    }

    fn discard_ternary(&mut self, expr: &AstExpr, depth: usize)
        requires
            expr is Ternary,
        ensures
            final(self).parser == old(self).parser,
            final(self)@ == generate(old(self)@, depth as nat, Item::Discard(expr@)),
            final(self)@.chunk.code.len() >= old(self)@.chunk.code.len(),
            final(self)@.sources == old(self)@.sources,
        decreases depth, expr, 1int,
    {
        match expr {
            AstExpr::Ternary(c, t, f) => {
                self.generate_expr(c, depth);
                let jmp_over = self.generate_patch_jmp();
                self.blacklist_expr(t, depth);
                let jmp_over_false = self.generate_patch_jmp();
                self.patch_if_false_jmp(self.chunk.code.len(), jmp_over);
                self.blacklist_expr(f, depth);
                self.patch_jmp(self.chunk.code.len(), jmp_over_false);
            },
            _ => {},
        }
    }

    fn generate_stmts(&mut self, stmts: &Vec<AstStmt>, from: usize, last: bool, depth: usize)
        ensures
            final(self).parser == old(self).parser,
            final(self)@ == generate(
                old(self)@,
                depth as nat,
                Item::Stmts(stmt_views(stmts@), from as int, last),
            ),
            final(self)@.chunk.code.len() >= old(self)@.chunk.code.len(),
            final(self)@.sources == old(self)@.sources,
        decreases depth, stmts, stmts.len() - from,
    {
        if from < stmts.len() {
            assert(decreases_to!(stmts => stmts[from as int]));
            if last && from == stmts.len() - 1 {
                match &stmts[from] {
                    AstStmt::Expr(e) => {
                        self.generate_expr(e, depth);
                        self.write(OpCode::Return);
                        return ;
                    },
                    _ => {},
                }
            }
            self.generate_stmt(&stmts[from], depth);
            self.generate_stmts(stmts, from + 1, last, depth);
        }
    }

    /// Writes the code of the statement `stmt`. An import reads the file
    /// stored under its path, unless that path has been read already;
    /// `depth` is how many imports may still be entered one inside the
    /// other.
    pub fn generate_stmt(&mut self, stmt: &AstStmt, depth: usize)
        ensures
            final(self).parser == old(self).parser,
            final(self)@ == generate(old(self)@, depth as nat, Item::Stmt(stmt@)),
            final(self)@.chunk.code.len() >= old(self)@.chunk.code.len(),
            final(self)@.sources == old(self)@.sources,
        decreases depth, stmt, 2int,
    {
        match stmt {
            AstStmt::Expr(expr) => self.blacklist_expr(expr, depth),
            AstStmt::Declaration(_, _, _) => self.stmt_declaration(stmt, depth),
            AstStmt::InferDeclaration(_, _) => self.stmt_declaration(stmt, depth),
            AstStmt::If(_, _, _) => self.stmt_if(stmt, depth),
            AstStmt::While(_, _) => self.stmt_while(stmt, depth),
            AstStmt::Function(_, _, _, _, _) => self.stmt_function(stmt, depth),
            AstStmt::Struct(name, fields) => {
                self.chunk.bind_struct(struct_template(name, fields));
            },
            AstStmt::Return(_) => self.stmt_return(stmt, depth),
            AstStmt::Quit => self.write(OpCode::EndScript),
            AstStmt::Import(_) => self.import(stmt, depth),
        }
    }

    fn stmt_declaration(&mut self, stmt: &AstStmt, depth: usize)
        requires
            stmt is Declaration || stmt is InferDeclaration,
        ensures
            final(self).parser == old(self).parser,
            final(self)@ == generate(old(self)@, depth as nat, Item::Stmt(stmt@)),
            final(self)@.chunk.code.len() >= old(self)@.chunk.code.len(),
            final(self)@.sources == old(self)@.sources,
        decreases depth, stmt, 1int,
    {
        match stmt {
            AstStmt::Declaration(name, ctype, expr) => {
                self.generate_value(expr, depth);
                self.write(OpCode::Store(name.clone(), ctype.clone()));
            },
            AstStmt::InferDeclaration(name, expr) => {
                self.generate_value(expr, depth);
                self.write(OpCode::InferStore(name.clone()));
            },
            _ => {},
        }
    }

    fn stmt_if(&mut self, stmt: &AstStmt, depth: usize)
        requires
            stmt is If,
        ensures
            final(self).parser == old(self).parser,
            final(self)@ == generate(old(self)@, depth as nat, Item::Stmt(stmt@)),
            final(self)@.chunk.code.len() >= old(self)@.chunk.code.len(),
            final(self)@.sources == old(self)@.sources,
        decreases depth, stmt, 1int,
    {
        match stmt {
            AstStmt::If(condition, then_branch, else_branch) => {
                self.generate_expr(condition, depth);
                let then = self.generate_patch_jmp();
                self.generate_stmt(then_branch, depth);
                let else_jmp = self.generate_patch_jmp();
                self.patch_if_false_jmp(self.chunk.code.len(), then);
                match else_branch {
                    Some(other) => self.generate_stmt(other, depth),
                    None => {},
                }
                self.patch_jmp(self.chunk.code.len(), else_jmp);
            },
            _ => {},
        }
    }

    fn stmt_while(&mut self, stmt: &AstStmt, depth: usize)
        requires
            stmt is While,
        ensures
            final(self).parser == old(self).parser,
            final(self)@ == generate(old(self)@, depth as nat, Item::Stmt(stmt@)),
            final(self)@.chunk.code.len() >= old(self)@.chunk.code.len(),
            final(self)@.sources == old(self)@.sources,
        decreases depth, stmt, 1int,
    {
        match stmt {
            AstStmt::While(condition, body) => {
                let beginning = self.chunk.code.len();
                self.generate_expr(condition, depth);
                let while_loop = self.generate_patch_jmp();
                self.generate_expr(body, depth);
                self.write(OpCode::Jmp(beginning));
                self.patch_if_false_jmp(self.chunk.code.len(), while_loop);
            },
            _ => {},
        }
    }

    fn stmt_function(&mut self, stmt: &AstStmt, depth: usize)
        requires
            stmt is Function,
        ensures
            final(self).parser == old(self).parser,
            final(self)@ == generate(old(self)@, depth as nat, Item::Stmt(stmt@)),
            final(self)@.chunk.code.len() >= old(self)@.chunk.code.len(),
            final(self)@.sources == old(self)@.sources,
        decreases depth, stmt, 1int,
    {
        match stmt {
            AstStmt::Function(name, ctype, arg_names, arg_types, body) => {
                let jmp_over = self.generate_patch_jmp();
                let bytecode_pos = self.chunk.code.len();
                self.write(OpCode::StartScope);
                self.write_arguments(arg_names, arg_types);
                self.generate_expr(body, depth);
                self.function_end(jmp_over, bytecode_pos, name, ctype, arg_names.len());
                proof {
                    assert(count_of(name_views(arg_names@)) == arg_names.len());
                }
            },
            _ => {},
        }
    }

    fn function_end(
        &mut self,
        jmp_over: usize,
        at: usize,
        name: &String,
        ctype: &ClassType,
        count: usize,
    )
        requires
            jmp_over < old(self)@.chunk.code.len(),
        ensures
            final(self).parser == old(self).parser,
            final(self)@ == ({
                let g3 = emit(
                    emit(emit(old(self)@, OpView::Push(ValueView::Nil)), OpView::Return),
                    OpView::EndScope,
                );
                let g4 = bound(g3, name@, ctype@, count, at);
                patch(g4, jmp_over, OpView::Jmp(here(g4)))
            }),
            final(self)@.chunk.code.len() >= old(self)@.chunk.code.len(),
            final(self)@.sources == old(self)@.sources,
    {
        self.write(OpCode::Push(Value::Nil));
        self.write(OpCode::Return);
        self.write(OpCode::EndScope);
        self.bind(name.clone(), ctype.clone(), count, at);
        self.patch_jmp(self.chunk.code.len(), jmp_over);
    }

    fn stmt_return(&mut self, stmt: &AstStmt, depth: usize)
        requires
            stmt is Return,
        ensures
            final(self).parser == old(self).parser,
            final(self)@ == generate(old(self)@, depth as nat, Item::Stmt(stmt@)),
            final(self)@.chunk.code.len() >= old(self)@.chunk.code.len(),
            final(self)@.sources == old(self)@.sources,
        decreases depth, stmt, 1int,
    {
        match stmt {
            AstStmt::Return(return_val) => {
                match return_val {
                    Some(expr) => self.generate_expr(expr, depth),
                    None => self.write(OpCode::Push(Value::Nil)),
                }
                self.write(OpCode::Return);
            },
            _ => {},
        }
    }

    fn import(&mut self, stmt: &AstStmt, depth: usize)
        requires
            stmt is Import,
        ensures
            final(self).parser == old(self).parser,
            final(self)@ == generate(old(self)@, depth as nat, Item::Stmt(stmt@)),
            final(self)@.chunk.code.len() >= old(self)@.chunk.code.len(),
            final(self)@.sources == old(self)@.sources,
        decreases depth, stmt, 1int,
    {
        let path = match stmt {
            AstStmt::Import(path) => path,
            _ => {
                return ;
            },
        };
        let mut full = directory_of(&self.file_path);
        push_text(&mut full, path.as_str());
        if has_name(&self.imported, &full) {
            return ;
        }
        match self.sources.find(&full) {
            None => {
                proof {
                    lemma_name_views_push(self.imported@, full);
                    lemma_name_views_push(self.missing@, full);
                }
                self.imported.push(full.clone());
                self.missing.push(full);
            },
            Some(_) => {
                if depth == 0 {
                    self.blame(GenError::ImportTooDeep);
                    return ;
                }
                proof {
                    lemma_name_views_push(self.imported@, full);
                }
                self.imported.push(full.clone());
                let mut parser = self.open(&full);
                let saved_line = self.current_line;
                let mut saved_path = full;
                std::mem::swap(&mut self.file_path, &mut saved_path);
                self.generate_source(&mut parser, depth - 1);
                self.file_path = saved_path;
                self.current_line = saved_line;
            },
        }
    }

    /// A parser on the source stored under `path`, after the expansion
    /// of its macros.
    fn open(&self, path: &String) -> (parser: CopperParser)
        requires
            source_text(self@.sources, path@) is Some,
        ensures
            parser.wf(),
            parser.position == 0,
            parser.continue_parsing,
            parser.errors@.len() == 0,
            parser.source@ == expanded(self@.sources, path@),
            token_views(parser.tokens@) == tokens_of(source_steps(self@.sources, path@)),
            parser.lines@ == lines_as_usize(source_steps(self@.sources, path@)),
            line_views(parser.lines@) == lines_of(source_steps(self@.sources, path@)),
            name_views(parser.lexemes@) == texts_of(
                expanded(self@.sources, path@),
                source_steps(self@.sources, path@),
            ),
    {
        let mut expander = MacroExpander::new(Vec::new());
        expander.defs.sources = self.sources.duplicate();
        let ghost stored = expander.defs.sources.files@;
        let text = expander.compile_with_path(path.clone(), String::new());
        proof {
            assert(Seq::<char>::empty() + path@ =~= path@);
            assert(crate::mini_macros::tokenizer::stored_text(stored, path@)
                == crate::mini_macros::tokenizer::stored_text(self@.sources, path@));
        }
        let parser = CopperParser::new(text);
        proof {
            let steps = source_steps(self@.sources, path@);
            assert(line_views(parser.lines@) == lines_of(steps));
            assert(line_views(parser.lines@).len() == lines_of(steps).len());
            assert(parser.lines@.len() == steps.len());
            assert forall|i: int| 0 <= i < parser.lines@.len() implies parser.lines@[i]
                == lines_as_usize(steps)[i] by {
                assert(line_views(parser.lines@)[i] == lines_of(steps)[i]);
                assert(parser.lines@[i] as int == steps[i].line);
            }
            assert(parser.lines@ =~= lines_as_usize(steps));
        }
        parser
    }

    fn generate_source(&mut self, parser: &mut CopperParser, depth: usize)
        requires
            old(parser).wf(),
            old(parser).continue_parsing,
        ensures
            final(self).parser == old(self).parser,
            final(self)@ == generate(
                old(self)@,
                depth as nat,
                Item::Source(
                    token_views(old(parser).tokens@),
                    old(parser).lines@,
                    old(parser).position as int,
                ),
            ),
            final(self)@.chunk.code.len() >= old(self)@.chunk.code.len(),
            final(self)@.sources == old(self)@.sources,
            has_read(*old(parser), *final(parser), depth as nat),
        decreases depth, old(parser).tokens, old(parser).tokens.len() - old(parser).position,
    {
        if parser.at_end() {
            return ;
        }
        match parser.parse() {
            Some(stmt) => {
                self.current_line = parser.current_line;
                if depth == 0 {
                    self.blame(GenError::ImportTooDeep);
                } else {
                    self.generate_stmt(&stmt, depth - 1);
                    self.generate_source(parser, depth);
                }
            },
            None => {
                let n = parser.errors.len();
                let kind = parser.errors[n - 1].kind;
                let line = parser.errors[n - 1].line;
                self.blame(GenError::Syntax(kind, line));
            },
        }
    }

    fn depth_limit(&self) -> (d: usize)
        ensures
            d == import_depth(self@.sources),
    {
        if self.sources.files.len() < usize::MAX / 2 - 1 {
            2 * (self.sources.files.len() + 1)
        } else {
            usize::MAX
        }
    }

    /// Makes code of the source text `source`, as part of the file that
    /// the generator is reading.
    pub fn add_content(&mut self, source: String)
        ensures
            final(self)@ == generate(
                old(self)@,
                import_depth(old(self)@.sources),
                Item::Source(
                    tokens_of(lex_all(source@, 0, 1)),
                    lines_as_usize(lex_all(source@, 0, 1)),
                    0,
                ),
            ),
            has_read_text(final(self).parser, source@, import_depth(old(self)@.sources)),
    {
        let mut parser = CopperParser::new(source);
        let ghost fresh = parser;
        proof {
            let steps = lex_all(source@, 0, 1);
            assert(line_views(parser.lines@) == lines_of(steps));
            assert(line_views(parser.lines@).len() == lines_of(steps).len());
            assert(parser.lines@.len() == steps.len());
            assert forall|i: int| 0 <= i < parser.lines@.len() implies parser.lines@[i]
                == lines_as_usize(steps)[i] by {
                assert(line_views(parser.lines@)[i] == lines_of(steps)[i]);
                assert(parser.lines@[i] as int == steps[i].line);
            }
            assert(parser.lines@ =~= lines_as_usize(steps));
        }
        let depth = self.depth_limit();
        self.generate_source(&mut parser, depth);
        proof {
            lemma_has_read_text(fresh, parser, source@, depth as nat);
        }
        self.parser = parser;
    }

    /// Makes code of the files stored under the paths `files`, one after
    /// the other, ends the script, and hands out the chunk; the
    /// generator is left with an empty one. Its parser is then the one
    /// that has read the last of the files that are stored, or the one it
    /// had if none is.
    pub fn generate_chunk(&mut self, files: Vec<String>) -> (chunk: Chunk)
        ensures
            chunk@ == emit(
                generate_files(old(self)@, import_depth(old(self)@.sources), files@, 0),
                OpView::EndScript,
            ).chunk,
            final(self)@ == (GenView {
                chunk: ChunkView {
                    code: Seq::empty(),
                    lines: Seq::empty(),
                    functions: EnvView { entries: Seq::empty(), current_scope: 0 },
                },
                ..generate_files(old(self)@, import_depth(old(self)@.sources), files@, 0)
            }),
            match last_stored(old(self)@.sources, files@, files@.len() as int) {
                Some(k) => 0 <= k < files@.len() && has_read_text(
                    final(self).parser,
                    expanded(old(self)@.sources, files@[k]@),
                    import_depth(old(self)@.sources),
                ),
                None => final(self).parser == old(self).parser,
            },
    {
        let depth = self.depth_limit();
        let mut i: usize = 0;
        while i < files.len()
            invariant
                i <= files.len(),
                depth == import_depth(old(self)@.sources),
                self@.sources == old(self)@.sources,
                generate_files(self@, depth as nat, files@, i as int) == generate_files(
                    old(self)@,
                    depth as nat,
                    files@,
                    0,
                ),
                match last_stored(old(self)@.sources, files@, i as int) {
                    Some(k) => 0 <= k < files@.len() && has_read_text(
                        self.parser,
                        expanded(old(self)@.sources, files@[k]@),
                        depth as nat,
                    ),
                    None => self.parser == old(self).parser,
                },
            decreases files.len() - i,
        {
            match self.sources.find(&files[i]) {
                None => {
                    proof {
                        lemma_name_views_push(self.missing@, files@[i as int]);
                    }
                    self.missing.push(files[i].clone());
                },
                Some(_) => {
                    let mut parser = self.open(&files[i]);
                    let ghost fresh = parser;
                    self.file_path = files[i].clone();
                    if !has_name(&self.imported, &files[i]) {
                        proof {
                            lemma_name_views_push(self.imported@, files@[i as int]);
                        }
                        self.imported.push(files[i].clone());
                    }
                    self.generate_source(&mut parser, depth);
                    proof {
                        lemma_has_read_text(
                            fresh,
                            parser,
                            expanded(old(self)@.sources, files@[i as int]@),
                            depth as nat,
                        );
                    }
                    self.parser = parser;
                },
            }
            i += 1;
        }
        self.write(OpCode::EndScript);
        let mut finished = Chunk::new();
        std::mem::swap(&mut self.chunk, &mut finished);
        proof {
            assert(self@.chunk.code =~= Seq::empty());
        }
        finished
    }
}

} // verus!
