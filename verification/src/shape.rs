//! The shape of generated code: what holds of every chunk that the
//! generator writes, whatever the source.

use vstd::prelude::*;
use crate::chunk::OpView;
use crate::codegen::{
    binary_op, blamed, block_name, bound, bump, chain, compound_op, count_of, emit, emit_arguments,
    emit_indices, emit_some, emit_times, generate, generate_files, here, item_size,
    lines_as_usize, noted, patch,
    registered, resolved, size_e, size_es, size_s, size_ss, source_steps, template, unary_op,
    called_type, GenError, GenView, Item,
};
use crate::environment::EntryView;
use crate::parser::{line_at, statement_at, tokens_of, ExprView, Got, StmtView};
use crate::text::{find_source, source_text, SourceFile};
use crate::value::{ClassTypeView, ValueView};

verus! {

/// What an instruction does to the depth of scopes: `StartScope` opens
/// one, `EndScope` closes one.
pub open spec fn scope_step(op: OpView) -> int {
    match op {
        OpView::StartScope => 1,
        OpView::EndScope => -1,
        _ => 0,
    }
}

/// The scopes that a run of code opens, less those that it closes.
pub open spec fn scope_balance(code: Seq<OpView>) -> int
    decreases code.len(),
{
    if code.len() == 0 {
        0
    } else {
        scope_balance(code.drop_last()) + scope_step(code.last())
    }
}

/// Whether `b` starts with `a`.
pub open spec fn extends(a: Seq<OpView>, b: Seq<OpView>) -> bool {
    a.len() <= b.len() && b.subrange(0, a.len() as int) == a
}

/// The paths of the files stored.
pub open spec fn paths_of(sources: Seq<SourceFile>) -> Seq<Seq<char>> {
    Seq::new(sources.len(), |i: int| sources[i].path@)
}

/// The paths under which a text is stored and that have not been read.
pub open spec fn unread_of(sources: Seq<SourceFile>, imported: Seq<Seq<char>>) -> Set<Seq<char>> {
    paths_of(sources).to_set().difference(imported.to_set())
}

/// The stored paths that the generator has not read.
pub open spec fn unread(g: GenView) -> Set<Seq<char>> {
    unread_of(g.sources, g.imported)
}

/// Whether the errors `b` start with the errors `a`.
pub open spec fn errors_kept(a: Seq<GenError>, b: Seq<GenError>) -> bool {
    a.len() <= b.len() && b.subrange(0, a.len() as int) == a
}

/// Whether none of the errors that `g2` has noted beyond those of `g` is
/// that imports are nested too deep.
pub open spec fn fine(g: GenView, g2: GenView) -> bool {
    forall|k: int|
        g.errors.len() <= k < g2.errors.len() ==> #[trigger] g2.errors[k]
            != GenError::ImportTooDeep
}

/// Whether `depth` is enough for the work on `item`: two for every
/// stored path that has not been read, and one more for a source.
pub open spec fn tall(g: GenView, depth: nat, item: Item) -> bool {
    depth >= 2 * unread(g).len() + (if item is Source {
        1nat
    } else {
        0nat
    })
}

/// A text is stored under a path exactly if the path is one of the
/// paths of the files stored.
proof fn lemma_stored(sources: Seq<SourceFile>, p: Seq<char>, i: int)
    requires
        0 <= i,
    ensures
        find_source(sources, p, i) is Some <==> exists|k: int|
            i <= k < sources.len() && #[trigger] sources[k].path@ == p,
    decreases sources.len() - i,
{
    if i < sources.len() {
        if sources[i].path@ != p {
            lemma_stored(sources, p, i + 1);
            if exists|k: int| i <= k < sources.len() && #[trigger] sources[k].path@ == p {
                let k = choose|k: int| i <= k < sources.len() && #[trigger] sources[k].path@ == p;
                assert(i + 1 <= k);
            }
        }
    }
}

/// The stored paths that have not been read are finitely many, no more
/// than there are files.
proof fn lemma_unread_bound(sources: Seq<SourceFile>, imported: Seq<Seq<char>>)
    ensures
        unread_of(sources, imported).finite(),
        unread_of(sources, imported).len() <= sources.len(),
{
    broadcast use vstd::seq_lib::seq_to_set_is_finite;
    let paths = paths_of(sources);
    paths.lemma_cardinality_of_set();
    vstd::set_lib::lemma_len_subset(unread_of(sources, imported), paths.to_set());
}

/// The more paths have been read, the fewer are unread.
proof fn lemma_unread_shrinks(
    sources: Seq<SourceFile>,
    imported: Seq<Seq<char>>,
    later: Seq<Seq<char>>,
)
    requires
        forall|p: Seq<char>| imported.contains(p) ==> #[trigger] later.contains(p),
    ensures
        unread_of(sources, later).len() <= unread_of(sources, imported).len(),
{
    lemma_unread_bound(sources, imported);
    assert(unread_of(sources, later).subset_of(unread_of(sources, imported))) by {
        assert forall|p: Seq<char>| unread_of(sources, later).contains(p) implies unread_of(
            sources,
            imported,
        ).contains(p) by {
            if imported.contains(p) {
                assert(later.contains(p));
            }
        }
    }
    vstd::set_lib::lemma_len_subset(unread_of(sources, later), unread_of(sources, imported));
}

/// Reading a stored path that was unread leaves one fewer unread.
proof fn lemma_unread_less(sources: Seq<SourceFile>, imported: Seq<Seq<char>>, p: Seq<char>)
    requires
        source_text(sources, p) is Some,
        !imported.contains(p),
    ensures
        unread_of(sources, imported).len() >= 1,
        unread_of(sources, imported.push(p)).len() == unread_of(sources, imported).len() - 1,
{
    lemma_unread_bound(sources, imported);
    lemma_stored(sources, p, 0);
    let k = choose|k: int| 0 <= k < sources.len() && #[trigger] sources[k].path@ == p;
    assert(paths_of(sources)[k] == p);
    assert(paths_of(sources).to_set().contains(p));
    assert(unread_of(sources, imported).contains(p));
    assert(unread_of(sources, imported.push(p)) =~= unread_of(sources, imported).remove(p)) by {
        assert forall|q: Seq<char>| unread_of(sources, imported.push(p)).contains(q)
            <==> unread_of(sources, imported).remove(p).contains(q) by {
            if q == p {
                assert(imported.push(p)[imported.len() as int] == p);
            } else {
                if imported.push(p).contains(q) {
                    let j = choose|j: int| 0 <= j < imported.push(p).len() && imported.push(p)[j] == q;
                    assert(imported[j] == q);
                }
                if imported.contains(q) {
                    let j = choose|j: int| 0 <= j < imported.len() && imported[j] == q;
                    assert(imported.push(p)[j] == q);
                }
            }
        }
    }
}

/// What every piece of work of the generator does to the generator,
/// jumps left aside: it adds to the code and changes nothing of what was
/// there; it notes one line for each instruction added; the code added
/// opens `by` scopes more than it closes; no path
/// imported and no error noted is forgotten; and the sources and the path
/// of the file are as they were.
pub open spec fn basic(g: GenView, g2: GenView, by: int) -> bool {
    &&& extends(g.chunk.code, g2.chunk.code)
    &&& g2.chunk.lines.len() - g.chunk.lines.len() == g2.chunk.code.len() - g.chunk.code.len()
    &&& scope_balance(g2.chunk.code) == scope_balance(g.chunk.code) + by
    &&& forall|p: Seq<char>| g.imported.contains(p) ==> #[trigger] g2.imported.contains(p)
    &&& errors_kept(g.errors, g2.errors)
    &&& g2.sources == g.sources
    &&& g2.file_path == g.file_path
}

proof fn lemma_basic_trans(a: GenView, b: GenView, c: GenView, x: int, y: int)
    requires
        basic(a, b, x),
        basic(b, c, y),
    ensures
        basic(a, c, x + y),
{
    assert(c.chunk.code.subrange(0, a.chunk.code.len() as int) =~= b.chunk.code.subrange(
        0,
        a.chunk.code.len() as int,
    ));
    assert(c.errors.subrange(0, a.errors.len() as int) =~= b.errors.subrange(
        0,
        a.errors.len() as int,
    ));
}

proof fn lemma_basic_emit(g: GenView, op: OpView)
    ensures
        basic(g, emit(g, op), scope_step(op)),
        emit(g, op).chunk.code.len() == g.chunk.code.len() + 1,
        emit(g, op).chunk.code[g.chunk.code.len() as int] == op,
{
    let code = g.chunk.code.push(op);
    assert(code.drop_last() =~= g.chunk.code);
    assert(code.subrange(0, g.chunk.code.len() as int) =~= g.chunk.code);
    assert(g.errors.subrange(0, g.errors.len() as int) =~= g.errors);
}

proof fn lemma_balance_update(code: Seq<OpView>, at: int, op: OpView)
    requires
        0 <= at < code.len(),
        scope_step(code[at]) == scope_step(op),
    ensures
        scope_balance(code.update(at, op)) == scope_balance(code),
    decreases code.len(),
{
    let after = code.update(at, op);
    if at == code.len() - 1 {
        assert(after.drop_last() =~= code.drop_last());
    } else {
        assert(after.drop_last() =~= code.drop_last().update(at, op));
        lemma_balance_update(code.drop_last(), at, op);
    }
}

/// Writing a jump into a place that holds a jump, behind the code that
/// was there at the start, keeps what `basic` says.
proof fn lemma_basic_patch(g: GenView, g2: GenView, by: int, at: usize, op: OpView)
    requires
        basic(g, g2, by),
        g.chunk.code.len() <= at < g2.chunk.code.len(),
        scope_step(g2.chunk.code[at as int]) == 0,
        scope_step(op) == 0,
    ensures
        basic(g, patch(g2, at, op), by),
        patch(g2, at, op).chunk.code.len() == g2.chunk.code.len(),
        forall|i: int|
            0 <= i < g2.chunk.code.len() && i != at ==> patch(g2, at, op).chunk.code[i]
                == g2.chunk.code[i],
{
    lemma_balance_update(g2.chunk.code, at as int, op);
    assert(patch(g2, at, op).chunk.code.subrange(0, g.chunk.code.len() as int)
        =~= g2.chunk.code.subrange(0, g.chunk.code.len() as int));
}

proof fn lemma_basic_same(g: GenView)
    ensures
        basic(g, g, 0),
{
    assert(g.chunk.code.subrange(0, g.chunk.code.len() as int) =~= g.chunk.code);
    assert(g.errors.subrange(0, g.errors.len() as int) =~= g.errors);
}

proof fn lemma_binary_op(t: crate::tokens::TokenView)
    ensures
        binary_op(t) is Some ==> scope_step(binary_op(t)->0) == 0,
        compound_op(t) is Some ==> scope_step(compound_op(t)->0) == 0,
        scope_step(unary_op(t)) == 0,
{
}

/// The code fits the machine: its offsets are `usize` numbers.
pub open spec fn fits(g: GenView) -> bool {
    g.chunk.code.len() <= usize::MAX
}

/// The measure of the generator's work on an item, as `generate` has it.
pub open spec fn tie(item: Item) -> int {
    match item {
        Item::Source(toks, _, i) => toks.len() - i,
        Item::Value(_) => 1,
        Item::Discard(_) => 1,
        _ => 0,
    }
}

/// The code of a condition, a jump over what follows, the code of the
/// one branch, a jump over the other, and the code of the other branch,
/// with both jumps set to their targets: together they keep what
/// `basic` says of their parts, and all but the two jumps is as the
/// parts wrote it.
proof fn lemma_basic_two_jumps(g: GenView, g1: GenView, g2: GenView, g4: GenView)
    requires
        fits(g4),
        basic(g, g1, 0),
        basic(emit(g1, OpView::Jmp(0)), g2, 0),
        basic(
            patch(
                emit(g2, OpView::Jmp(0)),
                here(g1),
                OpView::JmpIfFalse(here(emit(g2, OpView::Jmp(0)))),
            ),
            g4,
            0,
        ),
    ensures
        basic(g, patch(g4, here(g2), OpView::Jmp(here(g4))), 0),
{
    let e1 = emit(g1, OpView::Jmp(0));
    let e2 = emit(g2, OpView::Jmp(0));
    let g3 = patch(e2, here(g1), OpView::JmpIfFalse(here(e2)));
    lemma_basic_emit(g1, OpView::Jmp(0));
    lemma_basic_emit(g2, OpView::Jmp(0));
    lemma_basic_trans(g, g1, e1, 0, 0);
    lemma_basic_trans(g, e1, g2, 0, 0);
    lemma_basic_trans(g, g2, e2, 0, 0);
    assert(e2.chunk.code[g1.chunk.code.len() as int] == OpView::Jmp(0)) by {
        assert(g2.chunk.code.subrange(0, e1.chunk.code.len() as int)[g1.chunk.code.len() as int]
            == e1.chunk.code[g1.chunk.code.len() as int]);
        assert(e2.chunk.code.subrange(0, g2.chunk.code.len() as int)[g1.chunk.code.len() as int]
            == g2.chunk.code[g1.chunk.code.len() as int]);
    }
    lemma_basic_patch(g, e2, 0, here(g1), OpView::JmpIfFalse(here(e2)));
    lemma_basic_trans(g, g3, g4, 0, 0);
    assert(g4.chunk.code[g2.chunk.code.len() as int] == OpView::Jmp(0)) by {
        assert(g3.chunk.code[g2.chunk.code.len() as int] == e2.chunk.code[g2.chunk.code.len() as int]);
        assert(g4.chunk.code.subrange(0, g3.chunk.code.len() as int)[g2.chunk.code.len() as int]
            == g3.chunk.code[g2.chunk.code.len() as int]);
    }
    lemma_basic_patch(g, g4, 0, here(g2), OpView::Jmp(here(g4)));
}

/// A jump over a body, the body, and the jump set to its target: when
/// the body keeps what `basic` says, so does the whole.
proof fn lemma_basic_jump_over(g: GenView, body: GenView, by: int)
    requires
        fits(body),
        basic(emit(g, OpView::Jmp(0)), body, by),
    ensures
        basic(g, patch(body, here(g), OpView::Jmp(here(body))), by),
{
    let e = emit(g, OpView::Jmp(0));
    lemma_basic_emit(g, OpView::Jmp(0));
    lemma_basic_trans(g, e, body, 0, by);
    assert(body.chunk.code[g.chunk.code.len() as int] == OpView::Jmp(0)) by {
        assert(body.chunk.code.subrange(0, e.chunk.code.len() as int)[g.chunk.code.len() as int]
            == e.chunk.code[g.chunk.code.len() as int]);
    }
    lemma_basic_patch(g, body, by, here(g), OpView::Jmp(here(body)));
}


/// Where a jump goes, if the instruction is one.
pub open spec fn jump_target(op: OpView) -> Option<usize> {
    match op {
        OpView::Jmp(t) => Some(t),
        OpView::JmpIfFalse(t) => Some(t),
        _ => None,
    }
}

/// Whether the instruction, if it is a jump, goes to a place from `from`
/// to `to`.
pub open spec fn jump_ok(op: OpView, from: int, to: int) -> bool {
    match jump_target(op) {
        Some(t) => from <= t <= to,
        None => true,
    }
}

/// Whether every jump in `code[from..to]` goes to a place from `from`
/// to `to`.
pub open spec fn jumps_within(code: Seq<OpView>, from: int, to: int) -> bool {
    forall|i: int| from <= i < to ==> 0 <= i < code.len() && jump_ok(#[trigger] code[i], from, to)
}

/// What every piece of work of the generator does to the generator:
/// what `basic` says; every jump in the code added goes to a place in
/// the code added or just behind it; and no more stored paths are
/// unread than were.
pub open spec fn grows_by(g: GenView, g2: GenView, by: int) -> bool {
    &&& basic(g, g2, by)
    &&& jumps_within(g2.chunk.code, g.chunk.code.len() as int, g2.chunk.code.len() as int)
    &&& unread(g2).len() <= unread(g).len()
}

/// An error other than that imports are too deep.
proof fn lemma_blamed(g: GenView, e: GenError)
    requires
        e != GenError::ImportTooDeep,
    ensures
        grows_by(g, blamed(g, e), 0),
        fine(g, blamed(g, e)),
{
    lemma_basic_same(g);
    assert(blamed(g, e).errors.subrange(0, g.errors.len() as int) =~= g.errors);
}

proof fn lemma_grows_trans(a: GenView, b: GenView, c: GenView, x: int, y: int)
    requires
        grows_by(a, b, x),
        grows_by(b, c, y),
    ensures
        grows_by(a, c, x + y),
        fine(a, b) && fine(b, c) ==> fine(a, c),
{
    lemma_basic_trans(a, b, c, x, y);
    if fine(a, b) && fine(b, c) {
        assert forall|k: int| a.errors.len() <= k < c.errors.len() implies #[trigger] c.errors[k]
            != GenError::ImportTooDeep by {
            if k < b.errors.len() {
                assert(c.errors.subrange(0, b.errors.len() as int)[k] == c.errors[k]);
            }
        }
    }
    assert forall|i: int| a.chunk.code.len() <= i < c.chunk.code.len() implies jump_ok(
        #[trigger] c.chunk.code[i],
        a.chunk.code.len() as int,
        c.chunk.code.len() as int,
    ) by {
        if i < b.chunk.code.len() {
            assert(c.chunk.code.subrange(0, b.chunk.code.len() as int)[i] == b.chunk.code[i]);
            assert(jump_ok(b.chunk.code[i], a.chunk.code.len() as int, b.chunk.code.len() as int));
        } else {
            assert(jump_ok(c.chunk.code[i], b.chunk.code.len() as int, c.chunk.code.len() as int));
        }
    }
}

proof fn lemma_emit(g: GenView, op: OpView)
    requires
        jump_target(op) is None,
    ensures
        grows_by(g, emit(g, op), scope_step(op)),
        fine(g, emit(g, op)),
{
    lemma_basic_emit(g, op);
}

proof fn lemma_same(g: GenView)
    ensures
        grows_by(g, g, 0),
        fine(g, g),
{
    lemma_basic_same(g);
}

proof fn lemma_emit_some(g: GenView, op: Option<OpView>)
    requires
        op is Some ==> scope_step(op->0) == 0 && jump_target(op->0) is None,
    ensures
        grows_by(g, emit_some(g, op), 0),
        fine(g, emit_some(g, op)),
{
    match op {
        Some(o) => lemma_emit(g, o),
        None => lemma_same(g),
    }
}

proof fn lemma_emit_times(g: GenView, op: OpView, n: nat)
    requires
        scope_step(op) == 0,
        jump_target(op) is None,
    ensures
        grows_by(g, emit_times(g, op, n), 0),
        fine(g, emit_times(g, op, n)),
    decreases n,
{
    if n == 0 {
        lemma_same(g);
    } else {
        lemma_emit(g, op);
        lemma_emit_times(emit(g, op), op, (n - 1) as nat);
        lemma_grows_trans(g, emit(g, op), emit_times(g, op, n), 0, 0);
    }
}

proof fn lemma_emit_indices(g: GenView, n: nat)
    ensures
        grows_by(g, emit_indices(g, n), 0),
        fine(g, emit_indices(g, n)),
    decreases n,
{
    if n == 0 {
        lemma_same(g);
    } else {
        let op = OpView::StructSetByIndex((n - 1) as usize);
        lemma_emit(g, op);
        lemma_emit_indices(emit(g, op), (n - 1) as nat);
        lemma_grows_trans(g, emit(g, op), emit_indices(g, n), 0, 0);
    }
}

proof fn lemma_emit_arguments(
    g: GenView,
    names: Seq<Seq<char>>,
    types: Seq<ClassTypeView>,
    i: int,
)
    ensures
        grows_by(g, emit_arguments(g, names, types, i), 0),
        fine(g, emit_arguments(g, names, types, i)),
    decreases names.len() - i,
{
    if 0 <= i < names.len() && i < types.len() {
        let op = OpView::ArgumentStore(names[i], types[i]);
        lemma_emit(g, op);
        lemma_emit_arguments(emit(g, op), names, types, i + 1);
        lemma_grows_trans(g, emit(g, op), emit_arguments(g, names, types, i), 0, 0);
    } else {
        lemma_same(g);
    }
}

proof fn lemma_bound(g: GenView, name: Seq<char>, t: ClassTypeView, count: usize, at: usize)
    ensures
        grows_by(g, bound(g, name, t, count, at), 0),
        fine(g, bound(g, name, t, count, at)),
        bound(g, name, t, count, at).chunk.code == g.chunk.code,
{
    lemma_same(g);
    lemma_blamed(g, GenError::DuplicateFunction);
}

proof fn lemma_no_jump(t: crate::tokens::TokenView)
    ensures
        binary_op(t) is Some ==> jump_target(binary_op(t)->0) is None,
        compound_op(t) is Some ==> jump_target(compound_op(t)->0) is None,
        jump_target(unary_op(t)) is None,
{
}

/// The code that `code` holds at `i` is the code that `earlier` holds
/// there, when `code` starts with `earlier`.
proof fn lemma_kept(earlier: Seq<OpView>, code: Seq<OpView>, i: int)
    requires
        extends(earlier, code),
        0 <= i < earlier.len(),
    ensures
        code[i] == earlier[i],
{
    assert(code.subrange(0, earlier.len() as int)[i] == code[i]);
}

/// The code of a condition, a jump over what follows, the code of the
/// one branch, a jump over the other, and the code of the other branch,
/// with both jumps set to their targets.
proof fn lemma_two_jumps(g: GenView, g1: GenView, g2: GenView, g4: GenView)
    requires
        fits(g4),
        grows_by(g, g1, 0),
        grows_by(emit(g1, OpView::Jmp(0)), g2, 0),
        grows_by(
            patch(
                emit(g2, OpView::Jmp(0)),
                here(g1),
                OpView::JmpIfFalse(here(emit(g2, OpView::Jmp(0)))),
            ),
            g4,
            0,
        ),
    ensures
        grows_by(g, patch(g4, here(g2), OpView::Jmp(here(g4))), 0),
        fine(g, g1) && fine(emit(g1, OpView::Jmp(0)), g2) && fine(
            patch(
                emit(g2, OpView::Jmp(0)),
                here(g1),
                OpView::JmpIfFalse(here(emit(g2, OpView::Jmp(0)))),
            ),
            g4,
        ) ==> fine(g, patch(g4, here(g2), OpView::Jmp(here(g4)))),
{
    let e1 = emit(g1, OpView::Jmp(0));
    let e2 = emit(g2, OpView::Jmp(0));
    let g3 = patch(e2, here(g1), OpView::JmpIfFalse(here(e2)));
    let out = patch(g4, here(g2), OpView::Jmp(here(g4)));
    lemma_basic_two_jumps(g, g1, g2, g4);
    lemma_unread_shrinks(g.sources, g.imported, out.imported);
    if fine(g, g1) && fine(e1, g2) && fine(g3, g4) {
        assert forall|k: int| g.errors.len() <= k < out.errors.len() implies #[trigger] out.errors[k]
            != GenError::ImportTooDeep by {
            if k < g1.errors.len() {
                assert(g2.errors.subrange(0, g1.errors.len() as int)[k] == g2.errors[k]);
                assert(g4.errors.subrange(0, g2.errors.len() as int)[k] == g4.errors[k]);
            } else if k < g2.errors.len() {
                assert(g4.errors.subrange(0, g2.errors.len() as int)[k] == g4.errors[k]);
            }
        }
    }
    lemma_basic_emit(g1, OpView::Jmp(0));
    lemma_basic_emit(g2, OpView::Jmp(0));
    let a = g.chunk.code.len() as int;
    let n1 = g1.chunk.code.len() as int;
    let n2 = g2.chunk.code.len() as int;
    let n4 = g4.chunk.code.len() as int;
    assert(a <= n1 < n2 < n4);
    assert(g3.chunk.code.len() == n2 + 1);
    assert forall|i: int| a <= i < n4 implies jump_ok(#[trigger] out.chunk.code[i], a, n4) by {
        if i == n2 {
        } else {
            assert(out.chunk.code[i] == g4.chunk.code[i]);
            if i > n2 {
                assert(jump_ok(g4.chunk.code[i], n2 + 1, n4));
            } else {
                lemma_kept(g3.chunk.code, g4.chunk.code, i);
                if i == n1 {
                } else {
                    assert(g3.chunk.code[i] == e2.chunk.code[i]);
                    lemma_kept(g2.chunk.code, e2.chunk.code, i);
                    if i > n1 {
                        assert(jump_ok(g2.chunk.code[i], n1 + 1, n2));
                    } else {
                        lemma_kept(e1.chunk.code, g2.chunk.code, i);
                        lemma_kept(g1.chunk.code, e1.chunk.code, i);
                        assert(jump_ok(g1.chunk.code[i], a, n1));
                    }
                }
            }
        }
    }
}

/// A jump over a body, the body, and the jump set to its target.
proof fn lemma_jump_over(g: GenView, body: GenView, by: int)
    requires
        fits(body),
        grows_by(emit(g, OpView::Jmp(0)), body, by),
    ensures
        grows_by(g, patch(body, here(g), OpView::Jmp(here(body))), by),
        fine(emit(g, OpView::Jmp(0)), body) ==> fine(
            g,
            patch(body, here(g), OpView::Jmp(here(body))),
        ),
{
    let e = emit(g, OpView::Jmp(0));
    let out = patch(body, here(g), OpView::Jmp(here(body)));
    lemma_basic_jump_over(g, body, by);
    lemma_unread_shrinks(g.sources, g.imported, out.imported);
    lemma_basic_emit(g, OpView::Jmp(0));
    let a = g.chunk.code.len() as int;
    let n = body.chunk.code.len() as int;
    assert forall|i: int| a <= i < n implies jump_ok(#[trigger] out.chunk.code[i], a, n) by {
        if i != a {
            assert(out.chunk.code[i] == body.chunk.code[i]);
            assert(jump_ok(body.chunk.code[i], a + 1, n));
        }
    }
}

/// The code of a condition, a jump out of the loop, the body, and the
/// jump back to the condition.
proof fn lemma_loop(g: GenView, g1: GenView, b: GenView)
    requires
        fits(b),
        b.chunk.code.len() < usize::MAX,
        grows_by(g, g1, 0),
        grows_by(emit(g1, OpView::Jmp(0)), b, 0),
    ensures
        grows_by(
            g,
            patch(
                emit(b, OpView::Jmp(here(g))),
                here(g1),
                OpView::JmpIfFalse(here(emit(b, OpView::Jmp(here(g))))),
            ),
            0,
        ),
        fine(g, g1) && fine(emit(g1, OpView::Jmp(0)), b) ==> fine(
            g,
            patch(
                emit(b, OpView::Jmp(here(g))),
                here(g1),
                OpView::JmpIfFalse(here(emit(b, OpView::Jmp(here(g))))),
            ),
        ),
{
    let e1 = emit(g1, OpView::Jmp(0));
    let g2 = emit(b, OpView::Jmp(here(g)));
    let out = patch(g2, here(g1), OpView::JmpIfFalse(here(g2)));
    lemma_unread_shrinks(g.sources, g.imported, out.imported);
    if fine(g, g1) && fine(e1, b) {
        assert forall|k: int| g.errors.len() <= k < out.errors.len() implies #[trigger] out.errors[k]
            != GenError::ImportTooDeep by {
            if k < g1.errors.len() {
                assert(b.errors.subrange(0, g1.errors.len() as int)[k] == b.errors[k]);
            }
        }
    }
    lemma_basic_emit(b, OpView::Jmp(here(g)));
    lemma_basic_emit(g1, OpView::Jmp(0));
    lemma_basic_trans(e1, b, g2, 0, 0);
    lemma_basic_trans(g1, e1, g2, 0, 0);
    lemma_kept(b.chunk.code, g2.chunk.code, g1.chunk.code.len() as int);
    lemma_kept(e1.chunk.code, b.chunk.code, g1.chunk.code.len() as int);
    lemma_basic_trans(g, g1, g2, 0, 0);
    lemma_basic_patch(g, g2, 0, here(g1), OpView::JmpIfFalse(here(g2)));
    let a = g.chunk.code.len() as int;
    let n1 = g1.chunk.code.len() as int;
    let nb = b.chunk.code.len() as int;
    assert forall|i: int| a <= i < nb + 1 implies jump_ok(#[trigger] out.chunk.code[i], a, nb + 1) by {
        if i == n1 {
        } else {
            assert(out.chunk.code[i] == g2.chunk.code[i]);
            if i == nb {
            } else {
                lemma_kept(b.chunk.code, g2.chunk.code, i);
                if i > n1 {
                    assert(jump_ok(b.chunk.code[i], n1 + 1, nb));
                } else {
                    lemma_kept(e1.chunk.code, b.chunk.code, i);
                    lemma_kept(g1.chunk.code, e1.chunk.code, i);
                    assert(jump_ok(g1.chunk.code[i], a, n1));
                }
            }
        }
    }
}

/// The code written for an expression.
proof fn lemma_expr(g: GenView, depth: nat, e: ExprView)
    ensures
        fits(generate(g, depth, Item::Expr(e))) ==> grows_by(
            g,
            generate(g, depth, Item::Expr(e)),
            0,
        ) && (tall(g, depth, Item::Expr(e)) ==> fine(g, generate(g, depth, Item::Expr(e)))),
    decreases depth, size_e(e), 0int, 0int,
{
    let out = generate(g, depth, Item::Expr(e));
    if fits(out) {
        match e {
            ExprView::Nothing => lemma_same(g),
            ExprView::TypeCall(t, x) => {
                let g1 = generate(g, depth, Item::Expr(*x));
                lemma_emit(g1, OpView::TransformToType(called_type(t)));
                lemma_generate(g, depth, Item::Expr(*x));
                lemma_grows_trans(g, g1, out, 0, 0);
            },
            ExprView::Binary(a, op, b) => {
                let g1 = generate(g, depth, Item::Expr(*a));
                let g2 = generate(g1, depth, Item::Expr(*b));
                lemma_binary_op(op);
                lemma_no_jump(op);
                lemma_emit_some(g2, binary_op(op));
                lemma_generate(g1, depth, Item::Expr(*b));
                lemma_generate(g, depth, Item::Expr(*a));
                lemma_grows_trans(g, g1, g2, 0, 0);
                lemma_grows_trans(g, g2, out, 0, 0);
            },
            ExprView::Ternary(c, t, f) => {
                let g1 = generate(g, depth, Item::Expr(*c));
                let e1 = emit(g1, OpView::Jmp(0));
                let g2 = generate(e1, depth, Item::Expr(*t));
                let e2 = emit(g2, OpView::Jmp(0));
                let g3 = patch(e2, here(g1), OpView::JmpIfFalse(here(e2)));
                let g4 = generate(g3, depth, Item::Expr(*f));
                lemma_generate(g3, depth, Item::Expr(*f));
                lemma_generate(e1, depth, Item::Expr(*t));
                lemma_generate(g, depth, Item::Expr(*c));
                lemma_two_jumps(g, g1, g2, g4);
            },
            ExprView::Group(x) => lemma_generate(g, depth, Item::Expr(*x)),
            ExprView::Literal(v) => lemma_emit(g, OpView::Push(v)),
            ExprView::Unary(op, x) => {
                let g1 = generate(g, depth, Item::Expr(*x));
                lemma_binary_op(op);
                lemma_no_jump(op);
                lemma_emit(g1, unary_op(op));
                lemma_generate(g, depth, Item::Expr(*x));
                lemma_grows_trans(g, g1, out, 0, 0);
            },
            ExprView::Variable(name) => lemma_emit(g, OpView::Load(name)),
            ExprView::Assign(target, x) => {
                let g1 = generate(g, depth, Item::Value(*x));
                match chain(*target) {
                    Some(names) => {
                        if names.len() == 1 {
                            lemma_emit(g1, OpView::Assign(names[0]));
                        } else {
                            lemma_emit(
                                g1,
                                OpView::StructSet(names[0], names.subrange(1, names.len() as int)),
                            );
                        }
                    },
                    None => lemma_blamed(g1, GenError::InvalidTarget),
                }
                lemma_generate(g, depth, Item::Value(*x));
                lemma_grows_trans(g, g1, out, 0, 0);
            },
            ExprView::AssignByOp(name, op, x) => {
                let e1 = emit(g, OpView::Load(name));
                let g1 = generate(e1, depth, Item::Value(*x));
                let g2 = emit_some(g1, compound_op(op));
                lemma_emit(g2, OpView::Assign(name));
                lemma_binary_op(op);
                lemma_no_jump(op);
                lemma_emit_some(g1, compound_op(op));
                lemma_generate(e1, depth, Item::Value(*x));
                lemma_emit(g, OpView::Load(name));
                lemma_grows_trans(g1, g2, out, 0, 0);
                lemma_grows_trans(e1, g1, out, 0, 0);
                lemma_grows_trans(g, e1, out, 0, 0);
            },
            ExprView::Call(name, args) => {
                let g1 = generate(g, depth, Item::Values(args, 0));
                let g2 = emit_times(g1, OpView::PopToCall, args.len());
                lemma_emit(g2, OpView::CallFunc(name));
                lemma_emit_times(g1, OpView::PopToCall, args.len());
                lemma_generate(g, depth, Item::Values(args, 0));
                lemma_grows_trans(g1, g2, out, 0, 0);
                lemma_grows_trans(g, g1, out, 0, 0);
            },
            ExprView::New(name) => lemma_emit(g, OpView::NewStruct(name)),
            ExprView::NewCall(name, args) => {
                let g1 = generate(g, depth, Item::Values(args, 0));
                let g2 = emit(g1, OpView::NewStruct(name));
                lemma_emit_indices(g2, args.len());
                lemma_emit(g1, OpView::NewStruct(name));
                lemma_generate(g, depth, Item::Values(args, 0));
                lemma_grows_trans(g1, g2, out, 0, 0);
                lemma_grows_trans(g, g1, out, 0, 0);
            },
            ExprView::StructCall(left, right) => {
                let g1 = generate(g, depth, Item::Expr(*left));
                match *right {
                    ExprView::Variable(field) => lemma_emit(g1, OpView::StructGet(field)),
                    _ => lemma_blamed(g1, GenError::InvalidTarget),
                }
                lemma_generate(g, depth, Item::Expr(*left));
                lemma_grows_trans(g, g1, out, 0, 0);
            },
            ExprView::Block(stmts) => {
                let e1 = emit(g, OpView::StartScope);
                let g1 = generate(e1, depth, Item::Stmts(stmts, 0, false));
                lemma_emit(g1, OpView::EndScope);
                lemma_generate(e1, depth, Item::Stmts(stmts, 0, false));
                lemma_emit(g, OpView::StartScope);
                lemma_grows_trans(e1, g1, out, 0, -1);
                lemma_grows_trans(g, e1, out, 1, -1);
            },
        }
    }
}

/// The code written for an expression that stands as a statement.
proof fn lemma_discard(g: GenView, depth: nat, e: ExprView)
    ensures
        fits(generate(g, depth, Item::Discard(e))) ==> grows_by(
            g,
            generate(g, depth, Item::Discard(e)),
            0,
        ) && (tall(g, depth, Item::Discard(e)) ==> fine(
            g,
            generate(g, depth, Item::Discard(e)),
        )),
    decreases depth, size_e(e), 1int, 0int,
{
    let out = generate(g, depth, Item::Discard(e));
    if fits(out) {
        match e {
            ExprView::Unary(_, _) => lemma_same(g),
            ExprView::Literal(_) => lemma_same(g),
            ExprView::Binary(a, _, b) => {
                let g1 = generate(g, depth, Item::Discard(*a));
                lemma_generate(g1, depth, Item::Discard(*b));
                lemma_generate(g, depth, Item::Discard(*a));
                lemma_grows_trans(g, g1, out, 0, 0);
            },
            ExprView::Group(x) => lemma_generate(g, depth, Item::Expr(*x)),
            ExprView::Call(_, _) => {
                let g1 = generate(g, depth, Item::Expr(e));
                lemma_emit(g1, OpView::Pop);
                lemma_generate(g, depth, Item::Expr(e));
                lemma_grows_trans(g, g1, out, 0, 0);
            },
            ExprView::Ternary(c, t, f) => {
                let g1 = generate(g, depth, Item::Expr(*c));
                let e1 = emit(g1, OpView::Jmp(0));
                let g2 = generate(e1, depth, Item::Discard(*t));
                let e2 = emit(g2, OpView::Jmp(0));
                let g3 = patch(e2, here(g1), OpView::JmpIfFalse(here(e2)));
                let g4 = generate(g3, depth, Item::Discard(*f));
                lemma_generate(g3, depth, Item::Discard(*f));
                lemma_generate(e1, depth, Item::Discard(*t));
                lemma_generate(g, depth, Item::Expr(*c));
                lemma_two_jumps(g, g1, g2, g4);
            },
            _ => lemma_generate(g, depth, Item::Expr(e)),
        }
    }
}

/// The code written for a statement.
proof fn lemma_stmt(g: GenView, depth: nat, s: StmtView)
    ensures
        fits(generate(g, depth, Item::Stmt(s))) ==> grows_by(
            g,
            generate(g, depth, Item::Stmt(s)),
            0,
        ) && (tall(g, depth, Item::Stmt(s)) ==> fine(g, generate(g, depth, Item::Stmt(s)))),
    decreases depth, size_s(s), 0int, 0int,
{
    let out = generate(g, depth, Item::Stmt(s));
    if fits(out) {
        match s {
            StmtView::Expr(e) => lemma_generate(g, depth, Item::Discard(e)),
            StmtView::Declaration(name, t, e) => {
                let g1 = generate(g, depth, Item::Value(e));
                lemma_emit(g1, OpView::Store(name, t));
                lemma_generate(g, depth, Item::Value(e));
                lemma_grows_trans(g, g1, out, 0, 0);
            },
            StmtView::InferDeclaration(name, e) => {
                let g1 = generate(g, depth, Item::Value(e));
                lemma_emit(g1, OpView::InferStore(name));
                lemma_generate(g, depth, Item::Value(e));
                lemma_grows_trans(g, g1, out, 0, 0);
            },
            StmtView::If(c, then, other) => {
                let g1 = generate(g, depth, Item::Expr(c));
                let e1 = emit(g1, OpView::Jmp(0));
                let g2 = generate(e1, depth, Item::Stmt(*then));
                let e2 = emit(g2, OpView::Jmp(0));
                let g3 = patch(e2, here(g1), OpView::JmpIfFalse(here(e2)));
                let g4 = match other {
                    Some(x) => generate(g3, depth, Item::Stmt(*x)),
                    None => g3,
                };
                match other {
                    Some(x) => lemma_generate(g3, depth, Item::Stmt(*x)),
                    None => lemma_same(g3),
                }
                lemma_generate(e1, depth, Item::Stmt(*then));
                lemma_generate(g, depth, Item::Expr(c));
                lemma_two_jumps(g, g1, g2, g4);
            },
            StmtView::While(c, body) => {
                let g1 = generate(g, depth, Item::Expr(c));
                let e1 = emit(g1, OpView::Jmp(0));
                let b = generate(e1, depth, Item::Expr(body));
                lemma_basic_emit(b, OpView::Jmp(here(g)));
                lemma_generate(e1, depth, Item::Expr(body));
                lemma_basic_emit(g1, OpView::Jmp(0));
                lemma_generate(g, depth, Item::Expr(c));
                lemma_loop(g, g1, b);
            },
            StmtView::Function(name, t, names, types, body) => {
                let e0 = emit(g, OpView::Jmp(0));
                let e1 = emit(e0, OpView::StartScope);
                let g1 = emit_arguments(e1, names, types, 0);
                let g2 = generate(g1, depth, Item::Expr(body));
                let n1 = emit(g2, OpView::Push(ValueView::Nil));
                let n2 = emit(n1, OpView::Return);
                let g3 = emit(n2, OpView::EndScope);
                let g4 = bound(g3, name, t, count_of(names), here(e0));
                lemma_bound(g3, name, t, count_of(names), here(e0));
                lemma_emit(n2, OpView::EndScope);
                lemma_emit(n1, OpView::Return);
                lemma_emit(g2, OpView::Push(ValueView::Nil));
                lemma_generate(g1, depth, Item::Expr(body));
                lemma_emit_arguments(e1, names, types, 0);
                lemma_emit(e0, OpView::StartScope);
                lemma_same(g4);
                lemma_grows_trans(g3, g4, g4, 0, 0);
                lemma_grows_trans(n2, g3, g4, -1, 0);
                lemma_grows_trans(n1, n2, g4, 0, -1);
                lemma_grows_trans(g2, n1, g4, 0, -1);
                lemma_grows_trans(g1, g2, g4, 0, -1);
                lemma_grows_trans(e1, g1, g4, 0, -1);
                lemma_grows_trans(e0, e1, g4, 1, -1);
                lemma_jump_over(g, g4, 0);
            },
            StmtView::Struct(name, fields) => lemma_same(g),
            StmtView::Return(e) => {
                let g1 = match e {
                    Some(x) => generate(g, depth, Item::Expr(x)),
                    None => emit(g, OpView::Push(ValueView::Nil)),
                };
                lemma_emit(g1, OpView::Return);
                match e {
                    Some(x) => lemma_generate(g, depth, Item::Expr(x)),
                    None => lemma_emit(g, OpView::Push(ValueView::Nil)),
                }
                lemma_grows_trans(g, g1, out, 0, 0);
            },
            StmtView::Quit => lemma_emit(g, OpView::EndScript),
            StmtView::Import(path) => {
                let full = resolved(g.file_path, path);
                lemma_same(g);
                if g.imported.contains(full) {
                } else {
                    let g1 = GenView { imported: g.imported.push(full), ..g };
                    assert forall|p: Seq<char>| g.imported.contains(p) implies #[trigger] g1.imported.contains(p) by {
                        let k = choose|k: int| 0 <= k < g.imported.len() && g.imported[k] == p;
                        assert(g1.imported[k] == p);
                    }
                    lemma_unread_shrinks(g.sources, g.imported, g1.imported);
                    if source_text(g.sources, full) is None {
                    } else {
                        lemma_unread_less(g.sources, g.imported, full);
                        if depth == 0 {
                            assert(out.errors.subrange(0, g.errors.len() as int) =~= g.errors);
                        } else {
                            let steps = source_steps(g.sources, full);
                            let start = GenView { file_path: full, ..g1 };
                            let item = Item::Source(tokens_of(steps), lines_as_usize(steps), 0);
                            let g2 = generate(start, (depth - 1) as nat, item);
                            lemma_generate(start, (depth - 1) as nat, item);
                            assert(out.chunk == g2.chunk);
                            assert(out.imported == g2.imported);
                            assert(out.errors == g2.errors);
                            assert(start.errors == g.errors);
                            assert(unread(start) == unread(g1));
                            if tall(g, depth, Item::Stmt(s)) {
                                assert(tall(start, (depth - 1) as nat, item));
                            }
                        }
                    }
                }
            },
        }
    }
}

/// The code written for any piece of work: it is added behind the code
/// that was there and changes none of it, it closes as many scopes as
/// it opens, and it forgets no path imported.
proof fn lemma_generate(g: GenView, depth: nat, item: Item)
    ensures
        fits(generate(g, depth, item)) ==> grows_by(g, generate(g, depth, item), 0) && (tall(
            g,
            depth,
            item,
        ) ==> fine(g, generate(g, depth, item))),
    decreases depth, item_size(item), tie(item), 1int,
{
    let out = generate(g, depth, item);
    if fits(out) {
        match item {
            Item::Expr(e) => lemma_expr(g, depth, e),
            Item::Value(e) => {
                if e is Block {
                    lemma_generate(g, depth, Item::BlockFunction(e));
                } else {
                    lemma_expr(g, depth, e);
                }
            },
            Item::Values(es, i) => {
                if 0 <= i < es.len() {
                    let g1 = generate(g, depth, Item::Value(es[i]));
                    lemma_generate(g1, depth, Item::Values(es, i + 1));
                    lemma_generate(g, depth, Item::Value(es[i]));
                    lemma_grows_trans(g, g1, out, 0, 0);
                } else {
                    lemma_same(g);
                }
            },
            Item::BlockFunction(e) => match e {
                ExprView::Block(stmts) => {
                    let name = block_name(g.block_increment);
                    let g0 = GenView { block_increment: bump(g.block_increment), ..g };
                    let g1 = emit(g0, OpView::Jmp(0));
                    let g2 = bound(g1, name, ClassTypeView::Any, 0, here(g1));
                    let o1 = emit(g2, OpView::StartScope);
                    let g3 = emit(o1, OpView::StartScope);
                    let g4 = generate(g3, depth, Item::Stmts(stmts, 0, true));
                    let c1 = emit(g4, OpView::EndScope);
                    let c2 = emit(c1, OpView::Push(ValueView::Nil));
                    let c3 = emit(c2, OpView::Return);
                    let g5 = emit(c3, OpView::EndScope);
                    let g6 = patch(g5, here(g), OpView::Jmp(here(g5)));
                    lemma_emit(g6, OpView::CallFunc(name));
                    lemma_emit(c3, OpView::EndScope);
                    lemma_emit(c2, OpView::Return);
                    lemma_emit(c1, OpView::Push(ValueView::Nil));
                    lemma_emit(g4, OpView::EndScope);
                    lemma_generate(g3, depth, Item::Stmts(stmts, 0, true));
                    lemma_emit(o1, OpView::StartScope);
                    lemma_emit(g2, OpView::StartScope);
                    lemma_bound(g1, name, ClassTypeView::Any, 0, here(g1));
                    lemma_same(g5);
                    lemma_grows_trans(c3, g5, g5, -1, 0);
                    lemma_grows_trans(c2, c3, g5, 0, -1);
                    lemma_grows_trans(c1, c2, g5, 0, -1);
                    lemma_grows_trans(g4, c1, g5, -1, -1);
                    lemma_grows_trans(g3, g4, g5, 0, -2);
                    lemma_grows_trans(o1, g3, g5, 1, -2);
                    lemma_grows_trans(g2, o1, g5, 1, -1);
                    lemma_grows_trans(g1, g2, g5, 0, 0);
                    assert(g1 == emit(g0, OpView::Jmp(0)));
                    lemma_jump_over(g0, g5, 0);
                    assert(here(g0) == here(g));
                    lemma_same(g);
                    assert(grows_by(g, g0, 0));
                    assert(fine(g, g0));
                    lemma_grows_trans(g, g0, g6, 0, 0);
                    lemma_grows_trans(g, g6, out, 0, 0);
                },
                _ => lemma_same(g),
            },
            Item::Discard(e) => lemma_discard(g, depth, e),
            Item::Stmts(ss, i, last) => {
                if 0 <= i < ss.len() {
                    if last && i == ss.len() - 1 && ss[i] is Expr {
                        assert(size_s(ss[i]) == 1 + size_e(ss[i]->Expr_0));
                        let g1 = generate(g, depth, Item::Expr(ss[i]->Expr_0));
                        lemma_emit(g1, OpView::Return);
                        lemma_expr(g, depth, ss[i]->Expr_0);
                        lemma_grows_trans(g, g1, out, 0, 0);
                    } else {
                        let g1 = generate(g, depth, Item::Stmt(ss[i]));
                        lemma_generate(g1, depth, Item::Stmts(ss, i + 1, last));
                        lemma_stmt(g, depth, ss[i]);
                        lemma_grows_trans(g, g1, out, 0, 0);
                    }
                } else {
                    lemma_same(g);
                }
            },
            Item::Stmt(s) => lemma_stmt(g, depth, s),
            Item::Source(toks, lines, i) => {
                lemma_same(g);
                if 0 <= i < toks.len() {
                    match statement_at(toks, i) {
                        Got::Read(s, j) => {
                            if i < j <= toks.len() {
                                let g1 = GenView { current_line: line_at(lines, j), ..g };
                                lemma_same(g1);
                                assert(grows_by(g, g1, 0));
                                assert(fine(g, g1));
                                if depth == 0 {
                                    assert(out.errors.subrange(0, g.errors.len() as int)
                                        =~= g.errors);
                                    assert(grows_by(g, out, 0));
                                } else {
                                    let g2 = generate(g1, (depth - 1) as nat, Item::Stmt(s));
                                    lemma_generate(g2, depth, Item::Source(toks, lines, j));
                                    lemma_stmt(g1, (depth - 1) as nat, s);
                                    lemma_grows_trans(g1, g2, out, 0, 0);
                                    lemma_grows_trans(g, g1, out, 0, 0);
                                }
                            }
                        },
                        Got::Wrong(k, at) => {
                            lemma_blamed(g, GenError::Syntax(k, line_at(lines, at)));
                        },
                    }
                }
            },
        }
    }
}

/// Whatever the generator makes code of, the code it adds closes as
/// many scopes as it opens, and the code that was there stays as it was.
pub proof fn law_generated_scopes_are_balanced(g: GenView, depth: nat, item: Item)
    requires
        fits(generate(g, depth, item)),
    ensures
        scope_balance(generate(g, depth, item).chunk.code) == scope_balance(g.chunk.code),
        extends(g.chunk.code, generate(g, depth, item).chunk.code),
{
    lemma_generate(g, depth, item);
}

/// Whatever the generator makes code of, it notes one line for each
/// instruction that it writes: where lines and code were equally long,
/// they are so afterwards.
pub proof fn law_generated_lines_follow_code(g: GenView, depth: nat, item: Item)
    requires
        fits(generate(g, depth, item)),
    ensures
        generate(g, depth, item).chunk.lines.len() - g.chunk.lines.len() == generate(
            g,
            depth,
            item,
        ).chunk.code.len() - g.chunk.code.len(),
        g.chunk.lines.len() == g.chunk.code.len() ==> generate(g, depth, item).chunk.lines.len()
            == generate(g, depth, item).chunk.code.len(),
{
    lemma_generate(g, depth, item);
}

/// Whatever the generator makes code of, every jump in the code it adds
/// goes to a place in that code or just behind it.
pub proof fn law_generated_jumps_stay_inside(g: GenView, depth: nat, item: Item)
    requires
        fits(generate(g, depth, item)),
    ensures
        jumps_within(
            generate(g, depth, item).chunk.code,
            g.chunk.code.len() as int,
            generate(g, depth, item).chunk.code.len() as int,
        ),
{
    lemma_generate(g, depth, item);
}

/// Importing a path a second time changes nothing: the generator after
/// two imports of the same path, one right after the other, is the
/// generator after the first.
pub proof fn law_import_twice_is_import_once(g: GenView, depth: nat, path: Seq<char>)
    requires
        depth > 0,
        fits(generate(g, depth, Item::Stmt(StmtView::Import(path)))),
    ensures
        generate(
            generate(g, depth, Item::Stmt(StmtView::Import(path))),
            depth,
            Item::Stmt(StmtView::Import(path)),
        ) == generate(g, depth, Item::Stmt(StmtView::Import(path))),
{
    let once = generate(g, depth, Item::Stmt(StmtView::Import(path)));
    let full = resolved(g.file_path, path);
    lemma_stmt(g, depth, StmtView::Import(path));
    if !g.imported.contains(full) {
        let g1 = GenView { imported: g.imported.push(full), ..g };
        assert(g1.imported[g.imported.len() as int] == full);
        assert(g1.imported.contains(full));
        if source_text(g.sources, full) is None {
            let missing = GenView { missing: g1.missing.push(full), ..g1 };
            assert(once == missing);
        } else {
            let steps = source_steps(g.sources, full);
            let start = GenView { file_path: full, ..g1 };
            let item = Item::Source(tokens_of(steps), lines_as_usize(steps), 0);
            let g2 = generate(start, (depth - 1) as nat, item);
            assert(once.chunk == g2.chunk);
            lemma_generate(start, (depth - 1) as nat, item);
            assert(start.imported.contains(full));
            assert(g2.imported.contains(full));
            assert(once.imported == g2.imported);
        }
        assert(once.imported.contains(full));
    }
    assert(once.file_path == g.file_path);
}

/// The depth that the generator starts with is enough: nothing that it
/// makes code of from there notes that imports are nested too deep.
pub proof fn law_imports_are_never_too_deep(g: GenView, item: Item)
    requires
        g.sources.len() < usize::MAX / 2 - 1,
        fits(generate(g, crate::codegen::import_depth(g.sources), item)),
    ensures
        fine(g, generate(g, crate::codegen::import_depth(g.sources), item)),
{
    lemma_unread_bound(g.sources, g.imported);
    lemma_generate(g, crate::codegen::import_depth(g.sources), item);
}

/// The same holds of the files that a chunk is made of: none of them,
/// read from the depth that the generator starts with, notes that imports
/// are nested too deep.
pub proof fn law_files_are_never_too_deep(g: GenView, files: Seq<String>, i: int)
    requires
        0 <= i,
        g.sources.len() < usize::MAX / 2 - 1,
        fits(generate_files(g, crate::codegen::import_depth(g.sources), files, i)),
    ensures
        fine(g, generate_files(g, crate::codegen::import_depth(g.sources), files, i)),
        errors_kept(
            g.errors,
            generate_files(g, crate::codegen::import_depth(g.sources), files, i).errors,
        ),
        extends(
            g.chunk.code,
            generate_files(g, crate::codegen::import_depth(g.sources), files, i).chunk.code,
        ),
        generate_files(g, crate::codegen::import_depth(g.sources), files, i).sources == g.sources,
    decreases files.len() - i,
{
    let depth = crate::codegen::import_depth(g.sources);
    lemma_same(g);
    if 0 <= i < files.len() {
        let path = files[i]@;
        let g1 = if source_text(g.sources, path) is None {
            GenView { missing: g.missing.push(path), ..g }
        } else {
            let steps = source_steps(g.sources, path);
            generate(
                GenView { file_path: path, imported: noted(g.imported, path), ..g },
                depth,
                Item::Source(tokens_of(steps), lines_as_usize(steps), 0),
            )
        };
        let out = generate_files(g1, depth, files, i + 1);
        assert(generate_files(g, depth, files, i) == out);
        if source_text(g.sources, path) is None {
            assert(g1.errors == g.errors);
            assert(g1.chunk == g.chunk);
            law_files_are_never_too_deep(g1, files, i + 1);
        } else {
            let steps = source_steps(g.sources, path);
            let start = GenView { file_path: path, imported: noted(g.imported, path), ..g };
            let item = Item::Source(tokens_of(steps), lines_as_usize(steps), 0);
            lemma_unread_bound(start.sources, start.imported);
            lemma_files_grow(g1, depth, files, i + 1);
            lemma_generate(start, depth, item);
            law_files_are_never_too_deep(g1, files, i + 1);
            assert(start.errors == g.errors);
            assert forall|k: int| g.errors.len() <= k < out.errors.len() implies #[trigger] out.errors[k]
                != GenError::ImportTooDeep by {
                if k < g1.errors.len() {
                    assert(out.errors.subrange(0, g1.errors.len() as int)[k] == out.errors[k]);
                }
            }
            assert(out.errors.subrange(0, g.errors.len() as int) =~= g1.errors.subrange(
                0,
                g.errors.len() as int,
            ));
            assert(out.chunk.code.subrange(0, g.chunk.code.len() as int)
                =~= g1.chunk.code.subrange(0, g.chunk.code.len() as int));
        }
    }
}

/// The code only grows from file to file.
proof fn lemma_files_grow(g: GenView, depth: nat, files: Seq<String>, i: int)
    requires
        0 <= i,
        fits(generate_files(g, depth, files, i)),
    ensures
        fits(g),
    decreases files.len() - i,
{
    if 0 <= i < files.len() {
        let path = files[i]@;
        if source_text(g.sources, path) is None {
            let g1 = GenView { missing: g.missing.push(path), ..g };
            lemma_files_grow(g1, depth, files, i + 1);
        } else {
            let steps = source_steps(g.sources, path);
            let start = GenView { file_path: path, imported: noted(g.imported, path), ..g };
            let item = Item::Source(tokens_of(steps), lines_as_usize(steps), 0);
            let g1 = generate(start, depth, item);
            lemma_files_grow(g1, depth, files, i + 1);
            lemma_generate(start, depth, item);
        }
    }
}

/// The files that a chunk is made of get one line noted for each
/// instruction written.
proof fn lemma_files_lines(g: GenView, depth: nat, files: Seq<String>, i: int)
    requires
        0 <= i,
        fits(generate_files(g, depth, files, i)),
    ensures
        generate_files(g, depth, files, i).chunk.lines.len() - g.chunk.lines.len()
            == generate_files(g, depth, files, i).chunk.code.len() - g.chunk.code.len(),
    decreases files.len() - i,
{
    if 0 <= i < files.len() {
        let path = files[i]@;
        if source_text(g.sources, path) is None {
            let g1 = GenView { missing: g.missing.push(path), ..g };
            lemma_files_lines(g1, depth, files, i + 1);
        } else {
            let steps = source_steps(g.sources, path);
            let start = GenView { file_path: path, imported: noted(g.imported, path), ..g };
            let item = Item::Source(tokens_of(steps), lines_as_usize(steps), 0);
            let g1 = generate(start, depth, item);
            lemma_files_lines(g1, depth, files, i + 1);
            lemma_files_grow(g1, depth, files, i + 1);
            lemma_generate(start, depth, item);
        }
    }
}

/// The chunk made of the files `files` ends in `EndScript` and has one
/// line for each of its instructions, where the generator started with
/// as many lines as instructions (an empty chunk has none of either).
pub proof fn law_chunk_has_a_line_for_each_instruction(
    g: GenView,
    depth: nat,
    files: Seq<String>,
)
    requires
        g.chunk.lines.len() == g.chunk.code.len(),
        fits(generate_files(g, depth, files, 0)),
    ensures
        ({
            let chunk = emit(generate_files(g, depth, files, 0), OpView::EndScript).chunk;
            &&& chunk.lines.len() == chunk.code.len()
            &&& chunk.code.len() > 0
            &&& chunk.code.last() == OpView::EndScript
        }),
{
    lemma_files_lines(g, depth, files, 0);
}

/// The bindings of arguments are written one behind the other, one for
/// each parameter that has a type.
proof fn lemma_arguments_written(
    g: GenView,
    names: Seq<Seq<char>>,
    types: Seq<ClassTypeView>,
    i: int,
)
    requires
        0 <= i,
    ensures
        ({
            let out = emit_arguments(g, names, types, i);
            let n = if i < names.len() && i < types.len() {
                (if names.len() <= types.len() {
                    names.len()
                } else {
                    types.len()
                }) - i
            } else {
                0
            };
            &&& out.chunk.code.len() == g.chunk.code.len() + n
            &&& forall|k: int|
                0 <= k < n ==> #[trigger] out.chunk.code[g.chunk.code.len() + k]
                    == OpView::ArgumentStore(names[i + k], types[i + k])
        }),
    decreases names.len() - i,
{
    if 0 <= i < names.len() && i < types.len() {
        let op = OpView::ArgumentStore(names[i], types[i]);
        let e = emit(g, op);
        lemma_basic_emit(g, op);
        lemma_arguments_written(e, names, types, i + 1);
        lemma_emit_arguments(e, names, types, i + 1);
        let out = emit_arguments(g, names, types, i);
        assert(out == emit_arguments(e, names, types, i + 1));
        let n = (if names.len() <= types.len() {
            names.len()
        } else {
            types.len()
        }) - i;
        assert forall|k: int| 0 <= k < n implies #[trigger] out.chunk.code[g.chunk.code.len() + k]
            == OpView::ArgumentStore(names[i + k], types[i + k]) by {
            if k == 0 {
                lemma_kept(e.chunk.code, out.chunk.code, g.chunk.code.len() as int);
            } else {
                assert(out.chunk.code[e.chunk.code.len() + (k - 1)] == OpView::ArgumentStore(
                    names[i + 1 + (k - 1)],
                    types[i + 1 + (k - 1)],
                ));
            }
        }
    }
}

/// The bindings of arguments are written one behind the other, one for
/// each parameter, where every parameter has a type.
pub proof fn law_arguments_are_written(
    g: GenView,
    names: Seq<Seq<char>>,
    types: Seq<ClassTypeView>,
)
    requires
        names.len() <= types.len(),
    ensures
        extends(g.chunk.code, emit_arguments(g, names, types, 0).chunk.code),
        emit_arguments(g, names, types, 0).chunk.code.len() == g.chunk.code.len() + names.len(),
        forall|k: int|
            0 <= k < names.len() ==> #[trigger] emit_arguments(
                g,
                names,
                types,
                0,
            ).chunk.code[g.chunk.code.len() + k] == OpView::ArgumentStore(names[k], types[k]),
{
    lemma_arguments_written(g, names, types, 0);
    lemma_emit_arguments(g, names, types, 0);
    let out = emit_arguments(g, names, types, 0);
    assert forall|k: int| 0 <= k < names.len() implies #[trigger] out.chunk.code[g.chunk.code.len()
        + k] == OpView::ArgumentStore(names[k], types[k]) by {
        assert(out.chunk.code[g.chunk.code.len() + k] == OpView::ArgumentStore(
            names[0 + k],
            types[0 + k],
        ));
    }
}

/// A function lies behind a jump that goes over it: the code written
/// for the definition of a function begins with a jump to just behind
/// that code; the scope of the function opens right behind the jump;
/// there, behind the jump, is where the function is bound to, unless its
/// name was bound already, which is noted as an error; and the bindings
/// of its arguments follow, one for each parameter.
pub proof fn law_function_is_jumped_over(
    g: GenView,
    depth: nat,
    name: Seq<char>,
    t: ClassTypeView,
    names: Seq<Seq<char>>,
    types: Seq<ClassTypeView>,
    body: ExprView,
)
    requires
        fits(generate(g, depth, Item::Stmt(StmtView::Function(name, t, names, types, body)))),
    ensures
        ({
            let out = generate(
                g,
                depth,
                Item::Stmt(StmtView::Function(name, t, names, types, body)),
            );
            let at = g.chunk.code.len() as int;
            &&& at + 1 < out.chunk.code.len()
            &&& out.chunk.code[at] == OpView::Jmp(out.chunk.code.len() as usize)
            &&& out.chunk.code[at + 1] == OpView::StartScope
            &&& out.chunk.code.last() == OpView::EndScope
            &&& names.len() <= types.len() ==> forall|k: int|
                0 <= k < names.len() ==> 0 <= at + 2 + k < out.chunk.code.len()
                    && #[trigger] out.chunk.code[at + 2 + k] == OpView::ArgumentStore(
                    names[k],
                    types[k],
                )
            &&& {
                ||| out.chunk.functions.entries.len() > 0 && out.chunk.functions.entries.last()
                    == EntryView::Function(name, t, count_of(names), (at + 1) as usize)
                ||| out.errors.len() > 0 && out.errors.last() == GenError::DuplicateFunction
            }
        }),
{
    let e0 = emit(g, OpView::Jmp(0));
    let e1 = emit(e0, OpView::StartScope);
    let g1 = emit_arguments(e1, names, types, 0);
    let g2 = generate(g1, depth, Item::Expr(body));
    let n1 = emit(g2, OpView::Push(ValueView::Nil));
    let n2 = emit(n1, OpView::Return);
    let g3 = emit(n2, OpView::EndScope);
    let g4 = bound(g3, name, t, count_of(names), here(e0));
    let out = patch(g4, here(g), OpView::Jmp(here(g4)));
    lemma_basic_emit(g, OpView::Jmp(0));
    lemma_basic_emit(e0, OpView::StartScope);
    lemma_emit_arguments(e1, names, types, 0);
    lemma_basic_emit(g2, OpView::Push(ValueView::Nil));
    lemma_basic_emit(n1, OpView::Return);
    lemma_basic_emit(n2, OpView::EndScope);
    lemma_generate(g1, depth, Item::Expr(body));
    let at = g.chunk.code.len() as int;
    lemma_kept(e1.chunk.code, g1.chunk.code, at + 1);
    lemma_kept(g1.chunk.code, g2.chunk.code, at + 1);
    lemma_kept(g2.chunk.code, n1.chunk.code, at + 1);
    lemma_kept(n1.chunk.code, n2.chunk.code, at + 1);
    lemma_kept(n2.chunk.code, g3.chunk.code, at + 1);
    assert(g4.chunk.code == g3.chunk.code);
    assert(out.chunk.code[at + 1] == g4.chunk.code[at + 1]);
    lemma_arguments_written(e1, names, types, 0);
    if names.len() <= types.len() {
        assert forall|k: int| 0 <= k < names.len() implies 0 <= at + 2 + k < out.chunk.code.len()
            && #[trigger] out.chunk.code[at + 2 + k] == OpView::ArgumentStore(
            names[k],
            types[k],
        ) by {
            assert(g1.chunk.code[e1.chunk.code.len() + k] == OpView::ArgumentStore(
                names[0 + k],
                types[0 + k],
            ));
            lemma_kept(g1.chunk.code, g2.chunk.code, at + 2 + k);
            lemma_kept(g2.chunk.code, n1.chunk.code, at + 2 + k);
            lemma_kept(n1.chunk.code, n2.chunk.code, at + 2 + k);
            lemma_kept(n2.chunk.code, g3.chunk.code, at + 2 + k);
            assert(out.chunk.code[at + 2 + k] == g4.chunk.code[at + 2 + k]);
        }
    }
}

} // verus!
