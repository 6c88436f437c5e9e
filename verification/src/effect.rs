//! What straight and steady code does to the value stack: the code of a
//! plain expression leaves exactly one value there, and so does a call of
//! a function whose body is plain declarations and assignments and then
//! the return of a plain expression.

use vstd::prelude::*;
use crate::chunk::OpView;
use crate::codegen::{
    binary_op, bound, called_type, chain, compound_op, count_of, emit, emit_arguments, emit_some,
    generate, here, patch, unary_op, GenView, Item,
};
use crate::parser::{ExprView, StmtView};
use crate::shape::{
    extends, fits, law_arguments_are_written, law_generated_scopes_are_balanced,
};
use crate::tokens::TokenView;
use crate::value::{ClassTypeView, ValueView};
use crate::environment::{find_function, EntryView};
use crate::laws::{
    is_prologue, law_arguments_leave_call_stack, law_call_enters_function, law_return_keeps_stacks,
    law_return_undoes_call,
};
use crate::vm::{
    run, step, step_argument, step_arith, step_assign, step_call, step_compare, step_infer,
    step_load, step_logic, step_negate, step_new_struct, step_not, step_plain, step_return,
    step_store, step_struct_get, step_struct_set, step_transform, StepView, VmView,
};

verus! {

/// The instructions that go straight on: they work on the value stack
/// alone and neither jump nor call nor touch a variable's value.
pub open spec fn straight(op: OpView) -> bool {
    match op {
        OpView::Push(_) => true,
        OpView::Load(_) => true,
        OpView::NewStruct(_) => true,
        OpView::Add => true,
        OpView::Sub => true,
        OpView::Mul => true,
        OpView::Div => true,
        OpView::CmpLess => true,
        OpView::CmpLessEqual => true,
        OpView::CmpGreater => true,
        OpView::CmpGreaterEqual => true,
        OpView::CmpEqual => true,
        OpView::CmpNotEqual => true,
        OpView::CmpAnd => true,
        OpView::CmpOr => true,
        OpView::Negate => true,
        OpView::Not => true,
        OpView::TransformToType(_) => true,
        OpView::StructGet(_) => true,
        _ => false,
    }
}

/// How many values a straight instruction leaves on the stack, more than
/// it found there.
pub open spec fn effect(op: OpView) -> int {
    match op {
        OpView::Push(_) => 1,
        OpView::Load(_) => 1,
        OpView::NewStruct(_) => 1,
        OpView::Negate => 0,
        OpView::Not => 0,
        OpView::TransformToType(_) => 0,
        OpView::StructGet(_) => 0,
        OpView::StartScope => 0,
        OpView::EndScope => 0,
        _ => -1,
    }
}

/// The instructions that go on to the next one and leave the call stack
/// and the frames alone: the straight ones, those that take a value off
/// the stack into a variable, and those that open and close a scope.
pub open spec fn steady(op: OpView) -> bool {
    straight(op) || op is Store || op is InferStore || op is Assign || op is StructSet
        || op is StartScope || op is EndScope
}

/// Whether the instructions `code[from..to]` are all steady.
pub open spec fn all_steady(code: Seq<OpView>, from: int, to: int) -> bool {
    forall|i: int| from <= i < to ==> 0 <= i < code.len() && steady(#[trigger] code[i])
}

/// Whether the instructions `code[from..to]` are all straight.
pub open spec fn all_straight(code: Seq<OpView>, from: int, to: int) -> bool {
    forall|i: int| from <= i < to ==> 0 <= i < code.len() && straight(#[trigger] code[i])
}

/// The sum of the effects of the instructions `code[from..to]`.
pub open spec fn total_effect(code: Seq<OpView>, from: int, to: int) -> int
    decreases to - from,
{
    if from < to {
        effect(code[from]) + total_effect(code, from + 1, to)
    } else {
        0
    }
}

/// An expression made of literals, names, field accesses, type calls and
/// operators alone.
pub open spec fn plain(e: ExprView) -> bool
    decreases e,
{
    match e {
        ExprView::Literal(_) => true,
        ExprView::Variable(_) => true,
        ExprView::New(_) => true,
        ExprView::Group(x) => plain(*x),
        ExprView::TypeCall(_, x) => plain(*x),
        ExprView::Unary(op, x) => (op is Minus || op is Not) && plain(*x),
        ExprView::Binary(a, op, b) => binary_op(op) is Some && !(op is Not) && plain(*a) && plain(
            *b,
        ),
        ExprView::StructCall(left, right) => *right is Variable && plain(*left),
        _ => false,
    }
}

/// A straight instruction, when it is done, has moved the instruction
/// pointer by one and the height of the stack by its effect, and has left
/// everything else as it was.
pub proof fn law_straight_step(s: VmView)
    requires
        s.idx < s.chunk.code.len() <= usize::MAX,
        straight(s.chunk.code[s.idx as int]),
        step(s, None) is Continue,
    ensures
        ({
            let s2 = step(s, None)->Continue_0;
            &&& s2.idx == s.idx + 1
            &&& s2.stack.len() == s.stack.len() + effect(s.chunk.code[s.idx as int])
            &&& s2.call_stack == s.call_stack
            &&& s2.environment == s.environment
            &&& s2.chunk == s.chunk
            &&& s2.function_jump_back == s.function_jump_back
            &&& s2.function_starting_scope == s.function_starting_scope
            &&& s2.function_return_types == s.function_return_types
        }),
{
    reveal(step_arith);
    reveal(step_compare);
    reveal(step_logic);
    reveal(step_negate);
    reveal(step_not);
    reveal(step_transform);
    reveal(step_load);
    reveal(step_struct_get);
    reveal(step_new_struct);
    reveal(step_plain);
}

proof fn lemma_effect_split(code: Seq<OpView>, from: int, mid: int, to: int)
    requires
        from <= mid <= to,
    ensures
        total_effect(code, from, to) == total_effect(code, from, mid) + total_effect(code, mid, to),
    decreases mid - from,
{
    if from < mid {
        lemma_effect_split(code, from + 1, mid, to);
    }
}

proof fn lemma_effect_same(a: Seq<OpView>, b: Seq<OpView>, from: int, to: int)
    requires
        0 <= from <= to <= a.len(),
        extends(a, b),
    ensures
        total_effect(b, from, to) == total_effect(a, from, to),
        all_straight(a, from, to) ==> all_straight(b, from, to),
        all_steady(a, from, to) ==> all_steady(b, from, to),
    decreases to - from,
{
    if from < to {
        assert(b.subrange(0, a.len() as int)[from] == b[from]);
        lemma_effect_same(a, b, from + 1, to);
    }
    if all_straight(a, from, to) {
        assert forall|i: int| from <= i < to implies 0 <= i < b.len() && straight(#[trigger] b[i]) by {
            assert(b.subrange(0, a.len() as int)[i] == b[i]);
            assert(straight(a[i]));
        }
    }
    if all_steady(a, from, to) {
        assert forall|i: int| from <= i < to implies 0 <= i < b.len() && steady(#[trigger] b[i]) by {
            assert(b.subrange(0, a.len() as int)[i] == b[i]);
            assert(steady(a[i]));
        }
    }
}

/// Straight instructions, one after the other, move the height of the
/// stack by the sum of their effects.
pub proof fn law_straight_run(s: VmView, n: nat)
    requires
        s.idx + n <= s.chunk.code.len() <= usize::MAX,
        all_straight(s.chunk.code, s.idx as int, s.idx + n),
        run(s, n) is Continue,
    ensures
        ({
            let s2 = run(s, n)->Continue_0;
            &&& s2.idx == s.idx + n
            &&& s2.stack.len() == s.stack.len() + total_effect(
                s.chunk.code,
                s.idx as int,
                s.idx + n,
            )
            &&& s2.call_stack == s.call_stack
            &&& s2.environment == s.environment
            &&& s2.function_jump_back == s.function_jump_back
        }),
    decreases n,
{
    if n > 0 {
        assert(straight(s.chunk.code[s.idx as int]));
        law_straight_step(s);
        let s1 = step(s, None)->Continue_0;
        assert(all_straight(s1.chunk.code, s1.idx as int, s1.idx + (n - 1))) by {
            assert forall|i: int| s1.idx <= i < s1.idx + (n - 1) implies 0 <= i < s1.chunk.code.len()
                && straight(#[trigger] s1.chunk.code[i]) by {
                assert(straight(s.chunk.code[i]));
            }
        }
        law_straight_run(s1, (n - 1) as nat);
    }
}

/// What the code written for a plain expression is: straight code that
/// leaves, all in all, one value more on the stack, written behind the
/// code that was there.
pub proof fn law_plain_code(g: GenView, depth: nat, e: ExprView)
    requires
        plain(e),
        fits(generate(g, depth, Item::Expr(e))),
    ensures
        ({
            let out = generate(g, depth, Item::Expr(e));
            &&& extends(g.chunk.code, out.chunk.code)
            &&& all_straight(out.chunk.code, g.chunk.code.len() as int, out.chunk.code.len() as int)
            &&& total_effect(out.chunk.code, g.chunk.code.len() as int, out.chunk.code.len() as int)
                == 1
        }),
    decreases e,
{
    let out = generate(g, depth, Item::Expr(e));
    let a = g.chunk.code.len() as int;
    law_generated_scopes_are_balanced(g, depth, Item::Expr(e));
    match e {
        ExprView::Literal(v) => {
            lemma_last(g, OpView::Push(v));
        },
        ExprView::Variable(name) => {
            lemma_last(g, OpView::Load(name));
        },
        ExprView::New(name) => {
            lemma_last(g, OpView::NewStruct(name));
        },
        ExprView::Group(x) => {
            law_plain_code(g, depth, *x);
        },
        ExprView::TypeCall(t, x) => {
            let g1 = generate(g, depth, Item::Expr(*x));
            lemma_last(g1, OpView::TransformToType(called_type(t)));
            law_plain_code(g, depth, *x);
            lemma_then(g, g1, out);
        },
        ExprView::Unary(op, x) => {
            let g1 = generate(g, depth, Item::Expr(*x));
            lemma_last(g1, unary_op(op));
            law_plain_code(g, depth, *x);
            lemma_then(g, g1, out);
        },
        ExprView::Binary(x, op, y) => {
            let g1 = generate(g, depth, Item::Expr(*x));
            let g2 = generate(g1, depth, Item::Expr(*y));
            lemma_last(g2, binary_op(op)->0);
            assert(out == emit(g2, binary_op(op)->0));
            law_plain_code(g1, depth, *y);
            law_plain_code(g, depth, *x);
            lemma_then(g, g1, g2);
            lemma_then(g, g2, out);
        },
        ExprView::StructCall(left, right) => {
            let g1 = generate(g, depth, Item::Expr(*left));
            lemma_last(g1, OpView::StructGet((*right)->Variable_0));
            law_plain_code(g, depth, *left);
            lemma_then(g, g1, out);
        },
        _ => {},
    }
}

/// One instruction behind the code: the code before it stays, and the
/// one instruction has its own effect.
proof fn lemma_last(g: GenView, op: OpView)
    ensures
        extends(g.chunk.code, emit(g, op).chunk.code),
        emit(g, op).chunk.code.len() == g.chunk.code.len() + 1,
        total_effect(
            emit(g, op).chunk.code,
            g.chunk.code.len() as int,
            g.chunk.code.len() as int + 1,
        ) == effect(op),
        straight(op) ==> all_straight(
            emit(g, op).chunk.code,
            g.chunk.code.len() as int,
            g.chunk.code.len() as int + 1,
        ),
        steady(op) ==> all_steady(
            emit(g, op).chunk.code,
            g.chunk.code.len() as int,
            g.chunk.code.len() as int + 1,
        ),
        emit(g, op).chunk.code[g.chunk.code.len() as int] == op,
{
    let code = emit(g, op).chunk.code;
    assert(code.subrange(0, g.chunk.code.len() as int) =~= g.chunk.code);
    assert(code[g.chunk.code.len() as int] == op);
    assert(total_effect(code, g.chunk.code.len() as int + 1, g.chunk.code.len() as int + 1) == 0);
}

/// Straight code behind straight code is straight, and the effects add
/// up.
proof fn lemma_then(g: GenView, g1: GenView, out: GenView)
    requires
        extends(g.chunk.code, g1.chunk.code),
        extends(g1.chunk.code, out.chunk.code),
    ensures
        extends(g.chunk.code, out.chunk.code),
        total_effect(out.chunk.code, g.chunk.code.len() as int, out.chunk.code.len() as int)
            == total_effect(g1.chunk.code, g.chunk.code.len() as int, g1.chunk.code.len() as int)
            + total_effect(out.chunk.code, g1.chunk.code.len() as int, out.chunk.code.len() as int),
        all_straight(g1.chunk.code, g.chunk.code.len() as int, g1.chunk.code.len() as int)
            && all_straight(
            out.chunk.code,
            g1.chunk.code.len() as int,
            out.chunk.code.len() as int,
        ) ==> all_straight(out.chunk.code, g.chunk.code.len() as int, out.chunk.code.len() as int),
        all_steady(g1.chunk.code, g.chunk.code.len() as int, g1.chunk.code.len() as int)
            && all_steady(
            out.chunk.code,
            g1.chunk.code.len() as int,
            out.chunk.code.len() as int,
        ) ==> all_steady(out.chunk.code, g.chunk.code.len() as int, out.chunk.code.len() as int),
{
    let a = g.chunk.code.len() as int;
    let m = g1.chunk.code.len() as int;
    let n = out.chunk.code.len() as int;
    assert(out.chunk.code.subrange(0, a) =~= g1.chunk.code.subrange(0, a));
    lemma_effect_split(out.chunk.code, a, m, n);
    lemma_effect_same(g1.chunk.code, out.chunk.code, a, m);
}

/// A plain expression leaves exactly one value: when the machine runs
/// the code that the generator wrote for it, from its first instruction
/// to just behind its last, the value stack is one higher than before,
/// and the call stack, the environment and the frames are as they were.
pub proof fn law_plain_expression_leaves_one_value(
    g: GenView,
    depth: nat,
    e: ExprView,
    s: VmView,
)
    requires
        plain(e),
        fits(generate(g, depth, Item::Expr(e))),
        extends(generate(g, depth, Item::Expr(e)).chunk.code, s.chunk.code),
        s.chunk.code.len() <= usize::MAX,
        s.idx == g.chunk.code.len(),
        run(s, (generate(g, depth, Item::Expr(e)).chunk.code.len() - g.chunk.code.len()) as nat)
            is Continue,
    ensures
        ({
            let n = (generate(g, depth, Item::Expr(e)).chunk.code.len() - g.chunk.code.len()) as nat;
            let s2 = run(s, n)->Continue_0;
            &&& s2.stack.len() == s.stack.len() + 1
            &&& s2.idx == generate(g, depth, Item::Expr(e)).chunk.code.len()
            &&& s2.call_stack == s.call_stack
            &&& s2.environment == s.environment
            &&& s2.function_jump_back == s.function_jump_back
        }),
{
    let out = generate(g, depth, Item::Expr(e));
    let a = g.chunk.code.len() as int;
    let n = (out.chunk.code.len() - g.chunk.code.len()) as nat;
    law_plain_code(g, depth, e);
    lemma_effect_same(out.chunk.code, s.chunk.code, a, out.chunk.code.len() as int);
    law_straight_run(s, n);
}

/// A steady instruction, when it is done, has moved the instruction
/// pointer by one and the height of the stack by its effect, and has left
/// the call stack and the frames as they were.
pub proof fn law_steady_step(s: VmView)
    requires
        s.idx < s.chunk.code.len() <= usize::MAX,
        steady(s.chunk.code[s.idx as int]),
        step(s, None) is Continue,
    ensures
        ({
            let s2 = step(s, None)->Continue_0;
            &&& s2.idx == s.idx + 1
            &&& s2.stack.len() == s.stack.len() + effect(s.chunk.code[s.idx as int])
            &&& s2.call_stack == s.call_stack
            &&& s2.chunk == s.chunk
            &&& s2.function_jump_back == s.function_jump_back
            &&& s2.function_starting_scope == s.function_starting_scope
            &&& s2.function_return_types == s.function_return_types
        }),
{
    if straight(s.chunk.code[s.idx as int]) {
        law_straight_step(s);
    } else {
        reveal(step_store);
        reveal(step_infer);
        reveal(step_assign);
        reveal(step_struct_set);
        reveal(step_plain);
    }
}

/// Steady instructions, one after the other, move the height of the
/// stack by the sum of their effects.
pub proof fn law_steady_run(s: VmView, n: nat)
    requires
        s.idx + n <= s.chunk.code.len() <= usize::MAX,
        all_steady(s.chunk.code, s.idx as int, s.idx + n),
        run(s, n) is Continue,
    ensures
        ({
            let s2 = run(s, n)->Continue_0;
            &&& s2.idx == s.idx + n
            &&& s2.stack.len() == s.stack.len() + total_effect(
                s.chunk.code,
                s.idx as int,
                s.idx + n,
            )
            &&& s2.call_stack == s.call_stack
            &&& s2.chunk == s.chunk
            &&& s2.function_jump_back == s.function_jump_back
            &&& s2.function_starting_scope == s.function_starting_scope
            &&& s2.function_return_types == s.function_return_types
        }),
    decreases n,
{
    if n > 0 {
        assert(steady(s.chunk.code[s.idx as int]));
        law_steady_step(s);
        let s1 = step(s, None)->Continue_0;
        assert(all_steady(s1.chunk.code, s1.idx as int, s1.idx + (n - 1))) by {
            assert forall|i: int| s1.idx <= i < s1.idx + (n - 1) implies 0 <= i < s1.chunk.code.len()
                && steady(#[trigger] s1.chunk.code[i]) by {
                assert(steady(s.chunk.code[i]));
            }
        }
        law_steady_run(s1, (n - 1) as nat);
    }
}

/// A run of `a + b` steps is a run of `a` steps and then, if the machine
/// can go on, a run of `b` steps.
pub proof fn law_run_in_two_parts(s: VmView, a: nat, b: nat)
    ensures
        run(s, a + b) == (match run(s, a) {
            StepView::Continue(t) => run(t, b),
            other => other,
        }),
    decreases a,
{
    if a > 0 {
        match step(s, None) {
            StepView::Continue(t) => {
                assert(run(s, a + b) == run(t, (a + b - 1) as nat));
                law_run_in_two_parts(t, (a - 1) as nat, b);
            },
            _ => {},
        }
    }
}

/// Whether `code` holds, from `at` on, a function of `n` parameters made
/// of steady code: the opening of its scope, the bindings of its `n`
/// arguments, steady code up to `end` that leaves one value more on the
/// stack, and at `end` a `Return`.
pub open spec fn steady_function(code: Seq<OpView>, at: int, n: nat, end: int) -> bool {
    &&& 0 <= at
    &&& at + 1 + n <= end < code.len()
    &&& code[at] == OpView::StartScope
    &&& is_prologue(code, at + 1, n)
    &&& all_steady(code, at + 1 + n, end)
    &&& total_effect(code, at + 1 + n, end) == 1
    &&& code[end] == OpView::Return
}

/// A call of a function made of steady code returns with exactly one
/// value: from the call to behind the function's `Return`, if the machine
/// gets there, the value stack has gained exactly one value, the call
/// stack is empty, and the machine is behind the call, at the depth of
/// the call, with the frames that were there before it.
pub proof fn law_steady_function_returns_one_value(
    s: VmView,
    name: Seq<char>,
    n: nat,
    end: int,
)
    requires
        s.idx < s.chunk.code.len() <= usize::MAX,
        s.chunk.code[s.idx as int] == OpView::CallFunc(name),
        find_function(s.chunk.functions.entries, name, 0) is Some,
        s.chunk.functions.entries[find_function(s.chunk.functions.entries, name, 0)->0]
            matches EntryView::Function(_, _, count, at) && count == n && steady_function(
            s.chunk.code,
            at as int,
            n,
            end,
        ),
        run(
            s,
            (end - s.chunk.functions.entries[find_function(
                s.chunk.functions.entries,
                name,
                0,
            )->0]->Function_3 + 2) as nat,
        ) is Continue,
    ensures
        ({
            let at = s.chunk.functions.entries[find_function(
                s.chunk.functions.entries,
                name,
                0,
            )->0]->Function_3;
            let back = run(s, (end - at + 2) as nat)->Continue_0;
            &&& back.stack.len() == s.stack.len() + 1
            &&& back.call_stack.len() == 0
            &&& back.idx == s.idx + 1
            &&& back.environment.current_scope == s.environment.current_scope
            &&& back.function_jump_back == s.function_jump_back
            &&& back.function_starting_scope == s.function_starting_scope
            &&& back.function_return_types == s.function_return_types
        }),
{
    let at = s.chunk.functions.entries[find_function(s.chunk.functions.entries, name, 0)->0]->Function_3;
    let body = (end - (at + 1 + n)) as nat;
    let total = (end - at + 2) as nat;
    law_call_enters_function(s, name);
    reveal(step_call);
    let s1 = step(s, None)->Continue_0;
    assert(run(s, total) == run(s1, (total - 1) as nat));
    reveal(step_plain);
    let s2 = step(s1, None)->Continue_0;
    assert(run(s1, (total - 1) as nat) == run(s2, (total - 2) as nat));
    assert(s2.idx == at + 1);
    assert(total - 2 == n + (body + 1));
    law_run_in_two_parts(s2, n, body + 1);
    law_arguments_leave_call_stack(s2, n);
    lemma_arguments_keep_frames(s2, n);
    let s3 = run(s2, n)->Continue_0;
    law_run_in_two_parts(s3, body, 1);
    assert(all_steady(s3.chunk.code, s3.idx as int, s3.idx + body));
    law_steady_run(s3, body);
    let s4 = run(s3, body)->Continue_0;
    assert(s4.idx == end);
    match step(s4, None) {
        StepView::Continue(t) => {
            assert(run(t, 0) == StepView::Continue(t));
        },
        _ => {},
    }
    assert(run(s4, 1) == step(s4, None));
    law_return_keeps_stacks(s4, None);
    law_return_undoes_call(s, name, s4, None);
    assert(s3.call_stack =~= Seq::empty());
}

/// Bindings of arguments leave the frames as they are.
proof fn lemma_arguments_keep_frames(s: VmView, n: nat)
    requires
        is_prologue(s.chunk.code, s.idx as int, n),
        s.chunk.code.len() <= usize::MAX,
        run(s, n) is Continue,
    ensures
        run(s, n)->Continue_0.function_jump_back == s.function_jump_back,
        run(s, n)->Continue_0.function_starting_scope == s.function_starting_scope,
        run(s, n)->Continue_0.function_return_types == s.function_return_types,
    decreases n,
{
    if n > 0 {
        reveal(step_argument);
        assert(s.chunk.code[s.idx as int] is ArgumentStore);
        let s1 = step(s, None)->Continue_0;
        assert(s1.idx == s.idx + 1);
        assert(is_prologue(s1.chunk.code, s1.idx as int, (n - 1) as nat));
        lemma_arguments_keep_frames(s1, (n - 1) as nat);
    }
}

/// Straight code is steady.
proof fn lemma_straight_is_steady(code: Seq<OpView>, from: int, to: int)
    requires
        0 <= from,
        to <= code.len(),
        all_straight(code, from, to),
    ensures
        all_steady(code, from, to),
{
    assert forall|i: int| from <= i < to implies 0 <= i < code.len() && steady(#[trigger] code[i]) by {
        assert(straight(code[i]));
    }
}

/// A statement that declares a variable or assigns to one, with a plain
/// expression for its value.
pub open spec fn plain_statement(s: StmtView) -> bool {
    match s {
        StmtView::Declaration(_, _, e) => plain(e),
        StmtView::InferDeclaration(_, e) => plain(e),
        StmtView::Expr(ExprView::Assign(target, x)) => chain(*target) is Some && plain(*x),
        StmtView::Expr(ExprView::AssignByOp(_, op, x)) => compound_op(op) is Some && plain(*x),
        _ => false,
    }
}

/// Whether the statements `ss[i..]` are all plain.
pub open spec fn plain_statements(ss: Seq<StmtView>, i: int) -> bool {
    forall|k: int| i <= k < ss.len() ==> plain_statement(#[trigger] ss[k])
}

/// What the code written for a plain expression in the place of a value
/// is: what `law_plain_code` says.
proof fn lemma_plain_value(g: GenView, depth: nat, e: ExprView)
    requires
        plain(e),
        fits(generate(g, depth, Item::Value(e))),
    ensures
        generate(g, depth, Item::Value(e)) == generate(g, depth, Item::Expr(e)),
        adds(g, generate(g, depth, Item::Value(e)), 1),
{
    law_plain_code(g, depth, e);
    let out = generate(g, depth, Item::Expr(e));
    lemma_straight_is_steady(out.chunk.code, g.chunk.code.len() as int, out.chunk.code.len() as int);
}

/// Whether `out` is `g` with steady code written behind it that leaves
/// the stack `k` higher.
pub open spec fn adds(g: GenView, out: GenView, k: int) -> bool {
    &&& extends(g.chunk.code, out.chunk.code)
    &&& all_steady(out.chunk.code, g.chunk.code.len() as int, out.chunk.code.len() as int)
    &&& total_effect(out.chunk.code, g.chunk.code.len() as int, out.chunk.code.len() as int) == k
}

/// One steady instruction behind steady code.
proof fn lemma_adds_last(g: GenView, g1: GenView, op: OpView, k: int)
    requires
        adds(g, g1, k),
        steady(op),
    ensures
        adds(g, emit(g1, op), k + effect(op)),
{
    lemma_last(g1, op);
    lemma_then(g, g1, emit(g1, op));
}

/// Steady code behind steady code.
proof fn lemma_adds_then(g: GenView, g1: GenView, out: GenView, k: int, m: int)
    requires
        adds(g, g1, k),
        adds(g1, out, m),
    ensures
        adds(g, out, k + m),
{
    lemma_then(g, g1, out);
}

/// Nothing written.
proof fn lemma_adds_nothing(g: GenView)
    ensures
        adds(g, g, 0),
{
    assert(g.chunk.code.subrange(0, g.chunk.code.len() as int) =~= g.chunk.code);
}

/// The code of a declaration with a plain value.
proof fn lemma_plain_declaration(g: GenView, depth: nat, s: StmtView)
    requires
        s is Declaration || s is InferDeclaration,
        plain_statement(s),
        fits(generate(g, depth, Item::Stmt(s))),
    ensures
        adds(g, generate(g, depth, Item::Stmt(s)), 0),
{
    match s {
        StmtView::Declaration(name, t, e) => {
            let g1 = generate(g, depth, Item::Value(e));
            lemma_last(g1, OpView::Store(name, t));
            lemma_plain_value(g, depth, e);
            lemma_adds_last(g, g1, OpView::Store(name, t), 1);
        },
        StmtView::InferDeclaration(name, e) => {
            let g1 = generate(g, depth, Item::Value(e));
            lemma_last(g1, OpView::InferStore(name));
            lemma_plain_value(g, depth, e);
            lemma_adds_last(g, g1, OpView::InferStore(name), 1);
        },
        _ => {},
    }
}

/// The code of an assignment of a plain value.
proof fn lemma_plain_assignment(g: GenView, depth: nat, target: ExprView, x: ExprView)
    requires
        chain(target) is Some,
        plain(x),
        fits(generate(g, depth, Item::Expr(ExprView::Assign(Box::new(target), Box::new(x))))),
    ensures
        adds(g, generate(g, depth, Item::Expr(ExprView::Assign(Box::new(target), Box::new(x)))), 0),
{
    let g1 = generate(g, depth, Item::Value(x));
    let names = chain(target)->0;
    if names.len() == 1 {
        lemma_last(g1, OpView::Assign(names[0]));
        lemma_plain_value(g, depth, x);
        lemma_adds_last(g, g1, OpView::Assign(names[0]), 1);
    } else {
        let op = OpView::StructSet(names[0], names.subrange(1, names.len() as int));
        lemma_last(g1, op);
        lemma_plain_value(g, depth, x);
        lemma_adds_last(g, g1, op, 1);
    }
}

/// The code of a compound assignment of a plain value.
proof fn lemma_plain_compound(g: GenView, depth: nat, name: Seq<char>, op: TokenView, x: ExprView)
    requires
        compound_op(op) is Some,
        plain(x),
        fits(generate(g, depth, Item::Expr(ExprView::AssignByOp(name, op, Box::new(x))))),
    ensures
        adds(g, generate(g, depth, Item::Expr(ExprView::AssignByOp(name, op, Box::new(x)))), 0),
{
    let e1 = emit(g, OpView::Load(name));
    let g1 = generate(e1, depth, Item::Value(x));
    let g2 = emit(g1, compound_op(op)->0);
    assert(g2 == emit_some(g1, compound_op(op)));
    lemma_last(g1, compound_op(op)->0);
    lemma_last(g2, OpView::Assign(name));
    lemma_plain_value(e1, depth, x);
    lemma_adds_nothing(g);
    lemma_adds_last(g, g, OpView::Load(name), 0);
    lemma_adds_then(g, e1, g1, 1, 1);
    lemma_adds_last(g, g1, compound_op(op)->0, 2);
    lemma_adds_last(g, g2, OpView::Assign(name), 1);
}

/// What the code written for a plain statement is: steady code that
/// leaves the stack, all in all, as high as it was.
pub proof fn law_plain_statement_code(g: GenView, depth: nat, s: StmtView)
    requires
        plain_statement(s),
        fits(generate(g, depth, Item::Stmt(s))),
    ensures
        adds(g, generate(g, depth, Item::Stmt(s)), 0),
{
    match s {
        StmtView::Expr(ExprView::Assign(target, x)) => {
            let e = ExprView::Assign(target, x);
            assert(generate(g, depth, Item::Discard(e)) == generate(g, depth, Item::Expr(e)));
            lemma_plain_assignment(g, depth, *target, *x);
        },
        StmtView::Expr(ExprView::AssignByOp(name, op, x)) => {
            let e = ExprView::AssignByOp(name, op, x);
            assert(generate(g, depth, Item::Discard(e)) == generate(g, depth, Item::Expr(e)));
            lemma_plain_compound(g, depth, name, op, *x);
        },
        _ => {
            lemma_plain_declaration(g, depth, s);
        },
    }
}

/// What the code written for plain statements is: steady code that
/// leaves the stack, all in all, as high as it was.
pub proof fn law_plain_statements_code(g: GenView, depth: nat, ss: Seq<StmtView>, i: int)
    requires
        0 <= i,
        plain_statements(ss, i),
        fits(generate(g, depth, Item::Stmts(ss, i, false))),
    ensures
        adds(g, generate(g, depth, Item::Stmts(ss, i, false)), 0),
    decreases ss.len() - i,
{
    let out = generate(g, depth, Item::Stmts(ss, i, false));
    if i < ss.len() {
        let g1 = generate(g, depth, Item::Stmt(ss[i]));
        assert(plain_statement(ss[i]));
        assert(out == generate(g1, depth, Item::Stmts(ss, i + 1, false)));
        law_plain_statements_code(g1, depth, ss, i + 1);
        law_plain_statement_code(g, depth, ss[i]);
        lemma_adds_then(g, g1, out, 0, 0);
    } else {
        lemma_adds_nothing(g);
    }
}

/// The statements `ss` and then the statement `last` are written as
/// `ss` is written and then `last`.
proof fn lemma_statements_then(g: GenView, depth: nat, ss: Seq<StmtView>, last: StmtView, i: int)
    requires
        0 <= i <= ss.len(),
    ensures
        generate(g, depth, Item::Stmts(ss.push(last), i, false)) == generate(
            generate(g, depth, Item::Stmts(ss, i, false)),
            depth,
            Item::Stmt(last),
        ),
    decreases ss.len() - i,
{
    let all = ss.push(last);
    if i < ss.len() {
        assert(all[i] == ss[i]);
        lemma_statements_then(generate(g, depth, Item::Stmt(ss[i])), depth, ss, last, i + 1);
    } else {
        assert(all[i] == last);
        let g1 = generate(g, depth, Item::Stmt(last));
        assert(generate(g1, depth, Item::Stmts(all, i + 1, false)) == g1);
    }
}

/// Where the `Return` of a function stands whose body is the plain
/// statements `ss` and then the return of `e`, when the generator `g`
/// writes the function.
pub open spec fn return_place(
    g: GenView,
    depth: nat,
    names: Seq<Seq<char>>,
    types: Seq<ClassTypeView>,
    ss: Seq<StmtView>,
    e: ExprView,
) -> int {
    generate(
        generate(
            emit(
                emit_arguments(
                    emit(emit(g, OpView::Jmp(0)), OpView::StartScope),
                    names,
                    types,
                    0,
                ),
                OpView::StartScope,
            ),
            depth,
            Item::Stmts(ss, 0, false),
        ),
        depth,
        Item::Expr(e),
    ).chunk.code.len() as int
}

/// What stands in the shorter code stands in the longer.
proof fn lemma_kept(a: Seq<OpView>, b: Seq<OpView>, i: int)
    requires
        extends(a, b),
        0 <= i < a.len(),
    ensures
        b[i] == a[i],
{
    assert(b.subrange(0, a.len() as int)[i] == b[i]);
}

/// The head of a function: the jump over it, the opening of its scope
/// and the bindings of its arguments.
proof fn lemma_head(g: GenView, names: Seq<Seq<char>>, types: Seq<ClassTypeView>)
    requires
        names.len() <= types.len(),
    ensures
        ({
            let head = emit_arguments(
                emit(emit(g, OpView::Jmp(0)), OpView::StartScope),
                names,
                types,
                0,
            );
            &&& head.chunk.code.len() == g.chunk.code.len() + 2 + names.len()
            &&& head.chunk.code[g.chunk.code.len() as int + 1] == OpView::StartScope
            &&& is_prologue(head.chunk.code, g.chunk.code.len() as int + 2, names.len())
        }),
{
    let e0 = emit(g, OpView::Jmp(0));
    let e1 = emit(e0, OpView::StartScope);
    let head = emit_arguments(e1, names, types, 0);
    let a = g.chunk.code.len() as int;
    lemma_last(g, OpView::Jmp(0));
    lemma_last(e0, OpView::StartScope);
    law_arguments_are_written(e1, names, types);
    lemma_kept(e1.chunk.code, head.chunk.code, a + 1);
    assert forall|i: int| a + 2 <= i < a + 2 + names.len() implies 0 <= i < head.chunk.code.len()
        && #[trigger] head.chunk.code[i] is ArgumentStore by {
        let k = i - (a + 2);
        assert(head.chunk.code[e1.chunk.code.len() + k] == OpView::ArgumentStore(
            names[k],
            types[k],
        ));
    }
}

/// The end of a function whose body ends in a return: behind the value
/// stand the `Return`, the end of the body's scope and the return of
/// nothing that every function ends with.
proof fn lemma_tail(v: GenView)
    ensures
        ({
            let tail = emit(
                emit(
                    emit(emit(emit(v, OpView::Return), OpView::EndScope), OpView::Push(ValueView::Nil)),
                    OpView::Return,
                ),
                OpView::EndScope,
            );
            &&& extends(v.chunk.code, tail.chunk.code)
            &&& tail.chunk.code.len() == v.chunk.code.len() + 5
            &&& tail.chunk.code[v.chunk.code.len() as int] == OpView::Return
        }),
{
    let r = emit(v, OpView::Return);
    let b2 = emit(r, OpView::EndScope);
    let n1 = emit(b2, OpView::Push(ValueView::Nil));
    let n2 = emit(n1, OpView::Return);
    let g3 = emit(n2, OpView::EndScope);
    lemma_last(v, OpView::Return);
    lemma_last(r, OpView::EndScope);
    lemma_last(b2, OpView::Push(ValueView::Nil));
    lemma_last(n1, OpView::Return);
    lemma_last(n2, OpView::EndScope);
    lemma_then(r, b2, n1);
    lemma_then(r, n1, n2);
    lemma_then(r, n2, g3);
    lemma_then(v, r, g3);
    lemma_kept(r.chunk.code, g3.chunk.code, v.chunk.code.len() as int);
}

/// How a function is written whose body is the statements `ss` and then
/// the return of `e`.
proof fn lemma_function_written(
    g: GenView,
    depth: nat,
    name: Seq<char>,
    t: ClassTypeView,
    names: Seq<Seq<char>>,
    types: Seq<ClassTypeView>,
    ss: Seq<StmtView>,
    e: ExprView,
)
    requires
        names.len() <= types.len(),
        fits(
            generate(
                g,
                depth,
                Item::Stmt(
                    StmtView::Function(
                        name,
                        t,
                        names,
                        types,
                        ExprView::Block(ss.push(StmtView::Return(Some(e)))),
                    ),
                ),
            ),
        ),
    ensures
        ({
            let head = emit_arguments(
                emit(emit(g, OpView::Jmp(0)), OpView::StartScope),
                names,
                types,
                0,
            );
            let v = generate(
                generate(emit(head, OpView::StartScope), depth, Item::Stmts(ss, 0, false)),
                depth,
                Item::Expr(e),
            );
            let tail = emit(
                emit(
                    emit(emit(emit(v, OpView::Return), OpView::EndScope), OpView::Push(ValueView::Nil)),
                    OpView::Return,
                ),
                OpView::EndScope,
            );
            let out = generate(
                g,
                depth,
                Item::Stmt(
                    StmtView::Function(
                        name,
                        t,
                        names,
                        types,
                        ExprView::Block(ss.push(StmtView::Return(Some(e)))),
                    ),
                ),
            );
            &&& out.chunk.code.len() == tail.chunk.code.len()
            &&& forall|i: int|
                g.chunk.code.len() < i < out.chunk.code.len() ==> out.chunk.code[i]
                    == tail.chunk.code[i]
        }),
{
    let ret = StmtView::Return(Some(e));
    let all = ss.push(ret);
    let f = StmtView::Function(name, t, names, types, ExprView::Block(all));
    let out = generate(g, depth, Item::Stmt(f));
    let e0 = emit(g, OpView::Jmp(0));
    let head = emit_arguments(emit(e0, OpView::StartScope), names, types, 0);
    let b0 = emit(head, OpView::StartScope);
    let b1 = generate(b0, depth, Item::Stmts(ss, 0, false));
    let v = generate(b1, depth, Item::Expr(e));
    let r = emit(v, OpView::Return);
    let b2 = emit(r, OpView::EndScope);
    let g3 = emit(emit(emit(b2, OpView::Push(ValueView::Nil)), OpView::Return), OpView::EndScope);
    let g4 = bound(g3, name, t, count_of(names), here(e0));
    lemma_statements_then(b0, depth, ss, ret, 0);
    assert(generate(b1, depth, Item::Stmt(ret)) == r);
    assert(generate(b0, depth, Item::Stmts(all, 0, false)) == r);
    assert(generate(head, depth, Item::Expr(ExprView::Block(all))) == b2);
    assert(out == patch(g4, here(g), OpView::Jmp(here(g4))));
    assert(g4.chunk.code == g3.chunk.code);
    assert(out.chunk.code == g3.chunk.code.update(here(g) as int, OpView::Jmp(here(g4))));
    lemma_last(g, OpView::Jmp(0));
    lemma_last(e0, OpView::StartScope);
    law_arguments_are_written(emit(e0, OpView::StartScope), names, types);
    lemma_last(b2, OpView::Push(ValueView::Nil));
    lemma_last(emit(b2, OpView::Push(ValueView::Nil)), OpView::Return);
    lemma_last(emit(emit(b2, OpView::Push(ValueView::Nil)), OpView::Return), OpView::EndScope);
    if g3.chunk.code.len() <= usize::MAX {
        law_generated_scopes_are_balanced(head, depth, Item::Expr(ExprView::Block(all)));
    }
    assert(here(g) as int == g.chunk.code.len());
    assert(out.chunk.code.len() == g3.chunk.code.len());
    assert forall|i: int| g.chunk.code.len() < i < out.chunk.code.len() implies out.chunk.code[i]
        == g3.chunk.code[i] by {}
}

/// A function whose body is plain statements and then the return of a
/// plain expression is written as a function of steady code: its code,
/// from behind the jump that goes over it, is the opening of its scope,
/// the bindings of its arguments, steady code that leaves one value more
/// on the stack, and a `Return`.
pub proof fn law_plain_function_code(
    g: GenView,
    depth: nat,
    name: Seq<char>,
    t: ClassTypeView,
    names: Seq<Seq<char>>,
    types: Seq<ClassTypeView>,
    ss: Seq<StmtView>,
    e: ExprView,
)
    requires
        plain_statements(ss, 0),
        plain(e),
        names.len() <= types.len(),
        fits(
            generate(
                g,
                depth,
                Item::Stmt(
                    StmtView::Function(
                        name,
                        t,
                        names,
                        types,
                        ExprView::Block(ss.push(StmtView::Return(Some(e)))),
                    ),
                ),
            ),
        ),
    ensures
        steady_function(
            generate(
                g,
                depth,
                Item::Stmt(
                    StmtView::Function(
                        name,
                        t,
                        names,
                        types,
                        ExprView::Block(ss.push(StmtView::Return(Some(e)))),
                    ),
                ),
            ).chunk.code,
            g.chunk.code.len() as int + 1,
            names.len(),
            return_place(g, depth, names, types, ss, e),
        ),
{
    let f = StmtView::Function(
        name,
        t,
        names,
        types,
        ExprView::Block(ss.push(StmtView::Return(Some(e)))),
    );
    let out = generate(g, depth, Item::Stmt(f));
    let a = g.chunk.code.len() as int;
    let n = names.len() as int;
    let head = emit_arguments(emit(emit(g, OpView::Jmp(0)), OpView::StartScope), names, types, 0);
    let b0 = emit(head, OpView::StartScope);
    let b1 = generate(b0, depth, Item::Stmts(ss, 0, false));
    let v = generate(b1, depth, Item::Expr(e));
    let tail = emit(
        emit(
            emit(emit(emit(v, OpView::Return), OpView::EndScope), OpView::Push(ValueView::Nil)),
            OpView::Return,
        ),
        OpView::EndScope,
    );
    let end = v.chunk.code.len() as int;
    lemma_function_written(g, depth, name, t, names, types, ss, e);
    lemma_tail(v);
    lemma_head(g, names, types);
    law_plain_code(b1, depth, e);
    lemma_straight_is_steady(v.chunk.code, b1.chunk.code.len() as int, end);
    law_plain_statements_code(b0, depth, ss, 0);
    lemma_adds_nothing(head);
    lemma_adds_last(head, head, OpView::StartScope, 0);
    lemma_adds_then(head, b0, b1, 0, 0);
    lemma_adds_then(head, b1, v, 0, 1);
    lemma_effect_same(v.chunk.code, tail.chunk.code, a + 2 + n, end);
    lemma_agree(tail.chunk.code, out.chunk.code, a + 2 + n, end);
    assert(out.chunk.code[a + 1] == OpView::StartScope) by {
        lemma_kept(head.chunk.code, v.chunk.code, a + 1);
        lemma_kept(v.chunk.code, tail.chunk.code, a + 1);
    }
    assert(is_prologue(out.chunk.code, a + 2, n as nat)) by {
        assert forall|i: int| a + 2 <= i < a + 2 + n implies 0 <= i < out.chunk.code.len()
            && #[trigger] out.chunk.code[i] is ArgumentStore by {
            lemma_kept(head.chunk.code, v.chunk.code, i);
            lemma_kept(v.chunk.code, tail.chunk.code, i);
            assert(head.chunk.code[i] is ArgumentStore);
        }
    }
}

/// Code that holds the same instructions in a range has the same effect
/// there, and is steady there if the other is.
proof fn lemma_agree(a: Seq<OpView>, b: Seq<OpView>, from: int, to: int)
    requires
        0 <= from <= to <= a.len(),
        to <= b.len(),
        forall|i: int| from <= i < to ==> a[i] == b[i],
    ensures
        total_effect(b, from, to) == total_effect(a, from, to),
        all_steady(a, from, to) ==> all_steady(b, from, to),
    decreases to - from,
{
    if from < to {
        lemma_agree(a, b, from + 1, to);
    }
    if all_steady(a, from, to) {
        assert forall|i: int| from <= i < to implies 0 <= i < b.len() && steady(#[trigger] b[i]) by {
            assert(steady(a[i]));
        }
    }
}

} // verus!
