//! What holds of the machine beyond what each step promises for itself:
//! of its environment in every state, and of calls, returns and scopes.

use vstd::prelude::*;
use crate::chunk::OpView;
use crate::environment::{
    bounded, declared, find_function, lemma_declared, lemma_lookup, lemma_updated,
    lemma_without_scope, lemma_without_scope_bounded, lookup, sound, typed, unique, without_scope,
    EntryView, EnvView,
};
use crate::value::{
    class_tag, coerce, has_type, infer_type, tag_of, ClassTypeView, Conv, Tag,
    ValueView,
};
use crate::vm::{
    next, popped, pushed, run, settled, step, step_argument, step_arith, step_assign, step_branch,
    step_call, step_compare, step_infer, step_load, step_logic, step_negate, step_new_struct,
    step_not, step_plain, step_return, step_set_index, step_store, step_struct_get,
    step_struct_set, step_transform, stop, stored, wanted, StepView, VmView,
};

verus! {

/// A conversion that is done, by the library or by the host's answer,
/// gives a value of the type converted to: the host is asked for no
/// structure, and its answer is only taken when it is of the kind wanted.
proof fn lemma_settled_typed(v: ValueView, answer: Option<ValueView>, t: ClassTypeView)
    ensures
        coerce(v, t) matches Conv::Done(w) ==> has_type(w, t),
        settled(coerce(v, t), answer, wanted(t)) matches Conv::Done(w) ==> has_type(w, t),
{
}

/// The state that a step leads to, if it leads to one.
pub open spec fn state_after(r: StepView) -> Option<VmView> {
    match r {
        StepView::Continue(s) => Some(s),
        StepView::Halt(s) => Some(s),
        _ => None,
    }
}

proof fn lemma_store_sound(s: VmView, name: Seq<char>, t: ClassTypeView, answer: Option<ValueView>)
    requires
        sound(s.environment),
    ensures
        state_after(step_store(s, name, t, answer)) matches Some(s2) ==> sound(s2.environment),
        state_after(step_argument(s, name, t, answer)) matches Some(s2) ==> sound(s2.environment),
{
    reveal(step_store);
    reveal(step_argument);
    if s.stack.len() >= 1 {
        let v = s.stack.last();
        lemma_settled_typed(v, answer, t);
        match settled(coerce(v, t), answer, wanted(t)) {
            Conv::Done(w) => lemma_declared(s.environment, name, t, w),
            _ => {},
        }
    }
    if s.call_stack.len() >= 1 {
        let v = s.call_stack.last();
        lemma_settled_typed(v, answer, t);
        match settled(coerce(v, t), answer, wanted(t)) {
            Conv::Done(w) => lemma_declared(s.environment, name, t, w),
            _ => {},
        }
    }
}

proof fn lemma_infer_sound(s: VmView, name: Seq<char>, answer: Option<ValueView>)
    requires
        sound(s.environment),
    ensures
        state_after(step_infer(s, name, answer)) matches Some(s2) ==> sound(s2.environment),
{
    reveal(step_infer);
    if s.stack.len() >= 1 {
        let v = s.stack.last();
        lemma_declared(s.environment, name, infer_type(v), v);
    }
}

proof fn lemma_stored_sound(env: EnvView, k: int, w: ValueView)
    requires
        sound(env),
        0 <= k < env.entries.len(),
        env.entries[k] matches EntryView::Variable(_, _, t, _) ==> has_type(w, t),
    ensures
        sound(stored(env, k, w)),
{
    if env.entries[k] is Variable {
        lemma_updated(env.entries, k, w, env.current_scope as int);
    }
}

proof fn lemma_assign_sound(s: VmView, name: Seq<char>, answer: Option<ValueView>)
    requires
        sound(s.environment),
    ensures
        state_after(step_assign(s, name, answer)) matches Some(s2) ==> sound(s2.environment),
{
    reveal(step_assign);
    lemma_lookup(s.environment.entries, name, s.environment.current_scope as int);
    if s.stack.len() >= 1 {
        let v = s.stack.last();
        match lookup(s.environment.entries, name, s.environment.current_scope as int) {
            Some(k) => match s.environment.entries[k] {
                EntryView::Variable(_, _, t, _) => {
                    lemma_settled_typed(v, answer, t);
                    match settled(coerce(v, t), answer, wanted(t)) {
                        Conv::Done(w) => lemma_stored_sound(s.environment, k, w),
                        _ => {},
                    }
                },
                _ => {},
            },
            None => {},
        }
    }
}

proof fn lemma_struct_set_sound(
    s: VmView,
    root: Seq<char>,
    fields: Seq<Seq<char>>,
    answer: Option<ValueView>,
)
    requires
        sound(s.environment),
    ensures
        state_after(step_struct_set(s, root, fields, answer)) matches Some(s2) ==> sound(
            s2.environment,
        ),
{
    reveal(step_struct_set);
    lemma_lookup(s.environment.entries, root, s.environment.current_scope as int);
    match lookup(s.environment.entries, root, s.environment.current_scope as int) {
        Some(k) => match s.environment.entries[k] {
            EntryView::Variable(_, held, t, _) => {
                if s.stack.len() >= 1 {
                    match held {
                        ValueView::Struct(cs) => match crate::value::with_path(
                            cs,
                            fields,
                            0,
                            s.stack.last(),
                        ) {
                            Some(changed) => {
                                let v = ValueView::Struct(changed);
                                lemma_settled_typed(v, answer, t);
                                match settled(coerce(v, t), answer, wanted(t)) {
                                    Conv::Done(w) => lemma_stored_sound(s.environment, k, w),
                                    _ => {},
                                }
                            },
                            None => {},
                        },
                        _ => {},
                    }
                }
            },
            _ => {},
        },
        None => {},
    }
}

proof fn lemma_return_sound(s: VmView, answer: Option<ValueView>)
    requires
        sound(s.environment),
    ensures
        state_after(step_return(s, answer)) matches Some(s2) ==> sound(s2.environment),
{
    reveal(step_return);
    if s.function_starting_scope.len() > 0 {
        lemma_without_scope(s.environment.entries, s.function_starting_scope.last() as int);
        lemma_without_scope_bounded(
            s.environment.entries,
            s.function_starting_scope.last() as int,
        );
    }
}

proof fn lemma_plain_sound(s: VmView, op: OpView, answer: Option<ValueView>)
    requires
        sound(s.environment),
    ensures
        state_after(step_plain(s, op, answer)) matches Some(s2) ==> sound(s2.environment),
{
    reveal(step_plain);
    lemma_without_scope(s.environment.entries, s.environment.current_scope as int);
    lemma_without_scope_bounded(s.environment.entries, s.environment.current_scope as int);
    match op {
        OpView::EndScope => {
            let kept = without_scope(s.environment.entries, s.environment.current_scope as int);
            if s.environment.current_scope == 0 {
                assert(bounded(kept, 0));
            }
        },
        _ => {},
    }
}

proof fn lemma_others_sound(s: VmView, answer: Option<ValueView>)
    requires
        sound(s.environment),
    ensures
        forall|op: crate::value::BinOp|
            state_after(#[trigger] step_arith(s, op, answer)) matches Some(s2) ==> sound(
                s2.environment,
            ),
        forall|rel: crate::value::Relation|
            state_after(#[trigger] step_compare(s, rel, answer)) matches Some(s2) ==> sound(
                s2.environment,
            ),
        forall|both: bool|
            state_after(#[trigger] step_logic(s, both, answer)) matches Some(s2) ==> sound(
                s2.environment,
            ),
        state_after(step_negate(s, answer)) matches Some(s2) ==> sound(s2.environment),
        state_after(step_not(s, answer)) matches Some(s2) ==> sound(s2.environment),
        forall|t: ClassTypeView|
            state_after(#[trigger] step_transform(s, t, answer)) matches Some(s2) ==> sound(
                s2.environment,
            ),
        forall|name: Seq<char>|
            state_after(#[trigger] step_load(s, name, answer)) matches Some(s2) ==> sound(
                s2.environment,
            ),
        forall|i: usize|
            state_after(#[trigger] step_set_index(s, i, answer)) matches Some(s2) ==> sound(
                s2.environment,
            ),
        forall|name: Seq<char>|
            state_after(#[trigger] step_struct_get(s, name, answer)) matches Some(s2) ==> sound(
                s2.environment,
            ),
        forall|name: Seq<char>|
            state_after(#[trigger] step_new_struct(s, name, answer)) matches Some(s2) ==> sound(
                s2.environment,
            ),
        forall|name: Seq<char>|
            state_after(#[trigger] step_call(s, name, answer)) matches Some(s2) ==> sound(
                s2.environment,
            ),
        forall|at: usize|
            state_after(#[trigger] step_branch(s, at, answer)) matches Some(s2) ==> sound(
                s2.environment,
            ),
{
    reveal(step_arith);
    reveal(step_compare);
    reveal(step_logic);
    reveal(step_negate);
    reveal(step_not);
    reveal(step_transform);
    reveal(step_load);
    reveal(step_set_index);
    reveal(step_struct_get);
    reveal(step_new_struct);
    reveal(step_call);
    reveal(step_branch);
}

/// The environment of a new machine, which holds nothing, is sound.
pub proof fn law_empty_environment_is_sound(depth: usize)
    ensures
        sound(EnvView { entries: Seq::empty(), current_scope: depth }),
{
}

/// Every step keeps the environment sound: each variable goes on holding
/// a value of its declared type, and no name comes to be declared twice
/// at one depth.
pub proof fn law_step_keeps_environment_sound(s: VmView, answer: Option<ValueView>)
    requires
        sound(s.environment),
    ensures
        state_after(step(s, answer)) matches Some(s2) ==> sound(s2.environment),
{
    if s.idx < s.chunk.code.len() {
        lemma_others_sound(s, answer);
        match s.chunk.code[s.idx as int] {
            OpView::Return => lemma_return_sound(s, answer),
            OpView::StructSet(root, fields) => lemma_struct_set_sound(s, root, fields, answer),
            OpView::ArgumentStore(name, t) => lemma_store_sound(s, name, t, answer),
            OpView::Store(name, t) => lemma_store_sound(s, name, t, answer),
            OpView::InferStore(name) => lemma_infer_sound(s, name, answer),
            OpView::Assign(name) => lemma_assign_sound(s, name, answer),
            OpView::StructSetByIndex(_) => {},
            OpView::StructGet(_) => {},
            OpView::NewStruct(_) => {},
            OpView::TransformToType(_) => {},
            OpView::Add => {},
            OpView::Sub => {},
            OpView::Mul => {},
            OpView::Div => {},
            OpView::CallFunc(_) => {},
            OpView::CmpLess => {},
            OpView::CmpLessEqual => {},
            OpView::CmpGreater => {},
            OpView::CmpGreaterEqual => {},
            OpView::CmpEqual => {},
            OpView::CmpNotEqual => {},
            OpView::CmpAnd => {},
            OpView::CmpOr => {},
            OpView::JmpIfFalse(_) => {},
            OpView::Negate => {},
            OpView::Not => {},
            OpView::Load(_) => {},
            op => lemma_plain_sound(s, op, answer),
        }
    }
}

/// A run keeps the environment sound.
pub proof fn law_run_keeps_environment_sound(s: VmView, fuel: nat)
    requires
        sound(s.environment),
    ensures
        state_after(run(s, fuel)) matches Some(s2) ==> sound(s2.environment),
    decreases fuel,
{
    if fuel > 0 {
        law_step_keeps_environment_sound(s, None);
        match step(s, None) {
            StepView::Continue(t) => law_run_keeps_environment_sound(t, (fuel - 1) as nat),
            _ => {},
        }
    }
}

/// Every read of a variable gives a value of the variable's declared
/// type: where the type is not `Any`, the kind of the value is the kind
/// of the type.
pub proof fn law_read_gives_declared_type(s: VmView, name: Seq<char>)
    requires
        sound(s.environment),
        s.idx < s.chunk.code.len(),
        s.chunk.code[s.idx as int] == OpView::Load(name),
        step(s, None) is Continue,
    ensures
        ({
            let k = lookup(s.environment.entries, name, s.environment.current_scope as int)->0;
            let read = step(s, None)->Continue_0.stack.last();
            &&& lookup(s.environment.entries, name, s.environment.current_scope as int) is Some
            &&& s.environment.entries[k] is Variable
            &&& read == s.environment.entries[k]->Variable_1
            &&& has_type(read, s.environment.entries[k]->Variable_2)
            &&& class_tag(s.environment.entries[k]->Variable_2) matches Some(kind) ==> tag_of(read)
                == kind
        }),
{
    reveal(step_load);
    lemma_lookup(s.environment.entries, name, s.environment.current_scope as int);
}

/// A declaration without a type and a read of the same name right after
/// it give back the value declared: the stack is as it was before the
/// two, and the kind of the value read is the kind that was inferred.
pub proof fn law_infer_store_then_load(s: VmView, name: Seq<char>)
    requires
        sound(s.environment),
        s.idx + 1 < s.chunk.code.len() <= usize::MAX,
        s.chunk.code[s.idx as int] == OpView::InferStore(name),
        s.chunk.code[s.idx + 1] == OpView::Load(name),
        s.stack.len() >= 1,
    ensures
        step(s, None) is Continue,
        step(step(s, None)->Continue_0, None) is Continue,
        step(step(s, None)->Continue_0, None)->Continue_0.stack == s.stack,
        has_type(
            step(step(s, None)->Continue_0, None)->Continue_0.stack.last(),
            infer_type(s.stack.last()),
        ),
{
    reveal(step_infer);
    reveal(step_load);
    let v = s.stack.last();
    lemma_declared(s.environment, name, infer_type(v), v);
    let s1 = step(s, None)->Continue_0;
    assert(s1.environment == declared(s.environment, name, infer_type(v), v));
    assert(s1.idx == s.idx + 1);
    assert(s1.chunk == s.chunk);
    let s2 = step(s1, None)->Continue_0;
    assert(s2.stack =~= s.stack);
}

/// `Return` converts the value on top of the stack and touches nothing
/// else on the two stacks: the call stack is as it was, the value stack
/// is as long as it was, and under its top it is as it was.
pub proof fn law_return_keeps_stacks(s: VmView, answer: Option<ValueView>)
    requires
        s.idx < s.chunk.code.len(),
        s.chunk.code[s.idx as int] == OpView::Return,
        step(s, answer) is Continue,
    ensures
        ({
            let s2 = step(s, answer)->Continue_0;
            &&& s2.call_stack == s.call_stack
            &&& s2.stack.len() == s.stack.len()
            &&& forall|i: int| 0 <= i < s.stack.len() - 1 ==> s2.stack[i] == s.stack[i]
            &&& s.function_return_types.last() is Any ==> s2.stack == s.stack
            &&& s.stack.len() > 0 ==> has_type(s2.stack.last(), s.function_return_types.last())
        }),
{
    reveal(step_return);
    if !(s.function_return_types.last() is Any) {
        let t = s.function_return_types.last();
        let v = s.stack.last();
        lemma_settled_typed(v, answer, t);
    }
}

/// A call of a function of the script finds as many values on the call
/// stack as the function has parameters, leaves both stacks as they are,
/// and notes where to return to and the depth that the function's scope
/// will have.
pub proof fn law_call_enters_function(s: VmView, name: Seq<char>)
    requires
        s.idx < s.chunk.code.len(),
        s.chunk.code[s.idx as int] == OpView::CallFunc(name),
        step(s, None) is Continue,
        find_function(s.chunk.functions.entries, name, 0) is Some,
        s.chunk.functions.entries[find_function(s.chunk.functions.entries, name, 0)->0] is Function,
    ensures
        ({
            let s2 = step(s, None)->Continue_0;
            let f = s.chunk.functions.entries[find_function(s.chunk.functions.entries, name, 0)->0];
            &&& s.call_stack.len() == f->Function_2
            &&& s2.call_stack == s.call_stack
            &&& s2.stack == s.stack
            &&& s2.environment == s.environment
            &&& s2.idx == f->Function_3
            &&& s2.function_jump_back == s.function_jump_back.push((s.idx + 1) as usize)
            &&& s2.function_starting_scope == s.function_starting_scope.push(
                (s.environment.current_scope + 1) as usize,
            )
            &&& s2.function_return_types == s.function_return_types.push(f->Function_1)
        }),
{
    reveal(step_call);
}

/// A call of a function of the host, once the host has answered, leaves
/// the call stack empty and the value stack with exactly one value more,
/// the answer.
pub proof fn law_native_call_gains_one(s: VmView, name: Seq<char>, a: ValueView)
    requires
        s.idx < s.chunk.code.len(),
        s.chunk.code[s.idx as int] == OpView::CallFunc(name),
        step(s, Some(a)) is Continue,
    ensures
        step(s, Some(a))->Continue_0.call_stack.len() == 0,
        step(s, Some(a))->Continue_0.stack == s.stack.push(a),
{
    reveal(step_call);
}

/// Whether the `n` instructions from `at` on are all `ArgumentStore`.
pub open spec fn is_prologue(code: Seq<OpView>, at: int, n: nat) -> bool {
    forall|i: int| at <= i < at + n ==> 0 <= i < code.len() && #[trigger] code[i] is ArgumentStore
}

/// `n` bindings of arguments, one after the other, take the top `n`
/// values off the call stack and leave the value stack as it is.
pub proof fn law_arguments_leave_call_stack(s: VmView, n: nat)
    requires
        is_prologue(s.chunk.code, s.idx as int, n),
        s.chunk.code.len() <= usize::MAX,
        run(s, n) is Continue,
    ensures
        ({
            let s2 = run(s, n)->Continue_0;
            &&& n <= s.call_stack.len()
            &&& s2.call_stack == s.call_stack.subrange(0, s.call_stack.len() - n)
            &&& s2.stack == s.stack
            &&& s2.idx == s.idx + n
            &&& s2.chunk == s.chunk
        }),
    decreases n,
{
    if n == 0 {
        assert(s.call_stack.subrange(0, s.call_stack.len() as int) =~= s.call_stack);
    } else {
        reveal(step_argument);
        assert(s.chunk.code[s.idx as int] is ArgumentStore);
        let s1 = step(s, None)->Continue_0;
        assert(s1.idx == s.idx + 1);
        assert(is_prologue(s1.chunk.code, s1.idx as int, (n - 1) as nat));
        law_arguments_leave_call_stack(s1, (n - 1) as nat);
        let s2 = run(s1, (n - 1) as nat)->Continue_0;
        assert(s1.call_stack == s.call_stack.drop_last());
        assert(s2.call_stack =~= s.call_stack.subrange(0, s.call_stack.len() - n));
        assert(s1.stack =~= s.stack);
    }
}

/// The call of a function with `n` parameters, the opening of its
/// scope, and the `n` bindings of arguments that its code begins with
/// leave the call stack empty and the value stack as it was.
pub proof fn law_call_empties_call_stack(s: VmView, name: Seq<char>, n: nat)
    requires
        s.idx < s.chunk.code.len() <= usize::MAX,
        s.chunk.code[s.idx as int] == OpView::CallFunc(name),
        find_function(s.chunk.functions.entries, name, 0) is Some,
        s.chunk.functions.entries[find_function(s.chunk.functions.entries, name, 0)->0]
            matches EntryView::Function(_, _, count, at) && count == n && at + 1
            < s.chunk.code.len() && s.chunk.code[at as int] == OpView::StartScope && is_prologue(
            s.chunk.code,
            at + 1,
            n,
        ),
        run(s, n + 2) is Continue,
    ensures
        run(s, n + 2)->Continue_0.call_stack.len() == 0,
        run(s, n + 2)->Continue_0.stack == s.stack,
        run(s, n + 2)->Continue_0.environment.current_scope == s.environment.current_scope + 1,
{
    law_call_enters_function(s, name);
    let s1 = step(s, None)->Continue_0;
    reveal(step_call);
    reveal(step_plain);
    let s2 = step(s1, None)->Continue_0;
    assert(run(s, n + 2) == run(s1, n + 1));
    assert(run(s1, n + 1) == run(s2, n));
    assert(s2.idx == s1.idx + 1);
    law_arguments_leave_call_stack(s2, n);
    lemma_arguments_keep_depth(s2, n);
}

/// Bindings of arguments leave the depth as it is.
proof fn lemma_arguments_keep_depth(s: VmView, n: nat)
    requires
        is_prologue(s.chunk.code, s.idx as int, n),
        s.chunk.code.len() <= usize::MAX,
        run(s, n) is Continue,
    ensures
        run(s, n)->Continue_0.environment.current_scope == s.environment.current_scope,
    decreases n,
{
    if n > 0 {
        reveal(step_argument);
        assert(s.chunk.code[s.idx as int] is ArgumentStore);
        let s1 = step(s, None)->Continue_0;
        assert(s1.idx == s.idx + 1);
        assert(is_prologue(s1.chunk.code, s1.idx as int, (n - 1) as nat));
        lemma_arguments_keep_depth(s1, (n - 1) as nat);
    }
}

/// A return undoes a call: when `Return` is run with the frames that the
/// call `called` left, the machine is behind the call, at the depth of
/// the call, with the frames that were there before it.
pub proof fn law_return_undoes_call(
    called: VmView,
    name: Seq<char>,
    returning: VmView,
    answer: Option<ValueView>,
)
    requires
        called.idx < called.chunk.code.len() <= usize::MAX,
        called.chunk.code[called.idx as int] == OpView::CallFunc(name),
        find_function(called.chunk.functions.entries, name, 0) is Some,
        called.chunk.functions.entries[find_function(called.chunk.functions.entries, name, 0)->0] is Function,
        step(called, None) is Continue,
        returning.function_jump_back == step(called, None)->Continue_0.function_jump_back,
        returning.function_starting_scope == step(
            called,
            None,
        )->Continue_0.function_starting_scope,
        returning.function_return_types == step(called, None)->Continue_0.function_return_types,
        returning.idx < returning.chunk.code.len(),
        returning.chunk.code[returning.idx as int] == OpView::Return,
        step(returning, answer) is Continue,
    ensures
        ({
            let back = step(returning, answer)->Continue_0;
            &&& back.idx == called.idx + 1
            &&& back.environment.current_scope == called.environment.current_scope
            &&& back.function_jump_back == called.function_jump_back
            &&& back.function_starting_scope == called.function_starting_scope
            &&& back.function_return_types == called.function_return_types
            &&& forall|i: int|
                0 <= i < back.environment.entries.len() ==> !(
                #[trigger] back.environment.entries[i] matches EntryView::Variable(_, _, _, d) && d
                    > called.environment.current_scope)
        }),
{
    law_call_enters_function(called, name);
    reveal(step_return);
    let entered = step(called, None)->Continue_0;
    let back = step(returning, answer)->Continue_0;
    assert(back.function_jump_back =~= called.function_jump_back);
    assert(back.function_starting_scope =~= called.function_starting_scope);
    assert(back.function_return_types =~= called.function_return_types);
    reveal(step_call);
    let start = returning.function_starting_scope.last();
    assert(called.environment.current_scope < usize::MAX);
    assert(entered.function_starting_scope.last() == (called.environment.current_scope + 1) as usize);
    assert(start == called.environment.current_scope + 1);
    lemma_without_scope(returning.environment.entries, start as int);
    let kept = without_scope(returning.environment.entries, start as int);
    assert(back.environment.entries == kept);
    assert forall|i: int| 0 <= i < back.environment.entries.len() implies !(
    #[trigger] back.environment.entries[i] matches EntryView::Variable(_, _, _, d) && d
        > called.environment.current_scope) by {
        assert(!crate::environment::in_scope_from(kept[i], start as int));
    }
}

/// `EndScope` undoes `StartScope`: the two, one after the other, leave
/// the depth and the stacks as they were, and no variable deeper than
/// the depth.
pub proof fn law_end_scope_undoes_start_scope(s: VmView)
    requires
        s.idx + 1 < s.chunk.code.len() <= usize::MAX,
        s.chunk.code[s.idx as int] == OpView::StartScope,
        s.chunk.code[s.idx + 1] == OpView::EndScope,
        s.environment.current_scope < usize::MAX,
    ensures
        step(s, None) is Continue,
        step(step(s, None)->Continue_0, None) is Continue,
        ({
            let s2 = step(step(s, None)->Continue_0, None)->Continue_0;
            &&& s2.environment.current_scope == s.environment.current_scope
            &&& s2.stack == s.stack
            &&& s2.call_stack == s.call_stack
            &&& s2.idx == s.idx + 2
            &&& forall|i: int|
                0 <= i < s2.environment.entries.len() ==> !(
                #[trigger] s2.environment.entries[i] matches EntryView::Variable(_, _, _, d) && d
                    > s.environment.current_scope)
        }),
{
    reveal(step_plain);
    let s1 = step(s, None)->Continue_0;
    assert(s1.idx == s.idx + 1);
    lemma_without_scope(s1.environment.entries, s1.environment.current_scope as int);
    let s2 = step(s1, None)->Continue_0;
    let kept = without_scope(s1.environment.entries, s1.environment.current_scope as int);
    assert(s2.environment.entries == kept);
    assert forall|i: int| 0 <= i < s2.environment.entries.len() implies !(
    #[trigger] s2.environment.entries[i] matches EntryView::Variable(_, _, _, d) && d
        > s.environment.current_scope) by {
        assert(!crate::environment::in_scope_from(kept[i], s1.environment.current_scope as int));
    }
}

/// Where a run stops: a run that can go on stops in the state it has
/// reached; a run that ends the script, asks the host or fails stops in
/// the state whose next step does so.
pub proof fn law_run_stops_where_its_last_step_starts(s: VmView, fuel: nat)
    ensures
        match run(s, fuel) {
            StepView::Continue(t) => stop(s, fuel) == t,
            other => step(stop(s, fuel), None) == other,
        },
    decreases fuel,
{
    if fuel > 0 {
        match step(s, None) {
            StepView::Continue(t) => {
                law_run_stops_where_its_last_step_starts(t, (fuel - 1) as nat);
            },
            _ => {},
        }
    }
}

} // verus!
