//! The environment: the table of variables, each stamped with the scope
//! depth at which it was declared, and of functions and structure
//! declarations, which no scope bounds.

use vstd::prelude::*;
use crate::value::{
    coerce, has_type, infer_type, lemma_struct_view, ClassType, ClassTypeView, Conv,
    StructView, Value, ValueView,
};
pub use crate::value::CopperStruct;

verus! {

/// One entry of an environment: a function with its return type, its
/// number of arguments and the offset of its code; a function of the host
/// with its number of arguments; a variable with its value, its declared
/// type and the scope depth of its declaration; a structure declaration.
#[derive(Debug, PartialEq)]
pub enum EnvEntry {
    Function(String, ClassType, usize, usize),
    NativeFunction(String, usize),
    Variable(String, Value, ClassType, usize),
    Structure(CopperStruct),
}

/// An entry as a mathematical value.
pub enum EntryView {
    Function(Seq<char>, ClassTypeView, usize, usize),
    NativeFunction(Seq<char>, usize),
    Variable(Seq<char>, ValueView, ClassTypeView, usize),
    Structure(StructView),
}

impl View for EnvEntry {
    type V = EntryView;

    open spec fn view(&self) -> EntryView {
        match self {
            EnvEntry::Function(name, t, args, at) => EntryView::Function(name@, t@, *args, *at),
            EnvEntry::NativeFunction(name, args) => EntryView::NativeFunction(name@, *args),
            EnvEntry::Variable(name, v, t, scope) => EntryView::Variable(name@, v@, t@, *scope),
            EnvEntry::Structure(s) => EntryView::Structure(s@),
        }
    }
}

impl Clone for EnvEntry {
    fn clone(&self) -> (r: EnvEntry)
        ensures
            r@ == self@,
    {
        match self {
            EnvEntry::Function(name, t, args, at) => EnvEntry::Function(
                name.clone(),
                t.clone(),
                *args,
                *at,
            ),
            EnvEntry::NativeFunction(name, args) => EnvEntry::NativeFunction(name.clone(), *args),
            EnvEntry::Variable(name, v, t, scope) => EnvEntry::Variable(
                name.clone(),
                v.clone(),
                t.clone(),
                *scope,
            ),
            EnvEntry::Structure(s) => EnvEntry::Structure(s.clone()),
        }
    }
}

/// The views of a run of entries.
pub open spec fn entry_views(v: Seq<EnvEntry>) -> Seq<EntryView> {
    Seq::new(v.len(), |i: int| v[i]@)
}

/// The views of a run of entries with one more behind it.
pub proof fn lemma_entry_views_push(v: Seq<EnvEntry>, e: EnvEntry)
    ensures
        entry_views(v.push(e)) == entry_views(v).push(e@),
{
    assert(entry_views(v.push(e)) =~= entry_views(v).push(e@));
}

/// The views of a run of entries without the k-th.
pub proof fn lemma_entry_views_remove(v: Seq<EnvEntry>, k: int)
    requires
        0 <= k < v.len(),
    ensures
        entry_views(v.remove(k)) == entry_views(v).remove(k),
{
    assert(entry_views(v.remove(k)) =~= entry_views(v).remove(k));
}

/// An environment.
pub struct Environment {
    pub entries: Vec<EnvEntry>,
    pub current_scope: usize,
}

/// An environment as a mathematical value.
pub struct EnvView {
    pub entries: Seq<EntryView>,
    pub current_scope: usize,
}

impl View for Environment {
    type V = EnvView;

    open spec fn view(&self) -> EnvView {
        EnvView { entries: entry_views(self.entries@), current_scope: self.current_scope }
    }
}

/// Whether `e` is a function, of the script or of the host, named `name`.
pub open spec fn names_function(e: EntryView, name: Seq<char>) -> bool {
    match e {
        EntryView::Function(n, _, _, _) => n == name,
        EntryView::NativeFunction(n, _) => n == name,
        _ => false,
    }
}

/// The index of the first function named `name` at or after `i`.
pub open spec fn find_function(entries: Seq<EntryView>, name: Seq<char>, i: int) -> Option<int>
    decreases entries.len() - i,
{
    if !(0 <= i < entries.len()) {
        None
    } else if names_function(entries[i], name) {
        Some(i)
    } else {
        find_function(entries, name, i + 1)
    }
}

/// The index of the first declaration of a structure named `name` at or
/// after `i`.
pub open spec fn find_struct(entries: Seq<EntryView>, name: Seq<char>, i: int) -> Option<int>
    decreases entries.len() - i,
{
    if !(0 <= i < entries.len()) {
        None
    } else if entries[i] matches EntryView::Structure(s) && s.name == name {
        Some(i)
    } else {
        find_struct(entries, name, i + 1)
    }
}

/// Whether `e` is the variable `name` declared at depth `scope`.
pub open spec fn is_variable(e: EntryView, name: Seq<char>, scope: int) -> bool {
    e matches EntryView::Variable(n, _, _, s) && n == name && s == scope
}

/// The index of the first variable `name` of depth `scope` at or after `i`.
pub open spec fn find_at(entries: Seq<EntryView>, name: Seq<char>, scope: int, i: int) -> Option<
    int,
>
    decreases entries.len() - i,
{
    if !(0 <= i < entries.len()) {
        None
    } else if is_variable(entries[i], name, scope) {
        Some(i)
    } else {
        find_at(entries, name, scope, i + 1)
    }
}

/// The index of the variable that `name` means at depth `scope`: the one
/// declared at the greatest depth up to `scope`.
pub open spec fn lookup(entries: Seq<EntryView>, name: Seq<char>, scope: int) -> Option<int>
    decreases scope + 1,
{
    if scope < 0 {
        None
    } else {
        match find_at(entries, name, scope, 0) {
            Some(k) => Some(k),
            None => lookup(entries, name, scope - 1),
        }
    }
}

/// Whether a variable of depth `scope` or more.
pub open spec fn in_scope_from(e: EntryView, scope: int) -> bool {
    e matches EntryView::Variable(_, _, _, s) && s >= scope
}

/// The entries without the variables of depth `scope` or more, in their
/// order.
pub open spec fn without_scope(entries: Seq<EntryView>, scope: int) -> Seq<EntryView>
    decreases entries.len(),
{
    if entries.len() == 0 {
        entries
    } else if in_scope_from(entries.last(), scope) {
        without_scope(entries.drop_last(), scope)
    } else {
        without_scope(entries.drop_last(), scope).push(entries.last())
    }
}

/// The environment after the declaration of `name` with type `t` and the
/// value `v`, already converted: a variable of that name and of the
/// current depth gives way, and the new one stands behind all entries.
pub open spec fn declared(env: EnvView, name: Seq<char>, t: ClassTypeView, v: ValueView) -> EnvView {
    let base = match find_at(env.entries, name, env.current_scope as int, 0) {
        Some(k) => env.entries.remove(k),
        None => env.entries,
    };
    EnvView {
        entries: base.push(EntryView::Variable(name, v, t, env.current_scope)),
        current_scope: env.current_scope,
    }
}

/// The declared type of the variable that `name` means.
pub open spec fn type_of(env: EnvView, name: Seq<char>) -> Option<ClassTypeView> {
    match lookup(env.entries, name, env.current_scope as int) {
        Some(k) => match env.entries[k] {
            EntryView::Variable(_, _, t, _) => Some(t),
            _ => None,
        },
        None => None,
    }
}

/// The environment after the variable that `name` means has taken the
/// value `v`, already converted; unchanged where `name` means none.
pub open spec fn assigned(env: EnvView, name: Seq<char>, v: ValueView) -> EnvView {
    match lookup(env.entries, name, env.current_scope as int) {
        Some(k) => match env.entries[k] {
            EntryView::Variable(n, _, t, s) => EnvView {
                entries: env.entries.update(k, EntryView::Variable(n, v, t, s)),
                current_scope: env.current_scope,
            },
            _ => env,
        },
        None => env,
    }
}

/// What `find_at` finds is the first variable of that name and depth.
pub proof fn lemma_find_at(entries: Seq<EntryView>, name: Seq<char>, scope: int, i: int)
    requires
        0 <= i,
    ensures
        match find_at(entries, name, scope, i) {
            Some(k) => i <= k < entries.len() && is_variable(entries[k], name, scope)
                && forall|j: int| i <= j < k ==> !is_variable(#[trigger] entries[j], name, scope),
            None => forall|j: int|
                i <= j < entries.len() ==> !is_variable(#[trigger] entries[j], name, scope),
        },
    decreases entries.len() - i,
{
    if i < entries.len() && !is_variable(entries[i], name, scope) {
        lemma_find_at(entries, name, scope, i + 1);
    }
}

/// What `lookup` finds is a variable of that name, no deeper than asked.
pub proof fn lemma_lookup(entries: Seq<EntryView>, name: Seq<char>, scope: int)
    ensures
        lookup(entries, name, scope) is Some ==> {
            let k = lookup(entries, name, scope)->0;
            &&& 0 <= k < entries.len()
            &&& entries[k] is Variable
            &&& entries[k]->Variable_0 == name
            &&& entries[k]->Variable_3 <= scope
        },
    decreases scope + 1,
{
    if scope >= 0 {
        lemma_find_at(entries, name, scope, 0);
        if find_at(entries, name, scope, 0) is None {
            lemma_lookup(entries, name, scope - 1);
        }
    }
}

impl Environment {
    /// An empty environment at depth 0.
    pub fn new() -> (env: Environment)
        ensures
            env@ == (EnvView { entries: Seq::empty(), current_scope: 0 }),
    {
        let env = Environment { entries: Vec::new(), current_scope: 0 };
        assert(env@.entries =~= Seq::empty());
        env
    }

    /// Adds the declaration of a structure.
    pub fn add_struct(&mut self, structure: CopperStruct)
        ensures
            final(self)@ == (EnvView {
                entries: old(self)@.entries.push(EntryView::Structure(structure@)),
                current_scope: old(self)@.current_scope,
            }),
    {
        proof {
            lemma_entry_views_push(self.entries@, EnvEntry::Structure(structure));
        }
        self.entries.push(EnvEntry::Structure(structure));
    }

    /// The index of the function named `name`.
    pub fn function_index(&self, name: &String) -> (r: Option<usize>)
        ensures
            r is Some ==> find_function(self@.entries, name@, 0) == Some(r->0 as int) && r->0
                < self.entries@.len() && names_function(self.entries@[r->0 as int]@, name@),
            r is None ==> find_function(self@.entries, name@, 0) is None,
    {
        let mut i: usize = 0;
        while i < self.entries.len()
            invariant
                i <= self.entries.len(),
                find_function(self@.entries, name@, 0) == find_function(
                    self@.entries,
                    name@,
                    i as int,
                ),
            decreases self.entries.len() - i,
        {
            let hit = match &self.entries[i] {
                EnvEntry::Function(n, _, _, _) => *n == *name,
                EnvEntry::NativeFunction(n, _) => *n == *name,
                _ => false,
            };
            if hit {
                return Some(i);
            }
            i += 1;
        }
        None
    }

    /// Binds a function of the script.
    pub fn add_function(&mut self, name: String, ctype: ClassType, arg_count: usize, position: usize)
        requires
            find_function(old(self)@.entries, name@, 0) is None,
        ensures
            final(self)@ == (EnvView {
                entries: old(self)@.entries.push(
                    EntryView::Function(name@, ctype@, arg_count, position),
                ),
                current_scope: old(self)@.current_scope,
            }),
    {
        let e = EnvEntry::Function(name, ctype, arg_count, position);
        proof {
            lemma_entry_views_push(self.entries@, e);
        }
        self.entries.push(e);
    }

    /// Binds a function of the host. The host keeps the function itself;
    /// the environment keeps its name and its number of arguments.
    pub fn add_native_function(&mut self, name: String, argument: usize)
        requires
            find_function(old(self)@.entries, name@, 0) is None,
        ensures
            final(self)@ == (EnvView {
                entries: old(self)@.entries.push(EntryView::NativeFunction(name@, argument)),
                current_scope: old(self)@.current_scope,
            }),
    {
        let e = EnvEntry::NativeFunction(name, argument);
        proof {
            lemma_entry_views_push(self.entries@, e);
        }
        self.entries.push(e);
    }

    /// The function named `name`.
    pub fn get_function(&self, name: String) -> (e: EnvEntry)
        requires
            find_function(self@.entries, name@, 0) is Some,
        ensures
            e@ == self@.entries[find_function(self@.entries, name@, 0)->0],
    {
        match self.function_index(&name) {
            Some(k) => self.entries[k].clone(),
            None => EnvEntry::NativeFunction(name, 0),
        }
    }

    /// Removes every variable declared at depth `scope_to_remove` or more.
    pub fn remove_from_scope(&mut self, scope_to_remove: usize)
        ensures
            final(self)@ == (EnvView {
                entries: without_scope(old(self)@.entries, scope_to_remove as int),
                current_scope: old(self)@.current_scope,
            }),
    {
        let ghost all = self@.entries;
        let n = self.entries.len();
        let mut done: usize = 0;
        let mut i: usize = 0;
        assert(all.subrange(0, 0) =~= Seq::empty());
        assert(all.subrange(0, n as int) =~= all);
        while done < n
            invariant
                i <= done <= n,
                n == all.len(),
                self.current_scope == old(self).current_scope,
                self.entries@.len() == i + (n - done),
                self@.entries == without_scope(all.subrange(0, done as int), scope_to_remove as int)
                    + all.subrange(done as int, n as int),
                without_scope(all.subrange(0, done as int), scope_to_remove as int).len() == i,
            decreases n - done,
        {
            let ghost kept = without_scope(all.subrange(0, done as int), scope_to_remove as int);
            let ghost next = all.subrange(0, done + 1);
            assert(next.drop_last() =~= all.subrange(0, done as int));
            assert(next.last() == all[done as int]);
            assert(self@.entries[i as int] == all[done as int]);
            let gone = match &self.entries[i] {
                EnvEntry::Variable(_, _, _, scope) => *scope >= scope_to_remove,
                _ => false,
            };
            if gone {
                proof {
                    lemma_entry_views_remove(self.entries@, i as int);
                    assert((kept + all.subrange(done as int, n as int)).remove(i as int) =~= kept
                        + all.subrange(done + 1, n as int));
                }
                self.entries.remove(i);
            } else {
                proof {
                    assert(kept + all.subrange(done as int, n as int) =~= kept.push(
                        all[done as int],
                    ) + all.subrange(done + 1, n as int));
                }
                i += 1;
            }
            done += 1;
        }
        assert(all.subrange(n as int, n as int) =~= Seq::empty());
        assert(self@.entries =~= without_scope(all, scope_to_remove as int));
    }

    /// The index of the first variable `name` of depth `scope`.
    pub fn variable_at(&self, name: &String, scope: usize) -> (r: Option<usize>)
        ensures
            r is Some ==> find_at(self@.entries, name@, scope as int, 0) == Some(r->0 as int)
                && r->0 < self.entries@.len(),
            r is None ==> find_at(self@.entries, name@, scope as int, 0) is None,
    {
        let mut i: usize = 0;
        while i < self.entries.len()
            invariant
                i <= self.entries.len(),
                find_at(self@.entries, name@, scope as int, 0) == find_at(
                    self@.entries,
                    name@,
                    scope as int,
                    i as int,
                ),
            decreases self.entries.len() - i,
        {
            let hit = match &self.entries[i] {
                EnvEntry::Variable(n, _, _, s) => *n == *name && *s == scope,
                _ => false,
            };
            if hit {
                return Some(i);
            }
            i += 1;
        }
        None
    }

    /// The index of the variable that `name` means at the current depth.
    pub fn variable_index(&self, name: &String) -> (r: Option<usize>)
        ensures
            r is Some ==> lookup(self@.entries, name@, self@.current_scope as int) == Some(
                r->0 as int,
            ) && r->0 < self.entries@.len() && self.entries@[r->0 as int] is Variable,
            r is None ==> lookup(self@.entries, name@, self@.current_scope as int) is None,
    {
        proof {
            lemma_lookup(self@.entries, name@, self@.current_scope as int);
        }
        let mut scope = self.current_scope;
        loop
            invariant
                scope <= self.current_scope,
                lookup(self@.entries, name@, scope as int) == lookup(
                    self@.entries,
                    name@,
                    self@.current_scope as int,
                ),
            decreases scope,
        {
            match self.variable_at(name, scope) {
                Some(k) => {
                    proof {
                        lemma_find_at(self@.entries, name@, scope as int, 0);
                    }
                    return Some(k);
                },
                None => {},
            }
            if scope == 0 {
                assert(lookup(self@.entries, name@, -1) is None);
                return None;
            }
            scope -= 1;
        }
    }

    /// Declares the variable `name` with the type `ctype`; `val` is
    /// converted to that type.
    pub fn add_variable(&mut self, name: String, ctype: ClassType, val: Value)
        requires
            coerce(val@, ctype@) is Done,
        ensures
            final(self)@ == declared(
                old(self)@,
                name@,
                ctype@,
                coerce(val@, ctype@)->Done_0,
            ),
    {
        match val.coerce(&ctype) {
            Conv::Done(v) => {
                self.declare(name, ctype, v);
            },
            _ => {},
        }
    }

    /// Declares the variable `name` with the type `ctype` and the value
    /// `val`, which is taken as it is.
    pub fn declare(&mut self, name: String, ctype: ClassType, val: Value)
        ensures
            final(self)@ == declared(old(self)@, name@, ctype@, val@),
    {
        match self.variable_at(&name, self.current_scope) {
            Some(k) => {
                proof {
                    lemma_entry_views_remove(self.entries@, k as int);
                }
                self.entries.remove(k);
            },
            None => {},
        }
        let e = EnvEntry::Variable(name, val, ctype, self.current_scope);
        proof {
            lemma_entry_views_push(self.entries@, e);
        }
        self.entries.push(e);
    }

    /// Declares the variable `name` with the type that `val` has.
    pub fn add_infer_variable(&mut self, name: String, val: Value)
        ensures
            final(self)@ == declared(old(self)@, name@, infer_type(val@), val@),
    {
        let ctype = match &val {
            Value::Nil => ClassType::Any,
            Value::Uint(_) => ClassType::Uint,
            Value::Int(_) => ClassType::Int,
            Value::Decimal(_) => ClassType::Decimal,
            Value::Bool(_) => ClassType::Bool,
            Value::Str(_) => ClassType::Str,
            Value::Struct(cs) => {
                proof {
                    lemma_struct_view(*cs);
                }
                ClassType::Struct(cs.name.clone())
            },
        };
        self.declare(name, ctype, val);
    }

    /// The index of the declaration of the structure `name`.
    pub fn struct_index(&self, name: &String) -> (r: Option<usize>)
        ensures
            r is Some ==> find_struct(self@.entries, name@, 0) == Some(r->0 as int) && r->0
                < self.entries@.len() && self.entries@[r->0 as int] is Structure,
            r is None ==> find_struct(self@.entries, name@, 0) is None,
    {
        let mut i: usize = 0;
        while i < self.entries.len()
            invariant
                i <= self.entries.len(),
                find_struct(self@.entries, name@, 0) == find_struct(
                    self@.entries,
                    name@,
                    i as int,
                ),
            decreases self.entries.len() - i,
        {
            let hit = match &self.entries[i] {
                EnvEntry::Structure(s) => {
                    proof {
                        lemma_struct_view(*s);
                    }
                    s.name == *name
                },
                _ => false,
            };
            if hit {
                return Some(i);
            }
            i += 1;
        }
        None
    }

    /// The structure declared under `name`, to be filled in.
    pub fn get_struct(&self, name: String) -> (s: CopperStruct)
        requires
            find_struct(self@.entries, name@, 0) is Some,
        ensures
            EntryView::Structure(s@) == self@.entries[find_struct(self@.entries, name@, 0)->0],
    {
        match self.struct_index(&name) {
            Some(k) => match &self.entries[k] {
                EnvEntry::Structure(s) => s.clone(),
                _ => CopperStruct::new(name),
            },
            None => CopperStruct::new(name),
        }
    }

    /// The variable that `name` means at the current depth.
    pub fn get_variable(&self, name: String) -> (e: EnvEntry)
        requires
            lookup(self@.entries, name@, self@.current_scope as int) is Some,
        ensures
            e@ == self@.entries[lookup(self@.entries, name@, self@.current_scope as int)->0],
    {
        match self.variable_index(&name) {
            Some(k) => self.entries[k].clone(),
            None => EnvEntry::NativeFunction(name, 0),
        }
    }

    /// Gives the variable at index `k` the value `val`, which is taken as
    /// it is.
    pub fn store_at(&mut self, k: usize, val: Value)
        requires
            k < old(self).entries@.len(),
            old(self).entries@[k as int] is Variable,
        ensures
            final(self)@ == (EnvView {
                entries: old(self)@.entries.update(
                    k as int,
                    EntryView::Variable(
                        old(self)@.entries[k as int]->Variable_0,
                        val@,
                        old(self)@.entries[k as int]->Variable_2,
                        old(self)@.entries[k as int]->Variable_3,
                    ),
                ),
                current_scope: old(self)@.current_scope,
            }),
    {
        let e = match &self.entries[k] {
            EnvEntry::Variable(n, _, t, s) => EnvEntry::Variable(n.clone(), val, t.clone(), *s),
            _ => EnvEntry::NativeFunction(String::new(), 0),
        };
        let ghost before = self@.entries;
        self.entries[k] = e;
        assert(self@.entries =~= before.update(k as int, e@));
    }

    /// Gives the variable that `name` means the value `val`, converted to
    /// the variable's type; does nothing where `name` means no variable.
    pub fn assign_variable(&mut self, name: String, val: Value)
        requires
            type_of(old(self)@, name@) matches Some(t) ==> coerce(val@, t) is Done,
        ensures
            final(self)@ == (match type_of(old(self)@, name@) {
                Some(t) => assigned(old(self)@, name@, coerce(val@, t)->Done_0),
                None => old(self)@,
            }),
    {
        match self.variable_index(&name) {
            Some(k) => {
                let v = match &self.entries[k] {
                    EnvEntry::Variable(_, _, t, _) => val.coerce(t),
                    _ => Conv::Host,
                };
                match v {
                    Conv::Done(w) => {
                        self.store_at(k, w);
                    },
                    _ => {},
                }
            },
            None => {},
        }
    }
}

/// Every variable holds a value of its declared type.
pub open spec fn typed(entries: Seq<EntryView>) -> bool {
    forall|i: int|
        0 <= i < entries.len() ==> (#[trigger] entries[i] matches EntryView::Variable(_, v, t, _)
            ==> has_type(v, t))
}

/// No name is declared twice at one depth.
pub open spec fn unique(entries: Seq<EntryView>) -> bool {
    forall|i: int, j: int|
        0 <= i < j < entries.len() ==> !(#[trigger] entries[i] matches EntryView::Variable(n, _, _, d)
            && is_variable(#[trigger] entries[j], n, d as int))
}

/// No variable is deeper than `depth`.
pub open spec fn bounded(entries: Seq<EntryView>, depth: int) -> bool {
    forall|i: int|
        0 <= i < entries.len() ==> (#[trigger] entries[i] matches EntryView::Variable(_, _, _, d)
            ==> d <= depth)
}

/// What holds of the variables of every environment that the machine
/// comes to: each holds a value of its declared type, no name is
/// declared twice at one depth, and none is deeper than the current
/// depth.
pub open spec fn sound(env: EnvView) -> bool {
    typed(env.entries) && unique(env.entries) && bounded(env.entries, env.current_scope as int)
}

/// Without the variables of depth `scope` or more, no variable is as
/// deep as `scope`.
pub proof fn lemma_without_scope_bounded(entries: Seq<EntryView>, scope: int)
    ensures
        bounded(without_scope(entries, scope), scope - 1),
{
    lemma_without_scope(entries, scope);
    let kept = without_scope(entries, scope);
    assert forall|i: int| 0 <= i < kept.len() implies (#[trigger] kept[i] matches EntryView::Variable(
        _,
        _,
        _,
        d,
    ) ==> d <= scope - 1) by {
        assert(!in_scope_from(kept[i], scope));
    }
}

/// Every entry that `without_scope` keeps is one of the entries it was
/// given, and entries keep their order.
pub proof fn lemma_without_scope(entries: Seq<EntryView>, scope: int)
    ensures
        without_scope(entries, scope).len() <= entries.len(),
        forall|k: int|
            0 <= k < without_scope(entries, scope).len() ==> exists|i: int|
                k <= i < entries.len() && entries[i] == #[trigger] without_scope(entries, scope)[k],
        forall|k: int|
            0 <= k < without_scope(entries, scope).len() ==> !in_scope_from(
                #[trigger] without_scope(entries, scope)[k],
                scope,
            ),
        typed(entries) ==> typed(without_scope(entries, scope)),
        unique(entries) ==> unique(without_scope(entries, scope)),
    decreases entries.len(),
{
    if entries.len() > 0 {
        let front = entries.drop_last();
        let kept = without_scope(front, scope);
        lemma_without_scope(front, scope);
        let all = without_scope(entries, scope);
        assert forall|k: int| 0 <= k < all.len() implies exists|i: int|
            k <= i < entries.len() && entries[i] == #[trigger] all[k] by {
            if k < kept.len() {
                let i = choose|i: int| k <= i < front.len() && front[i] == kept[k];
                assert(entries[i] == all[k]);
            } else {
                assert(entries[entries.len() - 1] == all[k]);
            }
        }
        if typed(entries) {
            assert(typed(front)) by {
                assert forall|i: int| 0 <= i < front.len() implies (#[trigger] front[i] matches EntryView::Variable(
                    _,
                    v,
                    t,
                    _,
                ) ==> has_type(v, t)) by {
                    assert(front[i] == entries[i]);
                }
            }
            assert forall|k: int| 0 <= k < all.len() implies (#[trigger] all[k] matches EntryView::Variable(
                _,
                v,
                t,
                _,
            ) ==> has_type(v, t)) by {
                if k < kept.len() {
                    assert(all[k] == kept[k]);
                } else {
                    assert(all[k] == entries[entries.len() - 1]);
                }
            }
        }
        if unique(entries) {
            assert(unique(front)) by {
                assert forall|i: int, j: int| 0 <= i < j < front.len() implies !(#[trigger] front[i] matches EntryView::Variable(
                    n,
                    _,
                    _,
                    d,
                ) && is_variable(#[trigger] front[j], n, d as int)) by {
                    assert(front[i] == entries[i]);
                    assert(front[j] == entries[j]);
                }
            }
            assert forall|a: int, b: int| 0 <= a < b < all.len() implies !(#[trigger] all[a] matches EntryView::Variable(
                n,
                _,
                _,
                d,
            ) && is_variable(#[trigger] all[b], n, d as int)) by {
                if b < kept.len() {
                    assert(all[a] == kept[a]);
                    assert(all[b] == kept[b]);
                } else {
                    assert(all[a] == kept[a]);
                    let i = choose|i: int| a <= i < front.len() && front[i] == kept[a];
                    assert(entries[i] == all[a]);
                    assert(entries[entries.len() - 1] == all[b]);
                }
            }
        }
    }
}

/// The index that the i-th entry had before the entry at `found` was
/// removed.
pub open spec fn origin(found: Option<int>, i: int) -> int {
    match found {
        Some(k) => if i < k {
            i
        } else {
            i + 1
        },
        None => i,
    }
}

/// A declaration keeps an environment sound when the value is of the
/// declared type, and the variable declared is the one that its name
/// means from then on.
pub proof fn lemma_declared(env: EnvView, name: Seq<char>, t: ClassTypeView, v: ValueView)
    requires
        sound(env),
        has_type(v, t),
    ensures
        sound(declared(env, name, t, v)),
        lookup(declared(env, name, t, v).entries, name, env.current_scope as int) == Some(
            declared(env, name, t, v).entries.len() - 1,
        ),
        declared(env, name, t, v).entries.last() == EntryView::Variable(
            name,
            v,
            t,
            env.current_scope,
        ),
{
    let depth = env.current_scope as int;
    lemma_find_at(env.entries, name, depth, 0);
    let base = match find_at(env.entries, name, depth, 0) {
        Some(k) => env.entries.remove(k),
        None => env.entries,
    };
    let fresh = EntryView::Variable(name, v, t, env.current_scope);
    let after = base.push(fresh);
    assert(after == declared(env, name, t, v).entries);
    let found = find_at(env.entries, name, depth, 0);
    assert forall|i: int| 0 <= i < base.len() implies #[trigger] base[i] == env.entries[origin(
        found,
        i,
    )] && 0 <= origin(found, i) < env.entries.len() by {}
    assert forall|i: int| 0 <= i < base.len() implies !is_variable(#[trigger] base[i], name, depth) by {
        let o = origin(found, i);
        assert(base[i] == env.entries[o]);
        if found is Some && is_variable(env.entries[o], name, depth) {
            let k = found->0;
            assert(o > k);
            assert(is_variable(env.entries[k], name, depth));
            assert(env.entries[k] is Variable);
        }
    }
    assert(typed(after)) by {
        assert forall|i: int| 0 <= i < after.len() implies (#[trigger] after[i] matches EntryView::Variable(
            _,
            v2,
            t2,
            _,
        ) ==> has_type(v2, t2)) by {
            if i < base.len() {
                assert(after[i] == base[i]);
                assert(base[i] == env.entries[origin(found, i)]);
            }
        }
    }
    assert(unique(after)) by {
        assert forall|i: int, j: int| 0 <= i < j < after.len() implies !(#[trigger] after[i] matches EntryView::Variable(
            n,
            _,
            _,
            d,
        ) && is_variable(#[trigger] after[j], n, d as int)) by {
            if j < base.len() {
                assert(after[i] == base[i]);
                assert(after[j] == base[j]);
                assert(base[i] == env.entries[origin(found, i)]);
                assert(base[j] == env.entries[origin(found, j)]);
                assert(origin(found, i) < origin(found, j));
            } else {
                assert(after[j] == fresh);
                assert(after[i] == base[i]);
                assert(!is_variable(base[i], name, depth));
            }
        }
    }
    assert(bounded(after, depth)) by {
        assert forall|i: int| 0 <= i < after.len() implies (#[trigger] after[i] matches EntryView::Variable(
            _,
            _,
            _,
            d,
        ) ==> d <= depth) by {
            if i < base.len() {
                assert(after[i] == base[i]);
                assert(base[i] == env.entries[origin(found, i)]);
            }
        }
    }
    lemma_find_at(after, name, depth, 0);
    assert(is_variable(after[after.len() - 1], name, depth));
    assert(find_at(after, name, depth, 0) == Some(after.len() - 1)) by {
        let hit = find_at(after, name, depth, 0);
        if hit is Some && hit->0 < after.len() - 1 {
            assert(after[hit->0] == base[hit->0]);
        }
    }
}

/// A new value for a variable keeps an environment sound when it is of
/// the variable's type.
pub proof fn lemma_updated(entries: Seq<EntryView>, k: int, v: ValueView, depth: int)
    requires
        typed(entries),
        unique(entries),
        bounded(entries, depth),
        0 <= k < entries.len(),
        entries[k] is Variable,
        has_type(v, entries[k]->Variable_2),
    ensures
        bounded(
            entries.update(
                k,
                EntryView::Variable(
                    entries[k]->Variable_0,
                    v,
                    entries[k]->Variable_2,
                    entries[k]->Variable_3,
                ),
            ),
            depth,
        ),
        typed(
            entries.update(
                k,
                EntryView::Variable(
                    entries[k]->Variable_0,
                    v,
                    entries[k]->Variable_2,
                    entries[k]->Variable_3,
                ),
            ),
        ),
        unique(
            entries.update(
                k,
                EntryView::Variable(
                    entries[k]->Variable_0,
                    v,
                    entries[k]->Variable_2,
                    entries[k]->Variable_3,
                ),
            ),
        ),
{
    let fresh = EntryView::Variable(
        entries[k]->Variable_0,
        v,
        entries[k]->Variable_2,
        entries[k]->Variable_3,
    );
    let after = entries.update(k, fresh);
    assert forall|i: int| 0 <= i < after.len() implies (#[trigger] after[i] matches EntryView::Variable(
        _,
        v2,
        t2,
        _,
    ) ==> has_type(v2, t2)) by {
        if i != k {
            assert(after[i] == entries[i]);
        }
    }
    assert forall|i: int| 0 <= i < after.len() implies (#[trigger] after[i] matches EntryView::Variable(
        _,
        _,
        _,
        d,
    ) ==> d <= depth) by {
        if i != k {
            assert(after[i] == entries[i]);
        } else {
            assert(entries[k] is Variable);
        }
    }
    assert forall|i: int, j: int| 0 <= i < j < after.len() implies !(#[trigger] after[i] matches EntryView::Variable(
        n,
        _,
        _,
        d,
    ) && is_variable(#[trigger] after[j], n, d as int)) by {
        assert(entries[i] is Variable <==> after[i] is Variable);
        assert(entries[j] is Variable <==> after[j] is Variable);
        if after[i] is Variable && after[j] is Variable {
            assert(after[i]->Variable_0 == entries[i]->Variable_0);
            assert(after[i]->Variable_3 == entries[i]->Variable_3);
            assert(after[j]->Variable_0 == entries[j]->Variable_0);
            assert(after[j]->Variable_3 == entries[j]->Variable_3);
            assert(!(entries[i] matches EntryView::Variable(n, _, _, d) && is_variable(
                entries[j],
                n,
                d as int,
            )));
        }
    }
}

} // verus!
