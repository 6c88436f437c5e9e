//! Run-time values, the types that variables are declared with, and the
//! conversions and operators between them.
//!
//! A decimal is carried as the text that spells it. The library never
//! computes with decimals: where an operation needs one computed, it says
//! so (`Conv::Host`) and whoever runs the library supplies the result.

use vstd::prelude::*;
use crate::text::{
    clone_strings, int_text, int_to_text, parse_bool, parse_int, parse_uint, parsed_bool, parsed_int,
    parsed_uint, push_text, trim, trimmed, uint_text, uint_to_text,
};

verus! {

/// Why an operation on values cannot be carried out.
#[derive(Debug, Clone, Copy, PartialEq, Eq, Structural)]
pub enum Fault {
    /// A value cannot be converted to the type asked for.
    Conversion,
    /// An operator is applied to a value of a kind it does not take.
    Operand,
    /// The result of integer arithmetic does not fit its type.
    Overflow,
    /// Integer division by zero.
    DivisionByZero,
    /// A value is needed and the stack holds none.
    StackUnderflow,
    /// No variable of that name is in scope.
    UnknownVariable,
    /// No function of that name is bound.
    UnknownFunction,
    /// No structure of that name is declared.
    UnknownStruct,
    /// The structure has no field of that name.
    UnknownField,
    /// A function is called with the wrong number of arguments.
    Arity,
    /// `Return` outside any function.
    ReturnOutsideFunction,
    /// A structure is needed and the value is none.
    NotAStruct,
    /// The instruction pointer is outside the code.
    CodeOverrun,
    /// The scope depth does not fit its counter.
    ScopeOverflow,
    /// What the host supplied does not fit what was asked of it.
    BadAnswer,
}

/// The result of a conversion or an operator: done, or to be computed by
/// the host because a decimal is involved, or impossible.
#[derive(Debug, PartialEq)]
pub enum Conv<T> {
    Done(T),
    Host,
    Fault(Fault),
}

/// The kind of a value, in the order that decides which operand a binary
/// operator goes by.
#[derive(Debug, Clone, Copy, PartialEq, Eq, Structural)]
pub enum Tag {
    Nil,
    Uint,
    Int,
    Decimal,
    Str,
    Bool,
    Struct,
}

/// The place of a kind in the order `Nil < Uint < Int < Decimal < Str <
/// Bool < Struct`.
pub open spec fn rank(t: Tag) -> int {
    match t {
        Tag::Nil => 0,
        Tag::Uint => 1,
        Tag::Int => 2,
        Tag::Decimal => 3,
        Tag::Str => 4,
        Tag::Bool => 5,
        Tag::Struct => 6,
    }
}

/// The type that a variable is declared with.
#[derive(Debug, PartialEq)]
pub enum ClassType {
    Any,
    Uint,
    Int,
    Decimal,
    Str,
    Bool,
    Struct(String),
}

/// A declared type as a mathematical value.
pub enum ClassTypeView {
    Any,
    Uint,
    Int,
    Decimal,
    Str,
    Bool,
    Struct(Seq<char>),
}

impl View for ClassType {
    type V = ClassTypeView;

    open spec fn view(&self) -> ClassTypeView {
        match self {
            ClassType::Any => ClassTypeView::Any,
            ClassType::Uint => ClassTypeView::Uint,
            ClassType::Int => ClassTypeView::Int,
            ClassType::Decimal => ClassTypeView::Decimal,
            ClassType::Str => ClassTypeView::Str,
            ClassType::Bool => ClassTypeView::Bool,
            ClassType::Struct(name) => ClassTypeView::Struct(name@),
        }
    }
}

impl Clone for ClassType {
    fn clone(&self) -> (r: ClassType)
        ensures
            r@ == self@,
    {
        match self {
            ClassType::Any => ClassType::Any,
            ClassType::Uint => ClassType::Uint,
            ClassType::Int => ClassType::Int,
            ClassType::Decimal => ClassType::Decimal,
            ClassType::Str => ClassType::Str,
            ClassType::Bool => ClassType::Bool,
            ClassType::Struct(name) => ClassType::Struct(name.clone()),
        }
    }
}

/// A run-time value.
#[derive(Debug, PartialEq)]
pub enum Value {
    Nil,
    Uint(u64),
    Int(i64),
    Decimal(String),
    Str(String),
    Bool(bool),
    Struct(CopperStruct),
}

/// A structure: its name and its fields in the order of their declaration,
/// the i-th name with the i-th value.
#[derive(Debug, PartialEq)]
pub struct CopperStruct {
    pub name: String,
    pub field_names: Vec<String>,
    pub field_values: Vec<Value>,
}

/// A value as a mathematical value.
pub enum ValueView {
    Nil,
    Uint(u64),
    Int(i64),
    Decimal(Seq<char>),
    Str(Seq<char>),
    Bool(bool),
    Struct(StructView),
}

/// A structure as a mathematical value.
pub struct StructView {
    pub name: Seq<char>,
    pub field_names: Seq<Seq<char>>,
    pub field_values: Seq<ValueView>,
}

/// The views of a run of names.
pub open spec fn name_views(v: Seq<String>) -> Seq<Seq<char>> {
    Seq::new(v.len(), |i: int| v[i]@)
}

impl Value {
    /// The value as a mathematical value.
    pub open spec fn model(&self) -> ValueView
        decreases self,
    {
        match self {
            Value::Nil => ValueView::Nil,
            Value::Uint(n) => ValueView::Uint(*n),
            Value::Int(n) => ValueView::Int(*n),
            Value::Decimal(t) => ValueView::Decimal(t@),
            Value::Str(s) => ValueView::Str(s@),
            Value::Bool(b) => ValueView::Bool(*b),
            Value::Struct(cs) => ValueView::Struct(cs.model()),
        }
    }
}

impl CopperStruct {
    /// The structure as a mathematical value.
    pub open spec fn model(&self) -> StructView
        decreases self,
    {
        StructView {
            name: self.name@,
            field_names: name_views(self.field_names@),
            field_values: Seq::new(
                self.field_values@.len(),
                |i: int|
                    if 0 <= i < self.field_values@.len() {
                        self.field_values@[i].model()
                    } else {
                        ValueView::Nil
                    },
            ),
        }
    }
}

impl View for Value {
    type V = ValueView;

    open spec fn view(&self) -> ValueView {
        self.model()
    }
}

impl View for CopperStruct {
    type V = StructView;

    open spec fn view(&self) -> StructView {
        self.model()
    }
}

/// The views of a run of values.
pub open spec fn value_views(v: Seq<Value>) -> Seq<ValueView> {
    Seq::new(v.len(), |i: int| v[i]@)
}

/// The view of a structure holds the views of its names and values.
pub proof fn lemma_struct_view(cs: CopperStruct)
    ensures
        cs@ == (StructView {
            name: cs.name@,
            field_names: name_views(cs.field_names@),
            field_values: value_views(cs.field_values@),
        }),
        Value::Struct(cs)@ == ValueView::Struct(cs@),
{
    assert(cs@.field_values =~= value_views(cs.field_values@));
}

/// The views of a run of values with one more behind it.
pub proof fn lemma_value_views_push(v: Seq<Value>, x: Value)
    ensures
        value_views(v.push(x)) == value_views(v).push(x@),
{
    assert(value_views(v.push(x)) =~= value_views(v).push(x@));
}

/// The views of a run of names with one more behind it.
pub proof fn lemma_name_views_push(v: Seq<String>, x: String)
    ensures
        name_views(v.push(x)) == name_views(v).push(x@),
{
    assert(name_views(v.push(x)) =~= name_views(v).push(x@));
}

/// The kind of a value.
pub open spec fn tag_of(v: ValueView) -> Tag {
    match v {
        ValueView::Nil => Tag::Nil,
        ValueView::Uint(_) => Tag::Uint,
        ValueView::Int(_) => Tag::Int,
        ValueView::Decimal(_) => Tag::Decimal,
        ValueView::Str(_) => Tag::Str,
        ValueView::Bool(_) => Tag::Bool,
        ValueView::Struct(_) => Tag::Struct,
    }
}

/// The kind of the values that a declared type admits; `Any` admits all.
pub open spec fn class_tag(t: ClassTypeView) -> Option<Tag> {
    match t {
        ClassTypeView::Any => None,
        ClassTypeView::Uint => Some(Tag::Uint),
        ClassTypeView::Int => Some(Tag::Int),
        ClassTypeView::Decimal => Some(Tag::Decimal),
        ClassTypeView::Str => Some(Tag::Str),
        ClassTypeView::Bool => Some(Tag::Bool),
        ClassTypeView::Struct(_) => Some(Tag::Struct),
    }
}

/// Whether a variable declared with `t` may hold `v`: `Any` admits every
/// value, a structure type the structures of its own name, and every
/// other type the values of its kind.
pub open spec fn has_type(v: ValueView, t: ClassTypeView) -> bool {
    match t {
        ClassTypeView::Any => true,
        ClassTypeView::Struct(name) => v is Struct && v->Struct_0.name == name,
        _ => class_tag(t) == Some(tag_of(v)),
    }
}

/// The type that a declaration without a type gives a variable that
/// starts as `v`.
pub open spec fn infer_type(v: ValueView) -> ClassTypeView {
    match v {
        ValueView::Nil => ClassTypeView::Any,
        ValueView::Uint(_) => ClassTypeView::Uint,
        ValueView::Int(_) => ClassTypeView::Int,
        ValueView::Decimal(_) => ClassTypeView::Decimal,
        ValueView::Str(_) => ClassTypeView::Str,
        ValueView::Bool(_) => ClassTypeView::Bool,
        ValueView::Struct(s) => ClassTypeView::Struct(s.name),
    }
}

/// The text of a value that text can be made of here: numbers in decimal
/// digits, `true` and `false`, a string as it is, nothing for `Nil`.
pub open spec fn text_of(v: ValueView) -> Seq<char> {
    match v {
        ValueView::Uint(n) => uint_to_text(n as nat),
        ValueView::Int(n) => int_to_text(n as int),
        ValueView::Str(s) => s,
        ValueView::Bool(b) => if b {
            "true"@
        } else {
            "false"@
        },
        _ => Seq::empty(),
    }
}

/// Conversion to a signed number. `Nil` is 0; an unsigned number keeps its
/// bits; a string is trimmed and read; a decimal is for the host; a truth
/// value or a structure cannot be converted.
pub open spec fn to_int(v: ValueView) -> Conv<i64> {
    match v {
        ValueView::Nil => Conv::Done(0i64),
        ValueView::Uint(n) => Conv::Done(n as i64),
        ValueView::Int(n) => Conv::Done(n),
        ValueView::Decimal(_) => Conv::Host,
        ValueView::Str(s) => match parsed_int(trimmed(s)) {
            Some(n) => Conv::Done(n),
            None => Conv::Fault(Fault::Conversion),
        },
        ValueView::Bool(_) => Conv::Fault(Fault::Conversion),
        ValueView::Struct(_) => Conv::Fault(Fault::Conversion),
    }
}

/// Conversion to an unsigned number; like `to_int`, and a signed number
/// keeps its bits.
pub open spec fn to_uint(v: ValueView) -> Conv<u64> {
    match v {
        ValueView::Nil => Conv::Done(0u64),
        ValueView::Uint(n) => Conv::Done(n),
        ValueView::Int(n) => Conv::Done(n as u64),
        ValueView::Decimal(_) => Conv::Host,
        ValueView::Str(s) => match parsed_uint(trimmed(s)) {
            Some(n) => Conv::Done(n),
            None => Conv::Fault(Fault::Conversion),
        },
        ValueView::Bool(_) => Conv::Fault(Fault::Conversion),
        ValueView::Struct(_) => Conv::Fault(Fault::Conversion),
    }
}

/// Conversion to a truth value. `Nil` is false; a string is trimmed and
/// must spell `true` or `false`; nothing else converts.
pub open spec fn to_bool(v: ValueView) -> Conv<bool> {
    match v {
        ValueView::Nil => Conv::Done(false),
        ValueView::Bool(b) => Conv::Done(b),
        ValueView::Str(s) => match parsed_bool(trimmed(s)) {
            Some(b) => Conv::Done(b),
            None => Conv::Fault(Fault::Conversion),
        },
        _ => Conv::Fault(Fault::Conversion),
    }
}

/// Conversion to text: a decimal is written by the host, and a
/// structure cannot be converted.
pub open spec fn to_text(v: ValueView) -> Conv<Seq<char>> {
    match v {
        ValueView::Decimal(_) => Conv::Host,
        ValueView::Struct(_) => Conv::Fault(Fault::Conversion),
        _ => Conv::Done(text_of(v)),
    }
}

/// Conversion to a decimal: a decimal stays, a truth value or a structure
/// cannot be converted, and the rest is for the host.
pub open spec fn to_decimal(v: ValueView) -> Conv<ValueView> {
    match v {
        ValueView::Decimal(_) => Conv::Done(v),
        ValueView::Bool(_) => Conv::Fault(Fault::Conversion),
        ValueView::Struct(_) => Conv::Fault(Fault::Conversion),
        _ => Conv::Host,
    }
}

/// Conversion of `v` to the declared type `t`, as a declaration, an
/// assignment, the binding of an argument, a return and a type call do
/// it: `Any` takes every value as it is, and a structure type takes the
/// structures of its own name and nothing else.
pub open spec fn coerce(v: ValueView, t: ClassTypeView) -> Conv<ValueView> {
    match t {
        ClassTypeView::Any => Conv::Done(v),
        ClassTypeView::Uint => match to_uint(v) {
            Conv::Done(n) => Conv::Done(ValueView::Uint(n)),
            Conv::Host => Conv::Host,
            Conv::Fault(f) => Conv::Fault(f),
        },
        ClassTypeView::Int => match to_int(v) {
            Conv::Done(n) => Conv::Done(ValueView::Int(n)),
            Conv::Host => Conv::Host,
            Conv::Fault(f) => Conv::Fault(f),
        },
        ClassTypeView::Decimal => to_decimal(v),
        ClassTypeView::Str => match to_text(v) {
            Conv::Done(s) => Conv::Done(ValueView::Str(s)),
            Conv::Host => Conv::Host,
            Conv::Fault(f) => Conv::Fault(f),
        },
        ClassTypeView::Bool => match to_bool(v) {
            Conv::Done(b) => Conv::Done(ValueView::Bool(b)),
            Conv::Host => Conv::Host,
            Conv::Fault(f) => Conv::Fault(f),
        },
        ClassTypeView::Struct(name) => match v {
            ValueView::Struct(s) => if s.name == name {
                Conv::Done(v)
            } else {
                Conv::Fault(Fault::Conversion)
            },
            _ => Conv::Fault(Fault::Conversion),
        },
    }
}

/// The four arithmetic operators.
#[derive(Debug, Clone, Copy, PartialEq, Eq, Structural)]
pub enum BinOp {
    Add,
    Sub,
    Mul,
    Div,
}

/// The six comparisons.
#[derive(Debug, Clone, Copy, PartialEq, Eq, Structural)]
pub enum Relation {
    Less,
    LessEqual,
    Greater,
    GreaterEqual,
    Equal,
    NotEqual,
}

/// The kind that a binary operator goes by: the higher of its operands'
/// kinds, and at least `Uint`.
pub open spec fn promoted(a: ValueView, b: ValueView) -> Tag {
    let ta = tag_of(a);
    let tb = tag_of(b);
    let top = if rank(ta) >= rank(tb) {
        ta
    } else {
        tb
    };
    if rank(top) < 1 {
        Tag::Uint
    } else {
        top
    }
}

/// `op` on two unsigned numbers; a result that does not fit is a fault.
pub open spec fn uint_op(op: BinOp, x: u64, y: u64) -> Conv<ValueView> {
    match op {
        BinOp::Add => match x.checked_add(y) {
            Some(r) => Conv::Done(ValueView::Uint(r)),
            None => Conv::Fault(Fault::Overflow),
        },
        BinOp::Sub => match x.checked_sub(y) {
            Some(r) => Conv::Done(ValueView::Uint(r)),
            None => Conv::Fault(Fault::Overflow),
        },
        BinOp::Mul => match x.checked_mul(y) {
            Some(r) => Conv::Done(ValueView::Uint(r)),
            None => Conv::Fault(Fault::Overflow),
        },
        BinOp::Div => if y == 0 {
            Conv::Fault(Fault::DivisionByZero)
        } else {
            Conv::Done(ValueView::Uint(x / y))
        },
    }
}

/// `op` on two signed numbers; division rounds toward zero.
pub open spec fn int_op(op: BinOp, x: i64, y: i64) -> Conv<ValueView> {
    match op {
        BinOp::Add => match x.checked_add(y) {
            Some(r) => Conv::Done(ValueView::Int(r)),
            None => Conv::Fault(Fault::Overflow),
        },
        BinOp::Sub => match x.checked_sub(y) {
            Some(r) => Conv::Done(ValueView::Int(r)),
            None => Conv::Fault(Fault::Overflow),
        },
        BinOp::Mul => match x.checked_mul(y) {
            Some(r) => Conv::Done(ValueView::Int(r)),
            None => Conv::Fault(Fault::Overflow),
        },
        BinOp::Div => if y == 0 {
            Conv::Fault(Fault::DivisionByZero)
        } else {
            match x.checked_div(y) {
                Some(r) => Conv::Done(ValueView::Int(r)),
                None => Conv::Fault(Fault::Overflow),
            }
        },
    }
}

/// A binary arithmetic operator on two values. Both operands are converted
/// to the kind that `promoted` gives; `Add` joins two texts; no operator
/// takes a truth value or a structure.
pub open spec fn arith(op: BinOp, a: ValueView, b: ValueView) -> Conv<ValueView> {
    match promoted(a, b) {
        Tag::Uint => match (to_uint(a), to_uint(b)) {
            (Conv::Done(x), Conv::Done(y)) => uint_op(op, x, y),
            _ => Conv::Fault(Fault::Conversion),
        },
        Tag::Int => match (to_int(a), to_int(b)) {
            (Conv::Done(x), Conv::Done(y)) => int_op(op, x, y),
            _ => Conv::Fault(Fault::Conversion),
        },
        Tag::Decimal => Conv::Host,
        Tag::Str => if op == BinOp::Add {
            match (to_text(a), to_text(b)) {
                (Conv::Done(x), Conv::Done(y)) => Conv::Done(ValueView::Str(x + y)),
                (Conv::Fault(f), _) => Conv::Fault(f),
                (_, Conv::Fault(f)) => Conv::Fault(f),
                _ => Conv::Host,
            }
        } else {
            Conv::Fault(Fault::Operand)
        },
        _ => Conv::Fault(Fault::Operand),
    }
}

/// A comparison of two numbers.
pub open spec fn holds(rel: Relation, x: int, y: int) -> bool {
    match rel {
        Relation::Less => x < y,
        Relation::LessEqual => x <= y,
        Relation::Greater => x > y,
        Relation::GreaterEqual => x >= y,
        Relation::Equal => x == y,
        Relation::NotEqual => x != y,
    }
}

/// Whether the comparison is `==` or `!=`.
pub open spec fn is_equality(rel: Relation) -> bool {
    rel == Relation::Equal || rel == Relation::NotEqual
}

/// A comparison of two values, which gives a truth value. Numbers are
/// compared in the kind that `promoted` gives; texts and truth values can
/// only be tested for equality; structures cannot be compared.
pub open spec fn compare(rel: Relation, a: ValueView, b: ValueView) -> Conv<ValueView> {
    match promoted(a, b) {
        Tag::Uint => match (to_uint(a), to_uint(b)) {
            (Conv::Done(x), Conv::Done(y)) => Conv::Done(
                ValueView::Bool(holds(rel, x as int, y as int)),
            ),
            _ => Conv::Fault(Fault::Conversion),
        },
        Tag::Int => match (to_int(a), to_int(b)) {
            (Conv::Done(x), Conv::Done(y)) => Conv::Done(
                ValueView::Bool(holds(rel, x as int, y as int)),
            ),
            _ => Conv::Fault(Fault::Conversion),
        },
        Tag::Decimal => Conv::Host,
        Tag::Str => if is_equality(rel) {
            match (to_text(a), to_text(b)) {
                (Conv::Done(x), Conv::Done(y)) => Conv::Done(
                    ValueView::Bool((x == y) == (rel == Relation::Equal)),
                ),
                (Conv::Fault(f), _) => Conv::Fault(f),
                (_, Conv::Fault(f)) => Conv::Fault(f),
                _ => Conv::Host,
            }
        } else {
            Conv::Fault(Fault::Operand)
        },
        Tag::Bool => if is_equality(rel) {
            match (to_bool(a), to_bool(b)) {
                (Conv::Done(x), Conv::Done(y)) => Conv::Done(
                    ValueView::Bool((x == y) == (rel == Relation::Equal)),
                ),
                _ => Conv::Fault(Fault::Conversion),
            }
        } else {
            Conv::Fault(Fault::Operand)
        },
        _ => Conv::Fault(Fault::Operand),
    }
}

/// `and` (when `both`) or `or` of two values converted to truth values.
pub open spec fn logic(both: bool, a: ValueView, b: ValueView) -> Conv<ValueView> {
    match (to_bool(a), to_bool(b)) {
        (Conv::Done(x), Conv::Done(y)) => Conv::Done(
            ValueView::Bool(if both {
                x && y
            } else {
                x || y
            }),
        ),
        _ => Conv::Fault(Fault::Conversion),
    }
}

/// Unary minus: on a signed number, and by the host on a decimal.
pub open spec fn negate(v: ValueView) -> Conv<ValueView> {
    match v {
        ValueView::Int(n) => match 0i64.checked_sub(n) {
            Some(r) => Conv::Done(ValueView::Int(r)),
            None => Conv::Fault(Fault::Overflow),
        },
        ValueView::Decimal(_) => Conv::Host,
        _ => Conv::Fault(Fault::Operand),
    }
}

/// `not`: on a truth value only.
pub open spec fn invert(v: ValueView) -> Conv<ValueView> {
    match v {
        ValueView::Bool(b) => Conv::Done(ValueView::Bool(!b)),
        _ => Conv::Fault(Fault::Operand),
    }
}

/// The name of a value's kind, as scripts see it.
pub open spec fn kind_name(v: ValueView) -> Seq<char> {
    match v {
        ValueView::Nil => "none"@,
        ValueView::Uint(_) => "uint"@,
        ValueView::Int(_) => "int"@,
        ValueView::Decimal(_) => "decimal"@,
        ValueView::Str(_) => "string"@,
        ValueView::Bool(_) => "bool"@,
        ValueView::Struct(s) => s.name,
    }
}

/// The index of the first name at or after `i` that is `name`.
pub open spec fn field_index(names: Seq<Seq<char>>, name: Seq<char>, i: int) -> Option<int>
    decreases names.len() - i,
{
    if !(0 <= i < names.len()) {
        None
    } else if names[i] == name {
        Some(i)
    } else {
        field_index(names, name, i + 1)
    }
}

/// The place of the field `name`: the first field of that name that has
/// a value.
pub open spec fn field_place(s: StructView, name: Seq<char>) -> Option<int> {
    match field_index(s.field_names, name, 0) {
        Some(k) => if k < s.field_values.len() {
            Some(k)
        } else {
            None
        },
        None => None,
    }
}

/// The value of the field `name`.
pub open spec fn field_value(s: StructView, name: Seq<char>) -> Option<ValueView> {
    match field_place(s, name) {
        Some(k) => Some(s.field_values[k]),
        None => None,
    }
}

/// `s` with the value `v` in place `k`.
pub open spec fn with_value(s: StructView, k: int, v: ValueView) -> StructView {
    StructView { name: s.name, field_names: s.field_names, field_values: s.field_values.update(k, v) }
}

/// `s` with the field `name` holding `v`: the field of that name is
/// overwritten, or a new field is added behind the others.
pub open spec fn with_field(s: StructView, name: Seq<char>, v: ValueView) -> StructView {
    match field_place(s, name) {
        Some(k) => with_value(s, k, v),
        None => StructView {
            name: s.name,
            field_names: s.field_names.push(name),
            field_values: s.field_values.push(v),
        },
    }
}

/// `s` with `v` in the field that the path `names[i..]` leads to: every
/// name but the last names a field that holds a structure, in which the
/// walk goes on; the last names the field that takes `v`. `None` where
/// the path is empty, a name on the way or the last one names no field,
/// or a field on the way holds no structure.
pub open spec fn with_path(s: StructView, names: Seq<Seq<char>>, i: int, v: ValueView) -> Option<
    StructView,
>
    decreases names.len() - i,
{
    if !(0 <= i < names.len()) {
        None
    } else if i == names.len() - 1 {
        match field_place(s, names[i]) {
            Some(k) => Some(with_value(s, k, v)),
            None => None,
        }
    } else {
        match field_place(s, names[i]) {
            Some(k) => match s.field_values[k] {
                ValueView::Struct(inner) => match with_path(inner, names, i + 1, v) {
                    Some(changed) => Some(with_value(s, k, ValueView::Struct(changed))),
                    None => None,
                },
                _ => None,
            },
            None => None,
        }
    }
}

/// A conversion's result with its value taken as a mathematical value.
pub open spec fn conv_view(c: Conv<Value>) -> Conv<ValueView> {
    match c {
        Conv::Done(v) => Conv::Done(v@),
        Conv::Host => Conv::Host,
        Conv::Fault(f) => Conv::Fault(f),
    }
}

impl CopperStruct {
    /// A structure named `name`, without fields.
    pub fn new(name: String) -> (s: CopperStruct)
        ensures
            s@ == (StructView { name: name@, field_names: Seq::empty(), field_values: Seq::empty() }),
    {
        let s = CopperStruct { name, field_names: Vec::new(), field_values: Vec::new() };
        proof {
            lemma_struct_view(s);
            assert(name_views(s.field_names@) =~= Seq::empty());
            assert(value_views(s.field_values@) =~= Seq::empty());
        }
        s
    }

    fn duplicate(&self) -> (r: CopperStruct)
        ensures
            r@ == self@,
        decreases self,
    {
        let mut values: Vec<Value> = Vec::new();
        let mut i: usize = 0;
        while i < self.field_values.len()
            invariant
                i <= self.field_values.len(),
                values@.len() == i,
                forall|j: int| 0 <= j < i ==> values@[j]@ == self.field_values@[j]@,
            decreases self.field_values.len() - i,
        {
            assert(decreases_to!(self.field_values => self.field_values[i as int]));
            values.push(self.field_values[i].duplicate());
            i += 1;
        }
        let r = CopperStruct {
            name: self.name.clone(),
            field_names: clone_strings(&self.field_names),
            field_values: values,
        };
        proof {
            lemma_struct_view(r);
            lemma_struct_view(*self);
            assert(value_views(r.field_values@) =~= value_views(self.field_values@));
        }
        r
    }

    /// The place of the field `name`.
    pub fn find(&self, name: &String) -> (r: Option<usize>)
        ensures
            r is Some ==> field_place(self@, name@) == Some(r->0 as int) && r->0
                < self.field_names@.len() && r->0 < self.field_values@.len(),
            r is None ==> field_place(self@, name@) is None,
    {
        proof {
            lemma_struct_view(*self);
        }
        let mut i: usize = 0;
        while i < self.field_names.len()
            invariant
                i <= self.field_names.len(),
                field_index(name_views(self.field_names@), name@, 0) == field_index(
                    name_views(self.field_names@),
                    name@,
                    i as int,
                ),
            decreases self.field_names.len() - i,
        {
            if self.field_names[i] == *name {
                if i < self.field_values.len() {
                    return Some(i);
                } else {
                    return None;
                }
            }
            i += 1;
        }
        None
    }

    /// Whether the structure has a field `name`.
    pub fn has(&self, name: &String) -> (b: bool)
        ensures
            b == (field_value(self@, name@) is Some),
    {
        self.find(name).is_some()
    }

    /// The value of the field `name`.
    pub fn get(&self, name: String) -> (v: Value)
        requires
            field_value(self@, name@) is Some,
        ensures
            Some(v@) == field_value(self@, name@),
    {
        proof {
            lemma_struct_view(*self);
        }
        match self.find(&name) {
            Some(k) => self.field_values[k].clone(),
            None => Value::Nil,
        }
    }

    /// Gives the field `name` the value `value`; a structure without such
    /// a field gets one, behind the others.
    pub fn insert(&mut self, name: String, value: Value)
        ensures
            final(self)@ == with_field(old(self)@, name@, value@),
    {
        proof {
            lemma_struct_view(*self);
        }
        match self.find(&name) {
            Some(k) => {
                self.field_values[k] = value;
                proof {
                    lemma_struct_view(*self);
                    assert(value_views(self.field_values@) =~= value_views(
                        old(self).field_values@,
                    ).update(k as int, value@));
                }
            },
            None => {
                proof {
                    lemma_name_views_push(self.field_names@, name);
                    lemma_value_views_push(self.field_values@, value);
                }
                self.field_names.push(name);
                self.field_values.push(value);
                proof {
                    lemma_struct_view(*self);
                }
            },
        }
    }

    fn replaced(&self, k: usize, value: Value) -> (r: CopperStruct)
        requires
            k < self.field_values@.len(),
        ensures
            r@ == with_value(self@, k as int, value@),
    {
        let mut r = self.duplicate();
        proof {
            lemma_struct_view(r);
            lemma_struct_view(*self);
        }
        assert(value_views(r.field_values@).len() == value_views(self.field_values@).len());
        let ghost copied = value_views(r.field_values@);
        r.field_values[k] = value;
        proof {
            lemma_struct_view(r);
            assert(value_views(r.field_values@) =~= copied.update(k as int, value@));
            assert(value_views(r.field_values@) =~= value_views(self.field_values@).update(
                k as int,
                value@,
            ));
        }
        r
    }

    /// The structure with `value` in the field that the path `names[i..]`
    /// leads to, where there is such a field.
    pub fn set_path(&self, names: &Vec<String>, i: usize, value: &Value) -> (r: Option<
        CopperStruct,
    >)
        ensures
            r is Some ==> Some(r->0@) == with_path(self@, name_views(names@), i as int, value@),
            r is None ==> with_path(self@, name_views(names@), i as int, value@) is None,
        decreases names.len() - i,
    {
        proof {
            lemma_struct_view(*self);
        }
        if i >= names.len() {
            return None;
        }
        if i == names.len() - 1 {
            match self.find(&names[i]) {
                Some(k) => Some(self.replaced(k, value.clone())),
                None => None,
            }
        } else {
            match self.find(&names[i]) {
                Some(k) => match &self.field_values[k] {
                    Value::Struct(inner) => {
                        proof {
                            lemma_struct_view(*inner);
                        }
                        match inner.set_path(names, i + 1, value) {
                            Some(changed) => {
                                proof {
                                    lemma_struct_view(changed);
                                }
                                Some(self.replaced(k, Value::Struct(changed)))
                            },
                            None => None,
                        }
                    },
                    _ => None,
                },
                None => None,
            }
        }
    }

    /// Writes `value` into the field that the path `names` leads to.
    pub fn set(&mut self, names: Vec<String>, value: Value)
        requires
            with_path(old(self)@, name_views(names@), 0, value@) is Some,
        ensures
            Some(final(self)@) == with_path(old(self)@, name_views(names@), 0, value@),
    {
        match self.set_path(&names, 0, &value) {
            Some(changed) => {
                *self = changed;
            },
            None => {},
        }
    }
}

impl Clone for CopperStruct {
    fn clone(&self) -> (r: CopperStruct)
        ensures
            r@ == self@,
    {
        self.duplicate()
    }
}

impl Value {
    fn duplicate(&self) -> (r: Value)
        ensures
            r@ == self@,
        decreases self,
    {
        match self {
            Value::Nil => Value::Nil,
            Value::Uint(n) => Value::Uint(*n),
            Value::Int(n) => Value::Int(*n),
            Value::Decimal(t) => Value::Decimal(t.clone()),
            Value::Str(s) => Value::Str(s.clone()),
            Value::Bool(b) => Value::Bool(*b),
            Value::Struct(cs) => {
                let c = cs.duplicate();
                proof {
                    lemma_struct_view(*cs);
                    lemma_struct_view(c);
                }
                Value::Struct(c)
            },
        }
    }

    /// The kind of the value.
    pub fn tag(&self) -> (t: Tag)
        ensures
            t == tag_of(self@),
    {
        match self {
            Value::Nil => Tag::Nil,
            Value::Uint(_) => Tag::Uint,
            Value::Int(_) => Tag::Int,
            Value::Decimal(_) => Tag::Decimal,
            Value::Str(_) => Tag::Str,
            Value::Bool(_) => Tag::Bool,
            Value::Struct(_) => Tag::Struct,
        }
    }

    /// The name of the value's kind.
    pub fn type_to_string(&self) -> (s: String)
        ensures
            s@ == kind_name(self@),
    {
        let mut s = String::new();
        match self {
            Value::Nil => push_text(&mut s, "none"),
            Value::Uint(_) => push_text(&mut s, "uint"),
            Value::Int(_) => push_text(&mut s, "int"),
            Value::Decimal(_) => push_text(&mut s, "decimal"),
            Value::Str(_) => push_text(&mut s, "string"),
            Value::Bool(_) => push_text(&mut s, "bool"),
            Value::Struct(cs) => {
                proof {
                    lemma_struct_view(*cs);
                }
                push_text(&mut s, cs.name.as_str())
            },
        }
        assert(s@ =~= kind_name(self@));
        s
    }

    /// The value converted to text, if it can be.
    pub fn text_conv(&self) -> (r: Conv<String>)
        ensures
            match to_text(self@) {
                Conv::Done(t) => r matches Conv::Done(s) && s@ == t,
                Conv::Host => r is Host,
                Conv::Fault(f) => r matches Conv::Fault(g) && g == f,
            },
    {
        match self {
            Value::Nil => Conv::Done(String::new()),
            Value::Uint(n) => Conv::Done(uint_text(*n)),
            Value::Int(n) => Conv::Done(int_text(*n)),
            Value::Decimal(_) => Conv::Host,
            Value::Str(s) => Conv::Done(s.clone()),
            Value::Bool(b) => {
                let mut s = String::new();
                if *b {
                    push_text(&mut s, "true");
                } else {
                    push_text(&mut s, "false");
                }
                assert(s@ =~= text_of(self@));
                Conv::Done(s)
            },
            Value::Struct(_) => Conv::Fault(Fault::Conversion),
        }
    }

    /// The value converted to a signed number, if it can be.
    pub fn int_conv(&self) -> (r: Conv<i64>)
        ensures
            r == to_int(self@),
    {
        match self {
            Value::Nil => Conv::Done(0),
            Value::Uint(n) => Conv::Done(#[verifier::truncate] (*n as i64)),
            Value::Int(n) => Conv::Done(*n),
            Value::Decimal(_) => Conv::Host,
            Value::Str(s) => match parse_int(trim(s.as_str()).as_str()) {
                Some(n) => Conv::Done(n),
                None => Conv::Fault(Fault::Conversion),
            },
            Value::Bool(_) => Conv::Fault(Fault::Conversion),
            Value::Struct(_) => Conv::Fault(Fault::Conversion),
        }
    }

    /// The value converted to an unsigned number, if it can be.
    pub fn uint_conv(&self) -> (r: Conv<u64>)
        ensures
            r == to_uint(self@),
    {
        match self {
            Value::Nil => Conv::Done(0),
            Value::Uint(n) => Conv::Done(*n),
            Value::Int(n) => Conv::Done(#[verifier::truncate] (*n as u64)),
            Value::Decimal(_) => Conv::Host,
            Value::Str(s) => match parse_uint(trim(s.as_str()).as_str()) {
                Some(n) => Conv::Done(n),
                None => Conv::Fault(Fault::Conversion),
            },
            Value::Bool(_) => Conv::Fault(Fault::Conversion),
            Value::Struct(_) => Conv::Fault(Fault::Conversion),
        }
    }

    /// The value converted to a truth value, if it can be.
    pub fn bool_conv(&self) -> (r: Conv<bool>)
        ensures
            r == to_bool(self@),
    {
        match self {
            Value::Nil => Conv::Done(false),
            Value::Bool(b) => Conv::Done(*b),
            Value::Str(s) => match parse_bool(trim(s.as_str()).as_str()) {
                Some(b) => Conv::Done(b),
                None => Conv::Fault(Fault::Conversion),
            },
            _ => Conv::Fault(Fault::Conversion),
        }
    }

    /// The value as a signed number.
    pub fn int_s(&self) -> (n: i64)
        requires
            to_int(self@) is Done,
        ensures
            to_int(self@) == Conv::Done(n),
    {
        match self.int_conv() {
            Conv::Done(n) => n,
            _ => 0,
        }
    }

    /// The value as an unsigned number.
    pub fn uint_s(&self) -> (n: u64)
        requires
            to_uint(self@) is Done,
        ensures
            to_uint(self@) == Conv::Done(n),
    {
        match self.uint_conv() {
            Conv::Done(n) => n,
            _ => 0,
        }
    }

    /// The value as a truth value.
    pub fn bool_s(&self) -> (b: bool)
        requires
            to_bool(self@) is Done,
        ensures
            to_bool(self@) == Conv::Done(b),
    {
        match self.bool_conv() {
            Conv::Done(b) => b,
            _ => false,
        }
    }

    /// The value as text.
    pub fn string_s(&self) -> (s: String)
        requires
            to_text(self@) is Done,
        ensures
            to_text(self@) == Conv::Done(s@),
    {
        match self.text_conv() {
            Conv::Done(s) => s,
            _ => String::new(),
        }
    }

    /// The structure that the value is, where it is one of the type
    /// `name`.
    pub fn struct_s(&self, name: String) -> (s: CopperStruct)
        requires
            self@ is Struct,
            self@->Struct_0.name == name@,
        ensures
            self@ == ValueView::Struct(s@),
    {
        match self {
            Value::Struct(cs) => {
                let c = cs.clone();
                proof {
                    lemma_struct_view(*cs);
                    lemma_struct_view(c);
                }
                c
            },
            _ => CopperStruct::new(name),
        }
    }

    /// The value converted to the declared type `t`.
    pub fn coerce(&self, t: &ClassType) -> (r: Conv<Value>)
        ensures
            conv_view(r) == coerce(self@, t@),
    {
        match t {
            ClassType::Any => Conv::Done(self.clone()),
            ClassType::Uint => match self.uint_conv() {
                Conv::Done(_) => Conv::Done(Value::Uint(self.uint_s())),
                Conv::Host => Conv::Host,
                Conv::Fault(f) => Conv::Fault(f),
            },
            ClassType::Int => match self.int_conv() {
                Conv::Done(_) => Conv::Done(Value::Int(self.int_s())),
                Conv::Host => Conv::Host,
                Conv::Fault(f) => Conv::Fault(f),
            },
            ClassType::Decimal => match self {
                Value::Decimal(_) => Conv::Done(self.clone()),
                Value::Bool(_) => Conv::Fault(Fault::Conversion),
                Value::Struct(_) => Conv::Fault(Fault::Conversion),
                _ => Conv::Host,
            },
            ClassType::Str => match self.text_conv() {
                Conv::Done(_) => Conv::Done(Value::Str(self.string_s())),
                Conv::Host => Conv::Host,
                Conv::Fault(f) => Conv::Fault(f),
            },
            ClassType::Bool => match self.bool_conv() {
                Conv::Done(_) => Conv::Done(Value::Bool(self.bool_s())),
                Conv::Host => Conv::Host,
                Conv::Fault(f) => Conv::Fault(f),
            },
            ClassType::Struct(name) => match self {
                Value::Struct(cs) => {
                    proof {
                        lemma_struct_view(*cs);
                    }
                    if cs.name == *name {
                        Conv::Done(Value::Struct(self.struct_s(name.clone())))
                    } else {
                        Conv::Fault(Fault::Conversion)
                    }
                },
                _ => Conv::Fault(Fault::Conversion),
            },
        }
    }

    /// The kind that a binary operator on this value and `other` goes by.
    pub fn promoted_tag(&self, other: &Value) -> (t: Tag)
        ensures
            t == promoted(self@, other@),
    {
        let ta = self.tag();
        let tb = other.tag();
        let top = if tag_rank(ta) >= tag_rank(tb) {
            ta
        } else {
            tb
        };
        if tag_rank(top) < 1 {
            Tag::Uint
        } else {
            top
        }
    }

    /// A binary arithmetic operator on this value and `other`.
    pub fn arith(&self, other: &Value, op: BinOp) -> (r: Conv<Value>)
        ensures
            conv_view(r) == arith(op, self@, other@),
    {
        match self.promoted_tag(other) {
            Tag::Uint => match (self.uint_conv(), other.uint_conv()) {
                (Conv::Done(x), Conv::Done(y)) => uint_arith(op, x, y),
                _ => Conv::Fault(Fault::Conversion),
            },
            Tag::Int => match (self.int_conv(), other.int_conv()) {
                (Conv::Done(x), Conv::Done(y)) => int_arith(op, x, y),
                _ => Conv::Fault(Fault::Conversion),
            },
            Tag::Decimal => Conv::Host,
            Tag::Str => match op {
                BinOp::Add => match (self.text_conv(), other.text_conv()) {
                    (Conv::Done(x), Conv::Done(y)) => {
                        let mut s = x;
                        push_text(&mut s, y.as_str());
                        Conv::Done(Value::Str(s))
                    },
                    (Conv::Fault(f), _) => Conv::Fault(f),
                    (_, Conv::Fault(f)) => Conv::Fault(f),
                    _ => Conv::Host,
                },
                _ => Conv::Fault(Fault::Operand),
            },
            _ => Conv::Fault(Fault::Operand),
        }
    }

    /// The sum of this value and `other`, or their texts joined.
    pub fn add_s(&self, other: &Value) -> (r: Value)
        requires
            arith(BinOp::Add, self@, other@) is Done,
        ensures
            arith(BinOp::Add, self@, other@) == Conv::Done(r@),
    {
        match self.arith(other, BinOp::Add) {
            Conv::Done(v) => v,
            _ => Value::Nil,
        }
    }

    /// This value less `other`.
    pub fn sub_s(&self, other: &Value) -> (r: Value)
        requires
            arith(BinOp::Sub, self@, other@) is Done,
        ensures
            arith(BinOp::Sub, self@, other@) == Conv::Done(r@),
    {
        match self.arith(other, BinOp::Sub) {
            Conv::Done(v) => v,
            _ => Value::Nil,
        }
    }

    /// The product of this value and `other`.
    pub fn mul_s(&self, other: &Value) -> (r: Value)
        requires
            arith(BinOp::Mul, self@, other@) is Done,
        ensures
            arith(BinOp::Mul, self@, other@) == Conv::Done(r@),
    {
        match self.arith(other, BinOp::Mul) {
            Conv::Done(v) => v,
            _ => Value::Nil,
        }
    }

    /// This value divided by `other`.
    pub fn div_s(&self, other: &Value) -> (r: Value)
        requires
            arith(BinOp::Div, self@, other@) is Done,
        ensures
            arith(BinOp::Div, self@, other@) == Conv::Done(r@),
    {
        match self.arith(other, BinOp::Div) {
            Conv::Done(v) => v,
            _ => Value::Nil,
        }
    }

    /// A comparison of this value with `other`.
    pub fn compare(&self, other: &Value, rel: Relation) -> (r: Conv<Value>)
        ensures
            conv_view(r) == compare(rel, self@, other@),
    {
        match self.promoted_tag(other) {
            Tag::Uint => match (self.uint_conv(), other.uint_conv()) {
                (Conv::Done(x), Conv::Done(y)) => Conv::Done(Value::Bool(uint_holds(rel, x, y))),
                _ => Conv::Fault(Fault::Conversion),
            },
            Tag::Int => match (self.int_conv(), other.int_conv()) {
                (Conv::Done(x), Conv::Done(y)) => Conv::Done(Value::Bool(int_holds(rel, x, y))),
                _ => Conv::Fault(Fault::Conversion),
            },
            Tag::Decimal => Conv::Host,
            Tag::Str => match rel {
                Relation::Equal | Relation::NotEqual => match (
                    self.text_conv(),
                    other.text_conv(),
                ) {
                    (Conv::Done(x), Conv::Done(y)) => {
                        let same = x == y;
                        Conv::Done(Value::Bool(same == equal_asked(rel)))
                    },
                    (Conv::Fault(f), _) => Conv::Fault(f),
                    (_, Conv::Fault(f)) => Conv::Fault(f),
                    _ => Conv::Host,
                },
                _ => Conv::Fault(Fault::Operand),
            },
            Tag::Bool => match rel {
                Relation::Equal | Relation::NotEqual => match (
                    self.bool_conv(),
                    other.bool_conv(),
                ) {
                    (Conv::Done(x), Conv::Done(y)) => Conv::Done(
                        Value::Bool((x == y) == equal_asked(rel)),
                    ),
                    _ => Conv::Fault(Fault::Conversion),
                },
                _ => Conv::Fault(Fault::Operand),
            },
            _ => Conv::Fault(Fault::Operand),
        }
    }

    /// `and` (when `both`) or `or` of this value and `other`.
    pub fn logic(&self, other: &Value, both: bool) -> (r: Conv<Value>)
        ensures
            conv_view(r) == logic(both, self@, other@),
    {
        match (self.bool_conv(), other.bool_conv()) {
            (Conv::Done(x), Conv::Done(y)) => Conv::Done(
                Value::Bool(if both {
                    x && y
                } else {
                    x || y
                }),
            ),
            _ => Conv::Fault(Fault::Conversion),
        }
    }

    /// Unary minus.
    pub fn negate(&self) -> (r: Conv<Value>)
        ensures
            conv_view(r) == negate(self@),
    {
        match self {
            Value::Int(n) => match 0i64.checked_sub(*n) {
                Some(r) => Conv::Done(Value::Int(r)),
                None => Conv::Fault(Fault::Overflow),
            },
            Value::Decimal(_) => Conv::Host,
            _ => Conv::Fault(Fault::Operand),
        }
    }

    /// `not`.
    pub fn invert(&self) -> (r: Conv<Value>)
        ensures
            conv_view(r) == invert(self@),
    {
        match self {
            Value::Bool(b) => Conv::Done(Value::Bool(!*b)),
            _ => Conv::Fault(Fault::Operand),
        }
    }
}

impl Clone for Value {
    fn clone(&self) -> (r: Value)
        ensures
            r@ == self@,
    {
        self.duplicate()
    }
}

fn tag_rank(t: Tag) -> (r: u8)
    ensures
        r == rank(t),
{
    match t {
        Tag::Nil => 0,
        Tag::Uint => 1,
        Tag::Int => 2,
        Tag::Decimal => 3,
        Tag::Str => 4,
        Tag::Bool => 5,
        Tag::Struct => 6,
    }
}

fn equal_asked(rel: Relation) -> (b: bool)
    ensures
        b == (rel == Relation::Equal),
{
    match rel {
        Relation::Equal => true,
        _ => false,
    }
}

fn uint_holds(rel: Relation, x: u64, y: u64) -> (b: bool)
    ensures
        b == holds(rel, x as int, y as int),
{
    match rel {
        Relation::Less => x < y,
        Relation::LessEqual => x <= y,
        Relation::Greater => x > y,
        Relation::GreaterEqual => x >= y,
        Relation::Equal => x == y,
        Relation::NotEqual => x != y,
    }
}

fn int_holds(rel: Relation, x: i64, y: i64) -> (b: bool)
    ensures
        b == holds(rel, x as int, y as int),
{
    match rel {
        Relation::Less => x < y,
        Relation::LessEqual => x <= y,
        Relation::Greater => x > y,
        Relation::GreaterEqual => x >= y,
        Relation::Equal => x == y,
        Relation::NotEqual => x != y,
    }
}

fn uint_arith(op: BinOp, x: u64, y: u64) -> (r: Conv<Value>)
    ensures
        conv_view(r) == uint_op(op, x, y),
{
    match op {
        BinOp::Add => match x.checked_add(y) {
            Some(r) => Conv::Done(Value::Uint(r)),
            None => Conv::Fault(Fault::Overflow),
        },
        BinOp::Sub => match x.checked_sub(y) {
            Some(r) => Conv::Done(Value::Uint(r)),
            None => Conv::Fault(Fault::Overflow),
        },
        BinOp::Mul => match x.checked_mul(y) {
            Some(r) => Conv::Done(Value::Uint(r)),
            None => Conv::Fault(Fault::Overflow),
        },
        BinOp::Div => if y == 0 {
            Conv::Fault(Fault::DivisionByZero)
        } else {
            Conv::Done(Value::Uint(x / y))
        },
    }
}

fn int_arith(op: BinOp, x: i64, y: i64) -> (r: Conv<Value>)
    ensures
        conv_view(r) == int_op(op, x, y),
{
    match op {
        BinOp::Add => match x.checked_add(y) {
            Some(r) => Conv::Done(Value::Int(r)),
            None => Conv::Fault(Fault::Overflow),
        },
        BinOp::Sub => match x.checked_sub(y) {
            Some(r) => Conv::Done(Value::Int(r)),
            None => Conv::Fault(Fault::Overflow),
        },
        BinOp::Mul => match x.checked_mul(y) {
            Some(r) => Conv::Done(Value::Int(r)),
            None => Conv::Fault(Fault::Overflow),
        },
        BinOp::Div => if y == 0 {
            Conv::Fault(Fault::DivisionByZero)
        } else {
            match x.checked_div(y) {
                Some(r) => Conv::Done(Value::Int(r)),
                None => Conv::Fault(Fault::Overflow),
            }
        },
    }
}

} // verus!
