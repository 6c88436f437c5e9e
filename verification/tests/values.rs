use copper::environment::CopperStruct;
use copper::value::{BinOp, ClassType, Conv, Fault, Relation, Tag, Value};

fn s(text: &str) -> Value {
    Value::Str(text.to_string())
}

fn point() -> CopperStruct {
    let mut p = CopperStruct::new("P".to_string());
    p.insert("x".to_string(), Value::Int(3));
    p.insert("y".to_string(), s("four"));
    p
}

#[test]
fn numbers_are_written_in_decimal_digits() {
    assert_eq!(Value::Int(-12).string_s(), "-12");
    assert_eq!(Value::Uint(18446744073709551615).string_s(), "18446744073709551615");
    assert_eq!(Value::Bool(true).string_s(), "true");
    assert_eq!(Value::Bool(false).string_s(), "false");
    assert_eq!(Value::Nil.string_s(), "");
    assert_eq!(s("as is").string_s(), "as is");
}

#[test]
fn structures_do_not_convert_to_text() {
    assert_eq!(Value::Struct(point()).text_conv(), Conv::Fault(Fault::Conversion));
    assert_eq!(Value::Struct(point()).coerce(&ClassType::Str), Conv::Fault(Fault::Conversion));
    assert_eq!(Value::Int(5).text_conv(), Conv::Done("5".to_string()));
}

#[test]
fn strings_are_trimmed_and_read_as_numbers() {
    assert_eq!(s("  42\n").int_s(), 42);
    assert_eq!(s("-7").int_s(), -7);
    assert_eq!(s(" 19 ").uint_s(), 19);
    assert_eq!(s("x").int_conv(), Conv::Fault(Fault::Conversion));
    assert_eq!(s("-1").uint_conv(), Conv::Fault(Fault::Conversion));
    assert_eq!(s("9223372036854775808").int_conv(), Conv::Fault(Fault::Conversion));
    assert_eq!(s(" true ").bool_s(), true);
    assert_eq!(s("false").bool_s(), false);
    assert_eq!(s("True").bool_conv(), Conv::Fault(Fault::Conversion));
}

#[test]
fn conversions_between_numbers_keep_the_bits() {
    assert_eq!(Value::Int(-1).uint_s(), u64::MAX);
    assert_eq!(Value::Uint(u64::MAX).int_s(), -1);
    assert_eq!(Value::Nil.int_s(), 0);
    assert_eq!(Value::Nil.uint_s(), 0);
    assert_eq!(Value::Nil.bool_s(), false);
}

#[test]
fn truth_values_and_structures_do_not_convert_to_numbers() {
    assert_eq!(Value::Bool(true).int_conv(), Conv::Fault(Fault::Conversion));
    assert_eq!(Value::Bool(true).uint_conv(), Conv::Fault(Fault::Conversion));
    assert_eq!(Value::Struct(point()).int_conv(), Conv::Fault(Fault::Conversion));
    assert_eq!(Value::Int(1).bool_conv(), Conv::Fault(Fault::Conversion));
    assert_eq!(Value::Uint(0).bool_conv(), Conv::Fault(Fault::Conversion));
    assert_eq!(Value::Int(1).coerce(&ClassType::Struct("P".to_string())), Conv::Fault(Fault::Conversion));
}

#[test]
fn decimals_are_for_the_host() {
    let d = Value::Decimal("1.5".to_string());
    assert_eq!(d.int_conv(), Conv::Host);
    assert_eq!(d.uint_conv(), Conv::Host);
    assert_eq!(d.coerce(&ClassType::Str), Conv::Host);
    assert_eq!(Value::Int(1).coerce(&ClassType::Decimal), Conv::Host);
    assert_eq!(d.coerce(&ClassType::Decimal), Conv::Done(Value::Decimal("1.5".to_string())));
    assert_eq!(d.arith(&Value::Int(1), BinOp::Add), Conv::Host);
    assert_eq!(Value::Uint(1).compare(&d, Relation::Less), Conv::Host);
    assert_eq!(d.negate(), Conv::Host);
    assert_eq!(d.bool_conv(), Conv::Fault(Fault::Conversion));
    assert_eq!(Value::Bool(true).coerce(&ClassType::Decimal), Conv::Fault(Fault::Conversion));
    assert_eq!(d.text_conv(), Conv::Host);
    assert_eq!(s("a").arith(&d, BinOp::Add), Conv::Host);
    assert_eq!(s("a").compare(&d, Relation::Equal), Conv::Host);
}

#[test]
fn the_higher_kind_decides_the_operation() {
    assert_eq!(Value::Uint(2).add_s(&Value::Uint(3)), Value::Uint(5));
    assert_eq!(Value::Uint(2).add_s(&Value::Int(-3)), Value::Int(-1));
    assert_eq!(Value::Nil.add_s(&Value::Nil), Value::Uint(0));
    assert_eq!(Value::Nil.add_s(&Value::Int(4)), Value::Int(4));
    assert_eq!(Value::Int(2).add_s(&s(" !")), s("2 !"));
    assert_eq!(s("a").add_s(&Value::Nil), s("a"));
    assert_eq!(Value::Int(7).sub_s(&Value::Int(9)), Value::Int(-2));
    assert_eq!(Value::Int(6).mul_s(&Value::Uint(7)), Value::Int(42));
    assert_eq!(Value::Int(-7).div_s(&Value::Int(2)), Value::Int(-3));
    assert_eq!(Value::Uint(7).div_s(&Value::Uint(2)), Value::Uint(3));
}

#[test]
fn arithmetic_faults() {
    assert_eq!(Value::Uint(1).arith(&Value::Uint(2), BinOp::Sub), Conv::Fault(Fault::Overflow));
    assert_eq!(Value::Int(i64::MAX).arith(&Value::Int(1), BinOp::Add), Conv::Fault(Fault::Overflow));
    assert_eq!(Value::Int(i64::MIN).arith(&Value::Int(-1), BinOp::Div), Conv::Fault(Fault::Overflow));
    assert_eq!(Value::Int(i64::MAX).arith(&Value::Int(2), BinOp::Mul), Conv::Fault(Fault::Overflow));
    assert_eq!(Value::Int(1).arith(&Value::Int(0), BinOp::Div), Conv::Fault(Fault::DivisionByZero));
    assert_eq!(Value::Uint(1).arith(&Value::Nil, BinOp::Div), Conv::Fault(Fault::DivisionByZero));
    assert_eq!(s("a").arith(&s("b"), BinOp::Sub), Conv::Fault(Fault::Operand));
    assert_eq!(Value::Bool(true).arith(&Value::Int(1), BinOp::Add), Conv::Fault(Fault::Operand));
    assert_eq!(Value::Struct(point()).arith(&Value::Int(1), BinOp::Mul), Conv::Fault(Fault::Operand));
    assert_eq!(Value::Uint(u64::MAX).arith(&Value::Int(0), BinOp::Add), Conv::Done(Value::Int(-1)));
}

#[test]
fn comparisons() {
    let t = Conv::Done(Value::Bool(true));
    let f = Conv::Done(Value::Bool(false));
    assert_eq!(Value::Int(1).compare(&Value::Int(2), Relation::Less), t);
    assert_eq!(Value::Int(2).compare(&Value::Int(2), Relation::Less), f);
    assert_eq!(Value::Int(2).compare(&Value::Uint(2), Relation::LessEqual), t);
    assert_eq!(Value::Int(-1).compare(&Value::Uint(0), Relation::Greater), f);
    assert_eq!(Value::Uint(3).compare(&Value::Uint(3), Relation::GreaterEqual), t);
    assert_eq!(Value::Nil.compare(&Value::Nil, Relation::Equal), t);
    assert_eq!(s("a").compare(&s("a"), Relation::Equal), t);
    assert_eq!(s("a").compare(&s("b"), Relation::NotEqual), t);
    assert_eq!(s("1").compare(&Value::Int(1), Relation::Equal), t);
    assert_eq!(Value::Bool(true).compare(&Value::Bool(false), Relation::NotEqual), t);
    assert_eq!(Value::Bool(true).compare(&s("true"), Relation::Equal), t);
    assert_eq!(s("a").compare(&s("b"), Relation::Less), Conv::Fault(Fault::Operand));
    assert_eq!(Value::Bool(true).compare(&Value::Bool(true), Relation::Greater), Conv::Fault(Fault::Operand));
    assert_eq!(Value::Bool(true).compare(&Value::Int(1), Relation::Equal), Conv::Fault(Fault::Conversion));
    assert_eq!(Value::Struct(point()).compare(&Value::Struct(point()), Relation::Equal), Conv::Fault(Fault::Operand));
}

#[test]
fn logic_negation_and_not() {
    assert_eq!(Value::Bool(true).logic(&Value::Bool(false), true), Conv::Done(Value::Bool(false)));
    assert_eq!(Value::Bool(true).logic(&Value::Bool(false), false), Conv::Done(Value::Bool(true)));
    assert_eq!(Value::Nil.logic(&s("true"), false), Conv::Done(Value::Bool(true)));
    assert_eq!(Value::Int(1).logic(&Value::Bool(true), true), Conv::Fault(Fault::Conversion));
    assert_eq!(Value::Int(5).negate(), Conv::Done(Value::Int(-5)));
    assert_eq!(Value::Int(i64::MIN).negate(), Conv::Fault(Fault::Overflow));
    assert_eq!(Value::Uint(5).negate(), Conv::Fault(Fault::Operand));
    assert_eq!(Value::Bool(false).invert(), Conv::Done(Value::Bool(true)));
    assert_eq!(Value::Int(0).invert(), Conv::Fault(Fault::Operand));
}

#[test]
fn coercion_to_declared_types() {
    assert_eq!(Value::Int(5).coerce(&ClassType::Any), Conv::Done(Value::Int(5)));
    assert_eq!(Value::Int(5).coerce(&ClassType::Str), Conv::Done(s("5")));
    assert_eq!(s("5").coerce(&ClassType::Int), Conv::Done(Value::Int(5)));
    assert_eq!(s("5").coerce(&ClassType::Uint), Conv::Done(Value::Uint(5)));
    assert_eq!(Value::Nil.coerce(&ClassType::Bool), Conv::Done(Value::Bool(false)));
    let p = Value::Struct(point());
    assert_eq!(p.coerce(&ClassType::Struct("Q".to_string())), Conv::Fault(Fault::Conversion));
    assert_eq!(p.coerce(&ClassType::Struct("P".to_string())), Conv::Done(Value::Struct(point())));
    assert_eq!(p.struct_s("P".to_string()), point());
}

#[test]
fn kinds_and_their_names() {
    assert_eq!(Value::Nil.tag(), Tag::Nil);
    assert_eq!(Value::Decimal("1.0".to_string()).tag(), Tag::Decimal);
    assert_eq!(Value::Nil.type_to_string(), "none");
    assert_eq!(Value::Uint(1).type_to_string(), "uint");
    assert_eq!(Value::Int(1).type_to_string(), "int");
    assert_eq!(Value::Decimal("1.0".to_string()).type_to_string(), "decimal");
    assert_eq!(s("").type_to_string(), "string");
    assert_eq!(Value::Bool(true).type_to_string(), "bool");
    assert_eq!(Value::Struct(point()).type_to_string(), "P");
}

#[test]
fn structure_fields() {
    let mut p = point();
    assert_eq!(p.get("x".to_string()), Value::Int(3));
    assert!(p.has(&"y".to_string()));
    assert!(!p.has(&"z".to_string()));
    p.insert("x".to_string(), Value::Int(9));
    assert_eq!(p.field_names, vec!["x".to_string(), "y".to_string()]);
    assert_eq!(p.get("x".to_string()), Value::Int(9));
    p.set(vec!["y".to_string()], Value::Bool(true));
    assert_eq!(p.get("y".to_string()), Value::Bool(true));
    assert_eq!(p.set_path(&vec![], 0, &Value::Nil), None);
    assert_eq!(p.set_path(&vec!["z".to_string()], 0, &Value::Nil), None);
    assert_eq!(p.set_path(&vec!["x".to_string(), "y".to_string()], 0, &Value::Nil), None);
}

#[test]
fn nested_structure_path() {
    let mut outer = CopperStruct::new("O".to_string());
    outer.insert("inner".to_string(), Value::Struct(point()));
    outer.set(vec!["inner".to_string(), "x".to_string()], Value::Int(10));
    match outer.get("inner".to_string()) {
        Value::Struct(inner) => assert_eq!(inner.get("x".to_string()), Value::Int(10)),
        other => panic!("unexpected {:?}", other),
    }
    let lost = outer.set_path(&vec!["nowhere".to_string(), "inner".to_string()], 0, &Value::Int(1));
    assert_eq!(lost, None);
}

#[test]
fn clone_is_a_deep_copy() {
    let p = Value::Struct(point());
    let q = p.clone();
    assert_eq!(p, q);
}

#[test]
fn path_that_names_no_field_reaches_nothing() {
    let mut inner = CopperStruct::new("Q".to_string());
    inner.insert("x".to_string(), Value::Int(1));
    let mut outer = CopperStruct::new("P".to_string());
    outer.insert("x".to_string(), Value::Int(1));
    outer.insert("q".to_string(), Value::Struct(inner));
    let path = |names: &[&str]| names.iter().map(|n| n.to_string()).collect::<Vec<String>>();
    assert_eq!(outer.set_path(&path(&["nope", "x"]), 0, &Value::Int(5)), None);
    assert_eq!(outer.set_path(&path(&["q", "nope"]), 0, &Value::Int(5)), None);
    assert_eq!(outer.set_path(&path(&["x", "x"]), 0, &Value::Int(5)), None);
    assert_eq!(outer.set_path(&path(&[]), 0, &Value::Int(5)), None);
    let changed = outer.set_path(&path(&["q", "x"]), 0, &Value::Int(5)).unwrap();
    assert_eq!(changed.get("x".to_string()), Value::Int(1));
    match changed.get("q".to_string()) {
        Value::Struct(q) => assert_eq!(q.get("x".to_string()), Value::Int(5)),
        other => panic!("not a structure: {:?}", other),
    }
    outer.set(path(&["x"]), Value::Int(7));
    assert_eq!(outer.get("x".to_string()), Value::Int(7));
}
