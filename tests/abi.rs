use move_fuzzer::abi::{
    convert_move_type_to_fuzzer_type, functions_with_prefix, parameter_templates, starts_with,
    MoveType, PrimitiveType,
};
use move_fuzzer::value::Value;

fn prim(p: PrimitiveType) -> MoveType {
    MoveType::Primitive(p)
}

#[test]
fn primitive_templates_are_zero() {
    assert_eq!(convert_move_type_to_fuzzer_type(&prim(PrimitiveType::U8)), Value::U8(0));
    assert_eq!(convert_move_type_to_fuzzer_type(&prim(PrimitiveType::U16)), Value::U16(0));
    assert_eq!(convert_move_type_to_fuzzer_type(&prim(PrimitiveType::U32)), Value::U32(0));
    assert_eq!(convert_move_type_to_fuzzer_type(&prim(PrimitiveType::U64)), Value::U64(0));
    assert_eq!(convert_move_type_to_fuzzer_type(&prim(PrimitiveType::U128)), Value::U128(0));
    assert_eq!(convert_move_type_to_fuzzer_type(&prim(PrimitiveType::Bool)), Value::Bool(false));
    assert_eq!(convert_move_type_to_fuzzer_type(&prim(PrimitiveType::Address)), Value::Address([0; 32]));
    assert_eq!(convert_move_type_to_fuzzer_type(&prim(PrimitiveType::Other)), Value::U64(0));
    assert_eq!(convert_move_type_to_fuzzer_type(&MoveType::Other), Value::U64(0));
}

#[test]
fn composite_templates() {
    assert_eq!(
        convert_move_type_to_fuzzer_type(&MoveType::Vector(Box::new(prim(PrimitiveType::U8)))),
        Value::Vector(Box::new(Value::U8(0)), vec![Value::U8(0)])
    );
    assert_eq!(
        convert_move_type_to_fuzzer_type(&MoveType::Struct),
        Value::Struct(vec![Value::U64(0)])
    );
    assert_eq!(
        convert_move_type_to_fuzzer_type(&MoveType::Reference(Box::new(MoveType::Vector(Box::new(
            prim(PrimitiveType::Bool)
        ))))),
        Value::Reference(
            false,
            Box::new(Value::Vector(Box::new(Value::Bool(false)), vec![Value::Bool(false)]))
        )
    );
}

#[test]
fn templates_follow_parameter_order() {
    let params = vec![prim(PrimitiveType::U64), MoveType::Struct, prim(PrimitiveType::Bool)];
    assert_eq!(
        parameter_templates(&params),
        vec![Value::U64(0), Value::Struct(vec![Value::U64(0)]), Value::Bool(false)]
    );
    assert_eq!(parameter_templates(&vec![]), Vec::<Value>::new());
}

#[test]
fn prefix_selection_keeps_order() {
    let sig = |name: &str| (name.to_string(), vec![prim(PrimitiveType::U64)], vec![]);
    let picked = functions_with_prefix(
        vec![sig("fuzz_a"), sig("deposit"), sig("fuzz"), sig("fuzz_init"), sig("fu"), sig("xfuzz_b")],
        &"fuzz".to_string(),
    );
    let names: Vec<String> = picked.into_iter().map(|f| f.0).collect();
    assert_eq!(names, vec!["fuzz_a", "fuzz", "fuzz_init"]);
}

#[test]
fn prefix_test_on_names() {
    assert!(starts_with(&"fuzz_step".to_string(), &"fuzz".to_string()));
    assert!(starts_with(&"anything".to_string(), &String::new()));
    assert!(!starts_with(&"fu".to_string(), &"fuzz".to_string()));
    assert!(!starts_with(&"füzz".to_string(), &"fuzz".to_string()));
    assert!(starts_with(&"füzz_x".to_string(), &"füzz".to_string()));
}
