use move_fuzzer::aptos_args::{
    are_convertible, convert_move_value_to_aptos_arg, generate_inputs, is_convertible,
    transaction_args, MoveArg, TxnArg,
};
use move_fuzzer::value::Value;

#[test]
fn move_values_mirror_the_inputs() {
    let inputs = vec![
        Value::U8(1),
        Value::U16(2),
        Value::U32(3),
        Value::U64(4),
        Value::U128(5),
        Value::Bool(true),
        Value::Vector(Box::new(Value::U8(0)), vec![Value::U8(6), Value::U8(7)]),
        Value::Struct(vec![Value::U64(8)]),
    ];
    assert_eq!(
        generate_inputs(&inputs),
        vec![
            MoveArg::U8(1),
            MoveArg::U16(2),
            MoveArg::U32(3),
            MoveArg::U64(4),
            MoveArg::U128(5),
            MoveArg::Bool(true),
            MoveArg::Vector(vec![MoveArg::U8(6), MoveArg::U8(7)]),
            MoveArg::Struct(vec![MoveArg::U64(8)]),
        ]
    );
}

#[test]
fn references_become_random_addresses() {
    let out = generate_inputs(&vec![Value::Reference(true, Box::new(Value::U8(1)))]);
    assert!(matches!(out[0], MoveArg::Address(_)));
    let args = transaction_args(&vec![
        Value::Reference(false, Box::new(Value::U8(1))),
        Value::Reference(false, Box::new(Value::U8(1))),
    ]);
    match (&args[0], &args[1]) {
        (TxnArg::Address(a), TxnArg::Address(b)) => assert_ne!(a, b),
        other => panic!("expected two addresses, got {:?}", other),
    }
}

#[test]
fn arguments_keep_supported_kinds_only() {
    assert_eq!(convert_move_value_to_aptos_arg(&MoveArg::U16(1)), None);
    assert_eq!(convert_move_value_to_aptos_arg(&MoveArg::U32(1)), None);
    assert_eq!(convert_move_value_to_aptos_arg(&MoveArg::Struct(vec![])), None);
    assert_eq!(convert_move_value_to_aptos_arg(&MoveArg::Vector(vec![])), None);
    assert_eq!(convert_move_value_to_aptos_arg(&MoveArg::Vector(vec![MoveArg::U64(1)])), None);
    assert_eq!(convert_move_value_to_aptos_arg(&MoveArg::Bool(true)), Some(TxnArg::Bool(true)));
    assert_eq!(convert_move_value_to_aptos_arg(&MoveArg::U128(9)), Some(TxnArg::U128(9)));
    assert_eq!(
        convert_move_value_to_aptos_arg(&MoveArg::Vector(vec![MoveArg::U8(1), MoveArg::U64(2), MoveArg::U8(3)])),
        Some(TxnArg::U8Vector(vec![1, 3]))
    );
}

#[test]
fn transaction_arguments_in_order() {
    let args = transaction_args(&vec![
        Value::U16(1),
        Value::U64(2),
        Value::Vector(Box::new(Value::U8(0)), vec![Value::U8(9)]),
        Value::Struct(vec![]),
        Value::Bool(false),
        Value::U8(3),
    ]);
    assert_eq!(
        args,
        vec![TxnArg::U64(2), TxnArg::U8Vector(vec![9]), TxnArg::Bool(false), TxnArg::U8(3)]
    );
}

#[test]
fn convertibility_check() {
    assert!(is_convertible(&Value::Struct(vec![Value::U8(1), Value::Reference(true, Box::new(Value::Address([0; 32])))])));
    assert!(!is_convertible(&Value::Address([0; 32])));
    assert!(!is_convertible(&Value::Vector(Box::new(Value::U8(0)), vec![Value::Function("f".to_string(), vec![], None)])));
    assert!(are_convertible(&vec![Value::U64(1), Value::Bool(true)]));
    assert!(!are_convertible(&vec![Value::U64(1), Value::Address([1; 32])]));
}
