use move_fuzzer::bytes::{decode_uint, encode_uint};
use move_fuzzer::mutator::{
    decode_value, effective_mutations, encode_value, is_mutable, Mutator, SuiMutator,
};
use move_fuzzer::pass_log::ByteMutator;
use move_fuzzer::value::Value;
use std::cell::RefCell;
use std::rc::Rc;

/// Leaves the bytes as they are and notes each intensity it was asked for.
struct Recorder {
    counts: Rc<RefCell<Vec<usize>>>,
}

impl ByteMutator for Recorder {
    fn mutate_bytes(&mut self, _input: &mut Vec<u8>, count: usize) {
        self.counts.borrow_mut().push(count);
    }
}

/// Sets every byte to one value.
struct Fill(u8);

impl ByteMutator for Fill {
    fn mutate_bytes(&mut self, input: &mut Vec<u8>, _count: usize) {
        for b in input.iter_mut() {
            *b = self.0;
        }
    }
}

/// Appends one byte.
struct Grow(u8);

impl ByteMutator for Grow {
    fn mutate_bytes(&mut self, input: &mut Vec<u8>, _count: usize) {
        input.push(self.0);
    }
}

/// Empties the buffer.
struct Clear;

impl ByteMutator for Clear {
    fn mutate_bytes(&mut self, input: &mut Vec<u8>, _count: usize) {
        input.clear();
    }
}

fn recorder() -> (SuiMutator<Recorder>, Rc<RefCell<Vec<usize>>>) {
    let counts = Rc::new(RefCell::new(vec![]));
    (SuiMutator::new(7, Recorder { counts: counts.clone() }, true), counts)
}

fn bytes(v: &[u8]) -> Value {
    Value::Vector(Box::new(Value::U8(0)), v.iter().map(|b| Value::U8(*b)).collect())
}

#[test]
fn intensity_is_clamped_between_one_and_three_times() {
    assert_eq!(effective_mutations(4, None), 4);
    assert_eq!(effective_mutations(4, Some(7)), 7);
    assert_eq!(effective_mutations(4, Some(0)), 1);
    assert_eq!(effective_mutations(4, Some(100)), 12);
    assert_eq!(effective_mutations(4, Some(12)), 12);
    assert_eq!(effective_mutations(0, None), 0);
    assert_eq!(effective_mutations(usize::MAX, Some(usize::MAX)), usize::MAX);
}

#[test]
fn encoding_is_big_endian_and_fixed_width() {
    assert_eq!(encode_value(&Value::U8(0xab)), vec![0xab]);
    assert_eq!(encode_value(&Value::U16(0x1234)), vec![0x12, 0x34]);
    assert_eq!(encode_value(&Value::U32(1)), vec![0, 0, 0, 1]);
    assert_eq!(encode_value(&Value::U64(0x0102030405060708)), vec![1, 2, 3, 4, 5, 6, 7, 8]);
    assert_eq!(encode_value(&Value::U128(1u128 << 120)), {
        let mut v = vec![1u8];
        v.extend(vec![0u8; 15]);
        v
    });
    assert_eq!(encode_value(&Value::Bool(true)), vec![1]);
    assert_eq!(encode_value(&Value::Bool(false)), vec![0]);
    assert_eq!(encode_value(&bytes(&[9, 8, 7])), vec![9, 8, 7]);
    assert_eq!(encode_value(&Value::Struct(vec![Value::U8(1)])), Vec::<u8>::new());
    assert_eq!(encode_value(&Value::Reference(false, Box::new(Value::U8(1)))), Vec::<u8>::new());
}

#[test]
fn uint_round_trip() {
    assert_eq!(encode_uint(0x0a0b, 2), vec![0x0a, 0x0b]);
    assert_eq!(encode_uint(0x0a0b, 1), vec![0x0b]);
    assert_eq!(decode_uint(&vec![0x0a, 0x0b], 2), 0x0a0b);
    assert_eq!(decode_uint(&vec![0xff; 16], 16), u128::MAX);
    assert_eq!(decode_uint(&encode_uint(123456789, 8), 8), 123456789);
}

#[test]
fn decoding_pads_and_truncates() {
    assert_eq!(decode_value(&Value::U32(0), &vec![1, 2]), Value::U32(0x01020000));
    assert_eq!(decode_value(&Value::U8(0), &vec![7, 9]), Value::U8(7));
    assert_eq!(decode_value(&Value::U16(0), &vec![]), Value::U16(0));
    assert_eq!(decode_value(&Value::Bool(true), &vec![]), Value::Bool(false));
    assert_eq!(decode_value(&Value::Bool(false), &vec![2]), Value::Bool(true));
    assert_eq!(decode_value(&Value::U64(0), &vec![0xff; 8]), Value::U64(615));
    assert_eq!(decode_value(&bytes(&[1]), &vec![4, 5]), bytes(&[4, 5]));
    let r = Value::Reference(true, Box::new(Value::U16(3)));
    assert_eq!(decode_value(&r, &vec![1, 2, 3]), r);
}

#[test]
fn identity_pass_keeps_values_but_narrows_u64() {
    let (mut m, _) = recorder();
    let inputs = vec![
        Value::U8(200),
        Value::U16(0x1234),
        Value::U32(77),
        Value::U64(123456),
        Value::U128(u128::MAX),
        Value::Bool(true),
        bytes(&[1, 2]),
        Value::Reference(true, Box::new(Value::U64(5))),
        Value::Struct(vec![Value::U64(2000), Value::Bool(false)]),
    ];
    let out = m.mutate(&inputs, 4);
    assert_eq!(
        out,
        vec![
            Value::U8(200),
            Value::U16(0x1234),
            Value::U32(77),
            Value::U64(456),
            Value::U128(u128::MAX),
            Value::Bool(true),
            bytes(&[1, 2]),
            Value::Reference(true, Box::new(Value::U64(5))),
            Value::Struct(vec![Value::U64(0), Value::Bool(false)]),
        ]
    );
}

#[test]
fn u64_results_stay_below_1000() {
    for fill in [0u8, 1, 0x7f, 0xff] {
        let mut m = SuiMutator::new(3, Fill(fill), true);
        for v in [0u64, 999, 1000, u64::MAX] {
            match &m.mutate(&vec![Value::U64(v)], 4)[0] {
                Value::U64(x) => assert!(*x < 1000),
                other => panic!("wrong kind {:?}", other),
            }
        }
    }
    let mut m = SuiMutator::new(3, Fill(0xff), true);
    assert_eq!(m.mutate(&vec![Value::U64(1)], 4), vec![Value::U64(615)]);
}

#[test]
fn filled_bytes_are_read_back_per_kind() {
    let mut m = SuiMutator::new(3, Fill(0xff), true);
    let out = m.mutate(
        &vec![Value::U8(0), Value::U16(0), Value::Bool(false), bytes(&[0, 0, 0])],
        2,
    );
    assert_eq!(out, vec![Value::U8(255), Value::U16(0xffff), Value::Bool(true), bytes(&[255, 255, 255])]);
}

#[test]
fn grown_buffers_are_cut_to_width_but_vectors_grow() {
    let mut m = SuiMutator::new(3, Grow(0xab), true);
    let out = m.mutate(&vec![Value::U16(0x0102), bytes(&[1, 2])], 1);
    assert_eq!(out, vec![Value::U16(0x0102), bytes(&[1, 2, 0xab])]);
}

#[test]
fn emptied_buffers_read_as_zero() {
    let mut m = SuiMutator::new(3, Clear, true);
    let out = m.mutate(&vec![Value::U32(5), Value::Bool(true), bytes(&[3])], 1);
    assert_eq!(out, vec![Value::U32(0), Value::Bool(false), bytes(&[])]);
}

#[test]
fn gas_scaled_count_reaches_every_round_but_struct_fields() {
    let (mut m, counts) = recorder();
    let inputs = vec![Value::U8(1), Value::Struct(vec![Value::U8(2), Value::U16(3)])];
    m.mutate_with_gas(&inputs, 4, Some(10));
    m.mutate_with_gas(&inputs, 4, Some(100));
    m.mutate_with_gas(&inputs, 4, Some(0));
    let mut expected = vec![];
    for c in [10, 12, 1] {
        expected.extend([c, c, 4, 4]);
    }
    assert_eq!(*counts.borrow(), expected);
}

#[test]
fn unscaled_mutation_is_plain_mutation() {
    let inputs = vec![Value::U64(42), Value::Struct(vec![Value::Bool(true)]), bytes(&[1])];
    let (mut a, counts_a) = recorder();
    let (mut b, counts_b) = recorder();
    let ra = a.mutate(&inputs, 3);
    let rb = b.mutate_with_gas(&inputs, 3, None);
    assert_eq!(ra, rb);
    assert_eq!(*counts_a.borrow(), *counts_b.borrow());
    assert_eq!(*counts_a.borrow(), vec![3, 3, 3, 3]);
}

#[test]
fn generated_numbers_stay_in_range() {
    for seed in [0u64, 1, 42, u64::MAX] {
        let m = SuiMutator::new(seed, Clear, true);
        for (min, max) in [(0u64, 0u64), (0, 1), (5, 10), (3, u64::MAX), (0, u64::MAX), (9, 9)] {
            let v = m.generate_number(min, max);
            assert!(min <= v && v <= max);
        }
    }
}

#[test]
fn generated_number_is_the_seeded_draw() {
    let m = SuiMutator::new(1, Clear, true);
    assert_eq!(m.generate_number(5, 10), 6);
    assert_eq!(m.generate_number(5, 10), 6);
    assert_eq!(m.generate_number(7, 7), 7);
    assert_eq!(m.generate_number(0, u64::MAX), 1);
}

#[test]
fn biased_draws_stay_in_range() {
    for seed in [0u64, 1, 42, 0x9e3779b97f4a7c15] {
        let m = SuiMutator::new(seed, Clear, false);
        for (min, max) in [(0u64, 0u64), (0, 1), (5, 10), (3, u64::MAX), (9, 9)] {
            let v = m.generate_number(min, max);
            assert!(min <= v && v <= max);
        }
    }
}

#[test]
fn biased_draw_is_the_seeded_draw() {
    // 42 is even, so the coin picks a uniform draw from the next state.
    let m = SuiMutator::new(42, Clear, false);
    assert_eq!(m.generate_number(5, 10), 5 + 3026770793314205736u64 % 6);
    // 1 is odd: a uniform draw x in [0, 9] from the next state, then one in [0, x].
    let m = SuiMutator::new(1, Clear, false);
    let x = 72066390130958337u64 % 10;
    assert_eq!(m.generate_number(0, 9), 4503599627371009u64 % (x + 1));
}

#[test]
fn mutability_check() {
    assert!(is_mutable(&Value::U8(1)));
    assert!(is_mutable(&bytes(&[1, 2])));
    assert!(!is_mutable(&Value::Vector(Box::new(Value::U16(0)), vec![Value::U16(1)])));
    assert!(is_mutable(&Value::Struct(vec![Value::Bool(true), bytes(&[])])));
    assert!(!is_mutable(&Value::Struct(vec![Value::Address([0; 32])])));
    assert!(!is_mutable(&Value::Address([1; 32])));
    assert!(!is_mutable(&Value::Function("f".to_string(), vec![], None)));
    assert!(is_mutable(&Value::Reference(false, Box::new(Value::Address([0; 32])))));
}
