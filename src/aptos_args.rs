//! Turning mutated values into the arguments of an Aptos entry-function call.
use vstd::prelude::*;

use crate::value::Value;

verus! {

/// A Move value as the Aptos backend builds it from a mutated value.
#[derive(Debug, PartialEq, Eq)]
pub enum MoveArg {
    U8(u8),
    U16(u16),
    U32(u32),
    U64(u64),
    U128(u128),
    Bool(bool),
    Address([u8; 32]),
    Vector(Vec<MoveArg>),
    Struct(Vec<MoveArg>),
}

/// An argument of an entry-function transaction.
#[derive(Debug, PartialEq, Eq)]
pub enum TxnArg {
    U8(u8),
    U64(u64),
    U128(u128),
    Address([u8; 32]),
    U8Vector(Vec<u8>),
    Bool(bool),
}

/// Relies on rand's `random`: a fresh random account address for each call.
#[verifier::external_body]
fn random_address() -> (r: [u8; 32]) {
    rand::random::<[u8; 32]>()
}

/// Whether `v` can be handed to the backend: no address or function value
/// anywhere outside a reference.
pub open spec fn convertible(v: Value) -> bool
    decreases v,
{
    match v {
        Value::Vector(_, xs) => forall|i: int| 0 <= i < xs@.len() ==> convertible(#[trigger] xs@[i]),
        Value::Struct(xs) => forall|i: int| 0 <= i < xs@.len() ==> convertible(#[trigger] xs@[i]),
        Value::Address(_) | Value::Function(_, _, _) => false,
        _ => true,
    }
}

/// Whether `v` can be handed to the backend.
pub fn is_convertible(v: &Value) -> (r: bool)
    ensures
        r == convertible(*v),
    decreases v,
{
    match v {
        Value::Vector(_, xs) => are_convertible(xs),
        Value::Struct(xs) => are_convertible(xs),
        Value::Address(_) | Value::Function(_, _, _) => false,
        _ => true,
    }
}

/// Whether every value of `vs` can be handed to the backend.
pub fn are_convertible(vs: &Vec<Value>) -> (r: bool)
    ensures
        r == forall|i: int| 0 <= i < vs@.len() ==> convertible(#[trigger] vs@[i]),
    decreases vs,
{
    let mut i: usize = 0;
    while i < vs.len()
        invariant
            i <= vs@.len(),
            forall|j: int| 0 <= j < i ==> convertible(#[trigger] vs@[j]),
        decreases vs@.len() - i,
    {
        proof {
            assert(decreases_to!(vs => vs[i as int]));
        }
        if !is_convertible(&vs[i]) {
            return false;
        }
        i = i + 1;
    }
    true
}

/// Whether `m` is the Move value of `v`: the same scalar, vectors and structs
/// element by element, and some account address for a reference.
pub open spec fn moves_to(v: Value, m: MoveArg) -> bool
    decreases v,
{
    match v {
        Value::U8(x) => m == MoveArg::U8(x),
        Value::U16(x) => m == MoveArg::U16(x),
        Value::U32(x) => m == MoveArg::U32(x),
        Value::U64(x) => m == MoveArg::U64(x),
        Value::U128(x) => m == MoveArg::U128(x),
        Value::Bool(x) => m == MoveArg::Bool(x),
        Value::Vector(_, xs) => match m {
            MoveArg::Vector(ys) => {
                &&& ys@.len() == xs@.len()
                &&& forall|i: int| 0 <= i < xs@.len() ==> moves_to(#[trigger] xs@[i], ys@[i])
            },
            _ => false,
        },
        Value::Struct(xs) => match m {
            MoveArg::Struct(ys) => {
                &&& ys@.len() == xs@.len()
                &&& forall|i: int| 0 <= i < xs@.len() ==> moves_to(#[trigger] xs@[i], ys@[i])
            },
            _ => false,
        },
        Value::Reference(_, _) => m is Address,
        _ => false,
    }
}

/// The Move value of `v`.
fn move_value(v: &Value) -> (r: MoveArg)
    requires
        convertible(*v),
    ensures
        moves_to(*v, r),
    decreases v,
{
    match v {
        Value::U8(x) => MoveArg::U8(*x),
        Value::U16(x) => MoveArg::U16(*x),
        Value::U32(x) => MoveArg::U32(*x),
        Value::U64(x) => MoveArg::U64(*x),
        Value::U128(x) => MoveArg::U128(*x),
        Value::Bool(x) => MoveArg::Bool(*x),
        Value::Vector(_, xs) => MoveArg::Vector(generate_inputs(xs)),
        Value::Struct(xs) => MoveArg::Struct(generate_inputs(xs)),
        _ => MoveArg::Address(random_address()),
    }
}

/// The Move value of each input, in order.
pub fn generate_inputs(inputs: &Vec<Value>) -> (r: Vec<MoveArg>)
    requires
        forall|i: int| 0 <= i < inputs@.len() ==> convertible(#[trigger] inputs@[i]),
    ensures
        r@.len() == inputs@.len(),
        forall|i: int| 0 <= i < inputs@.len() ==> moves_to(#[trigger] inputs@[i], r@[i]),
    decreases inputs,
{
    let mut r: Vec<MoveArg> = Vec::new();
    let mut i: usize = 0;
    while i < inputs.len()
        invariant
            i <= inputs@.len(),
            forall|j: int| 0 <= j < inputs@.len() ==> convertible(#[trigger] inputs@[j]),
            r@.len() == i,
            forall|j: int| 0 <= j < i ==> moves_to(#[trigger] inputs@[j], r@[j]),
        decreases inputs@.len() - i,
    {
        proof {
            assert(decreases_to!(inputs => inputs[i as int]));
        }
        let m = move_value(&inputs[i]);
        r.push(m);
        i = i + 1;
    }
    r
}

/// The byte of a `U8` Move value (none for any other).
pub open spec fn move_byte(m: MoveArg) -> Option<u8> {
    match m {
        MoveArg::U8(b) => Some(b),
        _ => None,
    }
}

/// The bytes of the `U8` elements of `ms`, in order, the others left out.
pub open spec fn u8_elements(ms: Seq<MoveArg>) -> Seq<u8>
    decreases ms.len(),
{
    if ms.len() == 0 {
        Seq::empty()
    } else {
        let rest = u8_elements(ms.drop_last());
        match move_byte(ms.last()) {
            Some(b) => rest.push(b),
            None => rest,
        }
    }
}

/// Whether `r` is the transaction argument of `m`: booleans, 8-, 64- and
/// 128-bit integers and addresses as they are; a vector whose first element is
/// a byte as the bytes among its elements; nothing for anything else.
pub open spec fn converts_to(m: MoveArg, r: Option<TxnArg>) -> bool {
    match m {
        MoveArg::Bool(x) => r == Some(TxnArg::Bool(x)),
        MoveArg::U8(x) => r == Some(TxnArg::U8(x)),
        MoveArg::U64(x) => r == Some(TxnArg::U64(x)),
        MoveArg::U128(x) => r == Some(TxnArg::U128(x)),
        MoveArg::Address(a) => r == Some(TxnArg::Address(a)),
        MoveArg::Vector(xs) => if xs@.len() > 0 && xs@[0] is U8 {
            r matches Some(TxnArg::U8Vector(bs)) && bs@ == u8_elements(xs@)
        } else {
            r is None
        },
        _ => r is None,
    }
}

/// The transaction argument of a Move value, when it has one.
pub fn convert_move_value_to_aptos_arg(value: &MoveArg) -> (r: Option<TxnArg>)
    ensures
        converts_to(*value, r),
{
    match value {
        MoveArg::Bool(v) => Some(TxnArg::Bool(*v)),
        MoveArg::U8(v) => Some(TxnArg::U8(*v)),
        MoveArg::U64(v) => Some(TxnArg::U64(*v)),
        MoveArg::U128(v) => Some(TxnArg::U128(*v)),
        MoveArg::Address(a) => Some(TxnArg::Address(*a)),
        MoveArg::Vector(xs) => {
            if xs.len() > 0 && matches!(xs[0], MoveArg::U8(_)) {
                Some(TxnArg::U8Vector(byte_elements(xs)))
            } else {
                None
            }
        },
        _ => None,
    }
}

/// The bytes of the `U8` elements of `xs`, in order.
fn byte_elements(xs: &Vec<MoveArg>) -> (r: Vec<u8>)
    ensures
        r@ == u8_elements(xs@),
{
    let mut r: Vec<u8> = Vec::new();
    let mut i: usize = 0;
    while i < xs.len()
        invariant
            i <= xs@.len(),
            r@ == u8_elements(xs@.subrange(0, i as int)),
        decreases xs@.len() - i,
    {
        proof {
            let pre = xs@.subrange(0, i + 1);
            assert(pre.drop_last() =~= xs@.subrange(0, i as int));
            assert(pre.last() == xs@[i as int]);
        }
        if let MoveArg::U8(b) = &xs[i] {
            r.push(*b);
        }
        i = i + 1;
    }
    assert(xs@.subrange(0, i as int) =~= xs@);
    r
}

/// The arguments of the transaction that calls a function with `inputs`: the
/// transaction argument of each input's Move value, those without one left out.
pub fn transaction_args(inputs: &Vec<Value>) -> (r: Vec<TxnArg>)
    requires
        forall|i: int| 0 <= i < inputs@.len() ==> convertible(#[trigger] inputs@[i]),
    ensures
        exists|ms: Seq<MoveArg>|
            {
                &&& ms.len() == inputs@.len()
                &&& forall|i: int| 0 <= i < inputs@.len() ==> moves_to(#[trigger] inputs@[i], ms[i])
                &&& args_of(ms, r@)
            },
{
    let moves = generate_inputs(inputs);
    let mut r: Vec<TxnArg> = Vec::new();
    let mut i: usize = 0;
    while i < moves.len()
        invariant
            i <= moves@.len(),
            args_of(moves@.subrange(0, i as int), r@),
        decreases moves@.len() - i,
    {
        let ghost before = r@;
        let a = convert_move_value_to_aptos_arg(&moves[i]);
        proof {
            let pre = moves@.subrange(0, i + 1);
            assert(pre.drop_last() =~= moves@.subrange(0, i as int));
            assert(pre.last() == moves@[i as int]);
        }
        if let Some(arg) = a {
            r.push(arg);
        }
        proof {
            let pre = moves@.subrange(0, i + 1);
            assert(args_of(pre, r@)) by {
                assert(args_of(pre.drop_last(), before));
                if a is Some {
                    assert(r@.drop_last() =~= before);
                }
            }
        }
        i = i + 1;
    }
    assert(moves@.subrange(0, i as int) =~= moves@);
    r
}

/// Whether `args` holds, in order, the transaction arguments of those of `ms`
/// that have one.
pub open spec fn args_of(ms: Seq<MoveArg>, args: Seq<TxnArg>) -> bool
    decreases ms.len(),
{
    if ms.len() == 0 {
        args.len() == 0
    } else {
        exists|a: Option<TxnArg>|
            {
                &&& converts_to(ms.last(), a)
                &&& match a {
                    Some(x) => args.len() > 0 && args.last() == x && args_of(
                        ms.drop_last(),
                        args.drop_last(),
                    ),
                    None => args_of(ms.drop_last(), args),
                }
            }
    }
}

} // verus!
