//! Parameter templates built from the declared Move types of an entry point.
use vstd::prelude::*;

use vstd::std_specs::iter::IteratorSpec;

use crate::value::Value;

verus! {

/// A primitive Move type.
#[derive(Debug, Clone, Copy, PartialEq, Eq)]
pub enum PrimitiveType {
    U8,
    U16,
    U32,
    U64,
    U128,
    Bool,
    Address,
    /// Any other primitive (signer, numbers, ranges, ...).
    Other,
}

/// The shape of a declared Move type, as far as templates depend on it.
#[derive(Debug, PartialEq, Eq)]
pub enum MoveType {
    Primitive(PrimitiveType),
    Vector(Box<MoveType>),
    /// A struct type; its fields are not looked at.
    Struct,
    /// A reference; its mutability is not looked at.
    Reference(Box<MoveType>),
    /// Any other type (type parameters, tuples, functions, ...).
    Other,
}

/// Whether `v` is the template for `t`: zero or `false` for a primitive (a
/// 64-bit zero for one without a template kind), a one-element vector of the
/// inner template, a struct of one 64-bit zero, an immutable reference to the
/// inner template, a 64-bit zero for anything else.
pub open spec fn template_of(t: MoveType, v: Value) -> bool
    decreases t,
{
    match t {
        MoveType::Primitive(p) => match p {
            PrimitiveType::U8 => v == Value::U8(0),
            PrimitiveType::U16 => v == Value::U16(0),
            PrimitiveType::U32 => v == Value::U32(0),
            PrimitiveType::U64 => v == Value::U64(0),
            PrimitiveType::U128 => v == Value::U128(0),
            PrimitiveType::Bool => v == Value::Bool(false),
            PrimitiveType::Address => v matches Value::Address(a) && a@ == Seq::new(
                32,
                |i: int| 0u8,
            ),
            PrimitiveType::Other => v == Value::U64(0),
        },
        MoveType::Vector(inner) => match v {
            Value::Vector(tag, xs) => {
                &&& template_of(*inner, *tag)
                &&& xs@.len() == 1
                &&& template_of(*inner, xs@[0])
            },
            _ => false,
        },
        MoveType::Struct => match v {
            Value::Struct(xs) => xs@ == seq![Value::U64(0)],
            _ => false,
        },
        MoveType::Reference(inner) => match v {
            Value::Reference(m, x) => !m && template_of(*inner, *x),
            _ => false,
        },
        MoveType::Other => v == Value::U64(0),
    }
}

/// The parameter template for a value of type `move_type`.
pub fn convert_move_type_to_fuzzer_type(move_type: &MoveType) -> (r: Value)
    ensures
        template_of(*move_type, r),
    decreases move_type,
{
    match move_type {
        MoveType::Primitive(prim) => match prim {
            PrimitiveType::U8 => Value::U8(0),
            PrimitiveType::U16 => Value::U16(0),
            PrimitiveType::U32 => Value::U32(0),
            PrimitiveType::U64 => Value::U64(0),
            PrimitiveType::U128 => Value::U128(0),
            PrimitiveType::Bool => Value::Bool(false),
            PrimitiveType::Address => {
                let a = [0u8; 32];
                assert(a@ =~= Seq::new(32, |i: int| 0u8));
                Value::Address(a)
            },
            PrimitiveType::Other => Value::U64(0),
        },
        MoveType::Vector(inner) => {
            let tag = convert_move_type_to_fuzzer_type(inner);
            let element = convert_move_type_to_fuzzer_type(inner);
            let mut elements: Vec<Value> = Vec::new();
            elements.push(element);
            Value::Vector(Box::new(tag), elements)
        },
        MoveType::Struct => {
            let mut fields: Vec<Value> = Vec::new();
            fields.push(Value::U64(0));
            assert(fields@ =~= seq![Value::U64(0)]);
            Value::Struct(fields)
        },
        MoveType::Reference(inner) => {
            let inner_value = convert_move_type_to_fuzzer_type(inner);
            Value::Reference(false, Box::new(inner_value))
        },
        MoveType::Other => Value::U64(0),
    }
}

/// Whether `name` starts with `prefix`.
pub open spec fn has_prefix(name: Seq<char>, prefix: Seq<char>) -> bool {
    prefix.len() <= name.len() && name.subrange(0, prefix.len() as int) == prefix
}

/// The characters of `s`, in order.
fn chars_of(s: &String) -> (r: Vec<char>)
    ensures
        r@ == s@,
{
    let mut it = s.as_str().chars();
    let mut r: Vec<char> = Vec::new();
    let mut done = false;
    while !done
        invariant
            it.obeys_prophetic_iter_laws(),
            r@ + it.remaining() == s@,
            done ==> it.remaining().len() == 0,
            r@.len() <= s@.len(),
        decreases s@.len() - r@.len() + if done {
            0int
        } else {
            1
        },
    {
        match it.next() {
            Some(c) => {
                r.push(c);
                assert(r@ + it.remaining() =~= s@);
            },
            None => {
                done = true;
            },
        }
    }
    assert(r@ =~= s@);
    r
}

/// Whether `name` starts with `prefix`.
pub fn starts_with(name: &String, prefix: &String) -> (r: bool)
    ensures
        r == has_prefix(name@, prefix@),
{
    let n = chars_of(name);
    let p = chars_of(prefix);
    if p.len() > n.len() {
        return false;
    }
    let mut i: usize = 0;
    while i < p.len()
        invariant
            i <= p@.len() <= n@.len(),
            n@ == name@,
            p@ == prefix@,
            forall|j: int| 0 <= j < i ==> n@[j] == p@[j],
        decreases p@.len() - i,
    {
        if n[i] != p[i] {
            assert(name@.subrange(0, prefix@.len() as int)[i as int] != prefix@[i as int]);
            return false;
        }
        i = i + 1;
    }
    assert(name@.subrange(0, prefix@.len() as int) =~= prefix@);
    true
}

/// The signatures among `functions` (name, parameter types, return types)
/// whose name starts with `prefix`, in order.
pub fn functions_with_prefix(
    functions: Vec<(String, Vec<MoveType>, Vec<MoveType>)>,
    prefix: &String,
) -> (r: Vec<(String, Vec<MoveType>, Vec<MoveType>)>)
    ensures
        r@ == functions@.filter(|f: (String, Vec<MoveType>, Vec<MoveType>)| has_prefix(f.0@, prefix@)),
{
    let ghost all = functions@;
    let mut rest = functions;
    let mut r: Vec<(String, Vec<MoveType>, Vec<MoveType>)> = Vec::new();
    let ghost keep = |f: (String, Vec<MoveType>, Vec<MoveType>)| has_prefix(f.0@, prefix@);
    while rest.len() > 0
        invariant
            rest@.len() <= all.len(),
            rest@ == all.subrange(all.len() - rest@.len(), all.len() as int),
            r@ == all.subrange(0, all.len() - rest@.len()).filter(keep),
            keep == (|f: (String, Vec<MoveType>, Vec<MoveType>)| has_prefix(f.0@, prefix@)),
        decreases rest@.len(),
    {
        let ghost done = all.len() - rest@.len();
        let f = rest.remove(0);
        proof {
            let pre = all.subrange(0, done + 1);
            assert(pre.drop_last() =~= all.subrange(0, done));
            assert(pre.last() == f);
            pre.filter_lemma(keep);
            assert(pre.filter(keep) == pre.drop_last().filter(keep) + if keep(f) {
                seq![f]
            } else {
                Seq::empty()
            }) by {
                reveal(Seq::filter);
            }
            assert(rest@ =~= all.subrange(all.len() - rest@.len(), all.len() as int));
        }
        if starts_with(&f.0, prefix) {
            r.push(f);
            proof {
                let pre = all.subrange(0, done + 1);
                assert(r@ =~= pre.filter(keep));
            }
        } else {
            proof {
                let pre = all.subrange(0, done + 1);
                assert(r@ =~= pre.filter(keep));
            }
        }
    }
    assert(all.subrange(0, all.len() as int) =~= all);
    r
}

/// The parameter templates for the declared types `params`, in order.
pub fn parameter_templates(params: &Vec<MoveType>) -> (r: Vec<Value>)
    ensures
        r@.len() == params@.len(),
        forall|i: int| 0 <= i < params@.len() ==> template_of(#[trigger] params@[i], r@[i]),
{
    let mut r: Vec<Value> = Vec::new();
    let mut i: usize = 0;
    while i < params.len()
        invariant
            i <= params@.len(),
            r@.len() == i,
            forall|j: int| 0 <= j < i ==> template_of(#[trigger] params@[j], r@[j]),
        decreases params@.len() - i,
    {
        r.push(convert_move_type_to_fuzzer_type(&params[i]));
        i = i + 1;
    }
    r
}

} // verus!
