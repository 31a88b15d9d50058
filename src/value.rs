//! The typed value model: arguments, composite values and function descriptors.
use vstd::prelude::*;

verus! {

/// A value of the target language, or the descriptor of an entry point.
#[derive(Debug, PartialEq, Eq, Hash)]
pub enum Value {
    U8(u8),
    U16(u16),
    U32(u32),
    U64(u64),
    U128(u128),
    Bool(bool),
    /// Declared element tag, then the elements.
    Vector(Box<Value>, Vec<Value>),
    Struct(Vec<Value>),
    /// Mutability flag, then the referenced value.
    Reference(bool, Box<Value>),
    Address([u8; 32]),
    /// Name, parameter template, optional return types.
    Function(String, Vec<Value>, Option<Vec<Value>>),
}

/// Structural equality: same tags and recursively equal contents.
pub open spec fn equiv(a: Value, b: Value) -> bool
    decreases a,
{
    match a {
        Value::U8(x) => b == Value::U8(x),
        Value::U16(x) => b == Value::U16(x),
        Value::U32(x) => b == Value::U32(x),
        Value::U64(x) => b == Value::U64(x),
        Value::U128(x) => b == Value::U128(x),
        Value::Bool(x) => b == Value::Bool(x),
        Value::Vector(t, xs) => match b {
            Value::Vector(u, ys) => {
                &&& equiv(*t, *u)
                &&& xs@.len() == ys@.len()
                &&& forall|i: int| 0 <= i < xs@.len() ==> equiv(#[trigger] xs@[i], ys@[i])
            },
            _ => false,
        },
        Value::Struct(xs) => match b {
            Value::Struct(ys) => {
                &&& xs@.len() == ys@.len()
                &&& forall|i: int| 0 <= i < xs@.len() ==> equiv(#[trigger] xs@[i], ys@[i])
            },
            _ => false,
        },
        Value::Reference(m, x) => match b {
            Value::Reference(n, y) => m == n && equiv(*x, *y),
            _ => false,
        },
        Value::Address(x) => match b {
            Value::Address(y) => x@ == y@,
            _ => false,
        },
        Value::Function(name, xs, ret) => match b {
            Value::Function(other, ys, oret) => {
                &&& name@ == other@
                &&& xs@.len() == ys@.len()
                &&& forall|i: int| 0 <= i < xs@.len() ==> equiv(#[trigger] xs@[i], ys@[i])
                &&& match ret {
                    None => oret is None,
                    Some(rs) => match oret {
                        Some(ss) => {
                            &&& rs@.len() == ss@.len()
                            &&& forall|i: int|
                                0 <= i < rs@.len() ==> equiv(#[trigger] rs@[i], ss@[i])
                        },
                        None => false,
                    },
                }
            },
            _ => false,
        },
    }
}

/// Element-wise structural equality of two sequences of values.
pub open spec fn all_equiv(xs: Seq<Value>, ys: Seq<Value>) -> bool {
    &&& xs.len() == ys.len()
    &&& forall|i: int| 0 <= i < xs.len() ==> equiv(#[trigger] xs[i], ys[i])
}


/// Every value is structurally equal to itself.
pub proof fn lemma_equiv_refl(a: Value)
    ensures
        equiv(a, a),
    decreases a,
{
    match a {
        Value::Vector(t, xs) => {
            lemma_equiv_refl(*t);
            assert forall|i: int| 0 <= i < xs@.len() implies equiv(#[trigger] xs@[i], xs@[i]) by {
                lemma_equiv_refl(xs@[i]);
            }
        },
        Value::Struct(xs) => {
            assert forall|i: int| 0 <= i < xs@.len() implies equiv(#[trigger] xs@[i], xs@[i]) by {
                lemma_equiv_refl(xs@[i]);
            }
        },
        Value::Reference(_, x) => {
            lemma_equiv_refl(*x);
        },
        Value::Function(_, xs, ret) => {
            assert forall|i: int| 0 <= i < xs@.len() implies equiv(#[trigger] xs@[i], xs@[i]) by {
                lemma_equiv_refl(xs@[i]);
            }
            if let Some(rs) = ret {
                assert forall|i: int| 0 <= i < rs@.len() implies equiv(#[trigger] rs@[i], rs@[i]) by {
                    lemma_equiv_refl(rs@[i]);
                }
            }
        },
        _ => {},
    }
}

/// Structural equality is symmetric.
pub proof fn lemma_equiv_sym(a: Value, b: Value)
    requires
        equiv(a, b),
    ensures
        equiv(b, a),
    decreases a,
{
    match a {
        Value::Vector(t, xs) => {
            if let Value::Vector(u, ys) = b {
                lemma_equiv_sym(*t, *u);
                assert forall|i: int| 0 <= i < ys@.len() implies equiv(#[trigger] ys@[i], xs@[i]) by {
                    lemma_equiv_sym(xs@[i], ys@[i]);
                }
            }
        },
        Value::Struct(xs) => {
            if let Value::Struct(ys) = b {
                assert forall|i: int| 0 <= i < ys@.len() implies equiv(#[trigger] ys@[i], xs@[i]) by {
                    lemma_equiv_sym(xs@[i], ys@[i]);
                }
            }
        },
        Value::Reference(_, x) => {
            if let Value::Reference(_, y) = b {
                lemma_equiv_sym(*x, *y);
            }
        },
        Value::Function(_, xs, ret) => {
            if let Value::Function(_, ys, bret) = b {
                assert forall|i: int| 0 <= i < ys@.len() implies equiv(#[trigger] ys@[i], xs@[i]) by {
                    lemma_equiv_sym(xs@[i], ys@[i]);
                }
                if let (Some(rs), Some(ss)) = (ret, bret) {
                    assert forall|i: int| 0 <= i < ss@.len() implies equiv(#[trigger] ss@[i], rs@[i]) by {
                        lemma_equiv_sym(rs@[i], ss@[i]);
                    }
                }
            }
        },
        _ => {},
    }
}

/// Structural equality is transitive.
pub proof fn lemma_equiv_trans(a: Value, b: Value, c: Value)
    requires
        equiv(a, b),
        equiv(b, c),
    ensures
        equiv(a, c),
    decreases a,
{
    match a {
        Value::Vector(t, xs) => {
            if let (Value::Vector(u, ys), Value::Vector(w, zs)) = (b, c) {
                lemma_equiv_trans(*t, *u, *w);
                assert forall|i: int| 0 <= i < xs@.len() implies equiv(#[trigger] xs@[i], zs@[i]) by {
                    lemma_equiv_trans(xs@[i], ys@[i], zs@[i]);
                }
            }
        },
        Value::Struct(xs) => {
            if let (Value::Struct(ys), Value::Struct(zs)) = (b, c) {
                assert forall|i: int| 0 <= i < xs@.len() implies equiv(#[trigger] xs@[i], zs@[i]) by {
                    lemma_equiv_trans(xs@[i], ys@[i], zs@[i]);
                }
            }
        },
        Value::Reference(_, x) => {
            if let (Value::Reference(_, y), Value::Reference(_, z)) = (b, c) {
                lemma_equiv_trans(*x, *y, *z);
            }
        },
        Value::Function(_, xs, ret) => {
            if let (Value::Function(_, ys, bret), Value::Function(_, zs, cret)) = (b, c) {
                assert forall|i: int| 0 <= i < xs@.len() implies equiv(#[trigger] xs@[i], zs@[i]) by {
                    lemma_equiv_trans(xs@[i], ys@[i], zs@[i]);
                }
                if let (Some(rs), Some(ss), Some(ts)) = (ret, bret, cret) {
                    assert forall|i: int| 0 <= i < rs@.len() implies equiv(#[trigger] rs@[i], ts@[i]) by {
                        lemma_equiv_trans(rs@[i], ss@[i], ts@[i]);
                    }
                }
            }
        },
        _ => {},
    }
}

/// A sequence of values is element-wise equal to itself.
pub proof fn lemma_all_equiv_refl(xs: Seq<Value>)
    ensures
        all_equiv(xs, xs),
{
    assert forall|i: int| 0 <= i < xs.len() implies equiv(#[trigger] xs[i], xs[i]) by {
        lemma_equiv_refl(xs[i]);
    }
}

/// A deep copy of each value of `xs`, in order.
pub fn duplicate_all(xs: &Vec<Value>) -> (r: Vec<Value>)
    ensures
        all_equiv(xs@, r@),
    decreases xs,
{
    let mut r: Vec<Value> = Vec::new();
    let mut i: usize = 0;
    while i < xs.len()
        invariant
            i <= xs@.len(),
            r@.len() == i,
            forall|j: int| 0 <= j < i ==> equiv(#[trigger] xs@[j], r@[j]),
        decreases xs@.len() - i,
    {
        proof {
            assert(decreases_to!(xs => xs[i as int]));
        }
        let c = xs[i].duplicate();
        r.push(c);
        i = i + 1;
    }
    r
}

/// Structural equality of two sequences of values, element by element.
pub fn all_equal(xs: &Vec<Value>, ys: &Vec<Value>) -> (r: bool)
    ensures
        r == all_equiv(xs@, ys@),
    decreases xs,
{
    if xs.len() != ys.len() {
        return false;
    }
    let mut i: usize = 0;
    while i < xs.len()
        invariant
            i <= xs@.len(),
            xs@.len() == ys@.len(),
            forall|j: int| 0 <= j < i ==> equiv(#[trigger] xs@[j], ys@[j]),
        decreases xs@.len() - i,
    {
        proof {
            assert(decreases_to!(xs => xs[i as int]));
        }
        if !xs[i].equals(&ys[i]) {
            return false;
        }
        i = i + 1;
    }
    true
}

/// Byte-wise equality of two addresses.
fn same_address(a: &[u8; 32], b: &[u8; 32]) -> (r: bool)
    ensures
        r == (a@ == b@),
{
    let mut i: usize = 0;
    while i < 32
        invariant
            i <= 32,
            a@.len() == 32,
            b@.len() == 32,
            forall|j: int| 0 <= j < i ==> a@[j] == b@[j],
        decreases 32 - i,
    {
        if a[i] != b[i] {
            assert(a@[i as int] != b@[i as int]);
            return false;
        }
        i = i + 1;
    }
    assert(a@ =~= b@);
    true
}

impl Value {
    /// A deep copy of this value.
    pub fn duplicate(&self) -> (r: Value)
        ensures
            equiv(*self, r),
        decreases self,
    {
        match self {
            Value::U8(x) => Value::U8(*x),
            Value::U16(x) => Value::U16(*x),
            Value::U32(x) => Value::U32(*x),
            Value::U64(x) => Value::U64(*x),
            Value::U128(x) => Value::U128(*x),
            Value::Bool(x) => Value::Bool(*x),
            Value::Vector(t, xs) => {
                let u = t.duplicate();
                Value::Vector(Box::new(u), duplicate_all(xs))
            },
            Value::Struct(xs) => Value::Struct(duplicate_all(xs)),
            Value::Reference(m, x) => {
                let y = x.duplicate();
                Value::Reference(*m, Box::new(y))
            },
            Value::Address(a) => Value::Address(*a),
            Value::Function(name, xs, ret) => {
                let rs = match ret {
                    Some(rs) => Some(duplicate_all(rs)),
                    None => None,
                };
                Value::Function(name.clone(), duplicate_all(xs), rs)
            },
        }
    }

    /// Structural equality: same tags and recursively equal contents.
    pub fn equals(&self, other: &Value) -> (r: bool)
        ensures
            r == equiv(*self, *other),
        decreases self,
    {
        match self {
            Value::U8(x) => match other {
                Value::U8(y) => *x == *y,
                _ => false,
            },
            Value::U16(x) => match other {
                Value::U16(y) => *x == *y,
                _ => false,
            },
            Value::U32(x) => match other {
                Value::U32(y) => *x == *y,
                _ => false,
            },
            Value::U64(x) => match other {
                Value::U64(y) => *x == *y,
                _ => false,
            },
            Value::U128(x) => match other {
                Value::U128(y) => *x == *y,
                _ => false,
            },
            Value::Bool(x) => match other {
                Value::Bool(y) => *x == *y,
                _ => false,
            },
            Value::Vector(t, xs) => match other {
                Value::Vector(u, ys) => t.equals(u) && all_equal(xs, ys),
                _ => false,
            },
            Value::Struct(xs) => match other {
                Value::Struct(ys) => all_equal(xs, ys),
                _ => false,
            },
            Value::Reference(m, x) => match other {
                Value::Reference(n, y) => *m == *n && x.equals(y),
                _ => false,
            },
            Value::Address(a) => match other {
                Value::Address(b) => same_address(a, b),
                _ => false,
            },
            Value::Function(name, xs, ret) => match other {
                Value::Function(oname, ys, oret) => {
                    if *name != *oname || !all_equal(xs, ys) {
                        return false;
                    }
                    match ret {
                        None => oret.is_none(),
                        Some(rs) => match oret {
                            Some(ss) => all_equal(rs, ss),
                            None => false,
                        },
                    }
                },
                _ => false,
            },
        }
    }
}

} // verus!
