//! The mutation engine: a byte-level mutation pass over typed values, with the
//! number of rounds scaled by the gas a function was seen to consume.
use vstd::prelude::*;

use crate::bytes::{be_bytes, be_value, decode_uint, encode_uint, fit};
use crate::pass_log::{ByteMutator, Pass, PassLog};
use crate::rng::{lemma_pick_bounds, lemma_pick_exp_bounds, pick, pick_exp, Rng};
use crate::value::{
    all_equiv, equiv, lemma_equiv_refl, lemma_equiv_sym, lemma_equiv_trans, Value,
};

verus! {

/// The byte of a `U8` value (0 for any other value).
pub open spec fn byte_of(v: Value) -> u8 {
    match v {
        Value::U8(x) => x,
        _ => 0,
    }
}

/// Whether the engine can mutate `v`: unsigned integers, booleans, byte
/// vectors, references, and structs made of these.
pub open spec fn mutable(v: Value) -> bool
    decreases v,
{
    match v {
        Value::U8(_) | Value::U16(_) | Value::U32(_) | Value::U64(_) | Value::U128(_) | Value::Bool(
            _,
        ) | Value::Reference(_, _) => true,
        Value::Vector(_, xs) => forall|i: int| 0 <= i < xs@.len() ==> #[trigger] xs@[i] is U8,
        Value::Struct(xs) => forall|i: int| 0 <= i < xs@.len() ==> mutable(#[trigger] xs@[i]),
        _ => false,
    }
}

/// Whether every value of `vs` can be mutated.
pub open spec fn all_mutable(vs: Seq<Value>) -> bool {
    forall|i: int| 0 <= i < vs.len() ==> mutable(#[trigger] vs[i])
}

/// The bytes the mutation pass starts from: big-endian for integers, one byte
/// for a boolean, the elements of a byte vector, nothing for the other kinds.
pub open spec fn encoding(v: Value) -> Seq<u8> {
    match v {
        Value::U8(x) => be_bytes(x as nat, 1),
        Value::U16(x) => be_bytes(x as nat, 2),
        Value::U32(x) => be_bytes(x as nat, 4),
        Value::U64(x) => be_bytes(x as nat, 8),
        Value::U128(x) => be_bytes(x as nat, 16),
        Value::Bool(b) => seq![if b { 1u8 } else { 0u8 }],
        Value::Vector(_, xs) => xs@.map_values(|x: Value| byte_of(x)),
        _ => Seq::empty(),
    }
}

/// Whether `out` is what the mutated bytes `b` give back for the original `v`:
/// `b` cut or zero-padded to the kind's width and read back, a 64-bit result
/// reduced modulo 1000, a byte vector rebuilt from all of `b`, a reference
/// kept as it was.
pub open spec fn decodes_to(v: Value, b: Seq<u8>, out: Value) -> bool {
    match v {
        Value::U8(_) => out == Value::U8(be_value(fit(b, 1)) as u8),
        Value::U16(_) => out == Value::U16(be_value(fit(b, 2)) as u16),
        Value::U32(_) => out == Value::U32(be_value(fit(b, 4)) as u32),
        Value::U64(_) => out == Value::U64((be_value(fit(b, 8)) % 1000) as u64),
        Value::U128(_) => out == Value::U128(be_value(fit(b, 16)) as u128),
        Value::Bool(_) => out == Value::Bool(fit(b, 1)[0] != 0),
        Value::Vector(_, _) => match out {
            Value::Vector(t, xs) => {
                &&& *t == Value::U8(0)
                &&& xs@.len() == b.len()
                &&& forall|i: int| 0 <= i < b.len() ==> #[trigger] xs@[i] == Value::U8(b[i])
            },
            _ => false,
        },
        Value::Reference(_, _) => equiv(v, out),
        _ => false,
    }
}

/// Whether `out` is a possible mutation of `v`: what some bytes decode to, or
/// for a struct, a mutation of each field.
pub open spec fn mutation_of(v: Value, out: Value) -> bool
    decreases v,
{
    match v {
        Value::Struct(xs) => match out {
            Value::Struct(ys) => {
                &&& ys@.len() == xs@.len()
                &&& forall|i: int|
                    0 <= i < xs@.len() ==> mutation_of(#[trigger] xs@[i], ys@[i])
            },
            _ => false,
        },
        _ => exists|b: Seq<u8>| decodes_to(v, b, out),
    }
}

/// A mutated 64-bit value is always below 1000.
pub proof fn lemma_u64_mutation_narrowed(v: Value, out: Value)
    requires
        v is U64,
        mutation_of(v, out),
    ensures
        out is U64,
        (out->U64_0) < 1000,
{
    let b = choose|b: Seq<u8>| decodes_to(v, b, out);
    assert(decodes_to(v, b, out));
}

/// Whether each of `outs` is a mutation of the input at its position.
pub open spec fn all_mutations_of(vs: Seq<Value>, outs: Seq<Value>) -> bool {
    &&& outs.len() == vs.len()
    &&& forall|i: int| 0 <= i < vs.len() ==> mutation_of(#[trigger] vs[i], outs[i])
}

/// The number of byte-mutation rounds for a requested `nb_mutation` and an
/// optional gas-scaled count: the scaled count (or `nb_mutation` when absent),
/// raised to 1 and capped at `3 * nb_mutation`.
pub open spec fn intensity(nb_mutation: nat, scaled: Option<usize>) -> nat {
    let b: nat = match scaled {
        Some(x) => x as nat,
        None => nb_mutation,
    };
    let lo: nat = if b < 1 {
        1
    } else {
        b
    };
    if lo > 3 * nb_mutation {
        3 * nb_mutation
    } else {
        lo
    }
}

/// For a positive request the intensity lies between 1 and three times the
/// request, whatever the scaled count.
pub proof fn lemma_intensity_bounds(nb_mutation: nat, scaled: Option<usize>)
    requires
        nb_mutation >= 1,
    ensures
        1 <= intensity(nb_mutation, scaled) <= 3 * nb_mutation,
{
}

/// Without a scaled count the intensity is the request itself, the same as a
/// scaled count equal to the request: mutating with no gas is plain mutation.
pub proof fn lemma_unscaled_intensity(nb_mutation: usize)
    ensures
        intensity(nb_mutation as nat, None) == nb_mutation,
        intensity(nb_mutation as nat, Some(nb_mutation)) == intensity(nb_mutation as nat, None),
{
}

/// The number of byte-mutation rounds for a requested `nb_mutation` and an
/// optional gas-scaled count.
pub fn effective_mutations(nb_mutation: usize, scaled: Option<usize>) -> (r: usize)
    ensures
        r == intensity(nb_mutation as nat, scaled),
{
    let b = match scaled {
        Some(x) => x,
        None => nb_mutation,
    };
    let lo = if b < 1 {
        1
    } else {
        b
    };
    if nb_mutation > usize::MAX / 3 {
        lo
    } else if lo > 3 * nb_mutation {
        3 * nb_mutation
    } else {
        lo
    }
}

/// Whether the engine can mutate `v`.
pub fn is_mutable(v: &Value) -> (r: bool)
    ensures
        r == mutable(*v),
    decreases v,
{
    match v {
        Value::Vector(_, xs) => are_bytes(xs),
        Value::Struct(xs) => are_mutable(xs),
        Value::Address(_) | Value::Function(_, _, _) => false,
        _ => true,
    }
}

/// Whether every value of `vs` is a `U8`.
fn are_bytes(vs: &Vec<Value>) -> (r: bool)
    ensures
        r == forall|j: int| 0 <= j < vs@.len() ==> #[trigger] vs@[j] is U8,
{
    let mut i: usize = 0;
    while i < vs.len()
        invariant
            i <= vs@.len(),
            forall|j: int| 0 <= j < i ==> #[trigger] vs@[j] is U8,
        decreases vs@.len() - i,
    {
        if !matches!(vs[i], Value::U8(_)) {
            return false;
        }
        i = i + 1;
    }
    true
}

/// Whether the engine can mutate every value of `vs`.
pub fn are_mutable(vs: &Vec<Value>) -> (r: bool)
    ensures
        r == all_mutable(vs@),
    decreases vs,
{
    let mut i: usize = 0;
    while i < vs.len()
        invariant
            i <= vs@.len(),
            forall|j: int| 0 <= j < i ==> mutable(#[trigger] vs@[j]),
        decreases vs@.len() - i,
    {
        proof {
            assert(decreases_to!(vs => vs[i as int]));
        }
        if !is_mutable(&vs[i]) {
            return false;
        }
        i = i + 1;
    }
    true
}

/// The bytes the mutation pass starts from for `v`.
pub fn encode_value(v: &Value) -> (r: Vec<u8>)
    requires
        mutable(*v),
    ensures
        r@ == encoding(*v),
{
    match v {
        Value::U8(x) => encode_uint(*x as u128, 1),
        Value::U16(x) => encode_uint(*x as u128, 2),
        Value::U32(x) => encode_uint(*x as u128, 4),
        Value::U64(x) => encode_uint(*x as u128, 8),
        Value::U128(x) => encode_uint(*x, 16),
        Value::Bool(b) => {
            let mut r: Vec<u8> = Vec::new();
            r.push(if *b { 1u8 } else { 0u8 });
            assert(r@ =~= encoding(*v));
            r
        },
        Value::Vector(_, xs) => {
            let mut r: Vec<u8> = Vec::new();
            let mut i: usize = 0;
            while i < xs.len()
                invariant
                    i <= xs@.len(),
                    r@ == xs@.subrange(0, i as int).map_values(|x: Value| byte_of(x)),
                decreases xs@.len() - i,
            {
                let b = match &xs[i] {
                    Value::U8(b) => *b,
                    _ => 0,
                };
                r.push(b);
                i = i + 1;
                assert(r@ =~= xs@.subrange(0, i as int).map_values(|x: Value| byte_of(x)));
            }
            assert(xs@.subrange(0, i as int) =~= xs@);
            r
        },
        _ => Vec::new(),
    }
}


/// What the mutated bytes `b` give back for the original `v`.
pub fn decode_value(v: &Value, b: &Vec<u8>) -> (r: Value)
    requires
        mutable(*v),
        !(v is Struct),
    ensures
        decodes_to(*v, b@, r),
{
    match v {
        Value::U8(_) => Value::U8(decode_uint(b, 1) as u8),
        Value::U16(_) => Value::U16(decode_uint(b, 2) as u16),
        Value::U32(_) => Value::U32(decode_uint(b, 4) as u32),
        Value::U64(_) => Value::U64((decode_uint(b, 8) % 1000) as u64),
        Value::U128(_) => Value::U128(decode_uint(b, 16)),
        Value::Bool(_) => {
            let first: u8 = if b.len() > 0 {
                b[0]
            } else {
                0
            };
            Value::Bool(first != 0)
        },
        Value::Vector(_, _) => {
            let mut xs: Vec<Value> = Vec::new();
            let mut i: usize = 0;
            while i < b.len()
                invariant
                    i <= b@.len(),
                    xs@.len() == i,
                    forall|j: int| 0 <= j < i ==> #[trigger] xs@[j] == Value::U8(b@[j]),
                decreases b@.len() - i,
            {
                xs.push(Value::U8(b[i]));
                i = i + 1;
            }
            Value::Vector(Box::new(Value::U8(0)), xs)
        },
        _ => v.duplicate(),
    }
}

/// The number of passes that mutating `v` runs: one for the value itself,
/// and for a struct those of its fields.
pub open spec fn pass_len(v: Value) -> nat
    decreases v,
{
    match v {
        Value::Struct(fs) => 1 + seq_pass_len(fs@),
        _ => 1,
    }
}

/// The number of passes that mutating each of `vs` in turn runs.
pub open spec fn seq_pass_len(vs: Seq<Value>) -> nat
    decreases vs,
{
    if vs.len() == 0 {
        0
    } else {
        seq_pass_len(vs.subrange(0, vs.len() - 1)) + pass_len(vs[vs.len() - 1])
    }
}

/// Whether `out` is what mutating `v` at intensity `count` gave, the passes
/// run being `ps`: the first pass was given the encoding of `v` with `count`
/// rounds, and `out` is what its result decodes to; for a struct, the later
/// passes mutated the fields in turn at the unscaled intensity.
pub open spec fn mutated_by(v: Value, out: Value, nb_mutation: nat, count: nat, ps: Seq<Pass>) -> bool
    decreases v,
{
    &&& ps.len() == pass_len(v)
    &&& ps[0].0 == encoding(v)
    &&& ps[0].1 == count
    &&& match v {
        Value::Struct(fs) => match out {
            Value::Struct(ys) => all_mutated_by(
                fs@,
                ys@,
                nb_mutation,
                intensity(nb_mutation, None),
                ps.subrange(1, ps.len() as int),
            ),
            _ => false,
        },
        _ => decodes_to(v, ps[0].2, out),
    }
}

/// Whether `outs` is what mutating each of `vs` in turn at intensity `count`
/// gave, the passes run being `ps`.
pub open spec fn all_mutated_by(
    vs: Seq<Value>,
    outs: Seq<Value>,
    nb_mutation: nat,
    count: nat,
    ps: Seq<Pass>,
) -> bool
    decreases vs,
{
    &&& outs.len() == vs.len()
    &&& ps.len() == seq_pass_len(vs)
    &&& if vs.len() == 0 {
        true
    } else {
        let n = vs.len() - 1;
        let k = seq_pass_len(vs.subrange(0, n)) as int;
        &&& all_mutated_by(
            vs.subrange(0, n),
            outs.subrange(0, n),
            nb_mutation,
            count,
            ps.subrange(0, k),
        )
        &&& mutated_by(vs[n], outs[n], nb_mutation, count, ps.subrange(k, ps.len() as int))
    }
}

/// What mutating a value gives is fixed by the passes it ran: two outcomes
/// recorded against the same passes are structurally equal.
pub proof fn lemma_mutated_by_determined(
    v: Value,
    out: Value,
    other: Value,
    nb_mutation: nat,
    count: nat,
    ps: Seq<Pass>,
)
    requires
        mutated_by(v, out, nb_mutation, count, ps),
        mutated_by(v, other, nb_mutation, count, ps),
    ensures
        equiv(out, other),
    decreases v,
{
    match v {
        Value::Struct(fs) => {
            if let (Value::Struct(ys), Value::Struct(zs)) = (out, other) {
                lemma_all_mutated_by_determined(
                    fs@,
                    ys@,
                    zs@,
                    nb_mutation,
                    intensity(nb_mutation, None),
                    ps.subrange(1, ps.len() as int),
                );
            }
        },
        Value::Vector(_, _) => {
            if let (Value::Vector(t, xs), Value::Vector(u, ys)) = (out, other) {
                lemma_equiv_refl(*t);
                assert forall|i: int| 0 <= i < xs@.len() implies equiv(#[trigger] xs@[i], ys@[i]) by {
                    lemma_equiv_refl(xs@[i]);
                }
            }
        },
        Value::Reference(_, _) => {
            lemma_equiv_sym(v, out);
            lemma_equiv_trans(out, v, other);
        },
        _ => {
            lemma_equiv_refl(out);
        },
    }
}

/// What mutating a sequence of values gives is fixed by the passes it ran:
/// two outcomes recorded against the same passes are element-wise
/// structurally equal.
pub proof fn lemma_all_mutated_by_determined(
    vs: Seq<Value>,
    outs: Seq<Value>,
    others: Seq<Value>,
    nb_mutation: nat,
    count: nat,
    ps: Seq<Pass>,
)
    requires
        all_mutated_by(vs, outs, nb_mutation, count, ps),
        all_mutated_by(vs, others, nb_mutation, count, ps),
    ensures
        all_equiv(outs, others),
    decreases vs,
{
    if vs.len() > 0 {
        let n = vs.len() - 1;
        let k = seq_pass_len(vs.subrange(0, n)) as int;
        lemma_all_mutated_by_determined(
            vs.subrange(0, n),
            outs.subrange(0, n),
            others.subrange(0, n),
            nb_mutation,
            count,
            ps.subrange(0, k),
        );
        lemma_mutated_by_determined(
            vs[n],
            outs[n],
            others[n],
            nb_mutation,
            count,
            ps.subrange(k, ps.len() as int),
        );
        assert forall|i: int| 0 <= i < outs.len() implies equiv(#[trigger] outs[i], others[i]) by {
            if i < n {
                assert(outs.subrange(0, n)[i] == outs[i]);
                assert(others.subrange(0, n)[i] == others[i]);
            }
        }
    }
}

/// The passes run after `before`, when `after` extends it.
pub open spec fn passes_since(before: Seq<Pass>, after: Seq<Pass>) -> Seq<Pass> {
    after.subrange(before.len() as int, after.len() as int)
}

/// Whether `after` is `before` followed by more passes.
pub open spec fn extends(before: Seq<Pass>, after: Seq<Pass>) -> bool {
    before.len() <= after.len() && after.subrange(0, before.len() as int) == before
}

/// The number an engine draws in `[min, max]` from `seed`: uniformly when
/// `exp_disabled` is set, else with the bias toward `min`.
pub open spec fn draw(seed: u64, exp_disabled: bool, min: u64, max: u64) -> u64 {
    if exp_disabled {
        pick(seed, min, max)
    } else {
        pick_exp(seed, min, max).0
    }
}

/// An engine's draw lies in its interval.
pub proof fn lemma_draw_bounds(seed: u64, exp_disabled: bool, min: u64, max: u64)
    requires
        min <= max,
    ensures
        min <= draw(seed, exp_disabled, min, max) <= max,
{
    lemma_pick_bounds(seed, min, max);
    lemma_pick_exp_bounds(seed, min, max);
}

/// The capability of mutating argument lists and drawing numbers.
pub trait Mutator {
    /// One mutation of each input, in order, at intensity `nb_mutation`.
    fn mutate(&mut self, inputs: &Vec<Value>, nb_mutation: usize) -> (r: Vec<Value>)
        requires
            all_mutable(inputs@),
        ensures
            all_mutations_of(inputs@, r@),
    ;

    /// A number in the closed interval `[min, max]`.
    fn generate_number(&self, min: u64, max: u64) -> (r: u64)
        requires
            min <= max,
        ensures
            min <= r <= max,
    ;

    /// As `mutate`, with the intensity taken from a gas-scaled count when one
    /// is given; without one, the same as `mutate`.
    fn mutate_with_gas(&mut self, inputs: &Vec<Value>, nb_mutation: usize, scaled: Option<
        usize,
    >) -> (r: Vec<Value>)
        requires
            all_mutable(inputs@),
        ensures
            all_mutations_of(inputs@, r@),
    {
        self.mutate(inputs, nb_mutation)
    }
}

/// The mutation engine: typed values through a byte-level pass, and numbers
/// drawn from a seed, uniformly or biased toward the lower bound.
pub struct SuiMutator<B> {
    seed: u64,
    exp_disabled: bool,
    mutator: PassLog<B>,
}

impl<B: ByteMutator> SuiMutator<B> {
    /// The seed of the number draws.
    pub closed spec fn seed(&self) -> u64 {
        self.seed
    }

    /// Whether number draws are uniform rather than biased toward the lower bound.
    pub closed spec fn exp_disabled(&self) -> bool {
        self.exp_disabled
    }

    /// Every byte-level pass run so far, in order.
    pub closed spec fn passes(&self) -> Seq<Pass> {
        self.mutator.passes()
    }

    /// An engine drawing numbers from `seed` (uniformly when `exp_disabled`)
    /// and mutating bytes with `mutator`.
    pub fn new(seed: u64, mutator: B, exp_disabled: bool) -> (r: Self)
        ensures
            r.seed() == seed,
            r.exp_disabled() == exp_disabled,
            r.passes() == Seq::<Pass>::empty(),
    {
        SuiMutator { seed, exp_disabled, mutator: PassLog::new(mutator) }
    }

    fn mutate_one(&mut self, v: &Value, nb_mutation: usize, count: usize) -> (r: Value)
        requires
            mutable(*v),
        ensures
            mutation_of(*v, r),
            extends(old(self).passes(), final(self).passes()),
            mutated_by(
                *v,
                r,
                nb_mutation as nat,
                count as nat,
                passes_since(old(self).passes(), final(self).passes()),
            ),
            final(self).seed() == old(self).seed(),
            final(self).exp_disabled() == old(self).exp_disabled(),
        decreases v,
    {
        let mut buf = encode_value(v);
        self.mutator.run(&mut buf, count);
        let ghost mid = self.passes();
        match v {
            Value::Struct(fs) => {
                let inner = effective_mutations(nb_mutation, None);
                let ys = self.mutate_all(fs, nb_mutation, inner);
                proof {
                    let o = old(self).passes();
                    let f = self.passes();
                    let ps = passes_since(o, f);
                    assert(f.subrange(0, o.len() as int) =~= mid.subrange(0, o.len() as int));
                    assert(mid.subrange(0, o.len() as int) =~= o);
                    assert(ps.subrange(1, ps.len() as int) =~= passes_since(mid, f));
                    assert(ps[0] == mid[o.len() as int]);
                }
                Value::Struct(ys)
            },
            _ => {
                let r = decode_value(v, &buf);
                assert(decodes_to(*v, buf@, r));
                proof {
                    let o = old(self).passes();
                    assert(self.passes().subrange(0, o.len() as int) =~= o);
                    assert(passes_since(o, self.passes()) =~= seq![(encoding(*v), count as nat, buf@)]);
                }
                r
            },
        }
    }

    fn mutate_all(&mut self, inputs: &Vec<Value>, nb_mutation: usize, count: usize) -> (r: Vec<
        Value,
    >)
        requires
            all_mutable(inputs@),
        ensures
            all_mutations_of(inputs@, r@),
            extends(old(self).passes(), final(self).passes()),
            all_mutated_by(
                inputs@,
                r@,
                nb_mutation as nat,
                count as nat,
                passes_since(old(self).passes(), final(self).passes()),
            ),
            final(self).seed() == old(self).seed(),
            final(self).exp_disabled() == old(self).exp_disabled(),
        decreases inputs,
    {
        let mut res: Vec<Value> = Vec::new();
        let mut i: usize = 0;
        assert(passes_since(old(self).passes(), self.passes()) =~= Seq::<Pass>::empty());
        assert(inputs@.subrange(0, 0) =~= Seq::<Value>::empty());
        assert(self.passes().subrange(0, self.passes().len() as int) =~= self.passes());
        while i < inputs.len()
            invariant
                i <= inputs@.len(),
                all_mutable(inputs@),
                res@.len() == i,
                forall|j: int| 0 <= j < i ==> mutation_of(#[trigger] inputs@[j], res@[j]),
                extends(old(self).passes(), self.passes()),
                all_mutated_by(
                    inputs@.subrange(0, i as int),
                    res@,
                    nb_mutation as nat,
                    count as nat,
                    passes_since(old(self).passes(), self.passes()),
                ),
                self.seed() == old(self).seed(),
                self.exp_disabled() == old(self).exp_disabled(),
            decreases inputs@.len() - i,
        {
            proof {
                assert(decreases_to!(inputs => inputs[i as int]));
            }
            let ghost before = self.passes();
            let ghost res_before = res@;
            let out = self.mutate_one(&inputs[i], nb_mutation, count);
            res.push(out);
            proof {
                let o = old(self).passes();
                let f = self.passes();
                let pre = inputs@.subrange(0, i + 1);
                let n = pre.len() - 1;
                assert(pre.subrange(0, n) =~= inputs@.subrange(0, i as int));
                assert(pre[n] == inputs@[i as int]);
                assert(res@.subrange(0, n) =~= res_before);
                assert(f.subrange(0, before.len() as int) == before);
                assert(f.subrange(0, o.len() as int) =~= before.subrange(0, o.len() as int));
                let ps = passes_since(o, f);
                let k = seq_pass_len(pre.subrange(0, n)) as int;
                assert(k == before.len() - o.len());
                assert(ps.subrange(0, k) =~= passes_since(o, before));
                assert(ps.subrange(k, ps.len() as int) =~= passes_since(before, f));
            }
            i = i + 1;
        }
        assert(inputs@.subrange(0, i as int) =~= inputs@);
        res
    }
}

impl<B: ByteMutator> Mutator for SuiMutator<B> {
    fn mutate(&mut self, inputs: &Vec<Value>, nb_mutation: usize) -> (r: Vec<Value>)
        ensures
            extends(old(self).passes(), final(self).passes()),
            all_mutated_by(
                inputs@,
                r@,
                nb_mutation as nat,
                intensity(nb_mutation as nat, None),
                passes_since(old(self).passes(), final(self).passes()),
            ),
            final(self).seed() == old(self).seed(),
            final(self).exp_disabled() == old(self).exp_disabled(),
    {
        self.mutate_with_gas(inputs, nb_mutation, None)
    }

    fn generate_number(&self, min: u64, max: u64) -> (r: u64)
        ensures
            r == draw(self.seed(), self.exp_disabled(), min, max),
    {
        let mut rng = Rng { seed: self.seed, exp_disabled: self.exp_disabled };
        rng.rand_exp(min, max)
    }

    fn mutate_with_gas(&mut self, inputs: &Vec<Value>, nb_mutation: usize, scaled: Option<
        usize,
    >) -> (r: Vec<Value>)
        ensures
            extends(old(self).passes(), final(self).passes()),
            all_mutated_by(
                inputs@,
                r@,
                nb_mutation as nat,
                intensity(nb_mutation as nat, scaled),
                passes_since(old(self).passes(), final(self).passes()),
            ),
            final(self).seed() == old(self).seed(),
            final(self).exp_disabled() == old(self).exp_disabled(),
    {
        let count = effective_mutations(nb_mutation, scaled);
        self.mutate_all(inputs, nb_mutation, count)
    }
}

} // verus!
