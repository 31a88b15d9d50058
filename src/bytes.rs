//! Fixed-width big-endian encoding of unsigned integers.
use vstd::prelude::*;

verus! {

/// 256 to the power `n`.
pub open spec fn pow256(n: nat) -> nat
    decreases n,
{
    if n == 0 {
        1
    } else {
        256 * pow256((n - 1) as nat)
    }
}

/// The `width` low-order bytes of `x`, most significant first.
pub open spec fn be_bytes(x: nat, width: nat) -> Seq<u8>
    decreases width,
{
    if width == 0 {
        Seq::empty()
    } else {
        be_bytes(x / 256, (width - 1) as nat).push((x % 256) as u8)
    }
}

/// The number that the bytes `s` spell, most significant first.
pub open spec fn be_value(s: Seq<u8>) -> nat
    decreases s.len(),
{
    if s.len() == 0 {
        0
    } else {
        be_value(s.drop_last()) * 256 + s.last() as nat
    }
}

/// `s` cut or zero-padded to exactly `width` bytes.
pub open spec fn fit(s: Seq<u8>, width: nat) -> Seq<u8> {
    if s.len() >= width {
        s.subrange(0, width as int)
    } else {
        s + Seq::new((width - s.len()) as nat, |i: int| 0u8)
    }
}

proof fn lemma_be_value_bound(s: Seq<u8>)
    ensures
        be_value(s) < pow256(s.len()),
    decreases s.len(),
{
    if s.len() > 0 {
        lemma_be_value_bound(s.drop_last());
        let v = be_value(s.drop_last());
        let p = pow256(s.drop_last().len());
        let l = s.last() as nat;
        assert(v * 256 + l < p * 256) by (nonlinear_arith)
            requires
                v < p,
                l < 256,
        ;
    }
}

proof fn lemma_pow256_16()
    ensures
        pow256(15) * 256 == 0x1_0000_0000_0000_0000_0000_0000_0000_0000,
{
    reveal_with_fuel(pow256, 16);
}

/// The `width` low-order bytes of `x`, most significant first.
pub fn encode_uint(x: u128, width: usize) -> (r: Vec<u8>)
    ensures
        r@ == be_bytes(x as nat, width as nat),
{
    let mut out: Vec<u8> = Vec::new();
    let mut k: usize = 0;
    while k < width
        invariant
            k <= width,
            out@.len() == k,
        decreases width - k,
    {
        out.push(0u8);
        k = k + 1;
    }
    let mut rest: u128 = x;
    let mut i: usize = width;
    while i > 0
        invariant
            i <= width,
            out@.len() == width,
            be_bytes(x as nat, width as nat) == be_bytes(rest as nat, i as nat) + out@.subrange(
                i as int,
                width as int,
            ),
        decreases i,
    {
        let ghost tail = out@.subrange(i as int, width as int);
        i = i - 1;
        let byte = (rest % 256) as u8;
        out.set(i, byte);
        proof {
            assert(out@.subrange(i as int, width as int) =~= seq![byte] + tail);
            assert(be_bytes(rest as nat, (i + 1) as nat) == be_bytes(
                (rest / 256) as nat,
                i as nat,
            ).push(byte));
            assert(be_bytes((rest / 256) as nat, i as nat).push(byte) + tail =~= be_bytes(
                (rest / 256) as nat,
                i as nat,
            ) + (seq![byte] + tail));
        }
        rest = rest / 256;
    }
    assert(out@.subrange(0, width as int) =~= out@);
    out
}

/// The number that `b`, cut or zero-padded to `width` bytes, spells.
pub fn decode_uint(b: &Vec<u8>, width: usize) -> (r: u128)
    requires
        width <= 16,
    ensures
        r == be_value(fit(b@, width as nat)),
{
    let ghost s = fit(b@, width as nat);
    let mut acc: u128 = 0;
    let mut i: usize = 0;
    while i < width
        invariant
            width <= 16,
            i <= width,
            s == fit(b@, width as nat),
            s.len() == width,
            acc as nat == be_value(s.subrange(0, i as int)),
        decreases width - i,
    {
        let byte: u8 = if i < b.len() {
            b[i]
        } else {
            0
        };
        proof {
            assert(byte == s[i as int]);
            let pre = s.subrange(0, i as int);
            assert(s.subrange(0, i + 1).drop_last() =~= pre);
            lemma_be_value_bound(pre);
            lemma_pow256_16();
            assert(pow256(pre.len()) <= pow256(15)) by {
                lemma_pow256_mono(pre.len(), 15);
            }
            assert(acc * 256 + byte < 0x1_0000_0000_0000_0000_0000_0000_0000_0000) by (
            nonlinear_arith)
                requires
                    acc < pow256(pre.len()),
                    pow256(pre.len()) <= pow256(15),
                    pow256(15) * 256 == 0x1_0000_0000_0000_0000_0000_0000_0000_0000,
                    byte < 256,
            ;
        }
        acc = acc * 256 + byte as u128;
        i = i + 1;
    }
    assert(s.subrange(0, width as int) =~= s);
    acc
}

proof fn lemma_pow256_mono(a: nat, b: nat)
    requires
        a <= b,
    ensures
        pow256(a) <= pow256(b),
    decreases b,
{
    if a < b {
        lemma_pow256_mono(a, (b - 1) as nat);
    }
}

} // verus!
