//! Big-endian byte strings and the numbers they stand for.
use vstd::prelude::*;

verus! {

/// The number that a big-endian byte string stands for.
pub open spec fn be_value(s: Seq<u8>) -> nat
    decreases s.len(),
{
    if s.len() == 0 {
        0
    } else {
        be_value(s.drop_last()) * 256 + s.last() as nat
    }
}

/// 256 to the power n.
pub open spec fn pow256(n: nat) -> nat
    decreases n,
{
    if n == 0 {
        1
    } else {
        256 * pow256((n - 1) as nat)
    }
}

pub proof fn lemma_be_push(s: Seq<u8>, b: u8)
    ensures
        be_value(s.push(b)) == be_value(s) * 256 + b as nat,
{
    assert(s.push(b).drop_last() =~= s);
}

#[verifier::rlimit(40)]
pub proof fn lemma_be_concat(a: Seq<u8>, b: Seq<u8>)
    ensures
        be_value(a + b) == be_value(a) * pow256(b.len()) + be_value(b),
    decreases b.len(),
{
    if b.len() == 0 {
        assert(a + b =~= a);
        assert(be_value(b) == 0);
        assert(pow256(b.len()) == 1);
        let x = be_value(a);
        assert(x * 1 == x);
    } else {
        let b1 = b.drop_last();
        lemma_be_concat(a, b1);
        assert((a + b).drop_last() =~= a + b1);
        let x = be_value(a);
        let p = pow256(b1.len());
        let y = be_value(b1);
        let l = b.last() as nat;
        assert(be_value(b) == y * 256 + l);
        assert(be_value(a + b) == be_value(a + b1) * 256 + l);
        assert(be_value(a + b1) == x * p + y);
        assert(pow256(b.len()) == 256 * p);
        assert((x * p + y) * 256 + l == x * (256 * p) + (y * 256 + l)) by (nonlinear_arith);
    }
}

pub proof fn lemma_pow256_eight()
    ensures
        pow256(8) == 18446744073709551616nat,
{
    reveal_with_fuel(pow256, 9);
}

pub proof fn lemma_pow256_mono(i: nat, j: nat)
    requires
        i <= j,
    ensures
        pow256(i) <= pow256(j),
    decreases j,
{
    if i < j {
        lemma_pow256_mono(i, (j - 1) as nat);
    }
}

/// Bytes `off..off + 8` of `b`, read as a big-endian 64-bit word.
pub fn read_u64_be(b: &[u8], off: usize) -> (r: u64)
    requires
        off + 8 <= b@.len(),
    ensures
        r as nat == be_value(b@.subrange(off as int, off + 8)),
{
    let len = b.len();
    let mut acc: u64 = 0;
    let mut j: usize = 0;
    while j < 8
        invariant
            j <= 8,
            len == b@.len(),
            off + 8 <= b@.len(),
            acc as nat == be_value(b@.subrange(off as int, off + j)),
            (acc as nat) < pow256(j as nat),
        decreases 8 - j,
    {
        proof {
            assert(b@.subrange(off as int, off + j + 1) =~= b@.subrange(off as int, off + j).push(
                b@[off + j],
            ));
            lemma_be_push(b@.subrange(off as int, off + j), b@[off + j]);
            lemma_pow256_mono((j + 1) as nat, 8);
            lemma_pow256_eight();
            assert(pow256((j + 1) as nat) == 256 * pow256(j as nat));
            assert(acc * 256 + 255 < 18446744073709551616nat);
        }
        acc = acc * 256 + b[off + j] as u64;
        j = j + 1;
    }
    acc
}

/// Appends the eight big-endian bytes of `x`.
#[verifier::rlimit(40)]
pub fn push_u64_be(out: &mut Vec<u8>, x: u64)
    ensures
        final(out)@.len() == old(out)@.len() + 8,
        be_value(final(out)@) == be_value(old(out)@) * 18446744073709551616nat + x as nat,
{
    let q1 = x / 256;
    let q2 = q1 / 256;
    let q3 = q2 / 256;
    let q4 = q3 / 256;
    let q5 = q4 / 256;
    let q6 = q5 / 256;
    let q7 = q6 / 256;
    let ghost v = be_value(out@);
    proof {
        lemma_be_push(out@, q7 as u8);
    }
    out.push(q7 as u8);
    proof {
        lemma_be_push(out@, (q6 % 256) as u8);
    }
    out.push((q6 % 256) as u8);
    proof {
        lemma_be_push(out@, (q5 % 256) as u8);
    }
    out.push((q5 % 256) as u8);
    proof {
        lemma_be_push(out@, (q4 % 256) as u8);
    }
    out.push((q4 % 256) as u8);
    proof {
        lemma_be_push(out@, (q3 % 256) as u8);
    }
    out.push((q3 % 256) as u8);
    proof {
        lemma_be_push(out@, (q2 % 256) as u8);
    }
    out.push((q2 % 256) as u8);
    proof {
        lemma_be_push(out@, (q1 % 256) as u8);
    }
    out.push((q1 % 256) as u8);
    proof {
        lemma_be_push(out@, (x % 256) as u8);
    }
    out.push((x % 256) as u8);
}

/// Whether two byte strings are equal.
pub fn bytes_eq(a: &[u8], b: &[u8]) -> (r: bool)
    ensures
        r == (a@ == b@),
{
    if a.len() != b.len() {
        return false;
    }
    let mut i: usize = 0;
    while i < a.len()
        invariant
            a@.len() == b@.len(),
            i <= a@.len(),
            forall|k: int| 0 <= k < i ==> a@[k] == b@[k],
        decreases a@.len() - i,
    {
        if a[i] != b[i] {
            return false;
        }
        i = i + 1;
    }
    assert(a@ =~= b@);
    true
}

} // verus!
