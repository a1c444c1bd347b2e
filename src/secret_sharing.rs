//! Threshold secret sharing over Fr: a polynomial of degree `t − 1` with the
//! secret as constant term, evaluated at the recipients' non-zero indices,
//! and reconstruction by Lagrange interpolation at zero.
use crate::curve::{on_curve, Curve};
use crate::pedersen::Value;
use crate::scalar::{
    fr_add, fr_inv, fr_inverse, fr_modulus, fr_mul, fr_sub, fr_sub_spec, Scalar,
};
use rand::rngs::StdRng;
use vstd::prelude::*;

verus! {

/// Why shares cannot be combined.
#[derive(Clone, Copy, Debug, PartialEq, Eq, Structural)]
pub enum SharingError {
    /// An index is zero: interpolation at zero would divide by zero.
    ZeroIndex,
    /// Two shares have the same index.
    DuplicateIndex,
    /// There are no shares to combine.
    NoShares,
}

/// The values of a sequence of scalars.
pub open spec fn values(s: Seq<Scalar>) -> Seq<nat> {
    s.map_values(|x: Scalar| x@)
}

/// `cs[0] + cs[1]·x + cs[2]·x² + …` modulo r, in Horner's form.
pub open spec fn poly_eval(cs: Seq<nat>, x: nat) -> nat
    decreases cs.len(),
{
    if cs.len() == 0 {
        0
    } else {
        (cs[0] + x * poly_eval(cs.drop_first(), x)) % fr_modulus()
    }
}

/// The factor `x_k / (x_k − x_j)` of the Lagrange basis polynomial of share
/// `j` at zero.
pub open spec fn lagrange_factor(xk: nat, xj: nat) -> nat {
    (xk * fr_inv(fr_sub_spec(xk, xj))) % fr_modulus()
}

/// The Lagrange basis polynomial of share `j` at zero, over the first `m`
/// shares: the product of the factors of every other index.
pub open spec fn lagrange_basis<T>(shares: Seq<(u32, T)>, j: int, m: nat) -> nat
    decreases m,
{
    if m == 0 {
        1
    } else {
        let rest = lagrange_basis(shares, j, (m - 1) as nat);
        if m - 1 == j {
            rest
        } else {
            (rest * lagrange_factor(shares[m - 1].0 as nat, shares[j].0 as nat)) % fr_modulus()
        }
    }
}

/// The interpolated value at zero, summed over the first `m` shares.
pub open spec fn interpolate_at_zero(shares: Seq<(u32, Scalar)>, m: nat) -> nat
    decreases m,
{
    if m == 0 {
        0
    } else {
        (interpolate_at_zero(shares, (m - 1) as nat) + (shares[m - 1].1@ * lagrange_basis(
            shares,
            m - 1,
            shares.len(),
        )) % fr_modulus()) % fr_modulus()
    }
}

/// The Lagrange combination at zero of the first `m` points (`m ≥ 1`):
/// `Σ λ_j·P_j`, the group form of `interpolate_at_zero`.
pub open spec fn interpolate_points_at_zero<C: Curve>(shares: Seq<(u32, C)>, m: nat) -> Seq<u8>
    decreases m,
{
    let term = C::mul_spec(shares[m - 1].1.enc(), lagrange_basis(shares, m - 1, shares.len()));
    if m <= 1 {
        term
    } else {
        C::add_spec(interpolate_points_at_zero(shares, (m - 1) as nat), term)
    }
}

/// No index is zero and no two are equal.
pub open spec fn indices_valid<T>(shares: Seq<(u32, T)>) -> bool {
    &&& forall|j: int| 0 <= j < shares.len() ==> shares[j].0 != 0
    &&& forall|j: int, k: int|
        0 <= j < shares.len() && 0 <= k < shares.len() && j != k ==> shares[j].0 != shares[k].0
}

/// A sharing: the coefficients `a_1, …, a_{t−1}` of the polynomial and each
/// recipient's share `(i, f(i))`.
#[derive(Clone, Debug)]
pub struct SharingData {
    pub coefficients: Vec<Scalar>,
    pub shares: Vec<(u32, Scalar)>,
}

/// The value at `x` of the polynomial with coefficients `cs`, lowest first.
pub fn evaluate_polynomial(cs: &[Scalar], x: &Scalar) -> (r: Scalar)
    requires
        forall|i: int| 0 <= i < cs@.len() ==> cs@[i].wf(),
        x.wf(),
    ensures
        r.wf(),
        r@ == poly_eval(values(cs@), x@),
{
    let n = cs.len();
    let mut acc = Scalar::zero();
    let mut i: usize = n;
    while i > 0
        invariant
            i <= n,
            n == cs@.len(),
            forall|k: int| 0 <= k < cs@.len() ==> cs@[k].wf(),
            x.wf(),
            acc.wf(),
            acc@ == poly_eval(values(cs@).subrange(i as int, n as int), x@),
        decreases i,
    {
        let ghost prev = acc@;
        acc = fr_add(&cs[i - 1], &fr_mul(x, &acc));
        proof {
            let vs = values(cs@);
            assert(vs.subrange(i - 1, n as int).drop_first() =~= vs.subrange(i as int, n as int));
            vstd::arithmetic::div_mod::lemma_add_mod_noop(
                cs@[i - 1]@ as int,
                (x@ * prev) as int,
                fr_modulus() as int,
            );
            vstd::arithmetic::div_mod::lemma_small_mod(cs@[i - 1]@, fr_modulus());
        }
        i = i - 1;
    }
    assert(values(cs@).subrange(0, n as int) =~= values(cs@));
    acc
}

/// The shares of `secret` for `indices`, on the polynomial whose constant
/// term is `secret` and whose further coefficients are `coefficients`.
pub fn share_with_coefficients(secret: &Scalar, coefficients: &[Scalar], indices: &[u32]) -> (r:
    Vec<(u32, Scalar)>)
    requires
        secret.wf(),
        forall|i: int| 0 <= i < coefficients@.len() ==> coefficients@[i].wf(),
    ensures
        r@.len() == indices@.len(),
        forall|k: int|
            0 <= k < indices@.len() ==> {
                &&& (#[trigger] r@[k]).0 == indices@[k]
                &&& r@[k].1.wf()
                &&& r@[k].1@ == poly_eval(
                    seq![secret@] + values(coefficients@),
                    indices@[k] as nat,
                )
            },
{
    let mut cs: Vec<Scalar> = Vec::new();
    cs.push(*secret);
    let mut i: usize = 0;
    while i < coefficients.len()
        invariant
            i <= coefficients@.len(),
            secret.wf(),
            forall|k: int| 0 <= k < coefficients@.len() ==> coefficients@[k].wf(),
            cs@ == seq![*secret] + coefficients@.subrange(0, i as int),
        decreases coefficients@.len() - i,
    {
        cs.push(coefficients[i]);
        i = i + 1;
        assert(cs@ =~= seq![*secret] + coefficients@.subrange(0, i as int));
    }
    assert(coefficients@.subrange(0, i as int) =~= coefficients@);
    assert(values(cs@) =~= seq![secret@] + values(coefficients@));
    let mut out: Vec<(u32, Scalar)> = Vec::new();
    let mut k: usize = 0;
    while k < indices.len()
        invariant
            k <= indices@.len(),
            forall|m: int| 0 <= m < cs@.len() ==> cs@[m].wf(),
            values(cs@) == seq![secret@] + values(coefficients@),
            out@.len() == k,
            forall|m: int|
                0 <= m < k ==> {
                    &&& (#[trigger] out@[m]).0 == indices@[m]
                    &&& out@[m].1.wf()
                    &&& out@[m].1@ == poly_eval(
                        seq![secret@] + values(coefficients@),
                        indices@[m] as nat,
                    )
                },
        decreases indices@.len() - k,
    {
        let x = Scalar::from_u64(indices[k] as u64);
        let y = evaluate_polynomial(cs.as_slice(), &x);
        out.push((indices[k], y));
        k = k + 1;
    }
    out
}

/// Shares `secret` among `indices` with threshold `threshold`: any
/// `threshold` of the shares determine the secret. The further coefficients
/// are drawn at random and non-zero; none if a draw kept giving zero.
pub fn share(secret: &Scalar, indices: &[u32], threshold: u32, csprng: &mut StdRng) -> (r: Option<
    SharingData,
>)
    requires
        secret.wf(),
        1 <= threshold <= indices@.len(),
    ensures
        r matches Some(d) ==> {
            &&& d.coefficients@.len() == threshold - 1
            &&& forall|i: int|
                0 <= i < d.coefficients@.len() ==> (#[trigger] d.coefficients@[i]).wf()
                    && d.coefficients@[i]@ != 0
            &&& d.shares@.len() == indices@.len()
            &&& forall|k: int|
                0 <= k < indices@.len() ==> {
                    &&& (#[trigger] d.shares@[k]).0 == indices@[k]
                    &&& d.shares@[k].1.wf()
                    &&& d.shares@[k].1@ == poly_eval(
                        seq![secret@] + values(d.coefficients@),
                        indices@[k] as nat,
                    )
                }
        },
{
    let mut coefficients: Vec<Scalar> = Vec::new();
    let mut i: u32 = 1;
    while i < threshold
        invariant
            1 <= i <= threshold,
            coefficients@.len() == i - 1,
            forall|m: int|
                0 <= m < coefficients@.len() ==> (#[trigger] coefficients@[m]).wf()
                    && coefficients@[m]@ != 0,
        decreases threshold - i,
    {
        match Value::generate_non_zero(csprng) {
            Some(v) => coefficients.push(v.value),
            None => return None,
        }
        i = i + 1;
    }
    let shares = share_with_coefficients(secret, coefficients.as_slice(), indices);
    Some(SharingData { coefficients, shares })
}

/// Checks that no index is zero and no two are equal.
fn check_indices<T>(shares: &[(u32, T)]) -> (r: Result<(), SharingError>)
    ensures
        r.is_ok() == indices_valid(shares@),
        r matches Err(e) ==> e != SharingError::NoShares,
{
    let n = shares.len();
    let mut j: usize = 0;
    while j < n
        invariant
            j <= n,
            n == shares@.len(),
            forall|a: int| 0 <= a < j ==> shares@[a].0 != 0,
            forall|a: int, b: int|
                0 <= a < j && 0 <= b < n && a != b ==> shares@[a].0 != shares@[b].0,
        decreases n - j,
    {
        if shares[j].0 == 0 {
            return Err(SharingError::ZeroIndex);
        }
        let mut k: usize = 0;
        while k < n
            invariant
                k <= n,
                j < n,
                n == shares@.len(),
                shares@[j as int].0 != 0,
                forall|b: int| 0 <= b < k && b != j ==> shares@[j as int].0 != shares@[b].0,
                forall|a: int| 0 <= a < j ==> shares@[a].0 != 0,
                forall|a: int, b: int|
                    0 <= a < j && 0 <= b < n && a != b ==> shares@[a].0 != shares@[b].0,
            decreases n - k,
        {
            if k != j && shares[k].0 == shares[j].0 {
                return Err(SharingError::DuplicateIndex);
            }
            k = k + 1;
        }
        j = j + 1;
    }
    Ok(())
}

/// The Lagrange coefficient at zero of share `j`: `Π_{k≠j} x_k / (x_k − x_j)`.
fn lagrange_coefficient<T>(shares: &[(u32, T)], j: usize) -> (r: Scalar)
    requires
        j < shares@.len(),
        indices_valid(shares@),
    ensures
        r.wf(),
        r@ == lagrange_basis(shares@, j as int, shares@.len()),
{
    let n = shares.len();
    let xj = Scalar::from_u64(shares[j].0 as u64);
    let mut basis = Scalar::one();
    let mut k: usize = 0;
    while k < n
        invariant
            k <= n,
            j < n,
            n == shares@.len(),
            indices_valid(shares@),
            xj.wf(),
            xj@ == shares@[j as int].0 as nat,
            basis.wf(),
            basis@ == lagrange_basis(shares@, j as int, k as nat),
        decreases n - k,
    {
        if k != j {
            let xk = Scalar::from_u64(shares[k].0 as u64);
            let d = fr_sub(&xk, &xj);
            proof {
                lemma_distinct_difference(xk@, xj@);
            }
            let inv = match fr_inverse(&d) {
                Some(v) => v,
                None => {
                    assert(false);
                    return basis;
                },
            };
            basis = fr_mul(&basis, &fr_mul(&xk, &inv));
            proof {
                vstd::arithmetic::div_mod::lemma_mul_mod_noop_right(
                    lagrange_basis(shares@, j as int, k as nat) as int,
                    (xk@ * inv@) as int,
                    fr_modulus() as int,
                );
            }
        }
        k = k + 1;
    }
    basis
}

/// The secret that `shares` determine: the value at zero of the polynomial
/// through them, by Lagrange interpolation. Fails where an index is zero or
/// two indices are equal.
pub fn reconstruct(shares: &[(u32, Scalar)]) -> (r: Result<Scalar, SharingError>)
    requires
        forall|k: int| 0 <= k < shares@.len() ==> (#[trigger] shares@[k]).1.wf(),
    ensures
        r.is_ok() == indices_valid(shares@),
        r matches Ok(s) ==> s.wf() && s@ == interpolate_at_zero(shares@, shares@.len()),
        r matches Err(e) ==> e != SharingError::NoShares,
{
    check_indices(shares)?;
    let n = shares.len();
    let mut acc = Scalar::zero();
    let mut j: usize = 0;
    while j < n
        invariant
            j <= n,
            n == shares@.len(),
            indices_valid(shares@),
            forall|k: int| 0 <= k < shares@.len() ==> (#[trigger] shares@[k]).1.wf(),
            acc.wf(),
            acc@ == interpolate_at_zero(shares@, j as nat),
        decreases n - j,
    {
        let basis = lagrange_coefficient(shares, j);
        acc = fr_add(&acc, &fr_mul(&shares[j].1, &basis));
        j = j + 1;
    }
    Ok(acc)
}

/// The point that shares in the group determine: `Σ λ_j·P_j`, with the
/// Lagrange coefficients at zero. Where each `P_j` is `f(x_j)·G`, this is
/// `f(0)·G`. Fails where there are no shares, an index is zero or two
/// indices are equal.
pub fn reconstruct_in_group<C: Curve>(shares: &[(u32, C)]) -> (r: Result<C, SharingError>)
    requires
        forall|k: int| 0 <= k < shares@.len() ==> on_curve(#[trigger] shares@[k].1),
    ensures
        r.is_ok() == (shares@.len() > 0 && indices_valid(shares@)),
        r matches Ok(p) ==> on_curve(p) && p.enc() == interpolate_points_at_zero(
            shares@,
            shares@.len(),
        ),
        r matches Err(e) ==> (e == SharingError::NoShares) == (shares@.len() == 0),
{
    if shares.len() == 0 {
        return Err(SharingError::NoShares);
    }
    check_indices(shares)?;
    let n = shares.len();
    let mut acc = shares[0].1.mul_by_scalar(&lagrange_coefficient(shares, 0));
    let mut j: usize = 1;
    while j < n
        invariant
            1 <= j <= n,
            n == shares@.len(),
            indices_valid(shares@),
            forall|k: int| 0 <= k < shares@.len() ==> on_curve(#[trigger] shares@[k].1),
            on_curve(acc),
            acc.enc() == interpolate_points_at_zero(shares@, j as nat),
        decreases n - j,
    {
        let basis = lagrange_coefficient(shares, j);
        let term = shares[j].1.mul_by_scalar(&basis);
        acc = acc.plus_point(&term);
        j = j + 1;
    }
    Ok(acc)
}

/// Two distinct reduced values differ by a non-zero scalar.
proof fn lemma_distinct_difference(a: nat, b: nat)
    requires
        a < fr_modulus(),
        b < fr_modulus(),
        a != b,
    ensures
        fr_sub_spec(a, b) != 0,
{
    let q = fr_modulus();
    if a > b {
        vstd::arithmetic::div_mod::lemma_fundamental_div_mod_converse(
            (a + q - b) as int,
            q as int,
            1,
            (a - b) as int,
        );
    } else {
        vstd::arithmetic::div_mod::lemma_small_mod((a + q - b) as nat, q);
    }
}

} // verus!
