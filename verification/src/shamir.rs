//! Threshold secret sharing over GF(2^8): a secret byte string is split
//! into `n` shares so that any `k` distinct shares reconstruct it and
//! fewer carry no information. Each byte of the secret is the constant
//! term of a fresh random polynomial of degree `k - 1`; share `j` holds
//! that polynomial evaluated at `x = j`.

use vstd::prelude::*;

use crate::gf256;
use crate::rng;
use crate::Error;

verus! {

/// One fragment of a split secret.
#[derive(Debug)]
pub struct Share {
    /// Evaluation point, 1-based; never zero (zero would expose the secret).
    pub index: u8,
    /// The threshold `k` the split was made with.
    pub threshold: u8,
    /// One field element per byte of the split secret.
    pub payload: Vec<u8>,
}

/// Evaluate the polynomial with coefficient sequence `c` (constant term
/// first) at the point `x`.
pub open spec fn poly_eval(c: Seq<u8>, x: u8) -> u8
    decreases c.len(),
{
    if c.len() == 0 {
        0u8
    } else {
        (c[0] ^ gf256::gf_mul(x, poly_eval(c.subrange(1, c.len() as int), x))) as u8
    }
}

/// The Lagrange basis polynomial for point `j` of `xs`, evaluated at
/// zero, built from the first `m` points.
pub open spec fn lag_basis_prefix(xs: Seq<u8>, j: int, m: int) -> u8
    decreases m,
{
    if m <= 0 {
        1u8
    } else if m - 1 == j {
        lag_basis_prefix(xs, j, m - 1)
    } else {
        gf256::gf_mul(
            lag_basis_prefix(xs, j, m - 1),
            gf256::gf_mul(xs[m - 1], gf256::gf_inv((xs[m - 1] ^ xs[j]) as u8)),
        )
    }
}

/// The full Lagrange basis coefficient for point `j` of `xs` at zero.
pub open spec fn lag_basis(xs: Seq<u8>, j: int) -> u8 {
    lag_basis_prefix(xs, j, xs.len() as int)
}

/// Partial Lagrange interpolation at zero over the first `m` points.
pub open spec fn interp_prefix(xs: Seq<u8>, ys: Seq<u8>, m: int) -> u8
    decreases m,
{
    if m <= 0 {
        0u8
    } else {
        (interp_prefix(xs, ys, m - 1) ^ gf256::gf_mul(lag_basis(xs, m - 1), ys[m - 1])) as u8
    }
}

/// Lagrange interpolation at zero: the value at `x = 0` of the
/// interpolating polynomial through the points `(xs[i], ys[i])`.
pub open spec fn interp_at_zero(xs: Seq<u8>, ys: Seq<u8>) -> u8 {
    interp_prefix(xs, ys, xs.len() as int)
}

/// The evaluation points of the first `k` of the shares.
pub open spec fn share_xs(s: Seq<Share>, k: int) -> Seq<u8> {
    Seq::new(k as nat, |j: int| s[j].index)
}

/// Byte position `p` of the payloads of the first `k` shares.
pub open spec fn share_col(s: Seq<Share>, k: int, p: int) -> Seq<u8> {
    Seq::new(k as nat, |j: int| s[j].payload[p])
}

/// Every share declares the same threshold and payload length as the
/// first, and no share uses the forbidden evaluation point zero.
pub open spec fn consistent_shares(s: Seq<Share>) -> bool {
    forall|i: int|
        0 <= i < s.len() ==> (#[trigger] s[i].threshold) == s[0].threshold
            && s[i].payload.len() == s[0].payload.len() && s[i].index != 0
}

/// No two shares claim the same evaluation point.
pub open spec fn distinct_indices(s: Seq<Share>) -> bool {
    forall|i: int, j: int| 0 <= i < j < s.len() ==> (#[trigger] s[i].index) != (#[trigger] s[j].index)
}

/// The secret that Lagrange interpolation recovers from the first
/// `s[0].threshold` of the shares.
pub open spec fn combined_secret(s: Seq<Share>) -> Seq<u8> {
    Seq::new(
        s[0].payload.len() as nat,
        |p: int| interp_at_zero(share_xs(s, s[0].threshold as int), share_col(s, s[0].threshold as int, p)),
    )
}

/// The shares are exactly the evaluations of one polynomial per secret
/// byte, each of degree below `k` with the secret byte as constant term.
pub open spec fn shares_of_polys(shares: Seq<Share>, polys: Seq<Seq<u8>>, secret: Seq<u8>, k: u8) -> bool {
    &&& polys.len() == secret.len()
    &&& (forall|p: int| 0 <= p < secret.len() ==> (#[trigger] polys[p]).len() == k && polys[p][0] == secret[p])
    &&& (forall|j: int, p: int|
        0 <= j < shares.len() && 0 <= p < secret.len() ==> (#[trigger] shares[j].payload[p]) == poly_eval(
            polys[p],
            shares[j].index,
        ))
}

/// Evaluate a coefficient vector at `x` by Horner's rule.
fn eval_poly(c: &Vec<u8>, x: u8) -> (r: u8)
    ensures
        r == poly_eval(c@, x),
{
    let mut r: u8 = 0;
    let mut i: usize = c.len();
    proof {
        assert(c@.subrange(c@.len() as int, c@.len() as int) =~= Seq::<u8>::empty());
    }
    while i > 0
        invariant
            i <= c.len(),
            r == poly_eval(c@.subrange(i as int, c@.len() as int), x),
        decreases i,
    {
        i = i - 1;
        let m = gf256::mult(x, r);
        r = c[i] ^ m;
        proof {
            let sub = c@.subrange(i as int, c@.len() as int);
            assert(sub[0] == c@[i as int]);
            assert(sub.subrange(1, sub.len() as int) =~= c@.subrange(i + 1, c@.len() as int));
        }
    }
    proof {
        assert(c@.subrange(0, c@.len() as int) =~= c@);
    }
    r
}

/// Split `secret` into `n` shares, any `k` of which reconstruct it.
///
/// Fails with `InvalidThreshold` exactly when `k < 1` or `k > n`; the
/// upper bound `n <= 255` is carried by the index type itself.
pub fn split(secret: &Vec<u8>, n: u8, k: u8) -> (r: Result<Vec<Share>, Error>)
    ensures
        (k < 1 || k > n) <==> r is Err,
        r matches Err(e) ==> e == Error::InvalidThreshold,
        r matches Ok(shares) ==> {
            &&& shares@.len() == n
            &&& (forall|j: int|
                0 <= j < n ==> (#[trigger] shares@[j]).index == j + 1 && shares@[j].threshold == k
                    && shares@[j].payload.len() == secret@.len())
            &&& exists|polys: Seq<Seq<u8>>| shares_of_polys(shares@, polys, secret@, k)
        },
{
    if k < 1 || k > n {
        return Err(Error::InvalidThreshold);
    }
    // One random polynomial per secret byte, constant term the byte itself.
    let mut coeffs: Vec<Vec<u8>> = Vec::new();
    let mut p: usize = 0;
    while p < secret.len()
        invariant
            p <= secret@.len(),
            coeffs@.len() == p,
            1 <= k,
            forall|q: int|
                0 <= q < p ==> (#[trigger] coeffs@[q])@.len() == k && coeffs@[q]@[0] == secret@[q],
        decreases secret@.len() - p,
    {
        let mut row: Vec<u8> = rng::random_bytes((k - 1) as usize);
        row.insert(0, secret[p]);
        coeffs.push(row);
        p = p + 1;
    }
    let ghost polys: Seq<Seq<u8>> = coeffs@.map_values(|v: Vec<u8>| v@);
    let mut shares: Vec<Share> = Vec::new();
    let mut j: usize = 0;
    while j < n as usize
        invariant
            j <= n,
            coeffs@.len() == secret@.len(),
            polys == coeffs@.map_values(|v: Vec<u8>| v@),
            forall|q: int|
                0 <= q < secret@.len() ==> (#[trigger] coeffs@[q])@.len() == k && coeffs@[q]@[0]
                    == secret@[q],
            shares@.len() == j,
            forall|m: int|
                0 <= m < j ==> (#[trigger] shares@[m]).index == m + 1 && shares@[m].threshold == k
                    && shares@[m].payload.len() == secret@.len(),
            forall|m: int, q: int|
                0 <= m < j && 0 <= q < secret@.len() ==> (#[trigger] shares@[m].payload[q])
                    == poly_eval(polys[q], shares@[m].index),
        decreases n - j,
    {
        let x: u8 = (j + 1) as u8;
        let mut payload: Vec<u8> = Vec::new();
        let mut q: usize = 0;
        while q < coeffs.len()
            invariant
                q <= coeffs@.len(),
                payload@.len() == q,
                polys == coeffs@.map_values(|v: Vec<u8>| v@),
                forall|t: int|
                    0 <= t < q ==> (#[trigger] payload@[t]) == poly_eval(polys[t], x),
            decreases coeffs@.len() - q,
        {
            let y = eval_poly(&coeffs[q], x);
            payload.push(y);
            q = q + 1;
        }
        shares.push(Share { index: x, threshold: k, payload });
        j = j + 1;
    }
    proof {
        assert(shares_of_polys(shares@, polys, secret@, k));
    }
    Ok(shares)
}

/// Recombine shares into the secret they were split from.
///
/// The threshold is read from the shares themselves. Fails with
/// `InsufficientShares` when no share or fewer than the declared
/// threshold are offered, and with `InconsistentShares` when the shares
/// disagree on threshold or length, carry the index zero, or repeat an
/// index; it never returns a partially-recombined secret.
pub fn combine(shares: &Vec<Share>) -> (r: Result<Vec<u8>, Error>)
    ensures
        shares@.len() == 0 ==> r == Err::<Vec<u8>, Error>(Error::InsufficientShares),
        shares@.len() > 0 && !consistent_shares(shares@) ==> r == Err::<Vec<u8>, Error>(
            Error::InconsistentShares,
        ),
        shares@.len() > 0 && consistent_shares(shares@) && !distinct_indices(shares@) ==> r == Err::<
            Vec<u8>,
            Error,
        >(Error::InconsistentShares),
        shares@.len() > 0 && consistent_shares(shares@) && distinct_indices(shares@) && shares@.len()
            < shares@[0].threshold ==> r == Err::<Vec<u8>, Error>(Error::InsufficientShares),
        shares@.len() > 0 && consistent_shares(shares@) && distinct_indices(shares@) && shares@.len()
            >= shares@[0].threshold ==> (r matches Ok(secret) && secret@ == combined_secret(shares@)),
{
    if shares.len() == 0 {
        return Err(Error::InsufficientShares);
    }
    let k = shares[0].threshold;
    let plen = shares[0].payload.len();
    // Reject disagreeing metadata and the index zero.
    let mut i: usize = 0;
    while i < shares.len()
        invariant
            i <= shares@.len(),
            shares@.len() > 0,
            k == shares@[0].threshold,
            plen == shares@[0].payload.len(),
            forall|t: int|
                0 <= t < i ==> (#[trigger] shares@[t].threshold) == k && shares@[t].payload.len()
                    == plen && shares@[t].index != 0,
        decreases shares@.len() - i,
    {
        if shares[i].threshold != k || shares[i].payload.len() != plen || shares[i].index == 0 {
            return Err(Error::InconsistentShares);
        }
        let ghost i0 = i as int;
        i = i + 1;
        proof {
            assert forall|t: int|
                0 <= t < i implies (#[trigger] shares@[t].threshold) == k && shares@[t].payload.len()
                == plen && shares@[t].index != 0 by {
                if t == i0 {
                    assert(shares@[t].threshold == k);
                    assert(shares@[t].payload.len() == plen);
                    assert(shares@[t].index != 0);
                } else {
                    assert(shares@[t].threshold == k);
                }
            }
        }
    }
    // Reject repeated indices.
    let mut a: usize = 0;
    while a < shares.len()
        invariant
            a <= shares@.len(),
            forall|s: int, t: int|
                0 <= s < t < shares@.len() && s < a ==> (#[trigger] shares@[s].index) != (
                #[trigger] shares@[t].index),
        decreases shares@.len() - a,
    {
        let mut b: usize = a + 1;
        while b < shares.len()
            invariant
                a < b || a + 1 == b,
                a < shares@.len(),
                a + 1 <= b <= shares@.len(),
                forall|t: int|
                    a < t < b ==> (#[trigger] shares@[t].index) != shares@[a as int].index,
            decreases shares@.len() - b,
        {
            if shares[b].index == shares[a].index {
                return Err(Error::InconsistentShares);
            }
            b = b + 1;
        }
        a = a + 1;
    }
    if shares.len() < k as usize {
        return Err(Error::InsufficientShares);
    }
    // Interpolate each byte position at x = 0 over the first k shares.
    let ghost xs = share_xs(shares@, k as int);
    let mut secret: Vec<u8> = Vec::new();
    let mut p: usize = 0;
    while p < plen
        invariant
            p <= plen,
            plen == shares@[0].payload.len(),
            k == shares@[0].threshold,
            k as int <= shares@.len(),
            consistent_shares(shares@),
            xs == share_xs(shares@, k as int),
            secret@.len() == p,
            forall|t: int|
                0 <= t < p ==> (#[trigger] secret@[t]) == interp_at_zero(
                    xs,
                    share_col(shares@, k as int, t),
                ),
        decreases plen - p,
    {
        let ghost ys = share_col(shares@, k as int, p as int);
        let mut acc: u8 = 0;
        let mut j: usize = 0;
        while j < k as usize
            invariant
                j <= k,
                k as int <= shares@.len(),
                p < plen,
                plen == shares@[0].payload.len(),
                k == shares@[0].threshold,
                consistent_shares(shares@),
                xs == share_xs(shares@, k as int),
                ys == share_col(shares@, k as int, p as int),
                acc == interp_prefix(xs, ys, j as int),
            decreases k - j,
        {
            // Lagrange basis coefficient for point j.
            let mut basis: u8 = 1;
            let mut m: usize = 0;
            while m < k as usize
                invariant
                    m <= k,
                    j < k,
                    k as int <= shares@.len(),
                    consistent_shares(shares@),
                    xs == share_xs(shares@, k as int),
                    basis == lag_basis_prefix(xs, j as int, m as int),
                decreases k - m,
            {
                if m != j {
                    let num = shares[m].index;
                    let den = shares[m].index ^ shares[j].index;
                    let term = gf256::mult(num, gf256::inv(den));
                    basis = gf256::mult(basis, term);
                }
                m = m + 1;
            }
            proof {
                assert(shares@[j as int].threshold == shares@[0].threshold);
            }
            let y = shares[j].payload[p];
            proof {
                assert(ys[j as int] == shares@[j as int].payload[p as int]);
            }
            acc = acc ^ gf256::mult(basis, y);
            j = j + 1;
        }
        secret.push(acc);
        p = p + 1;
    }
    proof {
        assert(secret@ =~= combined_secret(shares@));
    }
    Ok(secret)
}

/// With threshold one, each share's payload is the secret itself, and
/// recombining any single share returns the secret byte-for-byte: the
/// degenerate `k = 1` case of threshold correctness.
pub proof fn lemma_threshold_one_roundtrip(shares: Seq<Share>, polys: Seq<Seq<u8>>, secret: Seq<u8>, sel: Share)
    requires
        shares_of_polys(shares, polys, secret, 1),
        exists|j: int| 0 <= j < shares.len() && shares[j] == sel,
        sel.threshold == 1,
        sel.index != 0,
        sel.payload.len() == secret.len(),
    ensures
        combined_secret(seq![sel]) == secret,
        sel.payload@ == secret,
{
    let j = choose|j: int| 0 <= j < shares.len() && shares[j] == sel;
    assert forall|p: int| 0 <= p < secret.len() implies sel.payload[p] == secret[p] by {
        assert(shares[j].payload[p] == poly_eval(polys[p], shares[j].index));
        let c = polys[p];
        assert(c.len() == 1);
        assert(c.subrange(1, 1) =~= Seq::<u8>::empty());
        assert(poly_eval(Seq::<u8>::empty(), sel.index) == 0u8);
        assert(poly_eval(c, sel.index) == (c[0] ^ gf256::gf_mul(sel.index, 0u8)) as u8);
        gf256::lemma_gf_mul_zero_right(sel.index, 8);
        let v: u8 = c[0];
        assert((v ^ 0u8) == v) by (bit_vector);
    };
    let single = seq![sel];
    assert forall|p: int| 0 <= p < secret.len() implies combined_secret(single)[p] == secret[p] by {
        let xs = share_xs(single, 1);
        let ys = share_col(single, 1, p);
        assert(lag_basis_prefix(xs, 0, 0) == 1u8);
        assert(lag_basis(xs, 0) == 1u8);
        gf256::lemma_gf_mul_one_left(ys[0]);
        assert(interp_prefix(xs, ys, 1) == (interp_prefix(xs, ys, 0) ^ gf256::gf_mul(1u8, ys[0])) as u8);
        let w: u8 = sel.payload[p];
        assert((0u8 ^ w) == w) by (bit_vector);
    };
    assert(combined_secret(single) =~= secret);
    assert(sel.payload@ =~= secret);
}

} // verus!
