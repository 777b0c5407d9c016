//! Arithmetic in the finite field GF(2^8).
//!
//! The field is defined by the irreducible polynomial `x^8 + x^4 + x^3 + x + 1`
//! and is handled through a pair of discrete-logarithm tables for the
//! generator `3`: `GF_EXP[i]` is the generator raised to the power `i`, and
//! `GF_LOG` is its inverse on the non-zero field elements.  `GF_EXP` is longer
//! than one period so that a sum of two logarithms can be looked up without a
//! reduction modulo 255.

use vstd::prelude::*;

verus! {

pub const GF_EXP: [u8; 511] = [
    1, 3, 5, 15, 17, 51, 85, 255, 26, 46, 114, 150, 161, 248, 19, 53,
    95, 225, 56, 72, 216, 115, 149, 164, 247, 2, 6, 10, 30, 34, 102, 170,
    229, 52, 92, 228, 55, 89, 235, 38, 106, 190, 217, 112, 144, 171, 230, 49,
    83, 245, 4, 12, 20, 60, 68, 204, 79, 209, 104, 184, 211, 110, 178, 205,
    76, 212, 103, 169, 224, 59, 77, 215, 98, 166, 241, 8, 24, 40, 120, 136,
    131, 158, 185, 208, 107, 189, 220, 127, 129, 152, 179, 206, 73, 219, 118, 154,
    181, 196, 87, 249, 16, 48, 80, 240, 11, 29, 39, 105, 187, 214, 97, 163,
    254, 25, 43, 125, 135, 146, 173, 236, 47, 113, 147, 174, 233, 32, 96, 160,
    251, 22, 58, 78, 210, 109, 183, 194, 93, 231, 50, 86, 250, 21, 63, 65,
    195, 94, 226, 61, 71, 201, 64, 192, 91, 237, 44, 116, 156, 191, 218, 117,
    159, 186, 213, 100, 172, 239, 42, 126, 130, 157, 188, 223, 122, 142, 137, 128,
    155, 182, 193, 88, 232, 35, 101, 175, 234, 37, 111, 177, 200, 67, 197, 84,
    252, 31, 33, 99, 165, 244, 7, 9, 27, 45, 119, 153, 176, 203, 70, 202,
    69, 207, 74, 222, 121, 139, 134, 145, 168, 227, 62, 66, 198, 81, 243, 14,
    18, 54, 90, 238, 41, 123, 141, 140, 143, 138, 133, 148, 167, 242, 13, 23,
    57, 75, 221, 124, 132, 151, 162, 253, 28, 36, 108, 180, 199, 82, 246, 1,
    3, 5, 15, 17, 51, 85, 255, 26, 46, 114, 150, 161, 248, 19, 53, 95,
    225, 56, 72, 216, 115, 149, 164, 247, 2, 6, 10, 30, 34, 102, 170, 229,
    52, 92, 228, 55, 89, 235, 38, 106, 190, 217, 112, 144, 171, 230, 49, 83,
    245, 4, 12, 20, 60, 68, 204, 79, 209, 104, 184, 211, 110, 178, 205, 76,
    212, 103, 169, 224, 59, 77, 215, 98, 166, 241, 8, 24, 40, 120, 136, 131,
    158, 185, 208, 107, 189, 220, 127, 129, 152, 179, 206, 73, 219, 118, 154, 181,
    196, 87, 249, 16, 48, 80, 240, 11, 29, 39, 105, 187, 214, 97, 163, 254,
    25, 43, 125, 135, 146, 173, 236, 47, 113, 147, 174, 233, 32, 96, 160, 251,
    22, 58, 78, 210, 109, 183, 194, 93, 231, 50, 86, 250, 21, 63, 65, 195,
    94, 226, 61, 71, 201, 64, 192, 91, 237, 44, 116, 156, 191, 218, 117, 159,
    186, 213, 100, 172, 239, 42, 126, 130, 157, 188, 223, 122, 142, 137, 128, 155,
    182, 193, 88, 232, 35, 101, 175, 234, 37, 111, 177, 200, 67, 197, 84, 252,
    31, 33, 99, 165, 244, 7, 9, 27, 45, 119, 153, 176, 203, 70, 202, 69,
    207, 74, 222, 121, 139, 134, 145, 168, 227, 62, 66, 198, 81, 243, 14, 18,
    54, 90, 238, 41, 123, 141, 140, 143, 138, 133, 148, 167, 242, 13, 23, 57,
    75, 221, 124, 132, 151, 162, 253, 28, 36, 108, 180, 199, 82, 246, 1,
];

pub const GF_LOG: [u8; 256] = [
    0, 0, 25, 1, 50, 2, 26, 198, 75, 199, 27, 104, 51, 238, 223, 3,
    100, 4, 224, 14, 52, 141, 129, 239, 76, 113, 8, 200, 248, 105, 28, 193,
    125, 194, 29, 181, 249, 185, 39, 106, 77, 228, 166, 114, 154, 201, 9, 120,
    101, 47, 138, 5, 33, 15, 225, 36, 18, 240, 130, 69, 53, 147, 218, 142,
    150, 143, 219, 189, 54, 208, 206, 148, 19, 92, 210, 241, 64, 70, 131, 56,
    102, 221, 253, 48, 191, 6, 139, 98, 179, 37, 226, 152, 34, 136, 145, 16,
    126, 110, 72, 195, 163, 182, 30, 66, 58, 107, 40, 84, 250, 133, 61, 186,
    43, 121, 10, 21, 155, 159, 94, 202, 78, 212, 172, 229, 243, 115, 167, 87,
    175, 88, 168, 80, 244, 234, 214, 116, 79, 174, 233, 213, 231, 230, 173, 232,
    44, 215, 117, 122, 235, 22, 11, 245, 89, 203, 95, 176, 156, 169, 81, 160,
    127, 12, 246, 111, 23, 196, 73, 236, 216, 67, 31, 45, 164, 118, 123, 183,
    204, 187, 62, 90, 251, 96, 177, 134, 59, 82, 161, 108, 170, 85, 41, 157,
    151, 178, 135, 144, 97, 190, 220, 252, 188, 149, 207, 205, 55, 63, 91, 209,
    83, 57, 132, 60, 65, 162, 109, 71, 20, 42, 158, 93, 86, 242, 211, 171,
    68, 17, 146, 217, 35, 32, 46, 137, 180, 124, 184, 38, 119, 153, 227, 165,
    103, 74, 237, 222, 197, 49, 254, 24, 13, 99, 140, 128, 192, 247, 112, 7,
];

/// Field addition: the bitwise exclusive or of the two elements.
pub open spec fn gf_add(a: u8, b: u8) -> u8 {
    a ^ b
}

/// Field subtraction coincides with addition, since every element is its own
/// additive inverse.
pub open spec fn gf_sub(a: u8, b: u8) -> u8 {
    gf_add(a, b)
}

/// Field multiplication through the discrete-logarithm tables.
#[verifier::opaque]
pub open spec fn gf_mul(a: u8, b: u8) -> u8 {
    if a == 0 || b == 0 {
        0
    } else {
        GF_EXP@[GF_LOG@[a as int] as int + GF_LOG@[b as int] as int]
    }
}

/// Field division: multiplication by the inverse of `b`, looked up as the
/// generator raised to `255 - log(b)`.  Only meaningful for `b != 0`.
#[verifier::opaque]
pub open spec fn gf_div(a: u8, b: u8) -> u8 {
    gf_mul(a, GF_EXP@[255 - GF_LOG@[b as int] as int])
}

#[verifier::rlimit(50)]
proof fn lemma_exp_nonzero()
    ensures
        forall|i: int| 0 <= i < 511 ==> #[trigger] GF_EXP@[i] != 0,
{
}

#[verifier::rlimit(50)]
proof fn lemma_log_bound()
    ensures
        forall|a: int| 1 <= a < 256 ==> #[trigger] GF_LOG@[a] < 255,
{
}

#[verifier::rlimit(50)]
proof fn lemma_exp_of_log()
    ensures
        forall|a: int| 1 <= a < 256 ==> #[trigger] GF_EXP@[GF_LOG@[a] as int] == a,
{
}

#[verifier::rlimit(50)]
proof fn lemma_log_of_exp()
    ensures
        forall|i: int| 0 <= i < 255 ==> #[trigger] GF_LOG@[GF_EXP@[i] as int] == i,
{
}

#[verifier::rlimit(50)]
proof fn lemma_exp_period()
    ensures
        forall|i: int| 255 <= i < 511 ==> #[trigger] GF_EXP@[i] == GF_EXP@[i - 255],
{
}

/// The exponential table maps indices congruent modulo the order of the
/// multiplicative group to the same element.
proof fn lemma_exp_congruent(i: int, j: int)
    requires
        0 <= i < 511,
        0 <= j < 511,
        i == j || i + 255 == j || j + 255 == i,
    ensures
        GF_EXP@[i] == GF_EXP@[j],
{
    lemma_exp_period();
}

/// The logarithm of any entry of the exponential table is the index reduced
/// into one period of the multiplicative group.
proof fn lemma_log_of_exp_any(i: int)
    requires
        0 <= i < 510,
    ensures
        GF_LOG@[GF_EXP@[i] as int] == if i < 255 {
            i
        } else {
            i - 255
        },
{
    lemma_log_of_exp();
    lemma_exp_period();
    if i >= 255 {
        assert(GF_EXP@[i] == GF_EXP@[i - 255]);
        assert(GF_LOG@[GF_EXP@[i - 255] as int] == i - 255);
    }
}

/// Addition is commutative.
pub proof fn lemma_add_commutes(a: u8, b: u8)
    ensures
        gf_add(a, b) == gf_add(b, a),
{
    assert(a ^ b == b ^ a) by (bit_vector);
}

/// Subtraction undoes addition.
pub proof fn lemma_sub_cancels_add(a: u8, b: u8)
    ensures
        gf_sub(gf_add(a, b), b) == a,
{
    assert((a ^ b) ^ b == a) by (bit_vector);
}

/// Zero is the additive identity.
pub proof fn lemma_add_identity(a: u8)
    ensures
        gf_add(0, a) == a,
        gf_add(a, 0) == a,
{
    assert(0 ^ a == a) by (bit_vector);
    assert(a ^ 0 == a) by (bit_vector);
}

/// Zero annihilates under multiplication.
pub proof fn lemma_mul_zero(a: u8)
    ensures
        gf_mul(0, a) == 0,
        gf_mul(a, 0) == 0,
{
    reveal(crate::gf256::gf_mul);
}

/// One is the multiplicative identity.
pub proof fn lemma_mul_identity(a: u8)
    ensures
        gf_mul(1, a) == a,
        gf_mul(a, 1) == a,
{
    reveal(crate::gf256::gf_mul);
    lemma_exp_of_log();
    assert(GF_LOG@[1] == 0);
}

/// Multiplication is commutative.
pub proof fn lemma_mul_commutes(a: u8, b: u8)
    ensures
        gf_mul(a, b) == gf_mul(b, a),
{
    reveal(crate::gf256::gf_mul);
}

/// Division undoes multiplication: `(a * b) / b == a` for `b != 0`.
pub proof fn lemma_div_cancels_mul(a: u8, b: u8)
    requires
        b != 0,
    ensures
        gf_div(gf_mul(a, b), b) == a,
{
    reveal(crate::gf256::gf_mul);
    reveal(crate::gf256::gf_div);
    lemma_exp_nonzero();
    lemma_log_bound();
    lemma_exp_of_log();
    let lb = GF_LOG@[b as int] as int;
    let inv = GF_EXP@[255 - lb];
    lemma_log_of_exp_any(255 - lb);
    if a == 0 {
        assert(gf_mul(a, b) == 0);
        assert(gf_div(0, b) == 0);
    } else {
        let la = GF_LOG@[a as int] as int;
        let m = GF_EXP@[la + lb];
        lemma_log_of_exp_any(la + lb);
        let lm = GF_LOG@[m as int] as int;
        let linv = GF_LOG@[inv as int] as int;
        assert(gf_div(m, b) == GF_EXP@[lm + linv]);
        assert(linv == if lb == 0 {
            0
        } else {
            255 - lb
        });
        lemma_exp_congruent(lm + linv, la);
    }
}

/// Multiplication undoes division: `(a / b) * b == a` for `b != 0`.
pub proof fn lemma_mul_cancels_div(a: u8, b: u8)
    requires
        b != 0,
    ensures
        gf_mul(gf_div(a, b), b) == a,
{
    reveal(crate::gf256::gf_mul);
    reveal(crate::gf256::gf_div);
    lemma_exp_nonzero();
    lemma_log_bound();
    lemma_exp_of_log();
    let lb = GF_LOG@[b as int] as int;
    let inv = GF_EXP@[255 - lb];
    lemma_log_of_exp_any(255 - lb);
    if a == 0 {
        assert(gf_div(a, b) == 0);
    } else {
        let la = GF_LOG@[a as int] as int;
        let linv = GF_LOG@[inv as int] as int;
        let d = GF_EXP@[la + linv];
        lemma_log_of_exp_any(la + linv);
        let ld = GF_LOG@[d as int] as int;
        assert(gf_mul(d, b) == GF_EXP@[ld + lb]);
        assert(linv == if lb == 0 {
            0
        } else {
            255 - lb
        });
        lemma_exp_congruent(ld + lb, la);
    }
}

/// The degree of a polynomial given by its coefficients, constant term
/// first: the highest index holding a non-zero coefficient, or zero when
/// there is none.
pub open spec fn gf_degree(p: Seq<u8>) -> int
    decreases p.len(),
{
    if p.len() <= 1 {
        0
    } else if p.last() != 0 {
        p.len() - 1
    } else {
        gf_degree(p.drop_last())
    }
}

/// Evaluation of a polynomial at `x` by Horner's method, in field
/// arithmetic.
pub open spec fn gf_eval(p: Seq<u8>, x: u8) -> u8
    decreases p.len(),
{
    if p.len() == 0 {
        0
    } else {
        gf_add(gf_mul(gf_eval(p.skip(1), x), x), p[0])
    }
}

/// One factor of the Lagrange basis for the point `i`, taken at `x = 0`:
/// `(0 - x_j) / (x_i - x_j)`.
pub open spec fn lag_term(pts: Seq<(u8, u8)>, i: int, j: int) -> u8 {
    gf_div(gf_sub(0, pts[j].0), gf_sub(pts[i].0, pts[j].0))
}

/// The Lagrange basis coefficient for the point `i`, folded over the first
/// `k` points, skipping `i` itself.
pub open spec fn lag_basis(pts: Seq<(u8, u8)>, i: int, k: int) -> u8
    decreases k,
{
    if k <= 0 {
        1
    } else if i == k - 1 {
        lag_basis(pts, i, k - 1)
    } else {
        gf_mul(lag_basis(pts, i, k - 1), lag_term(pts, i, k - 1))
    }
}

/// The interpolation sum folded over the first `k` points.
pub open spec fn interp_acc(pts: Seq<(u8, u8)>, k: int) -> u8
    decreases k,
{
    if k <= 0 {
        0
    } else {
        gf_add(
            interp_acc(pts, k - 1),
            gf_mul(lag_basis(pts, k - 1, pts.len() as int), pts[k - 1].1),
        )
    }
}

/// Lagrange interpolation at `x = 0` over `(x, y)` points with pairwise
/// distinct `x` coordinates.
pub open spec fn gf_interpolate(pts: Seq<(u8, u8)>) -> u8 {
    interp_acc(pts, pts.len() as int)
}

/// The `(x, y)` pairs held in the first two entries of each inner sequence.
pub open spec fn pts_pairs(points: Seq<Seq<u8>>) -> Seq<(u8, u8)> {
    points.map_values(|p: Seq<u8>| (p[0], p[1]))
}

/// Field addition of two elements.
pub fn add(a: u8, b: u8) -> (r: u8)
    ensures
        r == gf_add(a, b),
{
    a ^ b
}

/// Field subtraction of two elements; identical to addition.
pub fn sub(a: u8, b: u8) -> (r: u8)
    ensures
        r == gf_sub(a, b),
{
    crate::gf256::add(a, b)
}

/// Field multiplication of two elements.
pub fn mul(a: u8, b: u8) -> (r: u8)
    ensures
        r == gf_mul(a, b),
{
    proof {
        reveal(crate::gf256::gf_mul);
    }
    if a == 0 || b == 0 {
        0
    } else {
        let la: usize = GF_LOG[a as usize] as usize;
        let lb: usize = GF_LOG[b as usize] as usize;
        GF_EXP[la + lb]
    }
}

/// Field division of `a` by `b`.  The caller must never pass `b == 0`: a
/// division by zero has no meaning in the field.
pub fn div(a: u8, b: u8) -> (r: u8)
    requires
        b != 0,
    ensures
        r == gf_div(a, b),
{
    proof {
        reveal(crate::gf256::gf_div);
    }
    let lb: usize = GF_LOG[b as usize] as usize;
    crate::gf256::mul(a, GF_EXP[255 - lb])
}

/// The degree of the polynomial `p`: the highest index holding a non-zero
/// coefficient, or zero when there is none.
pub fn degree(p: &[u8]) -> (d: usize)
    requires
        p@.len() >= 1,
    ensures
        d == gf_degree(p@),
{
    let n: usize = p.len();
    proof {
        assert(p@.subrange(0, n as int) =~= p@);
    }
    let mut i: usize = n - 1;
    while i >= 1
        invariant
            n == p@.len(),
            n >= 1,
            i <= n - 1,
            gf_degree(p@) == gf_degree(p@.subrange(0, i + 1)),
        decreases i,
    {
        if p[i] != 0 {
            proof {
                assert(p@.subrange(0, i + 1).last() == p@[i as int]);
            }
            return i;
        }
        proof {
            assert(p@.subrange(0, i + 1).last() == p@[i as int]);
            assert(p@.subrange(0, i + 1).drop_last() =~= p@.subrange(0, i as int));
        }
        i -= 1;
    }
    0
}

/// Evaluation of the polynomial `p` at the field element `x` by Horner's
/// method.
pub fn eval(p: &[u8], x: u8) -> (y: u8)
    requires
        p@.len() >= 1,
    ensures
        y == gf_eval(p@, x),
{
    let mut result: u8 = 0;
    let mut i: usize = p.len();
    while i > 0
        invariant
            i <= p@.len(),
            result == gf_eval(p@.skip(i as int), x),
        decreases i,
    {
        i -= 1;
        result = crate::gf256::add(crate::gf256::mul(result, x), p[i]);
        proof {
            assert(p@.skip(i as int).skip(1) =~= p@.skip(i as int + 1));
        }
    }
    proof {
        assert(p@.skip(0) =~= p@);
    }
    result
}

/// Build the polynomial for one secret byte: `d` coefficients drawn from
/// the system's secure random source, the leading one forced non-zero so
/// that the degree is exactly `d - 1`, and the constant term overwritten
/// with `x`.
#[verifier::rlimit(50)]
pub fn generate_coeffs(d: u8, x: u8) -> (p: Vec<u8>)
    requires
        d >= 1,
    ensures
        p@.len() == d as nat,
        p@[0] == x,
        gf_degree(p@) == d - 1,
{
    let mut rng = crate::rng::new_rng();
    let mut p = crate::rng::fill_random_bytes(&mut rng, d as usize);
    if d > 1 {
        let hi = crate::rng::random_nonzero_element(&mut rng);
        p.set(d as usize - 1, hi);
    }
    p.set(0, x);
    p
}

/// Lagrange interpolation at `x = 0` over the given points, each a sequence
/// holding an `x` coordinate and a `y` value.  The `x` coordinates must be
/// pairwise distinct: a repeated coordinate would force a division by zero.
pub fn interpolate(points: Vec<Vec<u8>>) -> (y: u8)
    requires
        forall|j: int| 0 <= j < points@.len() ==> #[trigger] points@[j]@.len() >= 2,
        forall|i: int, j: int|
            0 <= i < j < points@.len() ==> points@[i]@[0] != points@[j]@[0],
    ensures
        y == gf_interpolate(pts_pairs(points.deep_view())),
{
    let ghost pts = pts_pairs(points.deep_view());
    proof {
        assert(points.deep_view().len() == points@.len());
        assert(forall|k: int|
            0 <= k < points@.len() ==> #[trigger] points.deep_view()[k] == points@[k]@);
        assert(pts.len() == points@.len());
        assert(forall|k: int|
            0 <= k < points@.len() ==> #[trigger] pts[k] == (points@[k]@[0], points@[k]@[1]));
    }
    let n: usize = points.len();
    let mut y: u8 = 0;
    let mut i: usize = 0;
    while i < n
        invariant
            i <= n,
            n == points@.len(),
            pts.len() == n,
            forall|k: int| 0 <= k < n ==> #[trigger] points@[k]@.len() >= 2,
            forall|k: int, l: int| 0 <= k < l < n ==> points@[k]@[0] != points@[l]@[0],
            forall|k: int|
                0 <= k < n ==> #[trigger] pts[k] == (points@[k]@[0], points@[k]@[1]),
            y == interp_acc(pts, i as int),
        decreases n - i,
    {
        let a_x: u8 = points[i][0];
        let a_y: u8 = points[i][1];
        let mut li: u8 = 1;
        let mut j: usize = 0;
        while j < n
            invariant
                j <= n,
                i < n,
                n == points@.len(),
                pts.len() == n,
                forall|k: int| 0 <= k < n ==> #[trigger] points@[k]@.len() >= 2,
                forall|k: int, l: int| 0 <= k < l < n ==> points@[k]@[0] != points@[l]@[0],
                forall|k: int|
                    0 <= k < n ==> #[trigger] pts[k] == (points@[k]@[0], points@[k]@[1]),
                a_x == pts[i as int].0,
                a_y == pts[i as int].1,
                li == lag_basis(pts, i as int, j as int),
            decreases n - j,
        {
            if i != j {
                let b_x: u8 = points[j][0];
                proof {
                    assert(a_x != b_x);
                    assert(a_x != b_x ==> (a_x ^ b_x) != 0) by (bit_vector);
                }
                li = crate::gf256::mul(
                    li,
                    crate::gf256::div(crate::gf256::sub(0, b_x), crate::gf256::sub(a_x, b_x)),
                );
            }
            j += 1;
        }
        y = crate::gf256::add(y, crate::gf256::mul(li, a_y));
        i += 1;
    }
    y
}

} // verus!
