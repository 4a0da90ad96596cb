//! Embedding vectors and the cosine-similarity order, computed exactly.
//!
//! A vector is a sequence of fixed-point components, each bounded by
//! [`COMPONENT_BOUND`], with at most [`DIM_BOUND`] dimensions. Under those
//! bounds every dot product fits in `i64` and the cosine-similarity order can
//! be decided exactly in `i128`, with no floating point and no square roots:
//! `dot(a,q)/(‖a‖·‖q‖) >= dot(b,q)/(‖b‖·‖q‖)` is decided by comparing signs
//! and then the cross-multiplied squares `dot(a,q)²·‖b‖²` and
//! `dot(b,q)²·‖a‖²`. Larger means more similar. A vector with zero norm is
//! given similarity zero.

use vstd::prelude::*;

verus! {

use vstd::arithmetic::mul::lemma_mul_inequality;
use vstd::arithmetic::mul::lemma_mul_is_distributive_add_other_way;
use vstd::arithmetic::mul::lemma_mul_upper_bound;
use vstd::arithmetic::mul::lemma_mul_inequality_converse;
use vstd::arithmetic::mul::lemma_mul_nonnegative;

/// Largest allowed magnitude of a single fixed-point vector component.
pub const COMPONENT_BOUND: i64 = 32767;

/// Largest allowed number of dimensions of a vector.
pub const DIM_BOUND: usize = 2048;

/// Largest magnitude a dot product of two valid vectors can reach:
/// `DIM_BOUND * COMPONENT_BOUND * COMPONENT_BOUND`.
pub const DOT_BOUND: i64 = 2048 * 32767 * 32767;

/// A vector the library accepts: bounded dimension and bounded components.
pub open spec fn valid_vector(v: Seq<i64>) -> bool {
    &&& v.len() <= DIM_BOUND
    &&& forall|i: int|
        0 <= i < v.len() ==> -COMPONENT_BOUND <= #[trigger] v[i] <= COMPONENT_BOUND
}

/// Dot product of the first `n` components of `a` and `b`.
pub open spec fn dot_prefix(a: Seq<i64>, b: Seq<i64>, n: int) -> int
    recommends
        n <= a.len(),
        n <= b.len(),
    decreases n,
{
    if n <= 0 {
        0
    } else {
        dot_prefix(a, b, n - 1) + a[n - 1] * b[n - 1]
    }
}

/// Dot product of `a` and `b`, truncated to the shorter of the two (a
/// defensive fallback: dimensions are expected to agree).
pub open spec fn dot_s(a: Seq<i64>, b: Seq<i64>) -> int {
    dot_prefix(a, b, vstd::math::min(a.len() as int, b.len() as int))
}

/// Squared Euclidean norm of `a`.
pub open spec fn norm_sq_s(a: Seq<i64>) -> int {
    dot_s(a, a)
}

/// Sign of the cosine similarity of a pair: `d` is the dot product with the
/// query, `n` the squared norm of the record's vector. A zero-norm vector is
/// given similarity zero.
pub open spec fn sim_sign(d: int, n: int) -> int {
    if n <= 0 {
        0
    } else if d > 0 {
        1
    } else if d < 0 {
        -1
    } else {
        0
    }
}

/// The cosine-similarity order, decided exactly: the record scored by
/// `(d1, n1)` is at least as similar to the query as the one scored by
/// `(d2, n2)`. `d` is the dot product with the query, `n` the squared norm of
/// the record's vector; the query's norm is common to both sides and cancels.
pub open spec fn sim_ge(d1: int, n1: int, d2: int, n2: int) -> bool {
    let s1 = sim_sign(d1, n1);
    let s2 = sim_sign(d2, n2);
    if s1 != s2 {
        s1 > s2
    } else if s1 > 0 {
        d1 * d1 * n2 >= d2 * d2 * n1
    } else if s1 < 0 {
        d1 * d1 * n2 <= d2 * d2 * n1
    } else {
        true
    }
}

/// The squared norm of any prefix is nonnegative.
pub proof fn lemma_norm_sq_prefix_nonneg(a: Seq<i64>, n: int)
    requires
        n <= a.len(),
    ensures
        dot_prefix(a, a, n) >= 0,
    decreases n,
{
    if n > 0 {
        lemma_norm_sq_prefix_nonneg(a, n - 1);
        assert(a[n - 1] * a[n - 1] >= 0) by (nonlinear_arith);
    }
}

/// The squared norm of a prefix grows with the prefix.
pub proof fn lemma_norm_sq_prefix_monotone(a: Seq<i64>, m: int, n: int)
    requires
        0 <= m <= n <= a.len(),
    ensures
        dot_prefix(a, a, m) <= dot_prefix(a, a, n),
    decreases n - m,
{
    if m < n {
        lemma_norm_sq_prefix_monotone(a, m, n - 1);
        assert(a[n - 1] * a[n - 1] >= 0) by (nonlinear_arith);
    }
}

/// Cauchy–Schwarz: the square of a dot product never exceeds the product of
/// the squared norms.
pub proof fn lemma_cauchy_schwarz(a: Seq<i64>, b: Seq<i64>, n: int)
    requires
        0 <= n <= a.len(),
        n <= b.len(),
    ensures
        dot_prefix(a, b, n) * dot_prefix(a, b, n) <= dot_prefix(a, a, n) * dot_prefix(b, b, n),
    decreases n,
{
    if n > 0 {
        lemma_cauchy_schwarz(a, b, n - 1);
        lemma_norm_sq_prefix_nonneg(a, n - 1);
        lemma_norm_sq_prefix_nonneg(b, n - 1);
        let d = dot_prefix(a, b, n - 1);
        let na = dot_prefix(a, a, n - 1);
        let nb = dot_prefix(b, b, n - 1);
        let x = a[n - 1] as int;
        let y = b[n - 1] as int;
        let p = x * y;
        let q1 = na * (y * y);
        let q2 = nb * (x * x);
        assert(x * x >= 0) by (nonlinear_arith);
        assert(y * y >= 0) by (nonlinear_arith);
        assert(p * p >= 0) by (nonlinear_arith);
        lemma_mul_nonnegative(na, y * y);
        lemma_mul_nonnegative(nb, x * x);
        // 2·d·p is at most q1 + q2, by comparing squares:
        // (2·d·p)² = 4·d²·p² <= 4·na·nb·p² = 4·q1·q2 <= (q1 + q2)².
        assert((2 * d * p) * (2 * d * p) == 4 * ((d * d) * (p * p))) by (nonlinear_arith);
        lemma_mul_inequality(d * d, na * nb, p * p);
        assert(4 * ((na * nb) * (p * p)) == 4 * (q1 * q2)) by (nonlinear_arith)
            requires
                p == x * y,
                q1 == na * (y * y),
                q2 == nb * (x * x),
        ;
        assert(4 * (q1 * q2) <= (q1 + q2) * (q1 + q2)) by (nonlinear_arith);
        lemma_sq_le(2 * d * p, q1 + q2);
        // Expand the goal and combine the pieces linearly.
        assert((d + p) * (d + p) == d * d + 2 * d * p + p * p) by (nonlinear_arith);
        assert((na + x * x) * (nb + y * y) == na * nb + q1 + q2 + (x * x) * (y * y))
            by (nonlinear_arith)
            requires
                q1 == na * (y * y),
                q2 == nb * (x * x),
        ;
        assert(p * p == (x * x) * (y * y)) by (nonlinear_arith)
            requires
                p == x * y,
        ;
        assert((d + p) * (d + p) <= (na + x * x) * (nb + y * y));
        assert(dot_prefix(a, b, n) == d + p);
        assert(dot_prefix(a, a, n) == na + x * x);
        assert(dot_prefix(b, b, n) == nb + y * y);
    }
}

/// The dot product of two valid vectors, over any common prefix, is bounded
/// by the prefix length times the square of the component bound.
pub proof fn lemma_dot_prefix_bound(a: Seq<i64>, b: Seq<i64>, n: int)
    requires
        valid_vector(a),
        valid_vector(b),
        0 <= n <= a.len(),
        n <= b.len(),
    ensures
        -(n * ((COMPONENT_BOUND as int) * (COMPONENT_BOUND as int))) <= dot_prefix(a, b, n) <= n * (
        (COMPONENT_BOUND as int) * (COMPONENT_BOUND as int)),
    decreases n,
{
    let c = COMPONENT_BOUND as int;
    if n > 0 {
        lemma_dot_prefix_bound(a, b, n - 1);
        assert(-(c * c) <= (a[n - 1] as int) * (b[n - 1] as int) <= c * c) by (nonlinear_arith)
            requires
                -c <= a[n - 1] as int <= c,
                -c <= b[n - 1] as int <= c,
                c > 0,
        ;
        lemma_mul_is_distributive_add_other_way(c * c, n - 1, 1);
        assert(n * (c * c) == (n - 1) * (c * c) + c * c);
    }
}

/// The dot product of two valid vectors lies within [`DOT_BOUND`].
pub proof fn lemma_dot_bounds(a: Seq<i64>, b: Seq<i64>)
    requires
        valid_vector(a),
        valid_vector(b),
    ensures
        -DOT_BOUND <= dot_s(a, b) <= DOT_BOUND,
{
    let c = COMPONENT_BOUND as int;
    let m = vstd::math::min(a.len() as int, b.len() as int);
    lemma_dot_prefix_bound(a, b, m);
    lemma_mul_inequality(m, DIM_BOUND as int, c * c);
}

/// The squared norm of a valid vector lies within `[0, DOT_BOUND]`.
pub proof fn lemma_norm_sq_bounds(v: Seq<i64>)
    requires
        valid_vector(v),
    ensures
        0 <= norm_sq_s(v) <= DOT_BOUND,
{
    lemma_dot_bounds(v, v);
    lemma_norm_sq_prefix_nonneg(v, v.len() as int);
}

/// A square below another square of a nonnegative value bounds the base.
proof fn lemma_sq_le(u: int, v: int)
    requires
        u * u <= v * v,
        v >= 0,
    ensures
        u <= v,
{
    if u > v {
        assert(u * u > v * v) by (nonlinear_arith)
            requires
                u > v,
                v >= 0,
        ;
    }
}

/// Self-similarity is maximal: a vector with positive squared norm, queried
/// against itself, scores at least as high as any other vector scores against
/// it. Its own score is the maximum cosine, one.
pub proof fn lemma_self_similarity_max(v: Seq<i64>, w: Seq<i64>)
    requires
        norm_sq_s(v) > 0,
    ensures
        sim_ge(norm_sq_s(v), norm_sq_s(v), dot_s(v, w), norm_sq_s(w)),
{
    let nv = norm_sq_s(v);
    let nw = norm_sq_s(w);
    let d = dot_s(v, w);
    let m = vstd::math::min(v.len() as int, w.len() as int);
    lemma_norm_sq_prefix_nonneg(w, w.len() as int);
    assert(sim_sign(nv, nv) == 1);
    if sim_sign(d, nw) == 1 {
        lemma_cauchy_schwarz(v, w, m);
        lemma_norm_sq_prefix_monotone(v, m, v.len() as int);
        lemma_norm_sq_prefix_monotone(w, m, w.len() as int);
        lemma_norm_sq_prefix_nonneg(v, m);
        lemma_norm_sq_prefix_nonneg(w, m);
        let pv = dot_prefix(v, v, m);
        let pw = dot_prefix(w, w, m);
        lemma_mul_upper_bound(pv, nv, pw, nw);
        assert(d * d <= nv * nw);
        lemma_mul_inequality(d * d, nv * nw, nv);
        assert(nv * nv * nw == (nv * nw) * nv) by (nonlinear_arith);
        assert(nv * nv * nw >= d * d * nv);
    }
}

/// The similarity order is total.
pub proof fn lemma_sim_ge_total(d1: int, n1: int, d2: int, n2: int)
    ensures
        sim_ge(d1, n1, d2, n2) || sim_ge(d2, n2, d1, n1),
{
}

/// The similarity order is transitive.
pub proof fn lemma_sim_ge_trans(d1: int, n1: int, d2: int, n2: int, d3: int, n3: int)
    requires
        sim_ge(d1, n1, d2, n2),
        sim_ge(d2, n2, d3, n3),
    ensures
        sim_ge(d1, n1, d3, n3),
{
    let s1 = sim_sign(d1, n1);
    let s2 = sim_sign(d2, n2);
    let s3 = sim_sign(d3, n3);
    if s1 == s2 && s2 == s3 {
        if s1 > 0 {
            lemma_mul_inequality(d2 * d2 * n1, d1 * d1 * n2, n3);
            lemma_mul_inequality(d3 * d3 * n2, d2 * d2 * n3, n1);
            assert((d2 * d2 * n1) * n3 == (d2 * d2 * n3) * n1) by (nonlinear_arith);
            assert((d3 * d3 * n2) * n1 == (d3 * d3 * n1) * n2) by (nonlinear_arith);
            assert((d1 * d1 * n2) * n3 == (d1 * d1 * n3) * n2) by (nonlinear_arith);
            lemma_mul_inequality_converse(d3 * d3 * n1, d1 * d1 * n3, n2);
        } else if s1 < 0 {
            lemma_mul_inequality(d1 * d1 * n2, d2 * d2 * n1, n3);
            lemma_mul_inequality(d2 * d2 * n3, d3 * d3 * n2, n1);
            assert((d2 * d2 * n1) * n3 == (d2 * d2 * n3) * n1) by (nonlinear_arith);
            assert((d1 * d1 * n2) * n3 == (d1 * d1 * n3) * n2) by (nonlinear_arith);
            assert((d3 * d3 * n2) * n1 == (d3 * d3 * n1) * n2) by (nonlinear_arith);
            lemma_mul_inequality_converse(d1 * d1 * n3, d3 * d3 * n1, n2);
        }
    }
}

/// The similarity order is reflexive.
pub proof fn lemma_sim_ge_refl(d: int, n: int)
    ensures
        sim_ge(d, n, d, n),
{
}

/// Dot product of two valid vectors, computed exactly; the result is bounded
/// by [`DOT_BOUND`].
pub fn dot(a: &Vec<i64>, b: &Vec<i64>) -> (r: i64)
    requires
        valid_vector(a@),
        valid_vector(b@),
    ensures
        r as int == dot_s(a@, b@),
        -DOT_BOUND <= r <= DOT_BOUND,
{
    let n = if a.len() <= b.len() {
        a.len()
    } else {
        b.len()
    };
    let mut acc: i64 = 0;
    let mut i: usize = 0;
    while i < n
        invariant
            n <= a@.len(),
            n <= b@.len(),
            n <= DIM_BOUND,
            valid_vector(a@),
            valid_vector(b@),
            0 <= i <= n,
            acc as int == dot_prefix(a@, b@, i as int),
            -(i as int) * (COMPONENT_BOUND as int) * (COMPONENT_BOUND as int) <= acc as int
                <= (i as int) * (COMPONENT_BOUND as int) * (COMPONENT_BOUND as int),
            (i as int) * (COMPONENT_BOUND as int) * (COMPONENT_BOUND as int) <= DOT_BOUND,
        decreases n - i,
    {
        proof {
            let c = COMPONENT_BOUND as int;
            assert(-(c * c) <= a@[i as int] * b@[i as int] <= c * c) by (nonlinear_arith)
                requires
                    -c <= a@[i as int] <= c,
                    -c <= b@[i as int] <= c,
                    c > 0,
            ;
            lemma_mul_is_distributive_add_other_way(c, i as int, 1);
            assert((i as int + 1) * c == i as int * c + c);
            lemma_mul_is_distributive_add_other_way(c, i as int * c, c);
            assert((i as int * c + c) * c == (i as int * c) * c + c * c);
            assert((i as int + 1) * c * c == i as int * c * c + c * c);
            lemma_mul_inequality(i as int + 1, DIM_BOUND as int, c * c)
        }
        acc = acc + a[i] * b[i];
        i = i + 1;
    }
    proof {
        let c = COMPONENT_BOUND as int;
        lemma_mul_inequality(n as int, DIM_BOUND as int, c * c);
    }
    acc
}

/// Squared norm of a valid vector.
pub fn norm_sq(a: &Vec<i64>) -> (r: i64)
    requires
        valid_vector(a@),
    ensures
        r as int == norm_sq_s(a@),
        0 <= r <= DOT_BOUND,
{
    let r = dot(a, a);
    proof {
        lemma_norm_sq_prefix_nonneg(a@, a@.len() as int);
    }
    r
}

/// Decides the cosine-similarity order exactly: is the record scored by
/// `(d1, n1)` at least as similar to the query as the one scored by
/// `(d2, n2)`?
pub fn sim_ge_exec(d1: i64, n1: i64, d2: i64, n2: i64) -> (r: bool)
    requires
        -DOT_BOUND <= d1 <= DOT_BOUND,
        -DOT_BOUND <= d2 <= DOT_BOUND,
        0 <= n1 <= DOT_BOUND,
        0 <= n2 <= DOT_BOUND,
    ensures
        r == sim_ge(d1 as int, n1 as int, d2 as int, n2 as int),
{
    let s1: i64 = if n1 <= 0 {
        0
    } else if d1 > 0 {
        1
    } else if d1 < 0 {
        -1
    } else {
        0
    };
    let s2: i64 = if n2 <= 0 {
        0
    } else if d2 > 0 {
        1
    } else if d2 < 0 {
        -1
    } else {
        0
    };
    if s1 != s2 {
        s1 > s2
    } else if s1 == 0 {
        true
    } else {
        proof {
            let b = DOT_BOUND as int;
            assert(0 <= (d1 as int) * (d1 as int) <= b * b) by (nonlinear_arith)
                requires
                    -b <= d1 as int <= b,
                    b > 0,
            ;
            assert(0 <= (d2 as int) * (d2 as int) <= b * b) by (nonlinear_arith)
                requires
                    -b <= d2 as int <= b,
                    b > 0,
            ;
            assert(0 <= (d1 as int) * (d1 as int) * (n2 as int) <= (b * b) * b)
                by (nonlinear_arith)
                requires
                    0 <= (d1 as int) * (d1 as int) <= b * b,
                    0 <= n2 as int <= b,
                    b > 0,
            ;
            assert(0 <= (d2 as int) * (d2 as int) * (n1 as int) <= (b * b) * b)
                by (nonlinear_arith)
                requires
                    0 <= (d2 as int) * (d2 as int) <= b * b,
                    0 <= n1 as int <= b,
                    b > 0,
            ;
            assert((DOT_BOUND as int) * (DOT_BOUND as int) * (DOT_BOUND as int)
                <= 0x7fff_ffff_ffff_ffff_ffff_ffff_ffff_ffff) by (nonlinear_arith);
            assert((DOT_BOUND as int) * (DOT_BOUND as int)
                <= 0x7fff_ffff_ffff_ffff_ffff_ffff_ffff_ffff) by (nonlinear_arith);
        }
        let lhs: i128 = (d1 as i128) * (d1 as i128) * (n2 as i128);
        let rhs: i128 = (d2 as i128) * (d2 as i128) * (n1 as i128);
        if s1 > 0 {
            lhs >= rhs
        } else {
            lhs <= rhs
        }
    }
}

} // verus!
