//! The number-theoretic transform over Z_q[X]/(X^256 + 1) (Cooley-Tukey
//! forward, Gentleman-Sande inverse, with Montgomery multiplications), the
//! pointwise product in the NTT domain and the matrix-vector product.

use vstd::prelude::*;
use crate::consts::{zeta, zeta_spec, two32};
use crate::params::{N, Q};
use crate::poly::Poly;
use crate::reduce::{mont, montgomery_input_ok, montgomery_reduce, reduce32};
use crate::modq::{cong, lemma_cong_ops, lemma_cong_trans, lemma_mont_cong, rinv};
use crate::twiddles::{itw, lemma_twiddle_pairs, tw, twiddles_inverse};

verus! {

/// Every coefficient of p is below b in absolute value.
pub open spec fn coeffs_bounded(p: Poly, b: int) -> bool {
    forall|i: int| 0 <= i < N ==> -b < #[trigger] p.coeffs[i] < b
}

/// The 256 coefficients as integers.
pub open spec fn ints(a: Seq<i32>) -> Seq<int> {
    Seq::new(256, |i: int| a[i] as int)
}

/// a[i] = b[i] (mod q).
pub open spec fn cong_at(a: Seq<int>, b: Seq<int>, i: int) -> bool {
    cong(a[i], b[i])
}

/// The 256 coefficients of a and b agree modulo q.
pub open spec fn cong_seq(a: Seq<int>, b: Seq<int>) -> bool {
    forall|i: int| 0 <= i < 256 ==> #[trigger] cong_at(a, b, i)
}

/// Every coefficient times c.
pub open spec fn scale(a: Seq<int>, c: int) -> Seq<int> {
    Seq::new(256, |i: int| a[i] * c)
}

/// The eight layers of the NTT: blocks of 2 len coefficients, `blocks` of
/// them.
pub open spec fn layer_ok(len: int, blocks: int) -> bool {
    ||| len == 128 && blocks == 1
    ||| len == 64 && blocks == 2
    ||| len == 32 && blocks == 4
    ||| len == 16 && blocks == 8
    ||| len == 8 && blocks == 16
    ||| len == 4 && blocks == 32
    ||| len == 2 && blocks == 64
    ||| len == 1 && blocks == 128
}

/// One layer of the forward NTT (Cooley-Tukey butterflies): in block b,
/// (x_j, x_(j+len)) becomes (x_j + w x_(j+len), x_j - w x_(j+len)) with w
/// the twiddle factor blocks + b.
#[verifier::opaque]
pub open spec fn fwd_layer(x: Seq<int>, len: int, blocks: int) -> Seq<int> {
    Seq::new(
        256,
        |i: int|
            if i % (2 * len) < len {
                x[i] + tw(blocks + i / (2 * len)) * x[i + len]
            } else {
                x[i - len] - tw(blocks + i / (2 * len)) * x[i]
            },
    )
}

/// One layer of the inverse NTT (Gentleman-Sande butterflies): in block b,
/// (x_j, x_(j+len)) becomes (x_j + x_(j+len), (x_j - x_(j+len)) v) with v the
/// inverse twiddle factor 2 blocks - 1 - b.
#[verifier::opaque]
pub open spec fn inv_layer(x: Seq<int>, len: int, blocks: int) -> Seq<int> {
    Seq::new(
        256,
        |i: int|
            if i % (2 * len) < len {
                x[i] + x[i + len]
            } else {
                (x[i - len] - x[i]) * itw(2 * blocks - 1 - i / (2 * len))
            },
    )
}

/// The forward NTT modulo q: the eight layers, block length 128 first.
pub open spec fn ntt_spec(x: Seq<int>) -> Seq<int> {
    fwd_layer(
        fwd_layer(
            fwd_layer(
                fwd_layer(
                    fwd_layer(fwd_layer(fwd_layer(fwd_layer(x, 128, 1), 64, 2), 32, 4), 16, 8),
                    8,
                    16,
                ),
                4,
                32,
            ),
            2,
            64,
        ),
        1,
        128,
    )
}

/// The inverse layers of the NTT, block length 1 first, before scaling.
pub open spec fn inv_layers(x: Seq<int>) -> Seq<int> {
    inv_layer(
        inv_layer(
            inv_layer(
                inv_layer(
                    inv_layer(inv_layer(inv_layer(inv_layer(x, 1, 128), 2, 64), 4, 32), 8, 16),
                    16,
                    8,
                ),
                32,
                4,
            ),
            64,
            2,
        ),
        128,
        1,
    )
}

/// The inverse NTT modulo q, with the factor 41978 2^-32 = 2^32 / 256 of
/// its last step.
pub open spec fn inv_ntt_spec(x: Seq<int>) -> Seq<int> {
    scale(inv_layers(x), 41978 * rinv())
}

/// One layer of the forward NTT as computed, with Montgomery reduction: in
/// block b, (x_j, x_(j+len)) becomes (x_j + t, x_j - t) for
/// t = mont(z x_(j+len)), z the table entry blocks + b.
#[verifier::opaque]
pub open spec fn fwd_layer_exact(x: Seq<int>, len: int, blocks: int) -> Seq<int> {
    Seq::new(
        256,
        |i: int|
            if i % (2 * len) < len {
                x[i] + mont(zeta_spec((blocks + i / (2 * len)) as usize) as int * x[i + len])
            } else {
                x[i - len] - mont(zeta_spec((blocks + i / (2 * len)) as usize) as int * x[i])
            },
    )
}

/// One layer of the inverse NTT as computed: in block b, (x_j, x_(j+len))
/// becomes (x_j + x_(j+len), mont(-z (x_j - x_(j+len)))), z the table entry
/// 2 blocks - 1 - b.
#[verifier::opaque]
pub open spec fn inv_layer_exact(x: Seq<int>, len: int, blocks: int) -> Seq<int> {
    Seq::new(
        256,
        |i: int|
            if i % (2 * len) < len {
                x[i] + x[i + len]
            } else {
                mont(-(zeta_spec((2 * blocks - 1 - i / (2 * len)) as usize) as int) * (x[i - len] - x[i]))
            },
    )
}

/// The forward NTT as computed: the eight layers of `fwd_layer_exact`.
pub open spec fn ntt_exact(x: Seq<int>) -> Seq<int> {
    fwd_layer_exact(
        fwd_layer_exact(
            fwd_layer_exact(
                fwd_layer_exact(
                    fwd_layer_exact(
                        fwd_layer_exact(fwd_layer_exact(fwd_layer_exact(x, 128, 1), 64, 2), 32, 4),
                        16,
                        8,
                    ),
                    8,
                    16,
                ),
                4,
                32,
            ),
            2,
            64,
        ),
        1,
        128,
    )
}

/// The inverse NTT as computed: the eight layers of `inv_layer_exact`, then
/// mont(41978 x) for each coefficient.
pub open spec fn inv_ntt_exact(x: Seq<int>) -> Seq<int> {
    let y = inv_layer_exact(
        inv_layer_exact(
            inv_layer_exact(
                inv_layer_exact(
                    inv_layer_exact(
                        inv_layer_exact(inv_layer_exact(inv_layer_exact(x, 1, 128), 2, 64), 4, 32),
                        8,
                        16,
                    ),
                    16,
                    8,
                ),
                32,
                4,
            ),
            64,
            2,
        ),
        128,
        1,
    );
    Seq::new(256, |i: int| mont(41978 * y[i]))
}

/// The value of an exact forward layer at coefficient i.
proof fn lemma_fwd_exact_value(x: Seq<int>, len: int, blocks: int, i: int)
    ensures
        fwd_layer_exact(x, len, blocks).len() == 256,
        0 <= i < 256 ==> fwd_layer_exact(x, len, blocks)[i] == (if i % (2 * len) < len {
            x[i] + mont(zeta_spec((blocks + i / (2 * len)) as usize) as int * x[i + len])
        } else {
            x[i - len] - mont(zeta_spec((blocks + i / (2 * len)) as usize) as int * x[i])
        }),
{
    reveal(fwd_layer_exact);
}

/// The value of an exact inverse layer at coefficient i.
proof fn lemma_inv_exact_value(x: Seq<int>, len: int, blocks: int, i: int)
    ensures
        inv_layer_exact(x, len, blocks).len() == 256,
        0 <= i < 256 ==> inv_layer_exact(x, len, blocks)[i] == (if i % (2 * len) < len {
            x[i] + x[i + len]
        } else {
            mont(-(zeta_spec((2 * blocks - 1 - i / (2 * len)) as usize) as int) * (x[i - len] - x[i]))
        }),
{
    reveal(inv_layer_exact);
}

/// Where coefficient i sits in a layer: block b = i / (2 len) < blocks,
/// offset r = i % (2 len), and its butterfly partner in the same block.
pub(crate) proof fn lemma_layer_index(i: int, len: int, blocks: int)
    requires
        layer_ok(len, blocks),
        0 <= i < 256,
    ensures
        0 <= i / (2 * len) < blocks,
        0 <= i % (2 * len) < 2 * len,
        i % (2 * len) < len ==> i + len < 256 && (i + len) / (2 * len) == i / (2 * len) && (i + len) % (2
            * len) == i % (2 * len) + len,
        i % (2 * len) >= len ==> i - len >= 0 && (i - len) / (2 * len) == i / (2 * len) && (i - len) % (2
            * len) == i % (2 * len) - len,
{
    let m = 2 * len;
    let b = i / m;
    let r = i % m;
    vstd::arithmetic::div_mod::lemma_fundamental_div_mod(i, m);
    assert(blocks * m == 256);
    assert(0 <= b < blocks) by (nonlinear_arith)
        requires
            i == m * b + r,
            0 <= r < m,
            0 <= i < 256,
            blocks * m == 256,
            m > 0,
    ;
    assert(m * b + m <= 256) by (nonlinear_arith)
        requires
            b < blocks,
            blocks * m == 256,
            m > 0,
    ;
    if r < len {
        vstd::arithmetic::div_mod::lemma_fundamental_div_mod_converse(i + len, m, b, r + len);
    } else {
        vstd::arithmetic::div_mod::lemma_fundamental_div_mod_converse(i - len, m, b, r - len);
    }
}

/// A layer of the forward NTT maps congruent inputs to congruent outputs.
proof fn lemma_fwd_layer_cong(x: Seq<int>, y: Seq<int>, len: int, blocks: int)
    requires
        layer_ok(len, blocks),
        cong_seq(x, y),
    ensures
        cong_seq(fwd_layer(x, len, blocks), fwd_layer(y, len, blocks)),
{
    reveal(fwd_layer);
    assert forall|i: int| 0 <= i < 256 implies #[trigger] cong_at(
        fwd_layer(x, len, blocks),
        fwd_layer(y, len, blocks),
        i,
    ) by {
        lemma_layer_index(i, len, blocks);
        let w = tw(blocks + i / (2 * len));
        if i % (2 * len) < len {
            assert(cong_at(x, y, i) && cong_at(x, y, i + len));
            lemma_cong_ops(x[i + len], y[i + len], 0, 0, w);
            lemma_cong_ops(x[i], y[i], w * x[i + len], w * y[i + len], 0);
        } else {
            assert(cong_at(x, y, i) && cong_at(x, y, i - len));
            lemma_cong_ops(x[i], y[i], 0, 0, w);
            lemma_cong_ops(x[i - len], y[i - len], w * x[i], w * y[i], 0);
        }
    }
}

/// A layer of the inverse NTT maps congruent inputs to congruent outputs.
proof fn lemma_inv_layer_cong(x: Seq<int>, y: Seq<int>, len: int, blocks: int)
    requires
        layer_ok(len, blocks),
        cong_seq(x, y),
    ensures
        cong_seq(inv_layer(x, len, blocks), inv_layer(y, len, blocks)),
{
    reveal(inv_layer);
    assert forall|i: int| 0 <= i < 256 implies #[trigger] cong_at(
        inv_layer(x, len, blocks),
        inv_layer(y, len, blocks),
        i,
    ) by {
        lemma_layer_index(i, len, blocks);
        if i % (2 * len) < len {
            assert(cong_at(x, y, i) && cong_at(x, y, i + len));
            lemma_cong_ops(x[i], y[i], x[i + len], y[i + len], 0);
        } else {
            assert(cong_at(x, y, i) && cong_at(x, y, i - len));
            let v = itw(2 * blocks - 1 - i / (2 * len));
            lemma_cong_ops(x[i - len], y[i - len], x[i], y[i], 0);
            lemma_cong_ops(x[i - len] - x[i], y[i - len] - y[i], 0, 0, v);
        }
    }
}

/// An inverse layer undoes the forward layer up to a factor 2: if v is
/// c times the forward layer of u, the inverse layer of v is 2c times u.
proof fn lemma_layer_roundtrip(u: Seq<int>, v: Seq<int>, len: int, blocks: int, c: int)
    requires
        layer_ok(len, blocks),
        cong_seq(v, scale(fwd_layer(u, len, blocks), c)),
    ensures
        cong_seq(inv_layer(v, len, blocks), scale(u, 2 * c)),
{
    reveal(fwd_layer);
    reveal(inv_layer);
    let f = fwd_layer(u, len, blocks);
    let sf = scale(f, c);
    assert forall|i: int| 0 <= i < 256 implies #[trigger] cong_at(inv_layer(v, len, blocks), scale(u, 2 * c), i) by {
        lemma_layer_index(i, len, blocks);
        let b = i / (2 * len);
        let w = tw(blocks + b);
        if i % (2 * len) < len {
            assert(cong_at(v, sf, i) && cong_at(v, sf, i + len));
            assert(sf[i] == (u[i] + w * u[i + len]) * c);
            assert(sf[i + len] == (u[i] - w * u[i + len]) * c);
            lemma_cong_ops(v[i], sf[i], v[i + len], sf[i + len], 0);
            assert((u[i] + w * u[i + len]) * c + (u[i] - w * u[i + len]) * c == u[i] * (2 * c)) by (nonlinear_arith);
        } else {
            assert(cong_at(v, sf, i) && cong_at(v, sf, i - len));
            let iv = itw(2 * blocks - 1 - b);
            assert(sf[i - len] == (u[i - len] + w * u[i]) * c);
            assert(sf[i] == (u[i - len] - w * u[i]) * c);
            lemma_cong_ops(v[i - len], sf[i - len], v[i], sf[i], 0);
            lemma_cong_ops(v[i - len] - v[i], sf[i - len] - sf[i], 0, 0, iv);
            assert((sf[i - len] - sf[i]) * iv == (u[i] * (2 * c)) * (w * iv)) by (nonlinear_arith)
                requires
                    sf[i - len] == (u[i - len] + w * u[i]) * c,
                    sf[i] == (u[i - len] - w * u[i]) * c,
            ;
            lemma_twiddle_pairs(blocks, b);
            assert(twiddles_inverse(blocks + b, 2 * blocks - 1 - b));
            lemma_cong_ops(w * iv, 1, 0, 0, u[i] * (2 * c));
            lemma_cong_trans((v[i - len] - v[i]) * iv, (u[i] * (2 * c)) * (w * iv), u[i] * (2 * c) * 1);
        }
    }
}

/// Congruence of sequences is transitive.
pub proof fn lemma_cong_seq_trans(a: Seq<int>, b: Seq<int>, c: Seq<int>)
    requires
        cong_seq(a, b),
        cong_seq(b, c),
    ensures
        cong_seq(a, c),
{
    assert forall|i: int| 0 <= i < 256 implies #[trigger] cong_at(a, c, i) by {
        assert(cong_at(a, b, i) && cong_at(b, c, i));
        lemma_cong_trans(a[i], b[i], c[i]);
    }
}

/// The inverse NTT maps congruent inputs to congruent outputs.
pub proof fn lemma_inv_ntt_spec_cong(x: Seq<int>, y: Seq<int>)
    requires
        cong_seq(x, y),
    ensures
        cong_seq(inv_ntt_spec(x), inv_ntt_spec(y)),
{
    let x1 = inv_layer(x, 1, 128);
    let y1 = inv_layer(y, 1, 128);
    lemma_inv_layer_cong(x, y, 1, 128);
    let x2 = inv_layer(x1, 2, 64);
    let y2 = inv_layer(y1, 2, 64);
    lemma_inv_layer_cong(x1, y1, 2, 64);
    let x3 = inv_layer(x2, 4, 32);
    let y3 = inv_layer(y2, 4, 32);
    lemma_inv_layer_cong(x2, y2, 4, 32);
    let x4 = inv_layer(x3, 8, 16);
    let y4 = inv_layer(y3, 8, 16);
    lemma_inv_layer_cong(x3, y3, 8, 16);
    let x5 = inv_layer(x4, 16, 8);
    let y5 = inv_layer(y4, 16, 8);
    lemma_inv_layer_cong(x4, y4, 16, 8);
    let x6 = inv_layer(x5, 32, 4);
    let y6 = inv_layer(y5, 32, 4);
    lemma_inv_layer_cong(x5, y5, 32, 4);
    let x7 = inv_layer(x6, 64, 2);
    let y7 = inv_layer(y6, 64, 2);
    lemma_inv_layer_cong(x6, y6, 64, 2);
    let x8 = inv_layer(x7, 128, 1);
    let y8 = inv_layer(y7, 128, 1);
    lemma_inv_layer_cong(x7, y7, 128, 1);
    let k = 41978 * rinv();
    assert forall|i: int| 0 <= i < 256 implies #[trigger] cong_at(inv_ntt_spec(x), inv_ntt_spec(y), i) by {
        assert(cong_at(x8, y8, i));
        lemma_cong_ops(x8[i], y8[i], 0, 0, k);
    }
}

/// The inverse NTT undoes the forward NTT: InvNTT(y) = 2^32 x (mod q),
/// coefficient by coefficient, for every y congruent to NTT(x) (the result
/// is in Montgomery form).
pub proof fn lemma_inv_ntt_of_ntt(x: Seq<int>, y: Seq<int>)
    requires
        cong_seq(y, ntt_spec(x)),
    ensures
        cong_seq(inv_ntt_spec(y), scale(x, 4294967296)),
{
    lemma_inv_ntt_spec_cong(y, ntt_spec(x));
    lemma_inv_ntt_undoes_ntt(x);
    lemma_cong_seq_trans(inv_ntt_spec(y), inv_ntt_spec(ntt_spec(x)), scale(x, 4294967296));
}

/// A forward layer undoes the inverse layer up to a factor 2: if u is c
/// times the inverse layer of v, the forward layer of u is 2c times v.
proof fn lemma_layer_roundtrip_rev(v: Seq<int>, u: Seq<int>, len: int, blocks: int, c: int)
    requires
        layer_ok(len, blocks),
        cong_seq(u, scale(inv_layer(v, len, blocks), c)),
    ensures
        cong_seq(fwd_layer(u, len, blocks), scale(v, 2 * c)),
{
    reveal(fwd_layer);
    reveal(inv_layer);
    let g = inv_layer(v, len, blocks);
    let sg = scale(g, c);
    assert forall|i: int| 0 <= i < 256 implies #[trigger] cong_at(fwd_layer(u, len, blocks), scale(v, 2 * c), i) by {
        lemma_layer_index(i, len, blocks);
        let b = i / (2 * len);
        let w = tw(blocks + b);
        let iv = itw(2 * blocks - 1 - b);
        lemma_twiddle_pairs(blocks, b);
        assert(twiddles_inverse(blocks + b, 2 * blocks - 1 - b));
        if i % (2 * len) < len {
            let j = i + len;
            assert(cong_at(u, sg, i) && cong_at(u, sg, j));
            assert(sg[i] == (v[i] + v[j]) * c);
            assert(sg[j] == ((v[i] - v[j]) * iv) * c);
            lemma_cong_ops(u[j], sg[j], 0, 0, w);
            lemma_cong_ops(u[i], sg[i], u[j] * w, sg[j] * w, 0);
            // sg[i] + sg[j] w = c (v_i + v_j) + c (v_i - v_j) (w iv)
            let e = c * (v[i] - v[j]);
            assert(sg[i] + sg[j] * w == (v[i] + v[j]) * c + e * (w * iv)) by (nonlinear_arith)
                requires
                    sg[i] == (v[i] + v[j]) * c,
                    sg[j] == ((v[i] - v[j]) * iv) * c,
                    e == c * (v[i] - v[j]),
            ;
            lemma_cong_ops(w * iv, 1, 0, 0, e);
            assert(w * iv * e == e * (w * iv)) by (nonlinear_arith);
            lemma_cong_ops((v[i] + v[j]) * c, (v[i] + v[j]) * c, e * (w * iv), e * 1, 0);
            assert((v[i] + v[j]) * c + e * 1 == v[i] * (2 * c)) by (nonlinear_arith)
                requires
                    e == c * (v[i] - v[j]),
            ;
            assert(u[j] * w == w * u[j]) by (nonlinear_arith);
            lemma_cong_trans(u[i] + w * u[j], sg[i] + sg[j] * w, v[i] * (2 * c));
        } else {
            let j = i - len;
            assert(cong_at(u, sg, i) && cong_at(u, sg, j));
            assert(sg[j] == (v[j] + v[i]) * c);
            assert(sg[i] == ((v[j] - v[i]) * iv) * c);
            lemma_cong_ops(u[i], sg[i], 0, 0, w);
            lemma_cong_ops(u[j], sg[j], u[i] * w, sg[i] * w, 0);
            let e = c * (v[j] - v[i]);
            assert(sg[j] - sg[i] * w == (v[j] + v[i]) * c - e * (w * iv)) by (nonlinear_arith)
                requires
                    sg[j] == (v[j] + v[i]) * c,
                    sg[i] == ((v[j] - v[i]) * iv) * c,
                    e == c * (v[j] - v[i]),
            ;
            lemma_cong_ops(w * iv, 1, 0, 0, e);
            assert(w * iv * e == e * (w * iv)) by (nonlinear_arith);
            lemma_cong_ops((v[j] + v[i]) * c, (v[j] + v[i]) * c, e * (w * iv), e * 1, 0);
            assert((v[j] + v[i]) * c - e * 1 == v[i] * (2 * c)) by (nonlinear_arith)
                requires
                    e == c * (v[j] - v[i]),
            ;
            assert(u[i] * w == w * u[i]) by (nonlinear_arith);
            lemma_cong_trans(u[j] - w * u[i], sg[j] - sg[i] * w, v[i] * (2 * c));
        }
    }
}

/// The forward NTT maps congruent inputs to congruent outputs.
pub proof fn lemma_ntt_spec_cong(x: Seq<int>, y: Seq<int>)
    requires
        cong_seq(x, y),
    ensures
        cong_seq(ntt_spec(x), ntt_spec(y)),
{
    let x1 = fwd_layer(x, 128, 1);
    let y1 = fwd_layer(y, 128, 1);
    lemma_fwd_layer_cong(x, y, 128, 1);
    let x2 = fwd_layer(x1, 64, 2);
    let y2 = fwd_layer(y1, 64, 2);
    lemma_fwd_layer_cong(x1, y1, 64, 2);
    let x3 = fwd_layer(x2, 32, 4);
    let y3 = fwd_layer(y2, 32, 4);
    lemma_fwd_layer_cong(x2, y2, 32, 4);
    let x4 = fwd_layer(x3, 16, 8);
    let y4 = fwd_layer(y3, 16, 8);
    lemma_fwd_layer_cong(x3, y3, 16, 8);
    let x5 = fwd_layer(x4, 8, 16);
    let y5 = fwd_layer(y4, 8, 16);
    lemma_fwd_layer_cong(x4, y4, 8, 16);
    let x6 = fwd_layer(x5, 4, 32);
    let y6 = fwd_layer(y5, 4, 32);
    lemma_fwd_layer_cong(x5, y5, 4, 32);
    let x7 = fwd_layer(x6, 2, 64);
    let y7 = fwd_layer(y6, 2, 64);
    lemma_fwd_layer_cong(x6, y6, 2, 64);
    lemma_fwd_layer_cong(x7, y7, 1, 128);
}

/// The forward NTT undoes the inverse NTT: NTT(InvNTT(x)) = 2^32 x
/// (mod q), coefficient by coefficient.
pub proof fn lemma_ntt_undoes_inv_ntt(x: Seq<int>)
    ensures
        cong_seq(ntt_spec(inv_ntt_spec(x)), scale(x, 4294967296)),
{
    let k = 41978 * rinv();
    let y1 = inv_layer(x, 1, 128);
    let y2 = inv_layer(y1, 2, 64);
    let y3 = inv_layer(y2, 4, 32);
    let y4 = inv_layer(y3, 8, 16);
    let y5 = inv_layer(y4, 16, 8);
    let y6 = inv_layer(y5, 32, 4);
    let y7 = inv_layer(y6, 64, 2);
    let y8 = inv_layer(y7, 128, 1);
    let u0 = inv_ntt_spec(x);
    assert(u0 == scale(y8, k));
    lemma_cong_seq_refl(u0);
    let u1 = fwd_layer(u0, 128, 1);
    lemma_layer_roundtrip_rev(y7, u0, 128, 1, k);
    let u2 = fwd_layer(u1, 64, 2);
    lemma_layer_roundtrip_rev(y6, u1, 64, 2, 2 * k);
    let u3 = fwd_layer(u2, 32, 4);
    lemma_layer_roundtrip_rev(y5, u2, 32, 4, 4 * k);
    let u4 = fwd_layer(u3, 16, 8);
    lemma_layer_roundtrip_rev(y4, u3, 16, 8, 8 * k);
    let u5 = fwd_layer(u4, 8, 16);
    lemma_layer_roundtrip_rev(y3, u4, 8, 16, 16 * k);
    let u6 = fwd_layer(u5, 4, 32);
    lemma_layer_roundtrip_rev(y2, u5, 4, 32, 32 * k);
    let u7 = fwd_layer(u6, 2, 64);
    lemma_layer_roundtrip_rev(y1, u6, 2, 64, 64 * k);
    let u8 = fwd_layer(u7, 1, 128);
    lemma_layer_roundtrip_rev(x, u7, 1, 128, 128 * k);
    assert(u8 == ntt_spec(u0));
    assert forall|i: int| 0 <= i < 256 implies #[trigger] cong_at(u8, scale(x, 4294967296), i) by {
        assert(cong_at(u8, scale(x, 2 * (128 * k)), i));
        assert((256 * k - 4294967296) % (Q as int) == 0) by {
            assert(256 * k - 4294967296 == 256 * (41978 * 8265825) - 4294967296);
        }
        lemma_cong_ops(256 * k, 4294967296, 0, 0, x[i]);
        assert(x[i] * (2 * (128 * k)) == (256 * k) * x[i]) by (nonlinear_arith);
        assert(4294967296 * x[i] == x[i] * 4294967296) by (nonlinear_arith);
        lemma_cong_trans(u8[i], x[i] * (2 * (128 * k)), x[i] * 4294967296);
    }
}

/// The inverse NTT undoes the forward NTT: InvNTT(NTT(x)) = 2^32 x
/// (mod q), coefficient by coefficient (the result is in Montgomery form).
pub proof fn lemma_inv_ntt_undoes_ntt(x: Seq<int>)
    ensures
        cong_seq(inv_ntt_spec(ntt_spec(x)), scale(x, 4294967296)),
{
    let u1 = fwd_layer(x, 128, 1);
    let u2 = fwd_layer(u1, 64, 2);
    let u3 = fwd_layer(u2, 32, 4);
    let u4 = fwd_layer(u3, 16, 8);
    let u5 = fwd_layer(u4, 8, 16);
    let u6 = fwd_layer(u5, 4, 32);
    let u7 = fwd_layer(u6, 2, 64);
    let u8 = fwd_layer(u7, 1, 128);
    assert forall|i: int| 0 <= i < 256 implies #[trigger] cong_at(u8, scale(u8, 1), i) by {
        assert(scale(u8, 1)[i] == u8[i] * 1);
    }
    let w1 = inv_layer(u8, 1, 128);
    lemma_layer_roundtrip(u7, u8, 1, 128, 1);
    let w2 = inv_layer(w1, 2, 64);
    lemma_layer_roundtrip(u6, w1, 2, 64, 2);
    let w3 = inv_layer(w2, 4, 32);
    lemma_layer_roundtrip(u5, w2, 4, 32, 4);
    let w4 = inv_layer(w3, 8, 16);
    lemma_layer_roundtrip(u4, w3, 8, 16, 8);
    let w5 = inv_layer(w4, 16, 8);
    lemma_layer_roundtrip(u3, w4, 16, 8, 16);
    let w6 = inv_layer(w5, 32, 4);
    lemma_layer_roundtrip(u2, w5, 32, 4, 32);
    let w7 = inv_layer(w6, 64, 2);
    lemma_layer_roundtrip(u1, w6, 64, 2, 64);
    let w8 = inv_layer(w7, 128, 1);
    lemma_layer_roundtrip(x, w7, 128, 1, 128);
    assert(w8 == inv_layers(u8));
    assert forall|i: int| 0 <= i < 256 implies #[trigger] cong_at(inv_ntt_spec(u8), scale(x, 4294967296), i) by {
        assert(cong_at(w8, scale(x, 256), i));
        let k = 41978 * rinv();
        lemma_cong_ops(w8[i], x[i] * 256, 0, 0, k);
        assert((256 * k - 4294967296) % (Q as int) == 0) by {
            assert(256 * k - 4294967296 == 256 * (41978 * 8265825) - 4294967296);
        }
        lemma_cong_ops(256 * k, 4294967296, 0, 0, x[i]);
        assert(x[i] * 256 * k == (256 * k) * x[i]) by (nonlinear_arith);
        assert(4294967296 * x[i] == x[i] * 4294967296) by (nonlinear_arith);
        lemma_cong_trans(w8[i] * k, x[i] * 256 * k, x[i] * 4294967296);
    }
}

proof fn lemma_block_fits(b: int, blocks: int, len: int)
    requires
        0 <= b < blocks,
        len > 0,
        blocks * (2 * len) == 256,
    ensures
        b * (2 * len) + 2 * len <= 256,
        0 <= b * (2 * len),
{
    assert(b * (2 * len) + 2 * len <= 256) by (nonlinear_arith)
        requires
            b < blocks,
            len > 0,
            blocks * (2 * len) == 256,
    ;
    assert(0 <= b * (2 * len)) by (nonlinear_arith)
        requires
            0 <= b,
            len > 0,
    ;
}

/// The value of a forward layer at coefficient i.
pub(crate) proof fn lemma_fwd_layer_value(x: Seq<int>, len: int, blocks: int, i: int)
    requires
        layer_ok(len, blocks),
        0 <= i < 256,
    ensures
        fwd_layer(x, len, blocks).len() == 256,
        fwd_layer(x, len, blocks)[i] == (if i % (2 * len) < len {
            x[i] + tw(blocks + i / (2 * len)) * x[i + len]
        } else {
            x[i - len] - tw(blocks + i / (2 * len)) * x[i]
        }),
{
    reveal(fwd_layer);
}

/// The value of an inverse layer at coefficient i.
pub(crate) proof fn lemma_inv_layer_value(x: Seq<int>, len: int, blocks: int, i: int)
    requires
        layer_ok(len, blocks),
        0 <= i < 256,
    ensures
        inv_layer(x, len, blocks).len() == 256,
        inv_layer(x, len, blocks)[i] == (if i % (2 * len) < len {
            x[i] + x[i + len]
        } else {
            (x[i - len] - x[i]) * itw(2 * blocks - 1 - i / (2 * len))
        }),
{
    reveal(inv_layer);
}

/// Position start + off + len (off < len) of block b = start / (2 len).
proof fn lemma_block_position(start: int, off: int, len: int, b: int)
    requires
        len > 0,
        b >= 0,
        start == b * (2 * len),
        0 <= off < len,
    ensures
        (start + off) / (2 * len) == b,
        (start + off) % (2 * len) == off,
        (start + off + len) / (2 * len) == b,
        (start + off + len) % (2 * len) == off + len,
{
    vstd::arithmetic::div_mod::lemma_fundamental_div_mod_converse(start + off, 2 * len, b, off);
    vstd::arithmetic::div_mod::lemma_fundamental_div_mod_converse(start + off + len, 2 * len, b, off + len);
}

/// One layer of the forward NTT: `blocks` blocks of 2 * len coefficients,
/// block b using the twiddle factor of index blocks + b; the result is
/// `fwd_layer` of the input modulo q.
fn ntt_layer(a: &mut [i32; 256], len: usize, blocks: usize, layer: i32)
    requires
        layer_ok(len as int, blocks as int),
        1 <= len <= 128,
        1 <= blocks <= 128,
        blocks * (2 * len) == 256,
        0 <= layer < 8,
        forall|i: int| 0 <= i < 256 ==> -(layer + 1) * Q < #[trigger] old(a)[i] < (layer + 1) * Q,
    ensures
        forall|i: int| 0 <= i < 256 ==> -(layer + 2) * Q < #[trigger] final(a)[i] < (layer + 2) * Q,
        cong_seq(ints(final(a)@), fwd_layer(ints(old(a)@), len as int, blocks as int)),
        ints(final(a)@) == fwd_layer_exact(ints(old(a)@), len as int, blocks as int),
{
    let ghost lo = (layer + 1) * Q;
    let ghost hi = (layer + 2) * Q;
    let ghost x = ints(a@);
    let ghost f = fwd_layer(x, len as int, blocks as int);
    let ghost e = fwd_layer_exact(x, len as int, blocks as int);
    let mut start: usize = 0;
    let mut b: usize = 0;
    while b < blocks
        invariant
            layer_ok(len as int, blocks as int),
            1 <= len <= 128,
            1 <= blocks <= 128,
            blocks * (2 * len) == 256,
            0 <= layer < 8,
            lo == (layer + 1) * Q,
            hi == (layer + 2) * Q,
            x == ints(old(a)@),
            f == fwd_layer(x, len as int, blocks as int),
            b <= blocks,
            start as int == b * (2 * len),
            forall|i: int| 0 <= i < start ==> -hi < #[trigger] a[i] < hi,
            forall|i: int| start <= i < 256 ==> -lo < #[trigger] a[i] < lo,
            forall|i: int| 0 <= i < start ==> #[trigger] cong_at(ints(a@), f, i),
            forall|i: int| start <= i < 256 ==> #[trigger] a[i] as int == x[i],
            e == fwd_layer_exact(x, len as int, blocks as int),
            forall|i: int| 0 <= i < start ==> #[trigger] a[i] as int == e[i],
        decreases blocks - b,
    {
        proof {
            lemma_block_fits(b as int, blocks as int, len as int);
        }
        let z = zeta(blocks + b);
        let mut j: usize = start;
        while j < start + len
            invariant
                layer_ok(len as int, blocks as int),
                1 <= len <= 128,
                b < blocks,
                start as int == b * (2 * len),
                start + 2 * len <= 256,
                start <= j <= start + len,
                lo == (layer + 1) * Q,
                hi == (layer + 2) * Q,
                0 <= layer < 8,
                z == crate::consts::zeta_spec((blocks + b) as usize),
                -4108315 <= z <= 4108315,
                x == ints(old(a)@),
                f == fwd_layer(x, len as int, blocks as int),
                forall|i: int| 0 <= i < start ==> -hi < #[trigger] a[i] < hi,
                forall|i: int| start <= i < j ==> -hi < #[trigger] a[i] < hi,
                forall|i: int| start + len <= i < j + len ==> -hi < #[trigger] a[i] < hi,
                forall|i: int| j <= i < start + len ==> -lo < #[trigger] a[i] < lo,
                forall|i: int| j + len <= i < 256 ==> -lo < #[trigger] a[i] < lo,
                forall|i: int| 0 <= i < j ==> #[trigger] cong_at(ints(a@), f, i),
                forall|i: int| start + len <= i < j + len ==> #[trigger] cong_at(ints(a@), f, i),
                forall|i: int| j <= i < start + len ==> #[trigger] a[i] as int == x[i],
                forall|i: int| j + len <= i < 256 ==> #[trigger] a[i] as int == x[i],
                e == fwd_layer_exact(x, len as int, blocks as int),
                forall|i: int| 0 <= i < j ==> #[trigger] a[i] as int == e[i],
                forall|i: int| start + len <= i < j + len ==> #[trigger] a[i] as int == e[i],
            decreases start + len - j,
        {
            let xh = a[j + len];
            assert(montgomery_input_ok((z as int) * (xh as int))) by (nonlinear_arith)
                requires
                    -4108315 <= z <= 4108315,
                    -8 * 8380417 < xh < 8 * 8380417,
            ;
            let p: i64 = (z as i64) * (xh as i64);
            let t = montgomery_reduce(p);
            let y = a[j];
            let ghost before = a@;
            a[j + len] = y - t;
            a[j] = y + t;
            proof {
                let w = tw(blocks + b);
                lemma_mont_cong(t as int, z as int, xh as int);
                assert(w == (z as int) * rinv());
                assert(y as int == x[j as int]);
                assert(xh as int == x[j + len]);
                lemma_cong_ops(y as int, y as int, t as int, w * (xh as int), 0);
                lemma_block_position(start as int, j - start, len as int, b as int);
                lemma_fwd_layer_value(x, len as int, blocks as int, j as int);
                lemma_fwd_layer_value(x, len as int, blocks as int, j + len);
                lemma_fwd_exact_value(x, len as int, blocks as int, j as int);
                lemma_fwd_exact_value(x, len as int, blocks as int, j + len);
                assert(cong_at(ints(a@), f, j as int));
                assert(cong_at(ints(a@), f, j + len));
                assert(p as int == (z as int) * (xh as int));
                assert(a[j as int] as int == e[j as int]);
                assert(a[j + len] as int == e[j + len]);
                assert forall|i: int| 0 <= i < j + 1 implies #[trigger] cong_at(ints(a@), f, i) by {
                    if i < j {
                        assert(a@[i] == before[i]);
                        assert(cong_at(ints(before), f, i));
                    }
                }
                assert forall|i: int| 0 <= i < j + 1 implies #[trigger] a[i] as int == e[i] by {
                    if i < j {
                        assert(a@[i] == before[i]);
                    }
                }
                assert forall|i: int| start + len <= i < j + 1 + len implies #[trigger] a[i] as int == e[i] by {
                    if i < j + len {
                        assert(a@[i] == before[i]);
                    }
                }
                assert forall|i: int| start + len <= i < j + 1 + len implies #[trigger] cong_at(
                    ints(a@),
                    f,
                    i,
                ) by {
                    if i < j + len {
                        assert(a@[i] == before[i]);
                        assert(cong_at(ints(before), f, i));
                    }
                }
            }
            j += 1;
        }
        start = start + 2 * len;
        b += 1;
        proof {
            assert(start as int == b * (2 * len)) by (nonlinear_arith)
                requires
                    start as int == (b - 1) * (2 * len) + 2 * len,
            ;
        }
    }
    proof {
        assert(start == 256) by (nonlinear_arith)
            requires
                start as int == b * (2 * len),
                b == blocks,
                blocks * (2 * len) == 256,
        ;
        lemma_fwd_exact_value(x, len as int, blocks as int, 0);
        assert(ints(a@) =~= e);
    }
}

/// Forward NTT (coefficients in bit-reversed order), for inputs with
/// coefficients in (-q, q); outputs have coefficients in (-9q, 9q).
pub fn ntt(p: &Poly) -> (r: Poly)
    requires
        coeffs_bounded(*p, Q as int),
    ensures
        coeffs_bounded(r, 9 * Q as int),
        cong_seq(ints(r.coeffs@), ntt_spec(ints(p.coeffs@))),
        ints(r.coeffs@) == ntt_exact(ints(p.coeffs@)),
{
    let mut a = p.coeffs;
    let ghost x = ints(a@);
    let ghost ex = x;
    ntt_layer(&mut a, 128, 1, 0);
    let ghost ex = fwd_layer_exact(ex, 128, 1);
    assert(ints(a@) == ex);
    let ghost s1 = fwd_layer(x, 128, 1);
    let ghost a1 = ints(a@);
    ntt_layer(&mut a, 64, 2, 1);
    let ghost ex = fwd_layer_exact(ex, 64, 2);
    assert(ints(a@) == ex);
    proof {
        lemma_fwd_step(a1, s1, ints(a@), 64, 2);
    }
    let ghost s2 = fwd_layer(s1, 64, 2);
    let ghost a2 = ints(a@);
    ntt_layer(&mut a, 32, 4, 2);
    let ghost ex = fwd_layer_exact(ex, 32, 4);
    assert(ints(a@) == ex);
    proof {
        lemma_fwd_step(a2, s2, ints(a@), 32, 4);
    }
    let ghost s3 = fwd_layer(s2, 32, 4);
    let ghost a3 = ints(a@);
    ntt_layer(&mut a, 16, 8, 3);
    let ghost ex = fwd_layer_exact(ex, 16, 8);
    assert(ints(a@) == ex);
    proof {
        lemma_fwd_step(a3, s3, ints(a@), 16, 8);
    }
    let ghost s4 = fwd_layer(s3, 16, 8);
    let ghost a4 = ints(a@);
    ntt_layer(&mut a, 8, 16, 4);
    let ghost ex = fwd_layer_exact(ex, 8, 16);
    assert(ints(a@) == ex);
    proof {
        lemma_fwd_step(a4, s4, ints(a@), 8, 16);
    }
    let ghost s5 = fwd_layer(s4, 8, 16);
    let ghost a5 = ints(a@);
    ntt_layer(&mut a, 4, 32, 5);
    let ghost ex = fwd_layer_exact(ex, 4, 32);
    assert(ints(a@) == ex);
    proof {
        lemma_fwd_step(a5, s5, ints(a@), 4, 32);
    }
    let ghost s6 = fwd_layer(s5, 4, 32);
    let ghost a6 = ints(a@);
    ntt_layer(&mut a, 2, 64, 6);
    let ghost ex = fwd_layer_exact(ex, 2, 64);
    assert(ints(a@) == ex);
    proof {
        lemma_fwd_step(a6, s6, ints(a@), 2, 64);
    }
    let ghost s7 = fwd_layer(s6, 2, 64);
    let ghost a7 = ints(a@);
    ntt_layer(&mut a, 1, 128, 7);
    let ghost ex = fwd_layer_exact(ex, 1, 128);
    assert(ints(a@) == ex);
    proof {
        lemma_fwd_step(a7, s7, ints(a@), 1, 128);
    }
    assert(ex == ntt_exact(x));
    Poly { coeffs: a }
}

/// A forward layer applied to a vector congruent to s gives a vector
/// congruent to the layer of s.
proof fn lemma_fwd_step(prev: Seq<int>, s: Seq<int>, cur: Seq<int>, len: int, blocks: int)
    requires
        layer_ok(len, blocks),
        cong_seq(prev, s),
        cong_seq(cur, fwd_layer(prev, len, blocks)),
    ensures
        cong_seq(cur, fwd_layer(s, len, blocks)),
{
    lemma_fwd_layer_cong(prev, s, len, blocks);
    lemma_cong_seq_trans(cur, fwd_layer(prev, len, blocks), fwd_layer(s, len, blocks));
}

/// An inverse layer applied to a vector congruent to s gives a vector
/// congruent to the layer of s.
proof fn lemma_inv_step(prev: Seq<int>, s: Seq<int>, cur: Seq<int>, len: int, blocks: int)
    requires
        layer_ok(len, blocks),
        cong_seq(prev, s),
        cong_seq(cur, inv_layer(prev, len, blocks)),
    ensures
        cong_seq(cur, inv_layer(s, len, blocks)),
{
    lemma_inv_layer_cong(prev, s, len, blocks);
    lemma_cong_seq_trans(cur, inv_layer(prev, len, blocks), inv_layer(s, len, blocks));
}

/// The forward NTT, under the name of the portable implementation.
pub fn ntt_scalar(p: &Poly) -> (r: Poly)
    requires
        coeffs_bounded(*p, Q as int),
    ensures
        coeffs_bounded(r, 9 * Q as int),
        cong_seq(ints(r.coeffs@), ntt_spec(ints(p.coeffs@))),
        ints(r.coeffs@) == ntt_exact(ints(p.coeffs@)),
{
    ntt(p)
}

/// One layer of the inverse NTT: blocks of 2 * len coefficients, block b
/// using minus the twiddle factor of index 2 * blocks - 1 - b; the result
/// is `inv_layer` of the input modulo q.
fn inv_ntt_layer(a: &mut [i32; 256], len: usize, blocks: usize, mult: i32)
    requires
        layer_ok(len as int, blocks as int),
        1 <= len <= 128,
        1 <= blocks <= 128,
        blocks * (2 * len) == 256,
        1 <= mult <= 128,
        forall|i: int| 0 <= i < 256 ==> -mult * Q < #[trigger] old(a)[i] < mult * Q,
    ensures
        forall|i: int| 0 <= i < 256 ==> -2 * mult * Q < #[trigger] final(a)[i] < 2 * mult * Q,
        cong_seq(ints(final(a)@), inv_layer(ints(old(a)@), len as int, blocks as int)),
        ints(final(a)@) == inv_layer_exact(ints(old(a)@), len as int, blocks as int),
{
    let ghost lo = mult * Q;
    let ghost hi = 2 * mult * Q;
    let ghost x = ints(a@);
    let ghost f = inv_layer(x, len as int, blocks as int);
    let ghost e = inv_layer_exact(x, len as int, blocks as int);
    let mut start: usize = 0;
    let mut b: usize = 0;
    while b < blocks
        invariant
            layer_ok(len as int, blocks as int),
            1 <= len <= 128,
            1 <= blocks <= 128,
            blocks * (2 * len) == 256,
            1 <= mult <= 128,
            lo == mult * Q,
            hi == 2 * mult * Q,
            x == ints(old(a)@),
            f == inv_layer(x, len as int, blocks as int),
            b <= blocks,
            start as int == b * (2 * len),
            forall|i: int| 0 <= i < start ==> -hi < #[trigger] a[i] < hi,
            forall|i: int| start <= i < 256 ==> -lo < #[trigger] a[i] < lo,
            forall|i: int| 0 <= i < start ==> #[trigger] cong_at(ints(a@), f, i),
            forall|i: int| start <= i < 256 ==> #[trigger] a[i] as int == x[i],
            e == inv_layer_exact(x, len as int, blocks as int),
            forall|i: int| 0 <= i < start ==> #[trigger] a[i] as int == e[i],
        decreases blocks - b,
    {
        proof {
            lemma_block_fits(b as int, blocks as int, len as int);
        }
        let z: i32 = -zeta(2 * blocks - 1 - b);
        let mut j: usize = start;
        while j < start + len
            invariant
                layer_ok(len as int, blocks as int),
                1 <= len <= 128,
                b < blocks,
                start as int == b * (2 * len),
                start + 2 * len <= 256,
                start <= j <= start + len,
                lo == mult * Q,
                hi == 2 * mult * Q,
                1 <= mult <= 128,
                z == -crate::consts::zeta_spec((2 * blocks - 1 - b) as usize),
                -4108315 <= z <= 4108315,
                x == ints(old(a)@),
                f == inv_layer(x, len as int, blocks as int),
                forall|i: int| 0 <= i < start ==> -hi < #[trigger] a[i] < hi,
                forall|i: int| start <= i < j ==> -hi < #[trigger] a[i] < hi,
                forall|i: int| start + len <= i < j + len ==> -hi < #[trigger] a[i] < hi,
                forall|i: int| j <= i < start + len ==> -lo < #[trigger] a[i] < lo,
                forall|i: int| j + len <= i < 256 ==> -lo < #[trigger] a[i] < lo,
                forall|i: int| 0 <= i < j ==> #[trigger] cong_at(ints(a@), f, i),
                forall|i: int| start + len <= i < j + len ==> #[trigger] cong_at(ints(a@), f, i),
                forall|i: int| j <= i < start + len ==> #[trigger] a[i] as int == x[i],
                forall|i: int| j + len <= i < 256 ==> #[trigger] a[i] as int == x[i],
                e == inv_layer_exact(x, len as int, blocks as int),
                forall|i: int| 0 <= i < j ==> #[trigger] a[i] as int == e[i],
                forall|i: int| start + len <= i < j + len ==> #[trigger] a[i] as int == e[i],
            decreases start + len - j,
        {
            let t = a[j];
            let u = a[j + len];
            let ghost before = a@;
            a[j] = t + u;
            let d: i32 = t - u;
            assert(montgomery_input_ok((z as int) * (d as int))) by (nonlinear_arith)
                requires
                    -4108315 <= z <= 4108315,
                    -256 * 8380417 < d < 256 * 8380417,
            ;
            let p: i64 = (z as i64) * (d as i64);
            let m = montgomery_reduce(p);
            a[j + len] = m;
            proof {
                let v = itw(2 * blocks - 1 - b);
                lemma_mont_cong(m as int, z as int, d as int);
                assert(v == (z as int) * rinv());
                assert(t as int == x[j as int]);
                assert(u as int == x[j + len]);
                assert((z as int) * rinv() * (d as int) == (d as int) * v) by (nonlinear_arith)
                    requires
                        v == (z as int) * rinv(),
                ;
                lemma_block_position(start as int, j - start, len as int, b as int);
                lemma_inv_layer_value(x, len as int, blocks as int, j as int);
                lemma_inv_layer_value(x, len as int, blocks as int, j + len);
                lemma_inv_exact_value(x, len as int, blocks as int, j as int);
                lemma_inv_exact_value(x, len as int, blocks as int, j + len);
                assert(cong_at(ints(a@), f, j as int));
                assert(cong_at(ints(a@), f, j + len));
                assert(p as int == (z as int) * (d as int));
                assert(a[j as int] as int == e[j as int]);
                assert(a[j + len] as int == e[j + len]);
                assert forall|i: int| 0 <= i < j + 1 implies #[trigger] a[i] as int == e[i] by {
                    if i < j {
                        assert(a@[i] == before[i]);
                    }
                }
                assert forall|i: int| start + len <= i < j + 1 + len implies #[trigger] a[i] as int == e[i] by {
                    if i < j + len {
                        assert(a@[i] == before[i]);
                    }
                }
                assert forall|i: int| 0 <= i < j + 1 implies #[trigger] cong_at(ints(a@), f, i) by {
                    if i < j {
                        assert(a@[i] == before[i]);
                        assert(cong_at(ints(before), f, i));
                    }
                }
                assert forall|i: int| start + len <= i < j + 1 + len implies #[trigger] cong_at(
                    ints(a@),
                    f,
                    i,
                ) by {
                    if i < j + len {
                        assert(a@[i] == before[i]);
                        assert(cong_at(ints(before), f, i));
                    }
                }
            }
            j += 1;
        }
        start = start + 2 * len;
        b += 1;
        proof {
            assert(start as int == b * (2 * len)) by (nonlinear_arith)
                requires
                    start as int == (b - 1) * (2 * len) + 2 * len,
            ;
        }
    }
    proof {
        assert(start == 256) by (nonlinear_arith)
            requires
                start as int == b * (2 * len),
                b == blocks,
                blocks * (2 * len) == 256,
        ;
        lemma_inv_exact_value(x, len as int, blocks as int, 0);
        assert(ints(a@) =~= e);
    }
}

/// Inverse NTT followed by multiplication by the Montgomery factor 2^32
/// (inputs in bit-reversed order with coefficients in (-q, q); outputs have
/// coefficients in (-q, q)); modulo q the result is `inv_ntt_spec` of the
/// input.
pub fn inv_ntt(p: &Poly) -> (r: Poly)
    requires
        coeffs_bounded(*p, Q as int),
    ensures
        coeffs_bounded(r, Q as int),
        cong_seq(ints(r.coeffs@), inv_ntt_spec(ints(p.coeffs@))),
        ints(r.coeffs@) == inv_ntt_exact(ints(p.coeffs@)),
{
    let mut a = p.coeffs;
    let ghost x = ints(a@);
    let ghost ex = x;
    inv_ntt_layer(&mut a, 1, 128, 1);
    let ghost ex = inv_layer_exact(ex, 1, 128);
    assert(ints(a@) == ex);
    let ghost s1 = inv_layer(x, 1, 128);
    let ghost a1 = ints(a@);
    inv_ntt_layer(&mut a, 2, 64, 2);
    let ghost ex = inv_layer_exact(ex, 2, 64);
    assert(ints(a@) == ex);
    proof {
        lemma_inv_step(a1, s1, ints(a@), 2, 64);
    }
    let ghost s2 = inv_layer(s1, 2, 64);
    let ghost a2 = ints(a@);
    inv_ntt_layer(&mut a, 4, 32, 4);
    let ghost ex = inv_layer_exact(ex, 4, 32);
    assert(ints(a@) == ex);
    proof {
        lemma_inv_step(a2, s2, ints(a@), 4, 32);
    }
    let ghost s3 = inv_layer(s2, 4, 32);
    let ghost a3 = ints(a@);
    inv_ntt_layer(&mut a, 8, 16, 8);
    let ghost ex = inv_layer_exact(ex, 8, 16);
    assert(ints(a@) == ex);
    proof {
        lemma_inv_step(a3, s3, ints(a@), 8, 16);
    }
    let ghost s4 = inv_layer(s3, 8, 16);
    let ghost a4 = ints(a@);
    inv_ntt_layer(&mut a, 16, 8, 16);
    let ghost ex = inv_layer_exact(ex, 16, 8);
    assert(ints(a@) == ex);
    proof {
        lemma_inv_step(a4, s4, ints(a@), 16, 8);
    }
    let ghost s5 = inv_layer(s4, 16, 8);
    let ghost a5 = ints(a@);
    inv_ntt_layer(&mut a, 32, 4, 32);
    let ghost ex = inv_layer_exact(ex, 32, 4);
    assert(ints(a@) == ex);
    proof {
        lemma_inv_step(a5, s5, ints(a@), 32, 4);
    }
    let ghost s6 = inv_layer(s5, 32, 4);
    let ghost a6 = ints(a@);
    inv_ntt_layer(&mut a, 64, 2, 64);
    let ghost ex = inv_layer_exact(ex, 64, 2);
    assert(ints(a@) == ex);
    proof {
        lemma_inv_step(a6, s6, ints(a@), 64, 2);
    }
    let ghost s7 = inv_layer(s6, 64, 2);
    let ghost a7 = ints(a@);
    inv_ntt_layer(&mut a, 128, 1, 128);
    let ghost ex = inv_layer_exact(ex, 128, 1);
    assert(ints(a@) == ex);
    proof {
        lemma_inv_step(a7, s7, ints(a@), 128, 1);
    }
    let ghost s8 = inv_layer(s7, 128, 1);
    let ghost a8 = ints(a@);
    assert(s8 == inv_layers(x));
    for j in 0..256usize
        invariant
            cong_seq(a8, s8),
            forall|i: int| 0 <= i < j ==> -Q < #[trigger] a[i] < Q,
            forall|i: int| j <= i < 256 ==> -256 * Q < #[trigger] a[i] < 256 * Q,
            forall|i: int| 0 <= i < j ==> #[trigger] cong_at(ints(a@), scale(s8, 41978 * rinv()), i),
            forall|i: int| j <= i < 256 ==> #[trigger] a[i] as int == a8[i],
            forall|i: int| 0 <= i < j ==> #[trigger] a[i] as int == mont(41978 * a8[i]),
    {
        let xj = a[j];
        let p: i64 = 41978i64 * (xj as i64);
        assert(montgomery_input_ok(p as int)) by (nonlinear_arith)
            requires
                p == 41978 * (xj as int),
                -256 * 8380417 < xj < 256 * 8380417,
        ;
        let ghost before = a@;
        a[j] = montgomery_reduce(p);
        proof {
            assert(xj as int == a8[j as int]);
            assert(p as int == 41978 * a8[j as int]);
            assert forall|i: int| 0 <= i < j + 1 implies #[trigger] a[i] as int == mont(41978 * a8[i]) by {
                if i < j {
                    assert(a@[i] == before[i]);
                }
            }
            let k = 41978 * rinv();
            let xi = xj as int;
            lemma_mont_cong(a[j as int] as int, 41978, xi);
            assert(xi == a8[j as int]);
            assert(cong_at(a8, s8, j as int));
            lemma_cong_ops(xi, s8[j as int], 0, 0, k);
            assert(k * xi == xi * k) by (nonlinear_arith);
            lemma_cong_trans(a[j as int] as int, xi * k, s8[j as int] * k);
            assert(scale(s8, k)[j as int] == s8[j as int] * k);
            assert(cong_at(ints(a@), scale(s8, k), j as int));
            assert forall|i: int| 0 <= i < j + 1 implies #[trigger] cong_at(ints(a@), scale(s8, k), i) by {
                if i < j {
                    assert(a@[i] == before[i]);
                    assert(cong_at(ints(before), scale(s8, k), i));
                }
            }
        }
    }
    assert(ex == a8);
    assert(ints(a@) =~= inv_ntt_exact(x));
    Poly { coeffs: a }
}

/// The pointwise product in the NTT domain modulo q: a_i b_i 2^-32.
pub open spec fn pointwise(a: Seq<int>, b: Seq<int>) -> Seq<int> {
    Seq::new(256, |i: int| a[i] * b[i] * rinv())
}

/// Coefficient-wise sum.
pub open spec fn vadd(a: Seq<int>, b: Seq<int>) -> Seq<int> {
    Seq::new(256, |i: int| a[i] + b[i])
}

/// Coefficient-wise difference.
pub open spec fn vsub(a: Seq<int>, b: Seq<int>) -> Seq<int> {
    Seq::new(256, |i: int| a[i] - b[i])
}

/// The coefficients of each polynomial of a vector, as integers.
pub open spec fn poly_ints(v: Seq<Poly>) -> Seq<Seq<int>> {
    Seq::new(v.len(), |j: int| ints(v[j].coeffs@))
}

/// The sum over j < l of the pointwise products of row[j] and v[j]: entry
/// i of A v in the NTT domain, for row i of A.
pub open spec fn row_sum(row: Seq<Seq<int>>, v: Seq<Seq<int>>, l: int) -> Seq<int>
    decreases l,
{
    if l <= 0 {
        Seq::new(256, |i: int| 0)
    } else {
        vadd(row_sum(row, v, l - 1), pointwise(row[l - 1], v[l - 1]))
    }
}

/// Each coefficient reduced to [0, q).
pub open spec fn mod_seq(a: Seq<int>) -> Seq<int> {
    Seq::new(256, |i: int| a[i] % (Q as int))
}

/// Sums, differences and pointwise products of congruent sequences are
/// congruent.
pub proof fn lemma_cong_seq_ops(a: Seq<int>, a2: Seq<int>, b: Seq<int>, b2: Seq<int>)
    requires
        cong_seq(a, a2),
        cong_seq(b, b2),
    ensures
        cong_seq(vadd(a, b), vadd(a2, b2)),
        cong_seq(vsub(a, b), vsub(a2, b2)),
        cong_seq(pointwise(a, b), pointwise(a2, b2)),
{
    assert forall|i: int| 0 <= i < 256 implies #[trigger] cong_at(vadd(a, b), vadd(a2, b2), i) by {
        assert(cong_at(a, a2, i) && cong_at(b, b2, i));
        lemma_cong_ops(a[i], a2[i], b[i], b2[i], rinv());
    }
    assert forall|i: int| 0 <= i < 256 implies #[trigger] cong_at(vsub(a, b), vsub(a2, b2), i) by {
        assert(cong_at(a, a2, i) && cong_at(b, b2, i));
        lemma_cong_ops(a[i], a2[i], b[i], b2[i], rinv());
    }
    assert forall|i: int| 0 <= i < 256 implies #[trigger] cong_at(pointwise(a, b), pointwise(a2, b2), i) by {
        assert(cong_at(a, a2, i) && cong_at(b, b2, i));
        lemma_cong_ops(a[i], a2[i], b[i], b2[i], rinv());
        lemma_cong_ops(a[i] * b[i], a2[i] * b2[i], 0, 0, rinv());
    }
}

/// Congruence of sequences is reflexive.
pub proof fn lemma_cong_seq_refl(a: Seq<int>)
    ensures
        cong_seq(a, a),
{
    assert forall|i: int| 0 <= i < 256 implies #[trigger] cong_at(a, a, i) by {
        assert(a[i] - a[i] == 0);
    }
}

/// Row sums of one row with congruent vectors are congruent.
pub proof fn lemma_row_sum_cong(r: Seq<Seq<int>>, v: Seq<Seq<int>>, v2: Seq<Seq<int>>, l: int)
    requires
        forall|j: int| 0 <= j < l ==> #[trigger] cong_seq(v[j], v2[j]),
    ensures
        cong_seq(row_sum(r, v, l), row_sum(r, v2, l)),
    decreases l,
{
    if l <= 0 {
        lemma_cong_seq_refl(row_sum(r, v, l));
        assert(row_sum(r, v, l) == row_sum(r, v2, l));
    } else {
        let j = l - 1;
        assert forall|i: int| 0 <= i < j implies #[trigger] cong_seq(v[i], v2[i]) by {
            assert(0 <= i < l);
        }
        lemma_row_sum_cong(r, v, v2, j);
        assert(cong_seq(v[j], v2[j]));
        lemma_cong_seq_refl(r[j]);
        lemma_cong_seq_ops(r[j], r[j], v[j], v2[j]);
        lemma_cong_seq_ops(row_sum(r, v, j), row_sum(r, v2, j), pointwise(r[j], v[j]), pointwise(r[j], v2[j]));
    }
}

/// Congruent sequences have the same coefficients in [0, q).
pub proof fn lemma_mod_seq_cong(a: Seq<int>, b: Seq<int>)
    requires
        cong_seq(a, b),
    ensures
        mod_seq(a) == mod_seq(b),
{
    assert forall|i: int| 0 <= i < 256 implies #[trigger] mod_seq(a)[i] == mod_seq(b)[i] by {
        assert(cong_at(a, b, i));
        let d = a[i] - b[i];
        vstd::arithmetic::div_mod::lemma_fundamental_div_mod(d, Q as int);
        vstd::arithmetic::div_mod::lemma_mod_multiples_vanish(d / (Q as int), b[i], Q as int);
        assert(a[i] == (Q as int) * (d / (Q as int)) + b[i]);
    }
    assert(mod_seq(a) =~= mod_seq(b));
}

/// Pointwise product in the NTT domain with Montgomery reduction:
/// c_i = a_i * b_i * 2^-32 (mod q), with |c_i| < q.
pub fn ntt_multiply(a: &Poly, b: &Poly) -> (c: Poly)
    requires
        coeffs_bounded(*a, 9 * Q as int),
        coeffs_bounded(*b, 9 * Q as int),
    ensures
        coeffs_bounded(c, Q as int),
        forall|i: int|
            0 <= i < N ==> ((#[trigger] c.coeffs[i] as int) * two32() - (a.coeffs[i] as int)
                * (b.coeffs[i] as int)) % (Q as int) == 0,
        cong_seq(ints(c.coeffs@), pointwise(ints(a.coeffs@), ints(b.coeffs@))),
        forall|i: int| 0 <= i < N ==> #[trigger] c.coeffs[i] as int == mont(a.coeffs[i] as int * b.coeffs[i] as int),
{
    let mut c = Poly::new();
    for i in 0..N
        invariant
            coeffs_bounded(*a, 9 * Q as int),
            coeffs_bounded(*b, 9 * Q as int),
            forall|j: int| 0 <= j < i ==> #[trigger] c.coeffs[j] as int == mont(a.coeffs[j] as int * b.coeffs[j] as int),
            forall|j: int| 0 <= j < i ==> -Q < #[trigger] c.coeffs[j] < Q,
            forall|j: int|
                0 <= j < i ==> ((#[trigger] c.coeffs[j] as int) * two32() - (a.coeffs[j] as int)
                    * (b.coeffs[j] as int)) % (Q as int) == 0,
    {
        let x = a.coeffs[i];
        let y = b.coeffs[i];
        assert(montgomery_input_ok((x as int) * (y as int))) by (nonlinear_arith)
            requires
                -9 * 8380417 < x < 9 * 8380417,
                -9 * 8380417 < y < 9 * 8380417,
        ;
        let p: i64 = (x as i64) * (y as i64);
        c.coeffs[i] = montgomery_reduce(p);
    }
    proof {
        let ia = ints(a.coeffs@);
        let ib = ints(b.coeffs@);
        assert forall|i: int| 0 <= i < 256 implies #[trigger] cong_at(ints(c.coeffs@), pointwise(ia, ib), i) by {
            let x = a.coeffs[i] as int;
            let y = b.coeffs[i] as int;
            lemma_mont_cong(c.coeffs[i] as int, x, y);
            assert((x * rinv()) * y == x * y * rinv()) by (nonlinear_arith);
        }
    }
    c
}

/// Coefficient-wise reduce32 of a polynomial.
pub fn poly_reduce32(p: &Poly) -> (r: Poly)
    requires
        forall|i: int| 0 <= i < N ==> #[trigger] p.coeffs[i] <= 2143289343,
    ensures
        coeffs_bounded(r, Q as int),
        forall|i: int| 0 <= i < N ==> (#[trigger] r.coeffs[i] as int - p.coeffs[i] as int) % (Q as int) == 0,
        forall|i: int|
            0 <= i < N ==> #[trigger] r.coeffs[i] as int == p.coeffs[i] as int - ((p.coeffs[i] as int + 4194304)
                / 8388608) * (Q as int),
{
    let mut r = Poly::new();
    for i in 0..N
        invariant
            forall|j: int| 0 <= j < N ==> #[trigger] p.coeffs[j] <= 2143289343,
            forall|j: int|
                0 <= j < i ==> #[trigger] r.coeffs[j] as int == p.coeffs[j] as int - ((p.coeffs[j] as int + 4194304)
                    / 8388608) * (Q as int),
            forall|j: int| 0 <= j < i ==> -Q < #[trigger] r.coeffs[j] < Q,
            forall|j: int|
                0 <= j < i ==> (#[trigger] r.coeffs[j] as int - p.coeffs[j] as int) % (Q as int) == 0,
    {
        r.coeffs[i] = reduce32(p.coeffs[i]);
    }
    r
}

/// A matrix of k rows of l polynomials each, every coefficient in (-9q, 9q).
pub open spec fn matrix_ok(m: Seq<Vec<Poly>>, k: int, l: int) -> bool {
    &&& m.len() == k
    &&& forall|i: int| 0 <= i < k ==> (#[trigger] m[i])@.len() == l
    &&& forall|i: int, j: int|
        0 <= i < k && 0 <= j < l ==> coeffs_bounded(#[trigger] m[i]@[j], 9 * Q as int)
}

/// A vector of l polynomials, every coefficient in (-9q, 9q).
pub open spec fn polyvec_ok(v: Seq<Poly>, l: int, b: int) -> bool {
    &&& v.len() == l
    &&& forall|j: int| 0 <= j < l ==> coeffs_bounded(#[trigger] v[j], b)
}

/// sum_{j < l} mont(row_j[t] v_j[t]) for each coefficient t: the sum of
/// the pointwise Montgomery products as computed.
pub open spec fn mont_row_sum(row: Seq<Seq<int>>, v: Seq<Seq<int>>, l: int) -> Seq<int>
    decreases l,
{
    if l <= 0 {
        Seq::new(256, |t: int| 0)
    } else {
        vadd(mont_row_sum(row, v, l - 1), Seq::new(256, |t: int| mont(row[l - 1][t] * v[l - 1][t])))
    }
}

/// reduce32 of each coefficient: x - floor((x + 2^22) / 2^23) q.
pub open spec fn reduce32_seq(x: Seq<int>) -> Seq<int> {
    Seq::new(256, |t: int| x[t] - ((x[t] + 4194304) / 8388608) * (Q as int))
}

/// Sum over j < l of the pointwise Montgomery products of row i of A with
/// v, reduced with reduce32: congruent to `row_sum` of the row and v.
pub(crate) fn row_times_vector(row: &Vec<Poly>, v: &[Poly], l: usize) -> (acc: Poly)
    requires
        1 <= l <= 8,
        row@.len() == l,
        polyvec_ok(row@, l as int, 9 * Q as int),
        polyvec_ok(v@, l as int, 9 * Q as int),
    ensures
        coeffs_bounded(acc, Q as int),
        cong_seq(ints(acc.coeffs@), row_sum(poly_ints(row@), poly_ints(v@), l as int)),
        ints(acc.coeffs@) == reduce32_seq(mont_row_sum(poly_ints(row@), poly_ints(v@), l as int)),
{
    let ghost rr = poly_ints(row@);
    let ghost vv = poly_ints(v@);
    let mut acc = ntt_multiply(&row[0], &v[0]);
    proof {
        assert(row_sum(rr, vv, 0) =~= Seq::new(256, |i: int| 0));
        assert(row_sum(rr, vv, 1) =~= pointwise(rr[0], vv[0]));
        assert(mont_row_sum(rr, vv, 0) =~= Seq::new(256, |t: int| 0));
        assert(rr[0] == ints(row@[0].coeffs@));
        assert(vv[0] == ints(v@[0].coeffs@));
        assert(ints(acc.coeffs@) =~= mont_row_sum(rr, vv, 1));
    }
    for j in 1..l
        invariant
            1 <= l <= 8,
            row@.len() == l,
            rr == poly_ints(row@),
            vv == poly_ints(v@),
            polyvec_ok(row@, l as int, 9 * Q as int),
            polyvec_ok(v@, l as int, 9 * Q as int),
            coeffs_bounded(acc, j * Q as int),
            cong_seq(ints(acc.coeffs@), row_sum(rr, vv, j as int)),
            ints(acc.coeffs@) == mont_row_sum(rr, vv, j as int),
    {
        let prod = ntt_multiply(&row[j], &v[j]);
        let ghost acc0 = acc.coeffs@;
        let mut i: usize = 0;
        while i < N
            invariant
                1 <= j < l <= 8,
                0 <= i <= N,
                coeffs_bounded(prod, Q as int),
                forall|t: int| 0 <= t < i ==> -(j + 1) * Q < #[trigger] acc.coeffs[t] < (j + 1) * Q,
                forall|t: int| i <= t < N ==> -j * Q < #[trigger] acc.coeffs[t] < j * Q,
                forall|t: int| 0 <= t < i ==> #[trigger] acc.coeffs[t] == acc0[t] + prod.coeffs[t],
                forall|t: int| i <= t < N ==> #[trigger] acc.coeffs[t] == acc0[t],
            decreases N - i,
        {
            acc.coeffs[i] = acc.coeffs[i] + prod.coeffs[i];
            i += 1;
        }
        proof {
            assert(ints(acc.coeffs@) =~= vadd(ints(acc0), ints(prod.coeffs@)));
            assert(rr[j as int] == ints(row@[j as int].coeffs@));
            assert(vv[j as int] == ints(v@[j as int].coeffs@));
            lemma_cong_seq_ops(ints(acc0), row_sum(rr, vv, j as int), ints(prod.coeffs@), pointwise(rr[j as int], vv[j as int]));
            assert(row_sum(rr, vv, j + 1) == vadd(row_sum(rr, vv, j as int), pointwise(rr[j as int], vv[j as int])));
            assert(ints(acc.coeffs@) =~= mont_row_sum(rr, vv, j + 1));
        }
    }
    let r = poly_reduce32(&acc);
    proof {
        assert forall|i: int| 0 <= i < 256 implies #[trigger] cong_at(ints(r.coeffs@), ints(acc.coeffs@), i) by {
            assert((r.coeffs[i] as int - acc.coeffs[i] as int) % (Q as int) == 0);
        }
        lemma_cong_seq_trans(ints(r.coeffs@), ints(acc.coeffs@), row_sum(rr, vv, l as int));
        assert(ints(r.coeffs@) =~= reduce32_seq(ints(acc.coeffs@)));
    }
    r
}

/// t = A v in the NTT domain followed by the inverse NTT (row by row):
/// k polynomials with coefficients in (-q, q).
pub fn matrix_vector_mul_ntt(a: &[Vec<Poly>], v: &[Poly], k: usize, l: usize) -> (t: Vec<Poly>)
    requires
        1 <= k <= 8,
        1 <= l <= 8,
        matrix_ok(a@, k as int, l as int),
        polyvec_ok(v@, l as int, 9 * Q as int),
    ensures
        polyvec_ok(t@, k as int, Q as int),
        forall|i: int|
            0 <= i < k ==> cong_seq(
                ints((#[trigger] t@[i]).coeffs@),
                inv_ntt_spec(row_sum(poly_ints(a@[i]@), poly_ints(v@), l as int)),
            ),
        forall|i: int|
            0 <= i < k ==> ints((#[trigger] t@[i]).coeffs@) == inv_ntt_exact(
                reduce32_seq(mont_row_sum(poly_ints(a@[i]@), poly_ints(v@), l as int)),
            ),
{
    let mut t: Vec<Poly> = Vec::new();
    for i in 0..k
        invariant
            1 <= k <= 8,
            1 <= l <= 8,
            matrix_ok(a@, k as int, l as int),
            polyvec_ok(v@, l as int, 9 * Q as int),
            polyvec_ok(t@, i as int, Q as int),
            forall|r: int|
                0 <= r < i ==> cong_seq(
                    ints((#[trigger] t@[r]).coeffs@),
                    inv_ntt_spec(row_sum(poly_ints(a@[r]@), poly_ints(v@), l as int)),
                ),
            forall|r: int|
                0 <= r < i ==> ints((#[trigger] t@[r]).coeffs@) == inv_ntt_exact(
                    reduce32_seq(mont_row_sum(poly_ints(a@[r]@), poly_ints(v@), l as int)),
                ),
    {
        let acc = row_times_vector(&a[i], v, l);
        let ti = inv_ntt(&acc);
        proof {
            let target = row_sum(poly_ints(a@[i as int]@), poly_ints(v@), l as int);
            lemma_inv_ntt_spec_cong(ints(acc.coeffs@), target);
            lemma_cong_seq_trans(ints(ti.coeffs@), inv_ntt_spec(ints(acc.coeffs@)), inv_ntt_spec(target));
        }
        t.push(ti);
    }
    t
}

/// The product of two polynomials given in the NTT domain, brought back
/// with the inverse NTT: coefficients in (-q, q).
pub fn ntt_product_inverse(a_hat: &Poly, b_hat: &Poly) -> (r: Poly)
    requires
        coeffs_bounded(*a_hat, 9 * Q as int),
        coeffs_bounded(*b_hat, 9 * Q as int),
    ensures
        coeffs_bounded(r, Q as int),
        cong_seq(ints(r.coeffs@), inv_ntt_spec(pointwise(ints(a_hat.coeffs@), ints(b_hat.coeffs@)))),
        ints(r.coeffs@) == inv_ntt_exact(
            Seq::new(256, |i: int| mont(a_hat.coeffs[i] as int * b_hat.coeffs[i] as int)),
        ),
{
    let prod = ntt_multiply(a_hat, b_hat);
    assert(ints(prod.coeffs@) =~= Seq::new(256, |i: int| mont(a_hat.coeffs[i] as int * b_hat.coeffs[i] as int)));
    let r = inv_ntt(&prod);
    proof {
        let target = pointwise(ints(a_hat.coeffs@), ints(b_hat.coeffs@));
        lemma_inv_ntt_spec_cong(ints(prod.coeffs@), target);
        lemma_cong_seq_trans(ints(r.coeffs@), inv_ntt_spec(ints(prod.coeffs@)), inv_ntt_spec(target));
    }
    r
}

} // verus!
