//! The NTT as evaluation: coefficient j of NTT(w) is w evaluated at the
//! j-th root of X^256 + 1 modulo q. From this, the NTT turns the product
//! of Z_q[X]/(X^256 + 1) into the coefficient-wise product.

use vstd::prelude::*;
use crate::modq::{cong, lemma_cong_ops, lemma_cong_trans, lemma_multiples};
use crate::ntt::{
    cong_at,
    cong_seq,
    fwd_layer,
    ints,
    inv_layer,
    inv_layers,
    inv_ntt_spec,
    layer_ok,
    lemma_cong_seq_trans,
    lemma_fwd_layer_value,
    lemma_inv_layer_value,
    lemma_inv_ntt_spec_cong,
    lemma_inv_ntt_undoes_ntt,
    lemma_layer_index,
    ntt_spec,
    pointwise,
    row_sum,
    scale,
    vadd,
    };
use crate::modq::rinv;
use crate::hints::count_nonzero;
use crate::params::Q;
use crate::roots::{lemma_twiddle_square, tw_square};
use crate::twiddles::tw;

verus! {

/// x^n.
pub open spec fn xpow(x: int, n: nat) -> int
    decreases n,
{
    if n == 0 {
        1
    } else {
        x * xpow(x, (n - 1) as nat)
    }
}

/// sum_{s < n} u_s x^s.
pub open spec fn eval(u: Seq<int>, x: int, n: nat) -> int
    decreases n,
{
    if n == 0 {
        0
    } else {
        eval(u, x, (n - 1) as nat) + u[n - 1] * xpow(x, (n - 1) as nat)
    }
}

/// The coefficients t, t + step, t + 2 step, ... of w, `count` of them.
pub open spec fn strided(w: Seq<int>, t: int, step: int, count: int) -> Seq<int> {
    Seq::new(count as nat, |s: int| w[t + step * s])
}

/// The root that block b of `blocks` blocks stands for: -1 for the whole
/// polynomial (X^256 + 1 = X^256 - (-1)), then the twiddle of the layer
/// that made the block, negated for the second half.
pub open spec fn stage_root(blocks: int, b: int) -> int {
    if blocks <= 1 {
        -1
    } else if b % 2 == 0 {
        tw(blocks / 2 + b / 2)
    } else {
        -tw(blocks / 2 + b / 2)
    }
}

/// The j-th root of X^256 + 1 at which NTT coefficient j evaluates.
pub open spec fn ntt_root(j: int) -> int {
    stage_root(256, j)
}

/// Coefficient i of x, in block i / len, is w reduced modulo
/// X^len - stage_root(blocks, i / len) at offset i % len.
pub open spec fn stage_at(x: Seq<int>, w: Seq<int>, len: int, blocks: int, i: int) -> bool {
    cong(x[i], eval(strided(w, i % len, len, blocks), stage_root(blocks, i / len), blocks as nat))
}

/// After the layers that made `blocks` blocks of len coefficients, x holds
/// the residues of w modulo the factors X^len - stage_root(blocks, b).
pub open spec fn stage(x: Seq<int>, w: Seq<int>, len: int, blocks: int) -> bool {
    forall|i: int| 0 <= i < 256 ==> #[trigger] stage_at(x, w, len, blocks, i)
}

/// x = y (mod q) gives x^n = y^n (mod q).
pub proof fn lemma_pow_cong(x: int, y: int, n: nat)
    requires
        cong(x, y),
    ensures
        cong(xpow(x, n), xpow(y, n)),
    decreases n,
{
    if n > 0 {
        lemma_pow_cong(x, y, (n - 1) as nat);
        lemma_cong_ops(x, y, xpow(x, (n - 1) as nat), xpow(y, (n - 1) as nat), 0);
    } else {
        assert(xpow(x, 0) == 1 && xpow(y, 0) == 1);
    }
}

/// d^2 = g (mod q) gives d^(2n) = g^n (mod q).
pub proof fn lemma_pow_square_cong(d: int, g: int, n: nat)
    requires
        cong(d * d, g),
    ensures
        cong(xpow(d, 2 * n), xpow(g, n)),
    decreases n,
{
    if n == 0 {
        assert(xpow(d, 0) == 1 && xpow(g, 0) == 1);
    } else {
        let m = (n - 1) as nat;
        lemma_pow_square_cong(d, g, m);
        assert(xpow(d, 2 * n) == d * xpow(d, (2 * m + 1) as nat));
        assert(xpow(d, (2 * m + 1) as nat) == d * xpow(d, 2 * m));
        assert(xpow(d, 2 * n) == (d * d) * xpow(d, 2 * m)) by (nonlinear_arith)
            requires
                xpow(d, 2 * n) == d * (d * xpow(d, 2 * m)),
        ;
        lemma_cong_ops(d * d, g, xpow(d, 2 * m), xpow(g, m), 0);
    }
}

/// Splitting a sum by even and odd powers: for d^2 = g (mod q),
/// sum_{s < 2n} u_s d^s = sum_{s < n} u_2s g^s + d sum_{s < n} u_(2s+1) g^s.
pub proof fn lemma_eval_split(u: Seq<int>, ue: Seq<int>, uo: Seq<int>, d: int, g: int, n: nat)
    requires
        cong(d * d, g),
        forall|s: int| #![trigger ue[s]] #![trigger uo[s]] 0 <= s < n ==> ue[s] == u[2 * s] && uo[s] == u[2 * s + 1],
    ensures
        cong(eval(u, d, 2 * n), eval(ue, g, n) + d * eval(uo, g, n)),
    decreases n,
{
    if n == 0 {
        assert(eval(u, d, 0) == 0);
        assert(eval(ue, g, 0) + d * eval(uo, g, 0) == 0);
    } else {
        let m = (n - 1) as nat;
        let mi = m as int;
        lemma_eval_split(u, ue, uo, d, g, m);
        let u0 = u[2 * mi];
        let u1 = u[2 * mi + 1];
        assert(ue[mi] == u0 && uo[mi] == u1);
        let a = eval(u, d, 2 * m);
        let b = eval(ue, g, m) + d * eval(uo, g, m);
        let pd = xpow(d, 2 * m);
        let pg = xpow(g, m);
        lemma_pow_square_cong(d, g, m);
        assert(eval(u, d, (2 * m + 1) as nat) == a + u0 * pd);
        assert(xpow(d, (2 * m + 1) as nat) == d * pd);
        assert(eval(u, d, 2 * n) == a + u0 * pd + u1 * (d * pd));
        assert(eval(ue, g, n) == eval(ue, g, m) + u0 * pg);
        assert(eval(uo, g, n) == eval(uo, g, m) + u1 * pg);
        let lhs_tail = u0 * pd + u1 * (d * pd);
        let rhs_tail = u0 * pg + d * (u1 * pg);
        assert(eval(ue, g, n) + d * eval(uo, g, n) == b + rhs_tail) by (nonlinear_arith)
            requires
                eval(ue, g, n) == eval(ue, g, m) + u0 * pg,
                eval(uo, g, n) == eval(uo, g, m) + u1 * pg,
                b == eval(ue, g, m) + d * eval(uo, g, m),
                rhs_tail == u0 * pg + d * (u1 * pg),
        ;
        lemma_cong_ops(pd, pg, 0, 0, u0);
        lemma_cong_ops(pd, pg, 0, 0, d * u1);
        assert(pd * u0 == u0 * pd) by (nonlinear_arith);
        assert(pg * u0 == u0 * pg) by (nonlinear_arith);
        assert(pd * (d * u1) == u1 * (d * pd)) by (nonlinear_arith);
        assert(pg * (d * u1) == d * (u1 * pg)) by (nonlinear_arith);
        lemma_cong_ops(u0 * pd, u0 * pg, u1 * (d * pd), d * (u1 * pg), 0);
        lemma_cong_ops(a, b, lhs_tail, rhs_tail, 0);
    }
}

/// The first stage: one block, w itself.
proof fn lemma_stage_start(w: Seq<int>)
    requires
        w.len() == 256,
    ensures
        stage(w, w, 256, 1),
{
    assert forall|i: int| 0 <= i < 256 implies #[trigger] stage_at(w, w, 256, 1, i) by {
        let u = strided(w, i % 256, 256, 1);
        assert(i % 256 == i && i / 256 == 0);
        assert(u[0] == w[i]);
        assert(xpow(-1, 0) == 1);
        assert(eval(u, -1, 0) == 0);
        assert(eval(u, -1, 1) == w[i]);
        assert(w[i] - w[i] == 0);
    }
}

/// stage_root(blocks, b) is the square of the twiddle blocks + b, modulo q.
proof fn lemma_stage_root_square(len: int, blocks: int, b: int)
    requires
        layer_ok(len, blocks),
        0 <= b < blocks,
    ensures
        cong(tw(blocks + b) * tw(blocks + b), stage_root(blocks, b)),
        stage_root(2 * blocks, 2 * b) == tw(blocks + b),
        stage_root(2 * blocks, 2 * b + 1) == -tw(blocks + b),
{
    lemma_twiddle_square(blocks + b);
    assert(tw_square(blocks + b) == stage_root(blocks, b));
}

/// One coefficient of one layer of the forward NTT keeps the stage
/// invariant: the residue modulo X^2len - g splits into the residues modulo
/// X^len - d and X^len + d, d the twiddle of the block, d^2 = g.
#[verifier::spinoff_prover]
proof fn lemma_stage_step_at(x: Seq<int>, w: Seq<int>, len: int, blocks: int, i: int)
    requires
        layer_ok(len, blocks),
        stage(x, w, 2 * len, blocks),
        0 <= i < 256,
    ensures
        stage_at(fwd_layer(x, len, blocks), w, len, 2 * blocks, i),
{
    lemma_layer_index(i, len, blocks);
    lemma_fwd_layer_value(x, len, blocks, i);
    let m = 2 * len;
    let bb = i / m;
    let r = i % m;
    let d = tw(blocks + bb);
    let g = stage_root(blocks, bb);
    lemma_stage_root_square(len, blocks, bb);
    vstd::arithmetic::div_mod::lemma_fundamental_div_mod(i, m);
    assert(i == m * bb + r);
    let y = fwd_layer(x, len, blocks);
    if r < len {
        let t = r;
        assert(i == len * (2 * bb) + t) by (nonlinear_arith)
            requires
                i == m * bb + r,
                m == 2 * len,
                t == r,
        ;
        vstd::arithmetic::div_mod::lemma_fundamental_div_mod_converse(i, len, 2 * bb, t);
        let u = strided(w, t, len, 2 * blocks);
        let ue = strided(w, t, m, blocks);
        let uo = strided(w, t + len, m, blocks);
        assert forall|s: int| #![trigger ue[s]] #![trigger uo[s]] 0 <= s < blocks implies ue[s] == u[2 * s] && uo[s] == u[2 * s + 1] by {
            assert(len * (2 * s) == m * s) by (nonlinear_arith)
                requires
                    m == 2 * len,
            ;
            assert(len * (2 * s + 1) == len + m * s) by (nonlinear_arith)
                requires
                    m == 2 * len,
            ;
        }
        lemma_eval_split(u, ue, uo, d, g, blocks as nat);
        assert(stage_at(x, w, m, blocks, i));
        assert(stage_at(x, w, m, blocks, i + len));
        assert(cong(x[i], eval(ue, g, blocks as nat)));
        assert(cong(x[i + len], eval(uo, g, blocks as nat)));
        lemma_cong_ops(x[i + len], eval(uo, g, blocks as nat), 0, 0, d);
        assert(x[i + len] * d == d * x[i + len]) by (nonlinear_arith);
        assert(eval(uo, g, blocks as nat) * d == d * eval(uo, g, blocks as nat)) by (nonlinear_arith);
        lemma_cong_ops(x[i], eval(ue, g, blocks as nat), d * x[i + len], d * eval(uo, g, blocks as nat), 0);
        assert(y[i] == x[i] + d * x[i + len]);
        lemma_cong_ops(eval(u, d, (2 * blocks) as nat), eval(ue, g, blocks as nat) + d * eval(uo, g, blocks as nat), 0, 0, 0);
        lemma_cong_trans(y[i], eval(ue, g, blocks as nat) + d * eval(uo, g, blocks as nat), eval(u, d, (2 * blocks) as nat));
        assert(stage_root(2 * blocks, i / len) == d);
    } else {
        let t = r - len;
        assert(i == len * (2 * bb + 1) + t) by (nonlinear_arith)
            requires
                i == m * bb + r,
                m == 2 * len,
                t == r - len,
        ;
        vstd::arithmetic::div_mod::lemma_fundamental_div_mod_converse(i, len, 2 * bb + 1, t);
        let u = strided(w, t, len, 2 * blocks);
        let ue = strided(w, t, m, blocks);
        let uo = strided(w, t + len, m, blocks);
        assert forall|s: int| #![trigger ue[s]] #![trigger uo[s]] 0 <= s < blocks implies ue[s] == u[2 * s] && uo[s] == u[2 * s + 1] by {
            assert(len * (2 * s) == m * s) by (nonlinear_arith)
                requires
                    m == 2 * len,
            ;
            assert(len * (2 * s + 1) == len + m * s) by (nonlinear_arith)
                requires
                    m == 2 * len,
            ;
        }
        assert((-d) * (-d) == d * d) by (nonlinear_arith);
        lemma_eval_split(u, ue, uo, -d, g, blocks as nat);
        assert(stage_at(x, w, m, blocks, i - len));
        assert(stage_at(x, w, m, blocks, i));
        assert(cong(x[i - len], eval(ue, g, blocks as nat)));
        assert(cong(x[i], eval(uo, g, blocks as nat)));
        lemma_cong_ops(x[i], eval(uo, g, blocks as nat), 0, 0, d);
        assert(x[i] * d == d * x[i]) by (nonlinear_arith);
        assert(eval(uo, g, blocks as nat) * d == d * eval(uo, g, blocks as nat)) by (nonlinear_arith);
        lemma_cong_ops(x[i - len], eval(ue, g, blocks as nat), d * x[i], d * eval(uo, g, blocks as nat), 0);
        assert(y[i] == x[i - len] - d * x[i]);
        assert(eval(ue, g, blocks as nat) + (-d) * eval(uo, g, blocks as nat) == eval(ue, g, blocks as nat) - d
            * eval(uo, g, blocks as nat)) by (nonlinear_arith);
        lemma_cong_ops(eval(u, -d, (2 * blocks) as nat), eval(ue, g, blocks as nat) - d * eval(uo, g, blocks as nat), 0, 0, 0);
        lemma_cong_trans(y[i], eval(ue, g, blocks as nat) - d * eval(uo, g, blocks as nat), eval(u, -d, (2 * blocks) as nat));
        assert(stage_root(2 * blocks, i / len) == -d);
    }
}

/// A layer of the forward NTT takes stage (2 len, blocks) to stage
/// (len, 2 blocks).
proof fn lemma_stage_step(x: Seq<int>, w: Seq<int>, len: int, blocks: int)
    requires
        layer_ok(len, blocks),
        stage(x, w, 2 * len, blocks),
    ensures
        stage(fwd_layer(x, len, blocks), w, len, 2 * blocks),
{
    assert forall|i: int| 0 <= i < 256 implies #[trigger] stage_at(fwd_layer(x, len, blocks), w, len, 2 * blocks, i) by {
        lemma_stage_step_at(x, w, len, blocks, i);
    }
}

/// The NTT is evaluation: NTT(w)_j = w(ntt_root(j)) modulo q.
pub proof fn lemma_ntt_eval(w: Seq<int>)
    requires
        w.len() == 256,
    ensures
        forall|j: int| 0 <= j < 256 ==> cong(#[trigger] ntt_spec(w)[j], eval(w, ntt_root(j), 256)),
{
    lemma_stage_start(w);
    let x1 = fwd_layer(w, 128, 1);
    lemma_stage_step(w, w, 128, 1);
    let x2 = fwd_layer(x1, 64, 2);
    lemma_stage_step(x1, w, 64, 2);
    let x3 = fwd_layer(x2, 32, 4);
    lemma_stage_step(x2, w, 32, 4);
    let x4 = fwd_layer(x3, 16, 8);
    lemma_stage_step(x3, w, 16, 8);
    let x5 = fwd_layer(x4, 8, 16);
    lemma_stage_step(x4, w, 8, 16);
    let x6 = fwd_layer(x5, 4, 32);
    lemma_stage_step(x5, w, 4, 32);
    let x7 = fwd_layer(x6, 2, 64);
    lemma_stage_step(x6, w, 2, 64);
    let x8 = fwd_layer(x7, 1, 128);
    lemma_stage_step(x7, w, 1, 128);
    assert(x8 == ntt_spec(w));
    assert forall|j: int| 0 <= j < 256 implies cong(#[trigger] ntt_spec(w)[j], eval(w, ntt_root(j), 256)) by {
        assert(stage_at(x8, w, 1, 256, j));
        assert(j % 1 == 0 && j / 1 == j);
        assert(strided(w, 0, 1, 256) =~= w);
    }
}

/// The contribution of a_i to coefficient k of a * b in Z[X]/(X^256 + 1):
/// a_i b_(k-i), or -a_i b_(k-i+256) when i > k (X^256 = -1).
pub open spec fn negacyclic_term(a: Seq<i32>, b: Seq<i32>, k: int, i: int) -> int {
    if i <= k {
        a[i] * b[k - i]
    } else {
        -(a[i] * b[k - i + 256])
    }
}

/// The sum of the first n contributions to coefficient k of a * b.
pub open spec fn negacyclic_sum(a: Seq<i32>, b: Seq<i32>, k: int, n: nat) -> int
    decreases n,
{
    if n == 0 {
        0
    } else {
        negacyclic_sum(a, b, k, (n - 1) as nat) + negacyclic_term(a, b, k, n - 1)
    }
}

/// The product a b in Z[X]/(X^256 + 1), coefficient by coefficient.
pub open spec fn nega_product(a: Seq<i32>, b: Seq<i32>) -> Seq<int> {
    Seq::new(256, |k: int| negacyclic_sum(a, b, k, 256))
}

/// Each stage root r satisfies r^blocks = -1 (mod q).
proof fn lemma_stage_root_pow(blocks: int, b: int)
    requires
        blocks == 1 || blocks == 2 || blocks == 4 || blocks == 8 || blocks == 16 || blocks == 32
            || blocks == 64 || blocks == 128 || blocks == 256,
        0 <= b < blocks,
    ensures
        cong(xpow(stage_root(blocks, b), blocks as nat), -1),
    decreases blocks,
{
    if blocks == 1 {
        assert(xpow(-1, 0) == 1);
        assert(xpow(-1, 1) == -1);
        assert(-1 - -1 == 0);
    } else {
        let half = blocks / 2;
        let c = b / 2;
        let d = tw(half + c);
        let e = stage_root(blocks, b);
        let g = stage_root(half, c);
        lemma_stage_root_pow(half, c);
        lemma_twiddle_square(half + c);
        assert(tw_square(half + c) == g);
        assert(e * e == d * d) by (nonlinear_arith)
            requires
                e == d || e == -d,
        ;
        lemma_pow_square_cong(e, g, half as nat);
        assert(2 * (half as nat) == blocks as nat);
        lemma_cong_trans(xpow(e, blocks as nat), xpow(g, half as nat), -1);
    }
}

/// Every root at which the NTT evaluates is a root of X^256 + 1 modulo q.
pub proof fn lemma_ntt_root(j: int)
    requires
        0 <= j < 256,
    ensures
        cong(xpow(ntt_root(j), 256), -1),
{
    lemma_stage_root_pow(256, j);
}

/// Multiplication by X in Z[X]/(X^256 + 1): the coefficients move up by
/// one place and the top one comes back negated.
pub open spec fn rot(u: Seq<int>) -> Seq<int> {
    Seq::new(256, |k: int| if k == 0 { -u[255] } else { u[k - 1] })
}

/// Multiplication by X^n in Z[X]/(X^256 + 1).
pub open spec fn rotn(u: Seq<int>, n: nat) -> Seq<int>
    decreases n,
{
    if n == 0 {
        u
    } else {
        rot(rotn(u, (n - 1) as nat))
    }
}

/// sum_{i < n} a_i X^i b in Z[X]/(X^256 + 1).
pub open spec fn mac(a: Seq<int>, b: Seq<int>, n: nat) -> Seq<int>
    decreases n,
{
    if n == 0 {
        Seq::new(256, |k: int| 0)
    } else {
        Seq::new(256, |k: int| mac(a, b, (n - 1) as nat)[k] + a[n - 1] * rotn(b, (n - 1) as nat)[k])
    }
}

/// X^i b, coefficient k: b_(k-i), or -b_(k-i+256) when i > k.
proof fn lemma_rotn_value(b: Seq<int>, i: nat, k: int)
    requires
        b.len() == 256,
        i < 256,
        0 <= k < 256,
    ensures
        rotn(b, i).len() == 256,
        rotn(b, i)[k] == (if i <= k { b[k - i] } else { -b[k - i + 256] }),
    decreases i,
{
    if i > 0 {
        let j = (i - 1) as nat;
        lemma_rotn_value(b, j, 255);
        if k > 0 {
            lemma_rotn_value(b, j, k - 1);
        }
    }
}

/// Evaluation of a prefix of X u: sum_{s <= n} (X u)_s g^s = -u_255 + g sum_{s < n} u_s g^s.
proof fn lemma_eval_rot_prefix(u: Seq<int>, g: int, n: nat)
    requires
        n < 256,
    ensures
        eval(rot(u), g, n + 1) == -u[255] + g * eval(u, g, n),
    decreases n,
{
    let r = rot(u);
    if n == 0 {
        assert(eval(r, g, 0) == 0);
        assert(xpow(g, 0) == 1);
        assert(eval(u, g, 0) == 0);
        assert(eval(r, g, 1) == r[0]);
    } else {
        let m = (n - 1) as nat;
        lemma_eval_rot_prefix(u, g, m);
        let e = eval(u, g, m);
        let p = xpow(g, m);
        assert(r[n as int] == u[m as int]);
        assert(xpow(g, n) == g * p);
        assert(eval(r, g, n + 1) == eval(r, g, n) + r[n as int] * xpow(g, n));
        assert(eval(u, g, n) == e + u[m as int] * p);
        assert(-u[255] + g * e + u[m as int] * (g * p) == -u[255] + g * (e + u[m as int] * p)) by (nonlinear_arith);
    }
}

/// Evaluation at a root g of X^256 + 1 turns multiplication by X into
/// multiplication by g.
proof fn lemma_eval_rot(u: Seq<int>, g: int)
    requires
        cong(xpow(g, 256), -1),
    ensures
        cong(eval(rot(u), g, 256), g * eval(u, g, 256)),
{
    lemma_eval_rot_prefix(u, g, 255);
    let e = eval(u, g, 255);
    let p = xpow(g, 255);
    assert(xpow(g, 256) == g * p);
    assert(eval(u, g, 256) == e + u[255] * p);
    assert(eval(rot(u), g, 256) - g * eval(u, g, 256) == -u[255] * (xpow(g, 256) - -1)) by (nonlinear_arith)
        requires
            eval(rot(u), g, 256) == -u[255] + g * e,
            eval(u, g, 256) == e + u[255] * p,
            xpow(g, 256) == g * p,
    ;
    lemma_multiples(xpow(g, 256) - -1, 0, -u[255]);
    assert((xpow(g, 256) - -1) * -u[255] == -u[255] * (xpow(g, 256) - -1)) by (nonlinear_arith);
}

/// Evaluation at a root g of X^256 + 1 turns multiplication by X^n into
/// multiplication by g^n.
proof fn lemma_eval_rotn(b: Seq<int>, g: int, n: nat)
    requires
        cong(xpow(g, 256), -1),
    ensures
        cong(eval(rotn(b, n), g, 256), xpow(g, n) * eval(b, g, 256)),
    decreases n,
{
    let e = eval(b, g, 256);
    if n == 0 {
        assert(xpow(g, 0) == 1);
        assert(eval(b, g, 256) - 1 * e == 0);
    } else {
        let m = (n - 1) as nat;
        lemma_eval_rotn(b, g, m);
        let r = rotn(b, m);
        lemma_eval_rot(r, g);
        lemma_cong_ops(eval(r, g, 256), xpow(g, m) * e, 0, 0, g);
        assert(eval(r, g, 256) * g == g * eval(r, g, 256)) by (nonlinear_arith);
        assert((xpow(g, m) * e) * g == xpow(g, n) * e) by (nonlinear_arith)
            requires
                xpow(g, n) == g * xpow(g, m),
        ;
        lemma_cong_trans(eval(rotn(b, n), g, 256), g * eval(r, g, 256), xpow(g, n) * e);
    }
}

/// Evaluation is linear: s = p + c r coefficient-wise gives
/// eval(s) = eval(p) + c eval(r).
proof fn lemma_eval_linear(s: Seq<int>, p: Seq<int>, r: Seq<int>, c: int, g: int, n: nat)
    requires
        n <= 256,
        forall|k: int| 0 <= k < 256 ==> #[trigger] s[k] == p[k] + c * r[k],
    ensures
        eval(s, g, n) == eval(p, g, n) + c * eval(r, g, n),
    decreases n,
{
    if n > 0 {
        let m = (n - 1) as nat;
        lemma_eval_linear(s, p, r, c, g, m);
        let x = xpow(g, m);
        assert(s[m as int] == p[m as int] + c * r[m as int]);
        assert(eval(p, g, m) + c * eval(r, g, m) + (p[m as int] + c * r[m as int]) * x == eval(p, g, m)
            + p[m as int] * x + c * (eval(r, g, m) + r[m as int] * x)) by (nonlinear_arith);
    }
}

/// The zero polynomial evaluates to 0.
proof fn lemma_eval_zero(z: Seq<int>, g: int, n: nat)
    requires
        n <= 256,
        forall|k: int| 0 <= k < 256 ==> #[trigger] z[k] == 0,
    ensures
        eval(z, g, n) == 0,
    decreases n,
{
    if n > 0 {
        lemma_eval_zero(z, g, (n - 1) as nat);
        assert(z[n - 1] == 0);
        assert(0 * xpow(g, (n - 1) as nat) == 0);
    }
}

/// The evaluation of sum_{i < n} a_i X^i b at a root g of X^256 + 1 is
/// (sum_{i < n} a_i g^i) b(g), modulo q.
proof fn lemma_eval_mac(a: Seq<int>, b: Seq<int>, g: int, n: nat)
    requires
        n <= 256,
        cong(xpow(g, 256), -1),
    ensures
        cong(eval(mac(a, b, n), g, 256), eval(a, g, n) * eval(b, g, 256)),
    decreases n,
{
    let e = eval(b, g, 256);
    if n == 0 {
        let z = mac(a, b, 0);
        lemma_eval_zero(z, g, 256);
        assert(eval(a, g, 0) == 0);
        assert(eval(z, g, 256) - 0 * e == 0);
    } else {
        let m = (n - 1) as nat;
        lemma_eval_mac(a, b, g, m);
        let prev = mac(a, b, m);
        let r = rotn(b, m);
        lemma_eval_linear(mac(a, b, n), prev, r, a[m as int], g, 256);
        lemma_eval_rotn(b, g, m);
        lemma_cong_ops(eval(r, g, 256), xpow(g, m) * e, 0, 0, a[m as int]);
        lemma_cong_ops(eval(prev, g, 256), eval(a, g, m) * e, eval(r, g, 256) * a[m as int], (xpow(g, m) * e) * a[m as int], 0);
        assert(eval(r, g, 256) * a[m as int] == a[m as int] * eval(r, g, 256)) by (nonlinear_arith);
        assert(eval(a, g, m) * e + (xpow(g, m) * e) * a[m as int] == (eval(a, g, m) + a[m as int] * xpow(g, m)) * e) by (nonlinear_arith);
    }
}

/// The coefficients of sum_{i < n} a_i X^i b are the partial negacyclic
/// sums.
proof fn lemma_mac_value(a: Seq<i32>, b: Seq<i32>, n: nat, k: int)
    requires
        a.len() == 256,
        b.len() == 256,
        n <= 256,
        0 <= k < 256,
    ensures
        mac(ints(a), ints(b), n)[k] == negacyclic_sum(a, b, k, n),
    decreases n,
{
    if n > 0 {
        let m = (n - 1) as nat;
        lemma_mac_value(a, b, m, k);
        lemma_rotn_value(ints(b), m, k);
        if m <= k {
            assert(ints(b)[k - m] == b[k - m] as int);
        } else {
            assert(ints(b)[k - m + 256] == b[k - m + 256] as int);
            assert((a[m as int] as int) * -(b[k - m + 256] as int) == -((a[m as int] as int) * (b[k - m + 256] as int))) by (nonlinear_arith);
        }
    }
}

/// The NTT turns the product of Z_q[X]/(X^256 + 1) into the
/// coefficient-wise product: NTT(a b)_j = NTT(a)_j NTT(b)_j (mod q).
#[verifier::spinoff_prover]
pub proof fn lemma_ntt_of_product(a: Seq<i32>, b: Seq<i32>)
    requires
        a.len() == 256,
        b.len() == 256,
    ensures
        forall|j: int|
            0 <= j < 256 ==> cong(#[trigger] ntt_spec(nega_product(a, b))[j], ntt_spec(ints(a))[j] * ntt_spec(ints(b))[j]),
{
    let ab = nega_product(a, b);
    let m = mac(ints(a), ints(b), 256);
    assert forall|k: int| 0 <= k < 256 implies #[trigger] ab[k] == m[k] by {
        lemma_mac_value(a, b, 256, k);
    }
    assert(ab =~= m);
    lemma_ntt_eval(ab);
    lemma_ntt_eval(ints(a));
    lemma_ntt_eval(ints(b));
    assert forall|j: int| 0 <= j < 256 implies cong(#[trigger] ntt_spec(ab)[j], ntt_spec(ints(a))[j] * ntt_spec(ints(b))[j]) by {
        let g = ntt_root(j);
        lemma_ntt_root(j);
        lemma_eval_mac(ints(a), ints(b), g, 256);
        let ea = eval(ints(a), g, 256);
        let eb = eval(ints(b), g, 256);
        lemma_cong_trans(ntt_spec(ab)[j], eval(m, g, 256), ea * eb);
        lemma_cong_ops(ntt_spec(ints(a))[j], ea, ntt_spec(ints(b))[j], eb, 0);
        lemma_cong_ops(ntt_spec(ints(a))[j] * ntt_spec(ints(b))[j], ea * eb, 0, 0, 0);
        lemma_cong_trans(ntt_spec(ab)[j], ea * eb, ntt_spec(ints(a))[j] * ntt_spec(ints(b))[j]);
    }
}

/// A layer of the inverse NTT commutes with scaling.
proof fn lemma_inv_layer_scale(x: Seq<int>, c: int, len: int, blocks: int)
    requires
        layer_ok(len, blocks),
    ensures
        inv_layer(scale(x, c), len, blocks) == scale(inv_layer(x, len, blocks), c),
{
    let l = inv_layer(scale(x, c), len, blocks);
    let r = scale(inv_layer(x, len, blocks), c);
    assert forall|i: int| 0 <= i < 256 implies #[trigger] l[i] == r[i] by {
        lemma_layer_index(i, len, blocks);
        lemma_inv_layer_value(scale(x, c), len, blocks, i);
        lemma_inv_layer_value(x, len, blocks, i);
        let v = crate::twiddles::itw(2 * blocks - 1 - i / (2 * len));
        if i % (2 * len) < len {
            assert(x[i] * c + x[i + len] * c == (x[i] + x[i + len]) * c) by (nonlinear_arith);
        } else {
            assert((x[i - len] * c - x[i] * c) * v == ((x[i - len] - x[i]) * v) * c) by (nonlinear_arith);
        }
    }
    lemma_inv_layer_value(x, len, blocks, 0);
    lemma_inv_layer_value(scale(x, c), len, blocks, 0);
    assert(l =~= r);
}

/// The inverse NTT commutes with scaling.
proof fn lemma_inv_ntt_spec_scale(x: Seq<int>, c: int)
    ensures
        inv_ntt_spec(scale(x, c)) == scale(inv_ntt_spec(x), c),
{
    lemma_inv_layer_scale(x, c, 1, 128);
    let x1 = inv_layer(x, 1, 128);
    lemma_inv_layer_value(x, 1, 128, 0);
    lemma_inv_layer_scale(x1, c, 2, 64);
    let x2 = inv_layer(x1, 2, 64);
    lemma_inv_layer_value(x1, 2, 64, 0);
    lemma_inv_layer_scale(x2, c, 4, 32);
    let x3 = inv_layer(x2, 4, 32);
    lemma_inv_layer_value(x2, 4, 32, 0);
    lemma_inv_layer_scale(x3, c, 8, 16);
    let x4 = inv_layer(x3, 8, 16);
    lemma_inv_layer_value(x3, 8, 16, 0);
    lemma_inv_layer_scale(x4, c, 16, 8);
    let x5 = inv_layer(x4, 16, 8);
    lemma_inv_layer_value(x4, 16, 8, 0);
    lemma_inv_layer_scale(x5, c, 32, 4);
    let x6 = inv_layer(x5, 32, 4);
    lemma_inv_layer_value(x5, 32, 4, 0);
    lemma_inv_layer_scale(x6, c, 64, 2);
    let x7 = inv_layer(x6, 64, 2);
    lemma_inv_layer_value(x6, 64, 2, 0);
    lemma_inv_layer_scale(x7, c, 128, 1);
    let x8 = inv_layer(x7, 128, 1);
    assert(inv_layers(scale(x, c)) == scale(x8, c));
    let k = 41978 * rinv();
    let l = inv_ntt_spec(scale(x, c));
    let r = scale(inv_ntt_spec(x), c);
    assert forall|i: int| 0 <= i < 256 implies #[trigger] l[i] == r[i] by {
        assert((x8[i] * c) * k == (x8[i] * k) * c) by (nonlinear_arith);
    }
    assert(l =~= r);
}

/// The inverse NTT of the coefficient-wise product of NTT(a) and NTT(b)
/// with one factor 2^-32 is the product a b of Z_q[X]/(X^256 + 1): what
/// `ntt_multiply` followed by `inv_ntt` computes.
#[verifier::spinoff_prover]
pub proof fn lemma_inv_ntt_of_pointwise(a: Seq<i32>, b: Seq<i32>)
    requires
        a.len() == 256,
        b.len() == 256,
    ensures
        cong_seq(inv_ntt_spec(pointwise(ntt_spec(ints(a)), ntt_spec(ints(b)))), nega_product(a, b)),
{
    let ab = nega_product(a, b);
    let na = ntt_spec(ints(a));
    let nb = ntt_spec(ints(b));
    let nab = ntt_spec(ab);
    let ri = rinv();
    lemma_ntt_of_product(a, b);
    let pw = pointwise(na, nb);
    let sc = scale(nab, ri);
    assert forall|j: int| 0 <= j < 256 implies #[trigger] cong_at(pw, sc, j) by {
        assert(cong(nab[j], na[j] * nb[j]));
        lemma_cong_ops(na[j] * nb[j], nab[j], 0, 0, ri);
    }
    lemma_inv_ntt_spec_cong(pw, sc);
    lemma_inv_ntt_spec_scale(nab, ri);
    lemma_inv_ntt_undoes_ntt(ab);
    let t = scale(ab, 4294967296);
    let inv_nab = inv_ntt_spec(nab);
    assert forall|i: int| 0 <= i < 256 implies #[trigger] cong_at(scale(inv_nab, ri), ab, i) by {
        assert(cong_at(inv_nab, t, i));
        lemma_cong_ops(inv_nab[i], t[i], 0, 0, ri);
        assert(t[i] * ri - ab[i] == ab[i] * (4294967296 * ri - 1)) by (nonlinear_arith)
            requires
                t[i] == ab[i] * 4294967296,
        ;
        assert((4294967296 * ri - 1) % (Q as int) == 0) by {
            assert(4294967296 * ri - 1 == 35501448049459199);
        }
        lemma_multiples(4294967296 * ri - 1, 0, ab[i]);
        assert((4294967296 * ri - 1) * ab[i] == ab[i] * (4294967296 * ri - 1)) by (nonlinear_arith);
        lemma_cong_trans(scale(inv_nab, ri)[i], t[i] * ri, ab[i]);
    }
    lemma_cong_seq_trans(inv_ntt_spec(pw), scale(inv_nab, ri), ab);
}

/// Coefficient-wise congruent factors have congruent negacyclic sums.
pub proof fn lemma_negacyclic_sum_cong(a: Seq<i32>, b: Seq<i32>, a2: Seq<i32>, b2: Seq<i32>, k: int, n: nat)
    requires
        0 <= k < 256,
        n <= 256,
        forall|i: int| 0 <= i < 256 ==> cong(#[trigger] a[i] as int, a2[i] as int),
        forall|i: int| 0 <= i < 256 ==> cong(#[trigger] b[i] as int, b2[i] as int),
    ensures
        cong(negacyclic_sum(a, b, k, n), negacyclic_sum(a2, b2, k, n)),
    decreases n,
{
    if n == 0 {
        assert(negacyclic_sum(a, b, k, 0) - negacyclic_sum(a2, b2, k, 0) == 0);
    } else {
        let m = (n - 1) as nat;
        let i = m as int;
        lemma_negacyclic_sum_cong(a, b, a2, b2, k, m);
        let j = if i <= k { k - i } else { k - i + 256 };
        assert(cong(a[i] as int, a2[i] as int));
        assert(cong(b[j] as int, b2[j] as int));
        lemma_cong_ops(a[i] as int, a2[i] as int, b[j] as int, b2[j] as int, 0);
        lemma_cong_ops((a[i] as int) * (b[j] as int), (a2[i] as int) * (b2[j] as int), 0, 0, -1);
        assert(((a[i] as int) * (b[j] as int)) * -1 == -((a[i] as int) * (b[j] as int)));
        assert(((a2[i] as int) * (b2[j] as int)) * -1 == -((a2[i] as int) * (b2[j] as int)));
        lemma_cong_ops(
            negacyclic_sum(a, b, k, m),
            negacyclic_sum(a2, b2, k, m),
            negacyclic_term(a, b, k, i),
            negacyclic_term(a2, b2, k, i),
            0,
        );
    }
}

/// The coefficient-wise product of two sequences (no Montgomery factor).
pub open spec fn vmul(a: Seq<int>, b: Seq<int>) -> Seq<int> {
    Seq::new(256, |i: int| a[i] * b[i])
}

/// The NTT is linear modulo q: NTT(x + c y) = NTT(x) + c NTT(y).
pub proof fn lemma_ntt_spec_linear(s: Seq<int>, x: Seq<int>, y: Seq<int>, c: int)
    requires
        s.len() == 256,
        x.len() == 256,
        y.len() == 256,
        forall|k: int| 0 <= k < 256 ==> #[trigger] s[k] == x[k] + c * y[k],
    ensures
        forall|j: int|
            0 <= j < 256 ==> cong(#[trigger] ntt_spec(s)[j], ntt_spec(x)[j] + c * ntt_spec(y)[j]),
{
    lemma_ntt_eval(s);
    lemma_ntt_eval(x);
    lemma_ntt_eval(y);
    assert forall|j: int| 0 <= j < 256 implies cong(#[trigger] ntt_spec(s)[j], ntt_spec(x)[j] + c * ntt_spec(y)[j]) by {
        let g = ntt_root(j);
        lemma_eval_linear(s, x, y, c, g, 256);
        lemma_cong_ops(ntt_spec(y)[j], eval(y, g, 256), 0, 0, c);
        assert(ntt_spec(y)[j] * c == c * ntt_spec(y)[j]) by (nonlinear_arith);
        assert(eval(y, g, 256) * c == c * eval(y, g, 256)) by (nonlinear_arith);
        lemma_cong_ops(ntt_spec(x)[j], eval(x, g, 256), c * ntt_spec(y)[j], c * eval(y, g, 256), 0);
        lemma_cong_ops(ntt_spec(x)[j] + c * ntt_spec(y)[j], eval(s, g, 256), 0, 0, 0);
        lemma_cong_trans(ntt_spec(s)[j], eval(s, g, 256), ntt_spec(x)[j] + c * ntt_spec(y)[j]);
    }
}

/// A layer of the inverse NTT is additive.
proof fn lemma_inv_layer_linear(x: Seq<int>, y: Seq<int>, c: int, len: int, blocks: int)
    requires
        layer_ok(len, blocks),
    ensures
        inv_layer(vadd(x, scale(y, c)), len, blocks) == vadd(inv_layer(x, len, blocks), scale(inv_layer(y, len, blocks), c)),
{
    let s = vadd(x, scale(y, c));
    let l = inv_layer(s, len, blocks);
    let r = vadd(inv_layer(x, len, blocks), scale(inv_layer(y, len, blocks), c));
    assert forall|i: int| 0 <= i < 256 implies #[trigger] l[i] == r[i] by {
        lemma_layer_index(i, len, blocks);
        lemma_inv_layer_value(s, len, blocks, i);
        lemma_inv_layer_value(x, len, blocks, i);
        lemma_inv_layer_value(y, len, blocks, i);
        let v = crate::twiddles::itw(2 * blocks - 1 - i / (2 * len));
        if i % (2 * len) < len {
            assert((x[i] + y[i] * c) + (x[i + len] + y[i + len] * c) == (x[i] + x[i + len]) + (y[i] + y[i + len]) * c) by (nonlinear_arith);
        } else {
            assert(((x[i - len] + y[i - len] * c) - (x[i] + y[i] * c)) * v == (x[i - len] - x[i]) * v + ((y[i - len] - y[i]) * v) * c) by (nonlinear_arith);
        }
    }
    lemma_inv_layer_value(s, len, blocks, 0);
    assert(l =~= r);
}

/// The inverse NTT is linear: InvNTT(x + c y) = InvNTT(x) + c InvNTT(y).
pub proof fn lemma_inv_ntt_spec_linear(x: Seq<int>, y: Seq<int>, c: int)
    ensures
        inv_ntt_spec(vadd(x, scale(y, c))) == vadd(inv_ntt_spec(x), scale(inv_ntt_spec(y), c)),
{
    lemma_inv_layer_linear(x, y, c, 1, 128);
    let x1 = inv_layer(x, 1, 128);
    let y1 = inv_layer(y, 1, 128);
    lemma_inv_layer_linear(x1, y1, c, 2, 64);
    let x2 = inv_layer(x1, 2, 64);
    let y2 = inv_layer(y1, 2, 64);
    lemma_inv_layer_linear(x2, y2, c, 4, 32);
    let x3 = inv_layer(x2, 4, 32);
    let y3 = inv_layer(y2, 4, 32);
    lemma_inv_layer_linear(x3, y3, c, 8, 16);
    let x4 = inv_layer(x3, 8, 16);
    let y4 = inv_layer(y3, 8, 16);
    lemma_inv_layer_linear(x4, y4, c, 16, 8);
    let x5 = inv_layer(x4, 16, 8);
    let y5 = inv_layer(y4, 16, 8);
    lemma_inv_layer_linear(x5, y5, c, 32, 4);
    let x6 = inv_layer(x5, 32, 4);
    let y6 = inv_layer(y5, 32, 4);
    lemma_inv_layer_linear(x6, y6, c, 64, 2);
    let x7 = inv_layer(x6, 64, 2);
    let y7 = inv_layer(y6, 64, 2);
    lemma_inv_layer_linear(x7, y7, c, 128, 1);
    let x8 = inv_layer(x7, 128, 1);
    let y8 = inv_layer(y7, 128, 1);
    let k = 41978 * rinv();
    let l = inv_ntt_spec(vadd(x, scale(y, c)));
    let r = vadd(inv_ntt_spec(x), scale(inv_ntt_spec(y), c));
    assert forall|i: int| 0 <= i < 256 implies #[trigger] l[i] == r[i] by {
        assert((x8[i] + y8[i] * c) * k == x8[i] * k + (y8[i] * k) * c) by (nonlinear_arith);
    }
    assert(l =~= r);
}

/// Row sums are additive in the vector.
pub proof fn lemma_row_sum_add(r: Seq<Seq<int>>, v: Seq<Seq<int>>, v2: Seq<Seq<int>>, vv: Seq<Seq<int>>, l: int)
    requires
        forall|j: int| 0 <= j < l ==> #[trigger] vv[j] == vadd(v[j], v2[j]),
    ensures
        row_sum(r, vv, l) == vadd(row_sum(r, v, l), row_sum(r, v2, l)),
    decreases l,
{
    if l <= 0 {
        assert(row_sum(r, vv, l) =~= vadd(row_sum(r, v, l), row_sum(r, v2, l)));
    } else {
        lemma_row_sum_add(r, v, v2, vv, l - 1);
        let j = l - 1;
        assert(vv[j] == vadd(v[j], v2[j]));
        let a = row_sum(r, v, l - 1);
        let b = row_sum(r, v2, l - 1);
        assert forall|i: int| 0 <= i < 256 implies #[trigger] row_sum(r, vv, l)[i] == vadd(row_sum(r, v, l), row_sum(r, v2, l))[i] by {
            assert(r[j][i] * (v[j][i] + v2[j][i]) * rinv() == r[j][i] * v[j][i] * rinv() + r[j][i] * v2[j][i] * rinv()) by (nonlinear_arith);
        }
        assert(row_sum(r, vv, l) =~= vadd(row_sum(r, v, l), row_sum(r, v2, l)));
    }
}

/// A coefficient-wise factor common to the whole vector comes out of the
/// row sum.
pub proof fn lemma_row_sum_mul(r: Seq<Seq<int>>, v: Seq<Seq<int>>, cv: Seq<Seq<int>>, m: Seq<int>, l: int)
    requires
        forall|j: int| 0 <= j < l ==> #[trigger] cv[j] == vmul(m, v[j]),
    ensures
        row_sum(r, cv, l) == vmul(m, row_sum(r, v, l)),
    decreases l,
{
    if l <= 0 {
        assert(row_sum(r, cv, l) =~= vmul(m, row_sum(r, v, l)));
    } else {
        lemma_row_sum_mul(r, v, cv, m, l - 1);
        let j = l - 1;
        assert(cv[j] == vmul(m, v[j]));
        assert forall|i: int| 0 <= i < 256 implies #[trigger] row_sum(r, cv, l)[i] == vmul(m, row_sum(r, v, l))[i] by {
            let a = row_sum(r, v, l - 1)[i];
            assert(m[i] * a + r[j][i] * (m[i] * v[j][i]) * rinv() == m[i] * (a + r[j][i] * v[j][i] * rinv())) by (nonlinear_arith);
        }
        assert(row_sum(r, cv, l) =~= vmul(m, row_sum(r, v, l)));
    }
}

/// A product with a polynomial of n coefficients in {-1, 0, 1} and a
/// polynomial of coefficients in [-eta, eta]: each partial negacyclic sum
/// is at most eta times the number of nonzero coefficients so far.
pub proof fn lemma_negacyclic_sum_bound(c: Seq<i32>, s: Seq<i32>, k: int, n: nat, eta: int)
    requires
        0 <= k < 256,
        n <= 256,
        eta >= 0,
        forall|i: int| 0 <= i < 256 ==> -1 <= #[trigger] c[i] <= 1,
        forall|i: int| 0 <= i < 256 ==> -eta <= #[trigger] s[i] <= eta,
    ensures
        -(eta * count_nonzero(c, n as int)) <= negacyclic_sum(c, s, k, n) <= eta * count_nonzero(c, n as int),
    decreases n,
{
    if n == 0 {
        assert(count_nonzero(c, 0) == 0);
        assert(eta * 0 == 0);
    } else {
        let m = (n - 1) as nat;
        let i = m as int;
        lemma_negacyclic_sum_bound(c, s, k, m, eta);
        let j = if i <= k { k - i } else { k - i + 256 };
        assert(-1 <= c[i] <= 1);
        assert(-eta <= s[j] <= eta);
        let t = negacyclic_term(c, s, k, i);
        assert(negacyclic_sum(c, s, k, n) == negacyclic_sum(c, s, k, m) + t);
        if c[i] == 0 {
            assert(t == 0);
        } else {
            assert(-eta <= t <= eta) by (nonlinear_arith)
                requires
                    t == c[i] * s[j] || t == -(c[i] * s[j]),
                    c[i] == 1 || c[i] == -1,
                    -eta <= s[j] <= eta,
            ;
        }
        assert(count_nonzero(c, n as int) == count_nonzero(c, i) + (if c[i] != 0 { 1int } else { 0int }));
        assert(eta * count_nonzero(c, n as int) == eta * count_nonzero(c, i) + (if c[i] != 0 { eta } else { 0int })) by (nonlinear_arith)
            requires
                count_nonzero(c, n as int) == count_nonzero(c, i) + (if c[i] != 0 { 1int } else { 0int }),
        ;
    }
}

} // verus!
