//! The twiddle factors of the NTT as residues modulo q, and the check,
//! pair by pair against the table, that each twiddle of the inverse NTT is
//! the inverse of the forward twiddle it undoes.

use vstd::prelude::*;
use crate::consts::zeta_spec;
use crate::modq::{cong, rinv};
use crate::params::Q;

verus! {

/// Twiddle factor k of the forward NTT as a residue: zeta^brv(k).
pub open spec fn tw(k: int) -> int {
    zeta_spec(k as usize) as int * rinv()
}

/// Twiddle factor k of the inverse NTT as a residue: -zeta^brv(k).
pub open spec fn itw(k: int) -> int {
    -(zeta_spec(k as usize) as int) * rinv()
}

/// Forward twiddle k and inverse twiddle k2 are inverse modulo q.
pub open spec fn twiddles_inverse(k: int, k2: int) -> bool {
    cong(tw(k) * itw(k2), 1)
}

/// The pairs (blocks + b, 2 blocks - 1 - b) for b < n are inverse.
pub open spec fn layer_twiddles_inverse(blocks: int, n: int) -> bool
    decreases n,
{
    if n <= 0 {
        true
    } else {
        twiddles_inverse(blocks + n - 1, 2 * blocks - n) && layer_twiddles_inverse(blocks, n - 1)
    }
}

proof fn lemma_layer_twiddles(blocks: int, n: int, b: int)
    requires
        layer_twiddles_inverse(blocks, n),
        0 <= b < n,
    ensures
        twiddles_inverse(blocks + b, 2 * blocks - 1 - b),
    decreases n,
{
    if b < n - 1 {
        lemma_layer_twiddles(blocks, n - 1, b);
    }
}

/// In every layer of blocks blocks, the twiddle of block b in the forward
/// NTT and the one the inverse NTT uses for it are inverse modulo q.
pub proof fn lemma_twiddle_pairs(blocks: int, b: int)
    requires
        blocks == 1 || blocks == 2 || blocks == 4 || blocks == 8 || blocks == 16 || blocks == 32
            || blocks == 64 || blocks == 128,
        0 <= b < blocks,
    ensures
        twiddles_inverse(blocks + b, 2 * blocks - 1 - b),
{
    if blocks == 1 {
        lemma_layer_1();
    } else if blocks == 2 {
        lemma_layer_2();
    } else if blocks == 4 {
        lemma_layer_4();
    } else if blocks == 8 {
        lemma_layer_8();
    } else if blocks == 16 {
        lemma_layer_16();
    } else if blocks == 32 {
        lemma_layer_32();
    } else if blocks == 64 {
        lemma_layer_64();
    } else {
        lemma_layer_128();
    }
    lemma_layer_twiddles(blocks, blocks, b);
}

/// 2^64 mod q.
pub open spec fn r2() -> int {
    2365951
}

proof fn lemma_pair_algebra(a: int, b: int, r: int, ri: int, m: int)
    requires
        m == a * b + r,
    ensures
        (a * ri) * (-b * ri) - 1 == -(m * (ri * ri)) + (r * (ri * ri) - 1),
{
    assert((a * ri) * (-b * ri) == -((a * b) * (ri * ri))) by (nonlinear_arith);
    assert(m * (ri * ri) == (a * b) * (ri * ri) + r * (ri * ri)) by (nonlinear_arith)
        requires
            m == a * b + r,
    ;
}

/// A table entry pair with z1 * z2 = -2^64 (mod q) is a pair of inverse
/// twiddles.
proof fn lemma_pair_from_values(k: int, k2: int, z1: int, z2: int)
    requires
        zeta_spec(k as usize) as int == z1,
        zeta_spec(k2 as usize) as int == z2,
        (z1 * z2 + r2()) % (Q as int) == 0,
    ensures
        twiddles_inverse(k, k2),
{
    let m = z1 * z2 + r2();
    let ri = rinv();
    lemma_pair_algebra(z1, z2, r2(), ri, m);
    assert((r2() * (ri * ri) - 1) % (Q as int) == 0) by {
        assert(r2() * (ri * ri) - 1 == 2365951 * (8265825 * 8265825) - 1);
    }
    vstd::arithmetic::div_mod::lemma_mul_mod_noop_left(m, ri * ri, Q as int);
    assert((-(m * (ri * ri))) % (Q as int) == 0) by {
        vstd::arithmetic::div_mod::lemma_mul_mod_noop_left(m, -(ri * ri), Q as int);
        assert(-(m * (ri * ri)) == m * -(ri * ri)) by (nonlinear_arith);
    }
    vstd::arithmetic::div_mod::lemma_add_mod_noop(-(m * (ri * ri)), r2() * (ri * ri) - 1, Q as int);
}

proof fn lemma_pair_1()
    ensures
        twiddles_inverse(1, 1),
{
    lemma_pair_from_values(1, 1, 25847, 25847);
}

proof fn lemma_layer_1_upto_1()
    requires
        layer_twiddles_inverse(1, 0),
    ensures
        layer_twiddles_inverse(1, 1),
{
    lemma_pair_1();
    assert(layer_twiddles_inverse(1, 1));
}

proof fn lemma_layer_1()
    ensures
        layer_twiddles_inverse(1, 1),
{
    assert(layer_twiddles_inverse(1, 0));
    lemma_layer_1_upto_1();
}

proof fn lemma_pair_2()
    ensures
        twiddles_inverse(2, 3),
{
    lemma_pair_from_values(2, 3, -2608894, -518909);
}

proof fn lemma_pair_3()
    ensures
        twiddles_inverse(3, 2),
{
    lemma_pair_from_values(3, 2, -518909, -2608894);
}

proof fn lemma_layer_2_upto_2()
    requires
        layer_twiddles_inverse(2, 0),
    ensures
        layer_twiddles_inverse(2, 2),
{
    lemma_pair_2();
    assert(layer_twiddles_inverse(2, 1));
    lemma_pair_3();
    assert(layer_twiddles_inverse(2, 2));
}

proof fn lemma_layer_2()
    ensures
        layer_twiddles_inverse(2, 2),
{
    assert(layer_twiddles_inverse(2, 0));
    lemma_layer_2_upto_2();
}

proof fn lemma_pair_4()
    ensures
        twiddles_inverse(4, 7),
{
    lemma_pair_from_values(4, 7, 237124, 466468);
}

proof fn lemma_pair_5()
    ensures
        twiddles_inverse(5, 6),
{
    lemma_pair_from_values(5, 6, -777960, -876248);
}

proof fn lemma_pair_6()
    ensures
        twiddles_inverse(6, 5),
{
    lemma_pair_from_values(6, 5, -876248, -777960);
}

proof fn lemma_pair_7()
    ensures
        twiddles_inverse(7, 4),
{
    lemma_pair_from_values(7, 4, 466468, 237124);
}

proof fn lemma_layer_4_upto_4()
    requires
        layer_twiddles_inverse(4, 0),
    ensures
        layer_twiddles_inverse(4, 4),
{
    lemma_pair_4();
    assert(layer_twiddles_inverse(4, 1));
    lemma_pair_5();
    assert(layer_twiddles_inverse(4, 2));
    lemma_pair_6();
    assert(layer_twiddles_inverse(4, 3));
    lemma_pair_7();
    assert(layer_twiddles_inverse(4, 4));
}

proof fn lemma_layer_4()
    ensures
        layer_twiddles_inverse(4, 4),
{
    assert(layer_twiddles_inverse(4, 0));
    lemma_layer_4_upto_4();
}

proof fn lemma_pair_8()
    ensures
        twiddles_inverse(8, 15),
{
    lemma_pair_from_values(8, 15, 1826347, 2680103);
}

proof fn lemma_pair_9()
    ensures
        twiddles_inverse(9, 14),
{
    lemma_pair_from_values(9, 14, 2353451, 3111497);
}

proof fn lemma_pair_10()
    ensures
        twiddles_inverse(10, 13),
{
    lemma_pair_from_values(10, 13, -359251, -2884855);
}

proof fn lemma_pair_11()
    ensures
        twiddles_inverse(11, 12),
{
    lemma_pair_from_values(11, 12, -2091905, 3119733);
}

proof fn lemma_pair_12()
    ensures
        twiddles_inverse(12, 11),
{
    lemma_pair_from_values(12, 11, 3119733, -2091905);
}

proof fn lemma_pair_13()
    ensures
        twiddles_inverse(13, 10),
{
    lemma_pair_from_values(13, 10, -2884855, -359251);
}

proof fn lemma_pair_14()
    ensures
        twiddles_inverse(14, 9),
{
    lemma_pair_from_values(14, 9, 3111497, 2353451);
}

proof fn lemma_pair_15()
    ensures
        twiddles_inverse(15, 8),
{
    lemma_pair_from_values(15, 8, 2680103, 1826347);
}

proof fn lemma_layer_8_upto_8()
    requires
        layer_twiddles_inverse(8, 0),
    ensures
        layer_twiddles_inverse(8, 8),
{
    lemma_pair_8();
    assert(layer_twiddles_inverse(8, 1));
    lemma_pair_9();
    assert(layer_twiddles_inverse(8, 2));
    lemma_pair_10();
    assert(layer_twiddles_inverse(8, 3));
    lemma_pair_11();
    assert(layer_twiddles_inverse(8, 4));
    lemma_pair_12();
    assert(layer_twiddles_inverse(8, 5));
    lemma_pair_13();
    assert(layer_twiddles_inverse(8, 6));
    lemma_pair_14();
    assert(layer_twiddles_inverse(8, 7));
    lemma_pair_15();
    assert(layer_twiddles_inverse(8, 8));
}

proof fn lemma_layer_8()
    ensures
        layer_twiddles_inverse(8, 8),
{
    assert(layer_twiddles_inverse(8, 0));
    lemma_layer_8_upto_8();
}

proof fn lemma_pair_16()
    ensures
        twiddles_inverse(16, 31),
{
    lemma_pair_from_values(16, 31, 2725464, 280005);
}

proof fn lemma_pair_17()
    ensures
        twiddles_inverse(17, 30),
{
    lemma_pair_from_values(17, 30, 1024112, 4010497);
}

proof fn lemma_pair_18()
    ensures
        twiddles_inverse(18, 29),
{
    lemma_pair_from_values(18, 29, -1079900, -19422);
}

proof fn lemma_pair_19()
    ensures
        twiddles_inverse(19, 28),
{
    lemma_pair_from_values(19, 28, 3585928, 1757237);
}

proof fn lemma_pair_20()
    ensures
        twiddles_inverse(20, 27),
{
    lemma_pair_from_values(20, 27, -549488, -3277672);
}

proof fn lemma_pair_21()
    ensures
        twiddles_inverse(21, 26),
{
    lemma_pair_from_values(21, 26, -1119584, -1399561);
}

proof fn lemma_pair_22()
    ensures
        twiddles_inverse(22, 25),
{
    lemma_pair_from_values(22, 25, 2619752, -3859737);
}

proof fn lemma_pair_23()
    ensures
        twiddles_inverse(23, 24),
{
    lemma_pair_from_values(23, 24, -2108549, -2118186);
}

proof fn lemma_pair_24()
    ensures
        twiddles_inverse(24, 23),
{
    lemma_pair_from_values(24, 23, -2118186, -2108549);
}

proof fn lemma_pair_25()
    ensures
        twiddles_inverse(25, 22),
{
    lemma_pair_from_values(25, 22, -3859737, 2619752);
}

proof fn lemma_pair_26()
    ensures
        twiddles_inverse(26, 21),
{
    lemma_pair_from_values(26, 21, -1399561, -1119584);
}

proof fn lemma_pair_27()
    ensures
        twiddles_inverse(27, 20),
{
    lemma_pair_from_values(27, 20, -3277672, -549488);
}

proof fn lemma_pair_28()
    ensures
        twiddles_inverse(28, 19),
{
    lemma_pair_from_values(28, 19, 1757237, 3585928);
}

proof fn lemma_pair_29()
    ensures
        twiddles_inverse(29, 18),
{
    lemma_pair_from_values(29, 18, -19422, -1079900);
}

proof fn lemma_pair_30()
    ensures
        twiddles_inverse(30, 17),
{
    lemma_pair_from_values(30, 17, 4010497, 1024112);
}

proof fn lemma_pair_31()
    ensures
        twiddles_inverse(31, 16),
{
    lemma_pair_from_values(31, 16, 280005, 2725464);
}

proof fn lemma_layer_16_upto_16()
    requires
        layer_twiddles_inverse(16, 0),
    ensures
        layer_twiddles_inverse(16, 16),
{
    lemma_pair_16();
    assert(layer_twiddles_inverse(16, 1));
    lemma_pair_17();
    assert(layer_twiddles_inverse(16, 2));
    lemma_pair_18();
    assert(layer_twiddles_inverse(16, 3));
    lemma_pair_19();
    assert(layer_twiddles_inverse(16, 4));
    lemma_pair_20();
    assert(layer_twiddles_inverse(16, 5));
    lemma_pair_21();
    assert(layer_twiddles_inverse(16, 6));
    lemma_pair_22();
    assert(layer_twiddles_inverse(16, 7));
    lemma_pair_23();
    assert(layer_twiddles_inverse(16, 8));
    lemma_pair_24();
    assert(layer_twiddles_inverse(16, 9));
    lemma_pair_25();
    assert(layer_twiddles_inverse(16, 10));
    lemma_pair_26();
    assert(layer_twiddles_inverse(16, 11));
    lemma_pair_27();
    assert(layer_twiddles_inverse(16, 12));
    lemma_pair_28();
    assert(layer_twiddles_inverse(16, 13));
    lemma_pair_29();
    assert(layer_twiddles_inverse(16, 14));
    lemma_pair_30();
    assert(layer_twiddles_inverse(16, 15));
    lemma_pair_31();
    assert(layer_twiddles_inverse(16, 16));
}

proof fn lemma_layer_16()
    ensures
        layer_twiddles_inverse(16, 16),
{
    assert(layer_twiddles_inverse(16, 0));
    lemma_layer_16_upto_16();
}

proof fn lemma_pair_32()
    ensures
        twiddles_inverse(32, 63),
{
    lemma_pair_from_values(32, 63, 2706023, -2797779);
}

proof fn lemma_pair_33()
    ensures
        twiddles_inverse(33, 62),
{
    lemma_pair_from_values(33, 62, 95776, 2071892);
}

proof fn lemma_pair_34()
    ensures
        twiddles_inverse(34, 61),
{
    lemma_pair_from_values(34, 61, 3077325, -2556880);
}

proof fn lemma_pair_35()
    ensures
        twiddles_inverse(35, 60),
{
    lemma_pair_from_values(35, 60, 3530437, 3900724);
}

proof fn lemma_pair_36()
    ensures
        twiddles_inverse(36, 59),
{
    lemma_pair_from_values(36, 59, -1661693, 3881043);
}

proof fn lemma_pair_37()
    ensures
        twiddles_inverse(37, 58),
{
    lemma_pair_from_values(37, 58, -3592148, 954230);
}

proof fn lemma_pair_38()
    ensures
        twiddles_inverse(38, 57),
{
    lemma_pair_from_values(38, 57, -2537516, 531354);
}

proof fn lemma_pair_39()
    ensures
        twiddles_inverse(39, 56),
{
    lemma_pair_from_values(39, 56, 3915439, 811944);
}

proof fn lemma_pair_40()
    ensures
        twiddles_inverse(40, 55),
{
    lemma_pair_from_values(40, 55, -3861115, 3699596);
}

proof fn lemma_pair_41()
    ensures
        twiddles_inverse(41, 54),
{
    lemma_pair_from_values(41, 54, -3043716, -1600420);
}

proof fn lemma_pair_42()
    ensures
        twiddles_inverse(42, 53),
{
    lemma_pair_from_values(42, 53, 3574422, -2140649);
}

proof fn lemma_pair_43()
    ensures
        twiddles_inverse(43, 52),
{
    lemma_pair_from_values(43, 52, -2867647, 3507263);
}

proof fn lemma_pair_44()
    ensures
        twiddles_inverse(44, 51),
{
    lemma_pair_from_values(44, 51, 3539968, -3821735);
}

proof fn lemma_pair_45()
    ensures
        twiddles_inverse(45, 50),
{
    lemma_pair_from_values(45, 50, -300467, 3505694);
}

proof fn lemma_pair_46()
    ensures
        twiddles_inverse(46, 49),
{
    lemma_pair_from_values(46, 49, 2348700, -1643818);
}

proof fn lemma_pair_47()
    ensures
        twiddles_inverse(47, 48),
{
    lemma_pair_from_values(47, 48, -539299, -1699267);
}

proof fn lemma_pair_48()
    ensures
        twiddles_inverse(48, 47),
{
    lemma_pair_from_values(48, 47, -1699267, -539299);
}

proof fn lemma_pair_49()
    ensures
        twiddles_inverse(49, 46),
{
    lemma_pair_from_values(49, 46, -1643818, 2348700);
}

proof fn lemma_pair_50()
    ensures
        twiddles_inverse(50, 45),
{
    lemma_pair_from_values(50, 45, 3505694, -300467);
}

proof fn lemma_pair_51()
    ensures
        twiddles_inverse(51, 44),
{
    lemma_pair_from_values(51, 44, -3821735, 3539968);
}

proof fn lemma_pair_52()
    ensures
        twiddles_inverse(52, 43),
{
    lemma_pair_from_values(52, 43, 3507263, -2867647);
}

proof fn lemma_pair_53()
    ensures
        twiddles_inverse(53, 42),
{
    lemma_pair_from_values(53, 42, -2140649, 3574422);
}

proof fn lemma_pair_54()
    ensures
        twiddles_inverse(54, 41),
{
    lemma_pair_from_values(54, 41, -1600420, -3043716);
}

proof fn lemma_pair_55()
    ensures
        twiddles_inverse(55, 40),
{
    lemma_pair_from_values(55, 40, 3699596, -3861115);
}

proof fn lemma_pair_56()
    ensures
        twiddles_inverse(56, 39),
{
    lemma_pair_from_values(56, 39, 811944, 3915439);
}

proof fn lemma_pair_57()
    ensures
        twiddles_inverse(57, 38),
{
    lemma_pair_from_values(57, 38, 531354, -2537516);
}

proof fn lemma_pair_58()
    ensures
        twiddles_inverse(58, 37),
{
    lemma_pair_from_values(58, 37, 954230, -3592148);
}

proof fn lemma_pair_59()
    ensures
        twiddles_inverse(59, 36),
{
    lemma_pair_from_values(59, 36, 3881043, -1661693);
}

proof fn lemma_pair_60()
    ensures
        twiddles_inverse(60, 35),
{
    lemma_pair_from_values(60, 35, 3900724, 3530437);
}

proof fn lemma_pair_61()
    ensures
        twiddles_inverse(61, 34),
{
    lemma_pair_from_values(61, 34, -2556880, 3077325);
}

proof fn lemma_pair_62()
    ensures
        twiddles_inverse(62, 33),
{
    lemma_pair_from_values(62, 33, 2071892, 95776);
}

proof fn lemma_pair_63()
    ensures
        twiddles_inverse(63, 32),
{
    lemma_pair_from_values(63, 32, -2797779, 2706023);
}

proof fn lemma_layer_32_upto_32()
    requires
        layer_twiddles_inverse(32, 0),
    ensures
        layer_twiddles_inverse(32, 32),
{
    lemma_pair_32();
    assert(layer_twiddles_inverse(32, 1));
    lemma_pair_33();
    assert(layer_twiddles_inverse(32, 2));
    lemma_pair_34();
    assert(layer_twiddles_inverse(32, 3));
    lemma_pair_35();
    assert(layer_twiddles_inverse(32, 4));
    lemma_pair_36();
    assert(layer_twiddles_inverse(32, 5));
    lemma_pair_37();
    assert(layer_twiddles_inverse(32, 6));
    lemma_pair_38();
    assert(layer_twiddles_inverse(32, 7));
    lemma_pair_39();
    assert(layer_twiddles_inverse(32, 8));
    lemma_pair_40();
    assert(layer_twiddles_inverse(32, 9));
    lemma_pair_41();
    assert(layer_twiddles_inverse(32, 10));
    lemma_pair_42();
    assert(layer_twiddles_inverse(32, 11));
    lemma_pair_43();
    assert(layer_twiddles_inverse(32, 12));
    lemma_pair_44();
    assert(layer_twiddles_inverse(32, 13));
    lemma_pair_45();
    assert(layer_twiddles_inverse(32, 14));
    lemma_pair_46();
    assert(layer_twiddles_inverse(32, 15));
    lemma_pair_47();
    assert(layer_twiddles_inverse(32, 16));
    lemma_pair_48();
    assert(layer_twiddles_inverse(32, 17));
    lemma_pair_49();
    assert(layer_twiddles_inverse(32, 18));
    lemma_pair_50();
    assert(layer_twiddles_inverse(32, 19));
    lemma_pair_51();
    assert(layer_twiddles_inverse(32, 20));
    lemma_pair_52();
    assert(layer_twiddles_inverse(32, 21));
    lemma_pair_53();
    assert(layer_twiddles_inverse(32, 22));
    lemma_pair_54();
    assert(layer_twiddles_inverse(32, 23));
    lemma_pair_55();
    assert(layer_twiddles_inverse(32, 24));
    lemma_pair_56();
    assert(layer_twiddles_inverse(32, 25));
    lemma_pair_57();
    assert(layer_twiddles_inverse(32, 26));
    lemma_pair_58();
    assert(layer_twiddles_inverse(32, 27));
    lemma_pair_59();
    assert(layer_twiddles_inverse(32, 28));
    lemma_pair_60();
    assert(layer_twiddles_inverse(32, 29));
    lemma_pair_61();
    assert(layer_twiddles_inverse(32, 30));
    lemma_pair_62();
    assert(layer_twiddles_inverse(32, 31));
    lemma_pair_63();
    assert(layer_twiddles_inverse(32, 32));
}

proof fn lemma_layer_32()
    ensures
        layer_twiddles_inverse(32, 32),
{
    assert(layer_twiddles_inverse(32, 0));
    lemma_layer_32_upto_32();
}

proof fn lemma_pair_64()
    ensures
        twiddles_inverse(64, 127),
{
    lemma_pair_from_values(64, 127, -3930395, 3839961);
}

proof fn lemma_pair_65()
    ensures
        twiddles_inverse(65, 126),
{
    lemma_pair_from_values(65, 126, -1528703, -3628969);
}

proof fn lemma_pair_66()
    ensures
        twiddles_inverse(66, 125),
{
    lemma_pair_from_values(66, 125, -3677745, -3881060);
}

proof fn lemma_pair_67()
    ensures
        twiddles_inverse(67, 124),
{
    lemma_pair_from_values(67, 124, -3041255, -3019102);
}

proof fn lemma_pair_68()
    ensures
        twiddles_inverse(68, 123),
{
    lemma_pair_from_values(68, 123, -1452451, -1439742);
}

proof fn lemma_pair_69()
    ensures
        twiddles_inverse(69, 122),
{
    lemma_pair_from_values(69, 122, 3475950, -812732);
}

proof fn lemma_pair_70()
    ensures
        twiddles_inverse(70, 121),
{
    lemma_pair_from_values(70, 121, 2176455, -1584928);
}

proof fn lemma_pair_71()
    ensures
        twiddles_inverse(71, 120),
{
    lemma_pair_from_values(71, 120, -1585221, 1285669);
}

proof fn lemma_pair_72()
    ensures
        twiddles_inverse(72, 119),
{
    lemma_pair_from_values(72, 119, -1257611, 1341330);
}

proof fn lemma_pair_73()
    ensures
        twiddles_inverse(73, 118),
{
    lemma_pair_from_values(73, 118, 1939314, 1315589);
}

proof fn lemma_pair_74()
    ensures
        twiddles_inverse(74, 117),
{
    lemma_pair_from_values(74, 117, -4083598, -177440);
}

proof fn lemma_pair_75()
    ensures
        twiddles_inverse(75, 116),
{
    lemma_pair_from_values(75, 116, -1000202, -2409325);
}

proof fn lemma_pair_76()
    ensures
        twiddles_inverse(76, 115),
{
    lemma_pair_from_values(76, 115, -3190144, -1851402);
}

proof fn lemma_pair_77()
    ensures
        twiddles_inverse(77, 114),
{
    lemma_pair_from_values(77, 114, -3157330, 3159746);
}

proof fn lemma_pair_78()
    ensures
        twiddles_inverse(78, 113),
{
    lemma_pair_from_values(78, 113, -3632928, -3553272);
}

proof fn lemma_pair_79()
    ensures
        twiddles_inverse(79, 112),
{
    lemma_pair_from_values(79, 112, 126922, 189548);
}

proof fn lemma_pair_80()
    ensures
        twiddles_inverse(80, 111),
{
    lemma_pair_from_values(80, 111, 3412210, -1316856);
}

proof fn lemma_pair_81()
    ensures
        twiddles_inverse(81, 110),
{
    lemma_pair_from_values(81, 110, -983419, 759969);
}

proof fn lemma_pair_82()
    ensures
        twiddles_inverse(82, 109),
{
    lemma_pair_from_values(82, 109, 2147896, -210977);
}

proof fn lemma_pair_83()
    ensures
        twiddles_inverse(83, 108),
{
    lemma_pair_from_values(83, 108, 2715295, 2389356);
}

proof fn lemma_pair_84()
    ensures
        twiddles_inverse(84, 107),
{
    lemma_pair_from_values(84, 107, -2967645, -3249728);
}

proof fn lemma_pair_85()
    ensures
        twiddles_inverse(85, 106),
{
    lemma_pair_from_values(85, 106, -3693493, 1653064);
}

proof fn lemma_pair_86()
    ensures
        twiddles_inverse(86, 105),
{
    lemma_pair_from_values(86, 105, -411027, -8578);
}

proof fn lemma_pair_87()
    ensures
        twiddles_inverse(87, 104),
{
    lemma_pair_from_values(87, 104, -2477047, -3724342);
}

proof fn lemma_pair_88()
    ensures
        twiddles_inverse(88, 103),
{
    lemma_pair_from_values(88, 103, -671102, 3958618);
}

proof fn lemma_pair_89()
    ensures
        twiddles_inverse(89, 102),
{
    lemma_pair_from_values(89, 102, -1228525, 904516);
}

proof fn lemma_pair_90()
    ensures
        twiddles_inverse(90, 101),
{
    lemma_pair_from_values(90, 101, -22981, -1100098);
}

proof fn lemma_pair_91()
    ensures
        twiddles_inverse(91, 100),
{
    lemma_pair_from_values(91, 100, -1308169, 44288);
}

proof fn lemma_pair_92()
    ensures
        twiddles_inverse(92, 99),
{
    lemma_pair_from_values(92, 99, -381987, 3097992);
}

proof fn lemma_pair_93()
    ensures
        twiddles_inverse(93, 98),
{
    lemma_pair_from_values(93, 98, 1349076, 508951);
}

proof fn lemma_pair_94()
    ensures
        twiddles_inverse(94, 97),
{
    lemma_pair_from_values(94, 97, 1852771, 264944);
}

proof fn lemma_pair_95()
    ensures
        twiddles_inverse(95, 96),
{
    lemma_pair_from_values(95, 96, -1430430, -3343383);
}

proof fn lemma_pair_96()
    ensures
        twiddles_inverse(96, 95),
{
    lemma_pair_from_values(96, 95, -3343383, -1430430);
}

proof fn lemma_pair_97()
    ensures
        twiddles_inverse(97, 94),
{
    lemma_pair_from_values(97, 94, 264944, 1852771);
}

proof fn lemma_pair_98()
    ensures
        twiddles_inverse(98, 93),
{
    lemma_pair_from_values(98, 93, 508951, 1349076);
}

proof fn lemma_pair_99()
    ensures
        twiddles_inverse(99, 92),
{
    lemma_pair_from_values(99, 92, 3097992, -381987);
}

proof fn lemma_pair_100()
    ensures
        twiddles_inverse(100, 91),
{
    lemma_pair_from_values(100, 91, 44288, -1308169);
}

proof fn lemma_pair_101()
    ensures
        twiddles_inverse(101, 90),
{
    lemma_pair_from_values(101, 90, -1100098, -22981);
}

proof fn lemma_pair_102()
    ensures
        twiddles_inverse(102, 89),
{
    lemma_pair_from_values(102, 89, 904516, -1228525);
}

proof fn lemma_pair_103()
    ensures
        twiddles_inverse(103, 88),
{
    lemma_pair_from_values(103, 88, 3958618, -671102);
}

proof fn lemma_pair_104()
    ensures
        twiddles_inverse(104, 87),
{
    lemma_pair_from_values(104, 87, -3724342, -2477047);
}

proof fn lemma_pair_105()
    ensures
        twiddles_inverse(105, 86),
{
    lemma_pair_from_values(105, 86, -8578, -411027);
}

proof fn lemma_pair_106()
    ensures
        twiddles_inverse(106, 85),
{
    lemma_pair_from_values(106, 85, 1653064, -3693493);
}

proof fn lemma_pair_107()
    ensures
        twiddles_inverse(107, 84),
{
    lemma_pair_from_values(107, 84, -3249728, -2967645);
}

proof fn lemma_pair_108()
    ensures
        twiddles_inverse(108, 83),
{
    lemma_pair_from_values(108, 83, 2389356, 2715295);
}

proof fn lemma_pair_109()
    ensures
        twiddles_inverse(109, 82),
{
    lemma_pair_from_values(109, 82, -210977, 2147896);
}

proof fn lemma_pair_110()
    ensures
        twiddles_inverse(110, 81),
{
    lemma_pair_from_values(110, 81, 759969, -983419);
}

proof fn lemma_pair_111()
    ensures
        twiddles_inverse(111, 80),
{
    lemma_pair_from_values(111, 80, -1316856, 3412210);
}

proof fn lemma_pair_112()
    ensures
        twiddles_inverse(112, 79),
{
    lemma_pair_from_values(112, 79, 189548, 126922);
}

proof fn lemma_pair_113()
    ensures
        twiddles_inverse(113, 78),
{
    lemma_pair_from_values(113, 78, -3553272, -3632928);
}

proof fn lemma_pair_114()
    ensures
        twiddles_inverse(114, 77),
{
    lemma_pair_from_values(114, 77, 3159746, -3157330);
}

proof fn lemma_pair_115()
    ensures
        twiddles_inverse(115, 76),
{
    lemma_pair_from_values(115, 76, -1851402, -3190144);
}

proof fn lemma_pair_116()
    ensures
        twiddles_inverse(116, 75),
{
    lemma_pair_from_values(116, 75, -2409325, -1000202);
}

proof fn lemma_pair_117()
    ensures
        twiddles_inverse(117, 74),
{
    lemma_pair_from_values(117, 74, -177440, -4083598);
}

proof fn lemma_pair_118()
    ensures
        twiddles_inverse(118, 73),
{
    lemma_pair_from_values(118, 73, 1315589, 1939314);
}

proof fn lemma_pair_119()
    ensures
        twiddles_inverse(119, 72),
{
    lemma_pair_from_values(119, 72, 1341330, -1257611);
}

proof fn lemma_pair_120()
    ensures
        twiddles_inverse(120, 71),
{
    lemma_pair_from_values(120, 71, 1285669, -1585221);
}

proof fn lemma_pair_121()
    ensures
        twiddles_inverse(121, 70),
{
    lemma_pair_from_values(121, 70, -1584928, 2176455);
}

proof fn lemma_pair_122()
    ensures
        twiddles_inverse(122, 69),
{
    lemma_pair_from_values(122, 69, -812732, 3475950);
}

proof fn lemma_pair_123()
    ensures
        twiddles_inverse(123, 68),
{
    lemma_pair_from_values(123, 68, -1439742, -1452451);
}

proof fn lemma_pair_124()
    ensures
        twiddles_inverse(124, 67),
{
    lemma_pair_from_values(124, 67, -3019102, -3041255);
}

proof fn lemma_pair_125()
    ensures
        twiddles_inverse(125, 66),
{
    lemma_pair_from_values(125, 66, -3881060, -3677745);
}

proof fn lemma_pair_126()
    ensures
        twiddles_inverse(126, 65),
{
    lemma_pair_from_values(126, 65, -3628969, -1528703);
}

proof fn lemma_pair_127()
    ensures
        twiddles_inverse(127, 64),
{
    lemma_pair_from_values(127, 64, 3839961, -3930395);
}

proof fn lemma_layer_64_upto_32()
    requires
        layer_twiddles_inverse(64, 0),
    ensures
        layer_twiddles_inverse(64, 32),
{
    lemma_pair_64();
    assert(layer_twiddles_inverse(64, 1));
    lemma_pair_65();
    assert(layer_twiddles_inverse(64, 2));
    lemma_pair_66();
    assert(layer_twiddles_inverse(64, 3));
    lemma_pair_67();
    assert(layer_twiddles_inverse(64, 4));
    lemma_pair_68();
    assert(layer_twiddles_inverse(64, 5));
    lemma_pair_69();
    assert(layer_twiddles_inverse(64, 6));
    lemma_pair_70();
    assert(layer_twiddles_inverse(64, 7));
    lemma_pair_71();
    assert(layer_twiddles_inverse(64, 8));
    lemma_pair_72();
    assert(layer_twiddles_inverse(64, 9));
    lemma_pair_73();
    assert(layer_twiddles_inverse(64, 10));
    lemma_pair_74();
    assert(layer_twiddles_inverse(64, 11));
    lemma_pair_75();
    assert(layer_twiddles_inverse(64, 12));
    lemma_pair_76();
    assert(layer_twiddles_inverse(64, 13));
    lemma_pair_77();
    assert(layer_twiddles_inverse(64, 14));
    lemma_pair_78();
    assert(layer_twiddles_inverse(64, 15));
    lemma_pair_79();
    assert(layer_twiddles_inverse(64, 16));
    lemma_pair_80();
    assert(layer_twiddles_inverse(64, 17));
    lemma_pair_81();
    assert(layer_twiddles_inverse(64, 18));
    lemma_pair_82();
    assert(layer_twiddles_inverse(64, 19));
    lemma_pair_83();
    assert(layer_twiddles_inverse(64, 20));
    lemma_pair_84();
    assert(layer_twiddles_inverse(64, 21));
    lemma_pair_85();
    assert(layer_twiddles_inverse(64, 22));
    lemma_pair_86();
    assert(layer_twiddles_inverse(64, 23));
    lemma_pair_87();
    assert(layer_twiddles_inverse(64, 24));
    lemma_pair_88();
    assert(layer_twiddles_inverse(64, 25));
    lemma_pair_89();
    assert(layer_twiddles_inverse(64, 26));
    lemma_pair_90();
    assert(layer_twiddles_inverse(64, 27));
    lemma_pair_91();
    assert(layer_twiddles_inverse(64, 28));
    lemma_pair_92();
    assert(layer_twiddles_inverse(64, 29));
    lemma_pair_93();
    assert(layer_twiddles_inverse(64, 30));
    lemma_pair_94();
    assert(layer_twiddles_inverse(64, 31));
    lemma_pair_95();
    assert(layer_twiddles_inverse(64, 32));
}

proof fn lemma_layer_64_upto_64()
    requires
        layer_twiddles_inverse(64, 32),
    ensures
        layer_twiddles_inverse(64, 64),
{
    lemma_pair_96();
    assert(layer_twiddles_inverse(64, 33));
    lemma_pair_97();
    assert(layer_twiddles_inverse(64, 34));
    lemma_pair_98();
    assert(layer_twiddles_inverse(64, 35));
    lemma_pair_99();
    assert(layer_twiddles_inverse(64, 36));
    lemma_pair_100();
    assert(layer_twiddles_inverse(64, 37));
    lemma_pair_101();
    assert(layer_twiddles_inverse(64, 38));
    lemma_pair_102();
    assert(layer_twiddles_inverse(64, 39));
    lemma_pair_103();
    assert(layer_twiddles_inverse(64, 40));
    lemma_pair_104();
    assert(layer_twiddles_inverse(64, 41));
    lemma_pair_105();
    assert(layer_twiddles_inverse(64, 42));
    lemma_pair_106();
    assert(layer_twiddles_inverse(64, 43));
    lemma_pair_107();
    assert(layer_twiddles_inverse(64, 44));
    lemma_pair_108();
    assert(layer_twiddles_inverse(64, 45));
    lemma_pair_109();
    assert(layer_twiddles_inverse(64, 46));
    lemma_pair_110();
    assert(layer_twiddles_inverse(64, 47));
    lemma_pair_111();
    assert(layer_twiddles_inverse(64, 48));
    lemma_pair_112();
    assert(layer_twiddles_inverse(64, 49));
    lemma_pair_113();
    assert(layer_twiddles_inverse(64, 50));
    lemma_pair_114();
    assert(layer_twiddles_inverse(64, 51));
    lemma_pair_115();
    assert(layer_twiddles_inverse(64, 52));
    lemma_pair_116();
    assert(layer_twiddles_inverse(64, 53));
    lemma_pair_117();
    assert(layer_twiddles_inverse(64, 54));
    lemma_pair_118();
    assert(layer_twiddles_inverse(64, 55));
    lemma_pair_119();
    assert(layer_twiddles_inverse(64, 56));
    lemma_pair_120();
    assert(layer_twiddles_inverse(64, 57));
    lemma_pair_121();
    assert(layer_twiddles_inverse(64, 58));
    lemma_pair_122();
    assert(layer_twiddles_inverse(64, 59));
    lemma_pair_123();
    assert(layer_twiddles_inverse(64, 60));
    lemma_pair_124();
    assert(layer_twiddles_inverse(64, 61));
    lemma_pair_125();
    assert(layer_twiddles_inverse(64, 62));
    lemma_pair_126();
    assert(layer_twiddles_inverse(64, 63));
    lemma_pair_127();
    assert(layer_twiddles_inverse(64, 64));
}

proof fn lemma_layer_64()
    ensures
        layer_twiddles_inverse(64, 64),
{
    assert(layer_twiddles_inverse(64, 0));
    lemma_layer_64_upto_32();
    lemma_layer_64_upto_64();
}

proof fn lemma_pair_128()
    ensures
        twiddles_inverse(128, 255),
{
    lemma_pair_from_values(128, 255, 2091667, 1976782);
}

proof fn lemma_pair_129()
    ensures
        twiddles_inverse(129, 254),
{
    lemma_pair_from_values(129, 254, 3407706, -846154);
}

proof fn lemma_pair_130()
    ensures
        twiddles_inverse(130, 253),
{
    lemma_pair_from_values(130, 253, 2316500, 1400424);
}

proof fn lemma_pair_131()
    ensures
        twiddles_inverse(131, 252),
{
    lemma_pair_from_values(131, 252, 3817976, 3937738);
}

proof fn lemma_pair_132()
    ensures
        twiddles_inverse(132, 251),
{
    lemma_pair_from_values(132, 251, -3342478, -1362209);
}

proof fn lemma_pair_133()
    ensures
        twiddles_inverse(133, 250),
{
    lemma_pair_from_values(133, 250, 2244091, -48306);
}

proof fn lemma_pair_134()
    ensures
        twiddles_inverse(134, 249),
{
    lemma_pair_from_values(134, 249, -2446433, 3919660);
}

proof fn lemma_pair_135()
    ensures
        twiddles_inverse(135, 248),
{
    lemma_pair_from_values(135, 248, -3562462, -554416);
}

proof fn lemma_pair_136()
    ensures
        twiddles_inverse(136, 247),
{
    lemma_pair_from_values(136, 247, 266997, -3545687);
}

proof fn lemma_pair_137()
    ensures
        twiddles_inverse(137, 246),
{
    lemma_pair_from_values(137, 246, 2434439, 1612842);
}

proof fn lemma_pair_138()
    ensures
        twiddles_inverse(138, 245),
{
    lemma_pair_from_values(138, 245, -1235728, -976891);
}

proof fn lemma_pair_139()
    ensures
        twiddles_inverse(139, 244),
{
    lemma_pair_from_values(139, 244, 3513181, 183443);
}

proof fn lemma_pair_140()
    ensures
        twiddles_inverse(140, 243),
{
    lemma_pair_from_values(140, 243, -3520352, -2286327);
}

proof fn lemma_pair_141()
    ensures
        twiddles_inverse(141, 242),
{
    lemma_pair_from_values(141, 242, -3759364, -420899);
}

proof fn lemma_pair_142()
    ensures
        twiddles_inverse(142, 241),
{
    lemma_pair_from_values(142, 241, -1197226, -2235985);
}

proof fn lemma_pair_143()
    ensures
        twiddles_inverse(143, 240),
{
    lemma_pair_from_values(143, 240, -3193378, -2939036);
}

proof fn lemma_pair_144()
    ensures
        twiddles_inverse(144, 239),
{
    lemma_pair_from_values(144, 239, 900702, -3833893);
}

proof fn lemma_pair_145()
    ensures
        twiddles_inverse(145, 238),
{
    lemma_pair_from_values(145, 238, 1859098, -260646);
}

proof fn lemma_pair_146()
    ensures
        twiddles_inverse(146, 237),
{
    lemma_pair_from_values(146, 237, 909542, -1104333);
}

proof fn lemma_pair_147()
    ensures
        twiddles_inverse(147, 236),
{
    lemma_pair_from_values(147, 236, 819034, -1667432);
}

proof fn lemma_pair_148()
    ensures
        twiddles_inverse(148, 235),
{
    lemma_pair_from_values(148, 235, 495491, 1910376);
}

proof fn lemma_pair_149()
    ensures
        twiddles_inverse(149, 234),
{
    lemma_pair_from_values(149, 234, -1613174, -1803090);
}

proof fn lemma_pair_150()
    ensures
        twiddles_inverse(150, 233),
{
    lemma_pair_from_values(150, 233, -43260, 1723600);
}

proof fn lemma_pair_151()
    ensures
        twiddles_inverse(151, 232),
{
    lemma_pair_from_values(151, 232, -522500, -426683);
}

proof fn lemma_pair_152()
    ensures
        twiddles_inverse(152, 231),
{
    lemma_pair_from_values(152, 231, -655327, 472078);
}

proof fn lemma_pair_153()
    ensures
        twiddles_inverse(153, 230),
{
    lemma_pair_from_values(153, 230, -3122442, 1717735);
}

proof fn lemma_pair_154()
    ensures
        twiddles_inverse(154, 229),
{
    lemma_pair_from_values(154, 229, 2031748, -975884);
}

proof fn lemma_pair_155()
    ensures
        twiddles_inverse(155, 228),
{
    lemma_pair_from_values(155, 228, 3207046, 2213111);
}

proof fn lemma_pair_156()
    ensures
        twiddles_inverse(156, 227),
{
    lemma_pair_from_values(156, 227, -3556995, 269760);
}

proof fn lemma_pair_157()
    ensures
        twiddles_inverse(157, 226),
{
    lemma_pair_from_values(157, 226, -525098, 3866901);
}

proof fn lemma_pair_158()
    ensures
        twiddles_inverse(158, 225),
{
    lemma_pair_from_values(158, 225, -768622, 3523897);
}

proof fn lemma_pair_159()
    ensures
        twiddles_inverse(159, 224),
{
    lemma_pair_from_values(159, 224, -3595838, -3038916);
}

proof fn lemma_pair_160()
    ensures
        twiddles_inverse(160, 223),
{
    lemma_pair_from_values(160, 223, 342297, -1799107);
}

proof fn lemma_pair_161()
    ensures
        twiddles_inverse(161, 222),
{
    lemma_pair_from_values(161, 222, 286988, -3694233);
}

proof fn lemma_pair_162()
    ensures
        twiddles_inverse(162, 221),
{
    lemma_pair_from_values(162, 221, -2437823, 1652634);
}

proof fn lemma_pair_163()
    ensures
        twiddles_inverse(163, 220),
{
    lemma_pair_from_values(163, 220, 4108315, 810149);
}

proof fn lemma_pair_164()
    ensures
        twiddles_inverse(164, 219),
{
    lemma_pair_from_values(164, 219, 3437287, 3014001);
}

proof fn lemma_pair_165()
    ensures
        twiddles_inverse(165, 218),
{
    lemma_pair_from_values(165, 218, -3342277, 1616392);
}

proof fn lemma_pair_166()
    ensures
        twiddles_inverse(166, 217),
{
    lemma_pair_from_values(166, 217, 1735879, 162844);
}

proof fn lemma_pair_167()
    ensures
        twiddles_inverse(167, 216),
{
    lemma_pair_from_values(167, 216, 203044, -3183426);
}

proof fn lemma_pair_168()
    ensures
        twiddles_inverse(168, 215),
{
    lemma_pair_from_values(168, 215, 2842341, -1207385);
}

proof fn lemma_pair_169()
    ensures
        twiddles_inverse(169, 214),
{
    lemma_pair_from_values(169, 214, 2691481, 185531);
}

proof fn lemma_pair_170()
    ensures
        twiddles_inverse(170, 213),
{
    lemma_pair_from_values(170, 213, -2590150, 3369112);
}

proof fn lemma_pair_171()
    ensures
        twiddles_inverse(171, 212),
{
    lemma_pair_from_values(171, 212, 1265009, 1957272);
}

proof fn lemma_pair_172()
    ensures
        twiddles_inverse(172, 211),
{
    lemma_pair_from_values(172, 211, 4055324, -164721);
}

proof fn lemma_pair_173()
    ensures
        twiddles_inverse(173, 210),
{
    lemma_pair_from_values(173, 210, 1247620, 2454455);
}

proof fn lemma_pair_174()
    ensures
        twiddles_inverse(174, 209),
{
    lemma_pair_from_values(174, 209, 2486353, 2432395);
}

proof fn lemma_pair_175()
    ensures
        twiddles_inverse(175, 208),
{
    lemma_pair_from_values(175, 208, 1595974, -2013608);
}

proof fn lemma_pair_176()
    ensures
        twiddles_inverse(176, 207),
{
    lemma_pair_from_values(176, 207, -3767016, -3776993);
}

proof fn lemma_pair_177()
    ensures
        twiddles_inverse(177, 206),
{
    lemma_pair_from_values(177, 206, 1250494, 594136);
}

proof fn lemma_pair_178()
    ensures
        twiddles_inverse(178, 205),
{
    lemma_pair_from_values(178, 205, 2635921, -3724270);
}

proof fn lemma_pair_179()
    ensures
        twiddles_inverse(179, 204),
{
    lemma_pair_from_values(179, 204, -3548272, -2584293);
}

proof fn lemma_pair_180()
    ensures
        twiddles_inverse(180, 203),
{
    lemma_pair_from_values(180, 203, -2994039, -1846953);
}

proof fn lemma_pair_181()
    ensures
        twiddles_inverse(181, 202),
{
    lemma_pair_from_values(181, 202, 1869119, -1671176);
}

proof fn lemma_pair_182()
    ensures
        twiddles_inverse(182, 201),
{
    lemma_pair_from_values(182, 201, 1903435, -2831860);
}

proof fn lemma_pair_183()
    ensures
        twiddles_inverse(183, 200),
{
    lemma_pair_from_values(183, 200, -1050970, -542412);
}

proof fn lemma_pair_184()
    ensures
        twiddles_inverse(184, 199),
{
    lemma_pair_from_values(184, 199, -1333058, 3406031);
}

proof fn lemma_pair_185()
    ensures
        twiddles_inverse(185, 198),
{
    lemma_pair_from_values(185, 198, 1237275, 2235880);
}

proof fn lemma_pair_186()
    ensures
        twiddles_inverse(186, 197),
{
    lemma_pair_from_values(186, 197, -3318210, 777191);
}

proof fn lemma_pair_187()
    ensures
        twiddles_inverse(187, 196),
{
    lemma_pair_from_values(187, 196, -1430225, 1500165);
}

proof fn lemma_pair_188()
    ensures
        twiddles_inverse(188, 195),
{
    lemma_pair_from_values(188, 195, -451100, -1374803);
}

proof fn lemma_pair_189()
    ensures
        twiddles_inverse(189, 194),
{
    lemma_pair_from_values(189, 194, 1312455, -2546312);
}

proof fn lemma_pair_190()
    ensures
        twiddles_inverse(190, 193),
{
    lemma_pair_from_values(190, 193, 3306115, 1917081);
}

proof fn lemma_pair_191()
    ensures
        twiddles_inverse(191, 192),
{
    lemma_pair_from_values(191, 192, -1962642, -1279661);
}

proof fn lemma_pair_192()
    ensures
        twiddles_inverse(192, 191),
{
    lemma_pair_from_values(192, 191, -1279661, -1962642);
}

proof fn lemma_pair_193()
    ensures
        twiddles_inverse(193, 190),
{
    lemma_pair_from_values(193, 190, 1917081, 3306115);
}

proof fn lemma_pair_194()
    ensures
        twiddles_inverse(194, 189),
{
    lemma_pair_from_values(194, 189, -2546312, 1312455);
}

proof fn lemma_pair_195()
    ensures
        twiddles_inverse(195, 188),
{
    lemma_pair_from_values(195, 188, -1374803, -451100);
}

proof fn lemma_pair_196()
    ensures
        twiddles_inverse(196, 187),
{
    lemma_pair_from_values(196, 187, 1500165, -1430225);
}

proof fn lemma_pair_197()
    ensures
        twiddles_inverse(197, 186),
{
    lemma_pair_from_values(197, 186, 777191, -3318210);
}

proof fn lemma_pair_198()
    ensures
        twiddles_inverse(198, 185),
{
    lemma_pair_from_values(198, 185, 2235880, 1237275);
}

proof fn lemma_pair_199()
    ensures
        twiddles_inverse(199, 184),
{
    lemma_pair_from_values(199, 184, 3406031, -1333058);
}

proof fn lemma_pair_200()
    ensures
        twiddles_inverse(200, 183),
{
    lemma_pair_from_values(200, 183, -542412, -1050970);
}

proof fn lemma_pair_201()
    ensures
        twiddles_inverse(201, 182),
{
    lemma_pair_from_values(201, 182, -2831860, 1903435);
}

proof fn lemma_pair_202()
    ensures
        twiddles_inverse(202, 181),
{
    lemma_pair_from_values(202, 181, -1671176, 1869119);
}

proof fn lemma_pair_203()
    ensures
        twiddles_inverse(203, 180),
{
    lemma_pair_from_values(203, 180, -1846953, -2994039);
}

proof fn lemma_pair_204()
    ensures
        twiddles_inverse(204, 179),
{
    lemma_pair_from_values(204, 179, -2584293, -3548272);
}

proof fn lemma_pair_205()
    ensures
        twiddles_inverse(205, 178),
{
    lemma_pair_from_values(205, 178, -3724270, 2635921);
}

proof fn lemma_pair_206()
    ensures
        twiddles_inverse(206, 177),
{
    lemma_pair_from_values(206, 177, 594136, 1250494);
}

proof fn lemma_pair_207()
    ensures
        twiddles_inverse(207, 176),
{
    lemma_pair_from_values(207, 176, -3776993, -3767016);
}

proof fn lemma_pair_208()
    ensures
        twiddles_inverse(208, 175),
{
    lemma_pair_from_values(208, 175, -2013608, 1595974);
}

proof fn lemma_pair_209()
    ensures
        twiddles_inverse(209, 174),
{
    lemma_pair_from_values(209, 174, 2432395, 2486353);
}

proof fn lemma_pair_210()
    ensures
        twiddles_inverse(210, 173),
{
    lemma_pair_from_values(210, 173, 2454455, 1247620);
}

proof fn lemma_pair_211()
    ensures
        twiddles_inverse(211, 172),
{
    lemma_pair_from_values(211, 172, -164721, 4055324);
}

proof fn lemma_pair_212()
    ensures
        twiddles_inverse(212, 171),
{
    lemma_pair_from_values(212, 171, 1957272, 1265009);
}

proof fn lemma_pair_213()
    ensures
        twiddles_inverse(213, 170),
{
    lemma_pair_from_values(213, 170, 3369112, -2590150);
}

proof fn lemma_pair_214()
    ensures
        twiddles_inverse(214, 169),
{
    lemma_pair_from_values(214, 169, 185531, 2691481);
}

proof fn lemma_pair_215()
    ensures
        twiddles_inverse(215, 168),
{
    lemma_pair_from_values(215, 168, -1207385, 2842341);
}

proof fn lemma_pair_216()
    ensures
        twiddles_inverse(216, 167),
{
    lemma_pair_from_values(216, 167, -3183426, 203044);
}

proof fn lemma_pair_217()
    ensures
        twiddles_inverse(217, 166),
{
    lemma_pair_from_values(217, 166, 162844, 1735879);
}

proof fn lemma_pair_218()
    ensures
        twiddles_inverse(218, 165),
{
    lemma_pair_from_values(218, 165, 1616392, -3342277);
}

proof fn lemma_pair_219()
    ensures
        twiddles_inverse(219, 164),
{
    lemma_pair_from_values(219, 164, 3014001, 3437287);
}

proof fn lemma_pair_220()
    ensures
        twiddles_inverse(220, 163),
{
    lemma_pair_from_values(220, 163, 810149, 4108315);
}

proof fn lemma_pair_221()
    ensures
        twiddles_inverse(221, 162),
{
    lemma_pair_from_values(221, 162, 1652634, -2437823);
}

proof fn lemma_pair_222()
    ensures
        twiddles_inverse(222, 161),
{
    lemma_pair_from_values(222, 161, -3694233, 286988);
}

proof fn lemma_pair_223()
    ensures
        twiddles_inverse(223, 160),
{
    lemma_pair_from_values(223, 160, -1799107, 342297);
}

proof fn lemma_pair_224()
    ensures
        twiddles_inverse(224, 159),
{
    lemma_pair_from_values(224, 159, -3038916, -3595838);
}

proof fn lemma_pair_225()
    ensures
        twiddles_inverse(225, 158),
{
    lemma_pair_from_values(225, 158, 3523897, -768622);
}

proof fn lemma_pair_226()
    ensures
        twiddles_inverse(226, 157),
{
    lemma_pair_from_values(226, 157, 3866901, -525098);
}

proof fn lemma_pair_227()
    ensures
        twiddles_inverse(227, 156),
{
    lemma_pair_from_values(227, 156, 269760, -3556995);
}

proof fn lemma_pair_228()
    ensures
        twiddles_inverse(228, 155),
{
    lemma_pair_from_values(228, 155, 2213111, 3207046);
}

proof fn lemma_pair_229()
    ensures
        twiddles_inverse(229, 154),
{
    lemma_pair_from_values(229, 154, -975884, 2031748);
}

proof fn lemma_pair_230()
    ensures
        twiddles_inverse(230, 153),
{
    lemma_pair_from_values(230, 153, 1717735, -3122442);
}

proof fn lemma_pair_231()
    ensures
        twiddles_inverse(231, 152),
{
    lemma_pair_from_values(231, 152, 472078, -655327);
}

proof fn lemma_pair_232()
    ensures
        twiddles_inverse(232, 151),
{
    lemma_pair_from_values(232, 151, -426683, -522500);
}

proof fn lemma_pair_233()
    ensures
        twiddles_inverse(233, 150),
{
    lemma_pair_from_values(233, 150, 1723600, -43260);
}

proof fn lemma_pair_234()
    ensures
        twiddles_inverse(234, 149),
{
    lemma_pair_from_values(234, 149, -1803090, -1613174);
}

proof fn lemma_pair_235()
    ensures
        twiddles_inverse(235, 148),
{
    lemma_pair_from_values(235, 148, 1910376, 495491);
}

proof fn lemma_pair_236()
    ensures
        twiddles_inverse(236, 147),
{
    lemma_pair_from_values(236, 147, -1667432, 819034);
}

proof fn lemma_pair_237()
    ensures
        twiddles_inverse(237, 146),
{
    lemma_pair_from_values(237, 146, -1104333, 909542);
}

proof fn lemma_pair_238()
    ensures
        twiddles_inverse(238, 145),
{
    lemma_pair_from_values(238, 145, -260646, 1859098);
}

proof fn lemma_pair_239()
    ensures
        twiddles_inverse(239, 144),
{
    lemma_pair_from_values(239, 144, -3833893, 900702);
}

proof fn lemma_pair_240()
    ensures
        twiddles_inverse(240, 143),
{
    lemma_pair_from_values(240, 143, -2939036, -3193378);
}

proof fn lemma_pair_241()
    ensures
        twiddles_inverse(241, 142),
{
    lemma_pair_from_values(241, 142, -2235985, -1197226);
}

proof fn lemma_pair_242()
    ensures
        twiddles_inverse(242, 141),
{
    lemma_pair_from_values(242, 141, -420899, -3759364);
}

proof fn lemma_pair_243()
    ensures
        twiddles_inverse(243, 140),
{
    lemma_pair_from_values(243, 140, -2286327, -3520352);
}

proof fn lemma_pair_244()
    ensures
        twiddles_inverse(244, 139),
{
    lemma_pair_from_values(244, 139, 183443, 3513181);
}

proof fn lemma_pair_245()
    ensures
        twiddles_inverse(245, 138),
{
    lemma_pair_from_values(245, 138, -976891, -1235728);
}

proof fn lemma_pair_246()
    ensures
        twiddles_inverse(246, 137),
{
    lemma_pair_from_values(246, 137, 1612842, 2434439);
}

proof fn lemma_pair_247()
    ensures
        twiddles_inverse(247, 136),
{
    lemma_pair_from_values(247, 136, -3545687, 266997);
}

proof fn lemma_pair_248()
    ensures
        twiddles_inverse(248, 135),
{
    lemma_pair_from_values(248, 135, -554416, -3562462);
}

proof fn lemma_pair_249()
    ensures
        twiddles_inverse(249, 134),
{
    lemma_pair_from_values(249, 134, 3919660, -2446433);
}

proof fn lemma_pair_250()
    ensures
        twiddles_inverse(250, 133),
{
    lemma_pair_from_values(250, 133, -48306, 2244091);
}

proof fn lemma_pair_251()
    ensures
        twiddles_inverse(251, 132),
{
    lemma_pair_from_values(251, 132, -1362209, -3342478);
}

proof fn lemma_pair_252()
    ensures
        twiddles_inverse(252, 131),
{
    lemma_pair_from_values(252, 131, 3937738, 3817976);
}

proof fn lemma_pair_253()
    ensures
        twiddles_inverse(253, 130),
{
    lemma_pair_from_values(253, 130, 1400424, 2316500);
}

proof fn lemma_pair_254()
    ensures
        twiddles_inverse(254, 129),
{
    lemma_pair_from_values(254, 129, -846154, 3407706);
}

proof fn lemma_pair_255()
    ensures
        twiddles_inverse(255, 128),
{
    lemma_pair_from_values(255, 128, 1976782, 2091667);
}

proof fn lemma_layer_128_upto_32()
    requires
        layer_twiddles_inverse(128, 0),
    ensures
        layer_twiddles_inverse(128, 32),
{
    lemma_pair_128();
    assert(layer_twiddles_inverse(128, 1));
    lemma_pair_129();
    assert(layer_twiddles_inverse(128, 2));
    lemma_pair_130();
    assert(layer_twiddles_inverse(128, 3));
    lemma_pair_131();
    assert(layer_twiddles_inverse(128, 4));
    lemma_pair_132();
    assert(layer_twiddles_inverse(128, 5));
    lemma_pair_133();
    assert(layer_twiddles_inverse(128, 6));
    lemma_pair_134();
    assert(layer_twiddles_inverse(128, 7));
    lemma_pair_135();
    assert(layer_twiddles_inverse(128, 8));
    lemma_pair_136();
    assert(layer_twiddles_inverse(128, 9));
    lemma_pair_137();
    assert(layer_twiddles_inverse(128, 10));
    lemma_pair_138();
    assert(layer_twiddles_inverse(128, 11));
    lemma_pair_139();
    assert(layer_twiddles_inverse(128, 12));
    lemma_pair_140();
    assert(layer_twiddles_inverse(128, 13));
    lemma_pair_141();
    assert(layer_twiddles_inverse(128, 14));
    lemma_pair_142();
    assert(layer_twiddles_inverse(128, 15));
    lemma_pair_143();
    assert(layer_twiddles_inverse(128, 16));
    lemma_pair_144();
    assert(layer_twiddles_inverse(128, 17));
    lemma_pair_145();
    assert(layer_twiddles_inverse(128, 18));
    lemma_pair_146();
    assert(layer_twiddles_inverse(128, 19));
    lemma_pair_147();
    assert(layer_twiddles_inverse(128, 20));
    lemma_pair_148();
    assert(layer_twiddles_inverse(128, 21));
    lemma_pair_149();
    assert(layer_twiddles_inverse(128, 22));
    lemma_pair_150();
    assert(layer_twiddles_inverse(128, 23));
    lemma_pair_151();
    assert(layer_twiddles_inverse(128, 24));
    lemma_pair_152();
    assert(layer_twiddles_inverse(128, 25));
    lemma_pair_153();
    assert(layer_twiddles_inverse(128, 26));
    lemma_pair_154();
    assert(layer_twiddles_inverse(128, 27));
    lemma_pair_155();
    assert(layer_twiddles_inverse(128, 28));
    lemma_pair_156();
    assert(layer_twiddles_inverse(128, 29));
    lemma_pair_157();
    assert(layer_twiddles_inverse(128, 30));
    lemma_pair_158();
    assert(layer_twiddles_inverse(128, 31));
    lemma_pair_159();
    assert(layer_twiddles_inverse(128, 32));
}

proof fn lemma_layer_128_upto_64()
    requires
        layer_twiddles_inverse(128, 32),
    ensures
        layer_twiddles_inverse(128, 64),
{
    lemma_pair_160();
    assert(layer_twiddles_inverse(128, 33));
    lemma_pair_161();
    assert(layer_twiddles_inverse(128, 34));
    lemma_pair_162();
    assert(layer_twiddles_inverse(128, 35));
    lemma_pair_163();
    assert(layer_twiddles_inverse(128, 36));
    lemma_pair_164();
    assert(layer_twiddles_inverse(128, 37));
    lemma_pair_165();
    assert(layer_twiddles_inverse(128, 38));
    lemma_pair_166();
    assert(layer_twiddles_inverse(128, 39));
    lemma_pair_167();
    assert(layer_twiddles_inverse(128, 40));
    lemma_pair_168();
    assert(layer_twiddles_inverse(128, 41));
    lemma_pair_169();
    assert(layer_twiddles_inverse(128, 42));
    lemma_pair_170();
    assert(layer_twiddles_inverse(128, 43));
    lemma_pair_171();
    assert(layer_twiddles_inverse(128, 44));
    lemma_pair_172();
    assert(layer_twiddles_inverse(128, 45));
    lemma_pair_173();
    assert(layer_twiddles_inverse(128, 46));
    lemma_pair_174();
    assert(layer_twiddles_inverse(128, 47));
    lemma_pair_175();
    assert(layer_twiddles_inverse(128, 48));
    lemma_pair_176();
    assert(layer_twiddles_inverse(128, 49));
    lemma_pair_177();
    assert(layer_twiddles_inverse(128, 50));
    lemma_pair_178();
    assert(layer_twiddles_inverse(128, 51));
    lemma_pair_179();
    assert(layer_twiddles_inverse(128, 52));
    lemma_pair_180();
    assert(layer_twiddles_inverse(128, 53));
    lemma_pair_181();
    assert(layer_twiddles_inverse(128, 54));
    lemma_pair_182();
    assert(layer_twiddles_inverse(128, 55));
    lemma_pair_183();
    assert(layer_twiddles_inverse(128, 56));
    lemma_pair_184();
    assert(layer_twiddles_inverse(128, 57));
    lemma_pair_185();
    assert(layer_twiddles_inverse(128, 58));
    lemma_pair_186();
    assert(layer_twiddles_inverse(128, 59));
    lemma_pair_187();
    assert(layer_twiddles_inverse(128, 60));
    lemma_pair_188();
    assert(layer_twiddles_inverse(128, 61));
    lemma_pair_189();
    assert(layer_twiddles_inverse(128, 62));
    lemma_pair_190();
    assert(layer_twiddles_inverse(128, 63));
    lemma_pair_191();
    assert(layer_twiddles_inverse(128, 64));
}

proof fn lemma_layer_128_upto_96()
    requires
        layer_twiddles_inverse(128, 64),
    ensures
        layer_twiddles_inverse(128, 96),
{
    lemma_pair_192();
    assert(layer_twiddles_inverse(128, 65));
    lemma_pair_193();
    assert(layer_twiddles_inverse(128, 66));
    lemma_pair_194();
    assert(layer_twiddles_inverse(128, 67));
    lemma_pair_195();
    assert(layer_twiddles_inverse(128, 68));
    lemma_pair_196();
    assert(layer_twiddles_inverse(128, 69));
    lemma_pair_197();
    assert(layer_twiddles_inverse(128, 70));
    lemma_pair_198();
    assert(layer_twiddles_inverse(128, 71));
    lemma_pair_199();
    assert(layer_twiddles_inverse(128, 72));
    lemma_pair_200();
    assert(layer_twiddles_inverse(128, 73));
    lemma_pair_201();
    assert(layer_twiddles_inverse(128, 74));
    lemma_pair_202();
    assert(layer_twiddles_inverse(128, 75));
    lemma_pair_203();
    assert(layer_twiddles_inverse(128, 76));
    lemma_pair_204();
    assert(layer_twiddles_inverse(128, 77));
    lemma_pair_205();
    assert(layer_twiddles_inverse(128, 78));
    lemma_pair_206();
    assert(layer_twiddles_inverse(128, 79));
    lemma_pair_207();
    assert(layer_twiddles_inverse(128, 80));
    lemma_pair_208();
    assert(layer_twiddles_inverse(128, 81));
    lemma_pair_209();
    assert(layer_twiddles_inverse(128, 82));
    lemma_pair_210();
    assert(layer_twiddles_inverse(128, 83));
    lemma_pair_211();
    assert(layer_twiddles_inverse(128, 84));
    lemma_pair_212();
    assert(layer_twiddles_inverse(128, 85));
    lemma_pair_213();
    assert(layer_twiddles_inverse(128, 86));
    lemma_pair_214();
    assert(layer_twiddles_inverse(128, 87));
    lemma_pair_215();
    assert(layer_twiddles_inverse(128, 88));
    lemma_pair_216();
    assert(layer_twiddles_inverse(128, 89));
    lemma_pair_217();
    assert(layer_twiddles_inverse(128, 90));
    lemma_pair_218();
    assert(layer_twiddles_inverse(128, 91));
    lemma_pair_219();
    assert(layer_twiddles_inverse(128, 92));
    lemma_pair_220();
    assert(layer_twiddles_inverse(128, 93));
    lemma_pair_221();
    assert(layer_twiddles_inverse(128, 94));
    lemma_pair_222();
    assert(layer_twiddles_inverse(128, 95));
    lemma_pair_223();
    assert(layer_twiddles_inverse(128, 96));
}

proof fn lemma_layer_128_upto_128()
    requires
        layer_twiddles_inverse(128, 96),
    ensures
        layer_twiddles_inverse(128, 128),
{
    lemma_pair_224();
    assert(layer_twiddles_inverse(128, 97));
    lemma_pair_225();
    assert(layer_twiddles_inverse(128, 98));
    lemma_pair_226();
    assert(layer_twiddles_inverse(128, 99));
    lemma_pair_227();
    assert(layer_twiddles_inverse(128, 100));
    lemma_pair_228();
    assert(layer_twiddles_inverse(128, 101));
    lemma_pair_229();
    assert(layer_twiddles_inverse(128, 102));
    lemma_pair_230();
    assert(layer_twiddles_inverse(128, 103));
    lemma_pair_231();
    assert(layer_twiddles_inverse(128, 104));
    lemma_pair_232();
    assert(layer_twiddles_inverse(128, 105));
    lemma_pair_233();
    assert(layer_twiddles_inverse(128, 106));
    lemma_pair_234();
    assert(layer_twiddles_inverse(128, 107));
    lemma_pair_235();
    assert(layer_twiddles_inverse(128, 108));
    lemma_pair_236();
    assert(layer_twiddles_inverse(128, 109));
    lemma_pair_237();
    assert(layer_twiddles_inverse(128, 110));
    lemma_pair_238();
    assert(layer_twiddles_inverse(128, 111));
    lemma_pair_239();
    assert(layer_twiddles_inverse(128, 112));
    lemma_pair_240();
    assert(layer_twiddles_inverse(128, 113));
    lemma_pair_241();
    assert(layer_twiddles_inverse(128, 114));
    lemma_pair_242();
    assert(layer_twiddles_inverse(128, 115));
    lemma_pair_243();
    assert(layer_twiddles_inverse(128, 116));
    lemma_pair_244();
    assert(layer_twiddles_inverse(128, 117));
    lemma_pair_245();
    assert(layer_twiddles_inverse(128, 118));
    lemma_pair_246();
    assert(layer_twiddles_inverse(128, 119));
    lemma_pair_247();
    assert(layer_twiddles_inverse(128, 120));
    lemma_pair_248();
    assert(layer_twiddles_inverse(128, 121));
    lemma_pair_249();
    assert(layer_twiddles_inverse(128, 122));
    lemma_pair_250();
    assert(layer_twiddles_inverse(128, 123));
    lemma_pair_251();
    assert(layer_twiddles_inverse(128, 124));
    lemma_pair_252();
    assert(layer_twiddles_inverse(128, 125));
    lemma_pair_253();
    assert(layer_twiddles_inverse(128, 126));
    lemma_pair_254();
    assert(layer_twiddles_inverse(128, 127));
    lemma_pair_255();
    assert(layer_twiddles_inverse(128, 128));
}

proof fn lemma_layer_128()
    ensures
        layer_twiddles_inverse(128, 128),
{
    assert(layer_twiddles_inverse(128, 0));
    lemma_layer_128_upto_32();
    lemma_layer_128_upto_64();
    lemma_layer_128_upto_96();
    lemma_layer_128_upto_128();
}

} // verus!
