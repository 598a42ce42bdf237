//! The twiddle factors as a tower of square roots modulo q: twiddle 1
//! squared is -1, and twiddle k squared is twiddle k/2, negated for odd k.
//! This is what makes each layer of the NTT split X^2len - g into
//! (X^len - d)(X^len + d) with d^2 = g.

use vstd::prelude::*;
use crate::consts::zeta_spec;
use crate::modq::{cong, lemma_multiples, rinv};
use crate::params::Q;
use crate::twiddles::tw;

verus! {

/// What twiddle k squared is modulo q: -1 for k = 1, twiddle k/2 for even
/// k and minus twiddle k/2 for odd k.
pub open spec fn tw_square(k: int) -> int {
    if k == 1 {
        -1
    } else if k % 2 == 0 {
        tw(k / 2)
    } else {
        -tw(k / 2)
    }
}

/// Twiddle k squared is `tw_square(k)` modulo q.
#[verifier::opaque]
pub open spec fn square_ok(k: int) -> bool {
    cong(tw(k) * tw(k), tw_square(k))
}

/// `square_ok` for 1 <= k < n.
pub open spec fn squares_upto(n: int) -> bool
    decreases n,
{
    if n <= 1 {
        true
    } else {
        square_ok(n - 1) && squares_upto(n - 1)
    }
}

/// A table entry z of index k >= 2 and the entry zh of index k/2 with
/// z^2 2^-32 -+ zh = c q give `square_ok(k)`.
proof fn lemma_square_from_values(k: int, z: int, zh: int, c: int)
    requires
        2 <= k,
        zeta_spec(k as usize) as int == z,
        zeta_spec((k / 2) as usize) as int == zh,
        k % 2 == 0 ==> z * z * rinv() - zh == (Q as int) * c,
        k % 2 != 0 ==> z * z * rinv() + zh == (Q as int) * c,
    ensures
        square_ok(k),
{
    reveal(square_ok);
    let ri = rinv();
    assert(tw(k) == z * ri);
    assert(tw(k / 2) == zh * ri);
    vstd::arithmetic::div_mod::lemma_mod_multiples_basic(c, Q as int);
    assert(((Q as int) * c) % (Q as int) == 0) by {
        assert((Q as int) * c == c * (Q as int)) by (nonlinear_arith);
    }
    if k % 2 == 0 {
        let m = z * z * ri - zh;
        assert(tw_square(k) == zh * ri);
        assert((z * ri) * (z * ri) - zh * ri == m * ri) by (nonlinear_arith)
            requires
                m == z * z * ri - zh,
        ;
        lemma_multiples(m, 0, ri);
    } else {
        let m = z * z * ri + zh;
        assert(tw_square(k) == -(zh * ri));
        assert((z * ri) * (z * ri) - -(zh * ri) == m * ri) by (nonlinear_arith)
            requires
                m == z * z * ri + zh,
        ;
        lemma_multiples(m, 0, ri);
    }
}

proof fn lemma_square_1()
    requires
        squares_upto(1),
    ensures
        squares_upto(2),
{
    reveal(square_ok);
    assert(tw(1) == 213646778775);
    assert(213646778775 * 213646778775 + 1 == 8380417 * 5446619909359378) by (nonlinear_arith);
    vstd::arithmetic::div_mod::lemma_mod_multiples_basic(5446619909359378, 8380417);
    assert(square_ok(1));
}

proof fn lemma_square_2()
    requires
        squares_upto(2),
    ensures
        squares_upto(3),
{
    lemma_square_from_values(2, -2608894, 25847, 6713259655309);
}

proof fn lemma_square_3()
    requires
        squares_upto(3),
    ensures
        squares_upto(4),
{
    lemma_square_from_values(3, -518909, 25847, 265584658016);
}

proof fn lemma_square_4()
    requires
        squares_upto(4),
    ensures
        squares_upto(5),
{
    lemma_square_from_values(4, 237124, -2608894, 55458944782);
}

proof fn lemma_square_5()
    requires
        squares_upto(5),
    ensures
        squares_upto(6),
{
    lemma_square_from_values(5, -777960, -2608894, 596946090818);
}

proof fn lemma_square_6()
    requires
        squares_upto(6),
    ensures
        squares_upto(7),
{
    lemma_square_from_values(6, -876248, -518909, 757311682877);
}

proof fn lemma_square_7()
    requires
        squares_upto(7),
    ensures
        squares_upto(8),
{
    lemma_square_from_values(7, 466468, -518909, 214617083923);
}

proof fn lemma_square_8()
    requires
        squares_upto(8),
    ensures
        squares_upto(9),
{
    lemma_square_from_values(8, 1826347, 237124, 3289933869653);
}

proof fn lemma_square_9()
    requires
        squares_upto(9),
    ensures
        squares_upto(10),
{
    lemma_square_from_values(9, 2353451, 237124, 5462996197597);
}

proof fn lemma_square_10()
    requires
        squares_upto(10),
    ensures
        squares_upto(11),
{
    lemma_square_from_values(10, -359251, -777960, 127296525105);
}

proof fn lemma_square_11()
    requires
        squares_upto(11),
    ensures
        squares_upto(12),
{
    lemma_square_from_values(11, -2091905, -777960, 4316229146745);
}

proof fn lemma_square_12()
    requires
        squares_upto(12),
    ensures
        squares_upto(13),
{
    lemma_square_from_values(12, 3119733, -876248, 9599650702769);
}

proof fn lemma_square_13()
    requires
        squares_upto(13),
    ensures
        squares_upto(14),
{
    lemma_square_from_values(13, -2884855, -876248, 8208589841881);
}

proof fn lemma_square_14()
    requires
        squares_upto(14),
    ensures
        squares_upto(15),
{
    lemma_square_from_values(14, 3111497, 466468, 9549032036621);
}

proof fn lemma_square_15()
    requires
        squares_upto(15),
    ensures
        squares_upto(16),
{
    lemma_square_from_values(15, 2680103, 466468, 7084733965429);
}

proof fn lemma_square_16()
    requires
        squares_upto(16),
    ensures
        squares_upto(17),
{
    lemma_square_from_values(16, 2725464, 1826347, 7326583052309);
}

proof fn lemma_square_17()
    requires
        squares_upto(17),
    ensures
        squares_upto(18),
{
    lemma_square_from_values(17, 1024112, 1826347, 1034464251691);
}

proof fn lemma_square_18()
    requires
        squares_upto(18),
    ensures
        squares_upto(19),
{
    lemma_square_from_values(18, -1079900, 2353451, 1150237863397);
}

proof fn lemma_square_19()
    requires
        squares_upto(19),
    ensures
        squares_upto(20),
{
    lemma_square_from_values(19, 3585928, 2353451, 12683050097003);
}

proof fn lemma_square_20()
    requires
        squares_upto(20),
    ensures
        squares_upto(21),
{
    lemma_square_from_values(20, -549488, -359251, 297808440403);
}

proof fn lemma_square_21()
    requires
        squares_upto(21),
    ensures
        squares_upto(22),
{
    lemma_square_from_values(21, -1119584, -359251, 1236328679597);
}

proof fn lemma_square_22()
    requires
        squares_upto(22),
    ensures
        squares_upto(23),
{
    lemma_square_from_values(22, 2619752, -2091905, 6769255996865);
}

proof fn lemma_square_23()
    requires
        squares_upto(23),
    ensures
        squares_upto(24),
{
    lemma_square_from_values(23, -2108549, -2091905, 4385185536760);
}

proof fn lemma_square_24()
    requires
        squares_upto(24),
    ensures
        squares_upto(25),
{
    lemma_square_from_values(24, -2118186, 3119733, 4425361607151);
}

proof fn lemma_square_25()
    requires
        squares_upto(25),
    ensures
        squares_upto(26),
{
    lemma_square_from_values(25, -3859737, 3119733, 14693863579974);
}

proof fn lemma_square_26()
    requires
        squares_upto(26),
    ensures
        squares_upto(27),
{
    lemma_square_from_values(26, -1399561, -2884855, 1931987184040);
}

proof fn lemma_square_27()
    requires
        squares_upto(27),
    ensures
        squares_upto(28),
{
    lemma_square_from_values(27, -3277672, -2884855, 10596234464585);
}

proof fn lemma_square_28()
    requires
        squares_upto(28),
    ensures
        squares_upto(29),
{
    lemma_square_from_values(28, 1757237, 3111497, 3045658848784);
}

proof fn lemma_square_29()
    requires
        squares_upto(29),
    ensures
        squares_upto(30),
{
    lemma_square_from_values(29, -19422, 3111497, 372056141);
}

proof fn lemma_square_30()
    requires
        squares_upto(30),
    ensures
        squares_upto(31),
{
    lemma_square_from_values(30, 4010497, 2680103, 15864155889466);
}

proof fn lemma_square_31()
    requires
        squares_upto(31),
    ensures
        squares_upto(32),
{
    lemma_square_from_values(31, 280005, 2680103, 77330737184);
}

proof fn lemma_square_32()
    requires
        squares_upto(32),
    ensures
        squares_upto(33),
{
    lemma_square_from_values(32, 2706023, 2725464, 7222433376633);
}

proof fn lemma_square_33()
    requires
        squares_upto(33),
    ensures
        squares_upto(34),
{
    lemma_square_from_values(33, 95776, 2725464, 9047611992);
}

proof fn lemma_square_34()
    requires
        squares_upto(34),
    ensures
        squares_upto(35),
{
    lemma_square_from_values(34, 3077325, 1024112, 9340439403289);
}

proof fn lemma_square_35()
    requires
        squares_upto(35),
    ensures
        squares_upto(36),
{
    lemma_square_from_values(35, 3530437, 1024112, 12293555584361);
}

proof fn lemma_square_36()
    requires
        squares_upto(36),
    ensures
        squares_upto(37),
{
    lemma_square_from_values(36, -1661693, -1079900, 2723467254725);
}

proof fn lemma_square_37()
    requires
        squares_upto(37),
    ensures
        squares_upto(38),
{
    lemma_square_from_values(37, -3592148, -1079900, 12727087227700);
}

proof fn lemma_square_38()
    requires
        squares_upto(38),
    ensures
        squares_upto(39),
{
    lemma_square_from_values(38, -2537516, 3585928, 6350942135816);
}

proof fn lemma_square_39()
    requires
        squares_upto(39),
    ensures
        squares_upto(40),
{
    lemma_square_from_values(39, 3915439, 3585928, 15121034416009);
}

proof fn lemma_square_40()
    requires
        squares_upto(40),
    ensures
        squares_upto(41),
{
    lemma_square_from_values(40, -3861115, -549488, 14704357434089);
}

proof fn lemma_square_41()
    requires
        squares_upto(41),
    ensures
        squares_upto(42),
{
    lemma_square_from_values(41, -3043716, -549488, 9137530335136);
}

proof fn lemma_square_42()
    requires
        squares_upto(42),
    ensures
        squares_upto(43),
{
    lemma_square_from_values(42, 3574422, -1119584, 12601789651652);
}

proof fn lemma_square_43()
    requires
        squares_upto(43),
    ensures
        squares_upto(44),
{
    lemma_square_from_values(43, -2867647, -1119584, 8110954342273);
}

proof fn lemma_square_44()
    requires
        squares_upto(44),
    ensures
        squares_upto(45),
{
    lemma_square_from_values(44, 3539968, 2619752, 12360022165144);
}

proof fn lemma_square_45()
    requires
        squares_upto(45),
    ensures
        squares_upto(46),
{
    lemma_square_from_values(45, -300467, 2619752, 89045943281);
}

proof fn lemma_square_46()
    requires
        squares_upto(46),
    ensures
        squares_upto(47),
{
    lemma_square_from_values(46, 2348700, -2108549, 5440961749397);
}

proof fn lemma_square_47()
    requires
        squares_upto(47),
    ensures
        squares_upto(48),
{
    lemma_square_from_values(47, -539299, -2108549, 286866481828);
}

proof fn lemma_square_48()
    requires
        squares_upto(48),
    ensures
        squares_upto(49),
{
    lemma_square_from_values(48, -1699267, -2118186, 2848025176083);
}

proof fn lemma_square_49()
    requires
        squares_upto(49),
    ensures
        squares_upto(50),
{
    lemma_square_from_values(49, -1643818, -2118186, 2665189174842);
}

proof fn lemma_square_50()
    requires
        squares_upto(50),
    ensures
        squares_upto(51),
{
    lemma_square_from_values(50, 3505694, -3859737, 12121841132061);
}

proof fn lemma_square_51()
    requires
        squares_upto(51),
    ensures
        squares_upto(52),
{
    lemma_square_from_values(51, -3821735, -3859737, 14405943812664);
}

proof fn lemma_square_52()
    requires
        squares_upto(52),
    ensures
        squares_upto(53),
{
    lemma_square_from_values(52, 3507263, -1399561, 12132694004458);
}

proof fn lemma_square_53()
    requires
        squares_upto(53),
    ensures
        squares_upto(54),
{
    lemma_square_from_values(53, -2140649, -1399561, 4519719698792);
}

proof fn lemma_square_54()
    requires
        squares_upto(54),
    ensures
        squares_upto(55),
{
    lemma_square_from_values(54, -1600420, -3277672, 2526320913016);
}

proof fn lemma_square_55()
    requires
        squares_upto(55),
    ensures
        squares_upto(56),
{
    lemma_square_from_values(55, 3699596, -3277672, 13499857356584);
}

proof fn lemma_square_56()
    requires
        squares_upto(56),
    ensures
        squares_upto(57),
{
    lemma_square_from_values(56, 811944, 1757237, 650238576139);
}

proof fn lemma_square_57()
    requires
        squares_upto(57),
    ensures
        squares_upto(58),
{
    lemma_square_from_values(57, 531354, 1757237, 278476457561);
}

proof fn lemma_square_58()
    requires
        squares_upto(58),
    ensures
        squares_upto(59),
{
    lemma_square_from_values(58, 954230, -19422, 898104163266);
}

proof fn lemma_square_59()
    requires
        squares_upto(59),
    ensures
        squares_upto(60),
{
    lemma_square_from_values(59, 3881043, -19422, 14856533489259);
}

proof fn lemma_square_60()
    requires
        squares_upto(60),
    ensures
        squares_upto(61),
{
    lemma_square_from_values(60, 3900724, 4010497, 15007592265359);
}

proof fn lemma_square_61()
    requires
        squares_upto(61),
    ensures
        squares_upto(62),
{
    lemma_square_from_values(61, -2556880, 4010497, 6448241130241);
}

proof fn lemma_square_62()
    requires
        squares_upto(62),
    ensures
        squares_upto(63),
{
    lemma_square_from_values(62, 2071892, 280005, 4234038514635);
}

proof fn lemma_square_63()
    requires
        squares_upto(63),
    ensures
        squares_upto(64),
{
    lemma_square_from_values(63, -2797779, 280005, 7720534878990);
}

proof fn lemma_square_64()
    requires
        squares_upto(64),
    ensures
        squares_upto(65),
{
    lemma_square_from_values(64, -3930395, 2706023, 15236772196306);
}

proof fn lemma_square_65()
    requires
        squares_upto(65),
    ensures
        squares_upto(66),
{
    lemma_square_from_values(65, -1528703, 2706023, 2304978150344);
}

proof fn lemma_square_66()
    requires
        squares_upto(66),
    ensures
        squares_upto(67),
{
    lemma_square_from_values(66, -3677745, 95776, 13340859323297);
}

proof fn lemma_square_67()
    requires
        squares_upto(67),
    ensures
        squares_upto(68),
{
    lemma_square_from_values(67, -3041255, 95776, 9122759987953);
}

proof fn lemma_square_68()
    requires
        squares_upto(68),
    ensures
        squares_upto(69),
{
    lemma_square_from_values(68, -1452451, 3077325, 2080767505500);
}

proof fn lemma_square_69()
    requires
        squares_upto(69),
    ensures
        squares_upto(70),
{
    lemma_square_from_values(69, 3475950, 3077325, 11917018638225);
}

proof fn lemma_square_70()
    requires
        squares_upto(70),
    ensures
        squares_upto(71),
{
    lemma_square_from_values(70, 2176455, 3530437, 4672184255564);
}

proof fn lemma_square_71()
    requires
        squares_upto(71),
    ensures
        squares_upto(72),
{
    lemma_square_from_values(71, -1585221, 3530437, 2478564420286);
}

proof fn lemma_square_72()
    requires
        squares_upto(72),
    ensures
        squares_upto(73),
{
    lemma_square_from_values(72, -1257611, -1661693, 1559959172054);
}

proof fn lemma_square_73()
    requires
        squares_upto(73),
    ensures
        squares_upto(74),
{
    lemma_square_from_values(73, 1939314, -1661693, 3709512531271);
}

proof fn lemma_square_74()
    requires
        squares_upto(74),
    ensures
        squares_upto(75),
{
    lemma_square_from_values(74, -4083598, -3592148, 16447751736344);
}

proof fn lemma_square_75()
    requires
        squares_upto(75),
    ensures
        squares_upto(76),
{
    lemma_square_from_values(75, -1000202, -3592148, 986724733456);
}

proof fn lemma_square_76()
    requires
        squares_upto(76),
    ensures
        squares_upto(77),
{
    lemma_square_from_values(76, -3190144, -2537516, 10037860399148);
}

proof fn lemma_square_77()
    requires
        squares_upto(77),
    ensures
        squares_upto(78),
{
    lemma_square_from_values(77, -3157330, -2537516, 9832422444952);
}

proof fn lemma_square_78()
    requires
        squares_upto(78),
    ensures
        squares_upto(79),
{
    lemma_square_from_values(78, -3632928, 3915439, 13017697002833);
}

proof fn lemma_square_79()
    requires
        squares_upto(79),
    ensures
        squares_upto(80),
{
    lemma_square_from_values(79, 126922, 3915439, 15888920467);
}

proof fn lemma_square_80()
    requires
        squares_upto(80),
    ensures
        squares_upto(81),
{
    lemma_square_from_values(80, 3412210, -3861115, 11483970812095);
}

proof fn lemma_square_81()
    requires
        squares_upto(81),
    ensures
        squares_upto(82),
{
    lemma_square_from_values(81, -983419, -3861115, 953888837630);
}

proof fn lemma_square_82()
    requires
        squares_upto(82),
    ensures
        squares_upto(83),
{
    lemma_square_from_values(82, 2147896, -3043716, 4550373815748);
}

proof fn lemma_square_83()
    requires
        squares_upto(83),
    ensures
        squares_upto(84),
{
    lemma_square_from_values(83, 2715295, -3043716, 7272012504477);
}

proof fn lemma_square_84()
    requires
        squares_upto(84),
    ensures
        squares_upto(85),
{
    lemma_square_from_values(84, -2967645, 3574422, 8686492979859);
}

proof fn lemma_square_85()
    requires
        squares_upto(85),
    ensures
        squares_upto(86),
{
    lemma_square_from_values(85, -3693493, 3574422, 13455354295791);
}

proof fn lemma_square_86()
    requires
        squares_upto(86),
    ensures
        squares_upto(87),
{
    lemma_square_from_values(86, -411027, -2867647, 166633102216);
}

proof fn lemma_square_87()
    requires
        squares_upto(87),
    ensures
        squares_upto(88),
{
    lemma_square_from_values(87, -2477047, -2867647, 6051862766834);
}

proof fn lemma_square_88()
    requires
        squares_upto(88),
    ensures
        squares_upto(89),
{
    lemma_square_from_values(88, -671102, 3539968, 444219524996);
}

proof fn lemma_square_89()
    requires
        squares_upto(89),
    ensures
        squares_upto(90),
{
    lemma_square_from_values(89, -1228525, 3539968, 1488636195529);
}

proof fn lemma_square_90()
    requires
        squares_upto(90),
    ensures
        squares_upto(91),
{
    lemma_square_from_values(90, -22981, -300467, 520904876);
}

proof fn lemma_square_91()
    requires
        squares_upto(91),
    ensures
        squares_upto(92),
{
    lemma_square_from_values(91, -1308169, -300467, 1687906104574);
}

proof fn lemma_square_92()
    requires
        squares_upto(92),
    ensures
        squares_upto(93),
{
    lemma_square_from_values(92, -381987, 2348700, 143918870925);
}

proof fn lemma_square_93()
    requires
        squares_upto(93),
    ensures
        squares_upto(94),
{
    lemma_square_from_values(93, 1349076, 2348700, 1795119686700);
}

proof fn lemma_square_94()
    requires
        squares_upto(94),
    ensures
        squares_upto(95),
{
    lemma_square_from_values(94, 1852771, -539299, 3385821559372);
}

proof fn lemma_square_95()
    requires
        squares_upto(95),
    ensures
        squares_upto(96),
{
    lemma_square_from_values(95, -1430430, -539299, 2018151648353);
}

proof fn lemma_square_96()
    requires
        squares_upto(96),
    ensures
        squares_upto(97),
{
    lemma_square_from_values(96, -3343383, -1699267, 11025361473076);
}

proof fn lemma_square_97()
    requires
        squares_upto(97),
    ensures
        squares_upto(98),
{
    lemma_square_from_values(97, 264944, -1699267, 69235487549);
}

proof fn lemma_square_98()
    requires
        squares_upto(98),
    ensures
        squares_upto(99),
{
    lemma_square_from_values(98, 508951, -1643818, 255489185179);
}

proof fn lemma_square_99()
    requires
        squares_upto(99),
    ensures
        squares_upto(100),
{
    lemma_square_from_values(99, 3097992, -1643818, 9466319559446);
}

proof fn lemma_square_100()
    requires
        squares_upto(100),
    ensures
        squares_upto(101),
{
    lemma_square_from_values(100, 44288, 3505694, 1934606818);
}

proof fn lemma_square_101()
    requires
        squares_upto(101),
    ensures
        squares_upto(102),
{
    lemma_square_from_values(101, -1100098, 3505694, 1193667384482);
}

proof fn lemma_square_102()
    requires
        squares_upto(102),
    ensures
        squares_upto(103),
{
    lemma_square_from_values(102, 904516, -3821735, 806962000055);
}

proof fn lemma_square_103()
    requires
        squares_upto(103),
    ensures
        squares_upto(104),
{
    lemma_square_from_values(103, 3958618, -3821735, 15456379320445);
}

proof fn lemma_square_104()
    requires
        squares_upto(104),
    ensures
        squares_upto(105),
{
    lemma_square_from_values(104, -3724342, 3507263, 13681058077861);
}

proof fn lemma_square_105()
    requires
        squares_upto(105),
    ensures
        squares_upto(106),
{
    lemma_square_from_values(105, -8578, 3507263, 72575939);
}

proof fn lemma_square_106()
    requires
        squares_upto(106),
    ensures
        squares_upto(107),
{
    lemma_square_from_values(106, 1653064, -2140649, 2695255328297);
}

proof fn lemma_square_107()
    requires
        squares_upto(107),
    ensures
        squares_upto(108),
{
    lemma_square_from_values(107, -3249728, -2140649, 10416326919703);
}

proof fn lemma_square_108()
    requires
        squares_upto(108),
    ensures
        squares_upto(109),
{
    lemma_square_from_values(108, 2389356, -1600420, 5630958167860);
}

proof fn lemma_square_109()
    requires
        squares_upto(109),
    ensures
        squares_upto(110),
{
    lemma_square_from_values(109, -210977, -1600420, 43902656765);
}

proof fn lemma_square_110()
    requires
        squares_upto(110),
    ensures
        squares_upto(111),
{
    lemma_square_from_values(110, 759969, 3699596, 569655548437);
}

proof fn lemma_square_111()
    requires
        squares_upto(111),
    ensures
        squares_upto(112),
{
    lemma_square_from_values(111, -1316856, 3699596, 1710397885388);
}

proof fn lemma_square_112()
    requires
        squares_upto(112),
    ensures
        squares_upto(113),
{
    lemma_square_from_values(112, 189548, 811944, 35437166568);
}

proof fn lemma_square_113()
    requires
        squares_upto(113),
    ensures
        squares_upto(114),
{
    lemma_square_from_values(113, -3553272, 811944, 12453100256232);
}

proof fn lemma_square_114()
    requires
        squares_upto(114),
    ensures
        squares_upto(115),
{
    lemma_square_from_values(114, 3159746, 531354, 9847475810538);
}

proof fn lemma_square_115()
    requires
        squares_upto(115),
    ensures
        squares_upto(116),
{
    lemma_square_from_values(115, -1851402, 531354, 3380819886462);
}

proof fn lemma_square_116()
    requires
        squares_upto(116),
    ensures
        squares_upto(117),
{
    lemma_square_from_values(116, -2409325, 954230, 5725472740435);
}

proof fn lemma_square_117()
    requires
        squares_upto(117),
    ensures
        squares_upto(118),
{
    lemma_square_from_values(117, -177440, 954230, 31054435190);
}

proof fn lemma_square_118()
    requires
        squares_upto(118),
    ensures
        squares_upto(119),
{
    lemma_square_from_values(118, 1315589, 3881043, 1707108183846);
}

proof fn lemma_square_119()
    requires
        squares_upto(119),
    ensures
        squares_upto(120),
{
    lemma_square_from_values(119, 1341330, 3881043, 1774564761879);
}

proof fn lemma_square_120()
    requires
        squares_upto(120),
    ensures
        squares_upto(121),
{
    lemma_square_from_values(120, 1285669, 3900724, 1630342770053);
}

proof fn lemma_square_121()
    requires
        squares_upto(121),
    ensures
        squares_upto(122),
{
    lemma_square_from_values(121, -1584928, 3900724, 2477648267572);
}

proof fn lemma_square_122()
    requires
        squares_upto(122),
    ensures
        squares_upto(123),
{
    lemma_square_from_values(122, -812732, -2556880, 651501315040);
}

proof fn lemma_square_123()
    requires
        squares_upto(123),
    ensures
        squares_upto(124),
{
    lemma_square_from_values(123, -1439742, -2556880, 2044513230260);
}

proof fn lemma_square_124()
    requires
        squares_upto(124),
    ensures
        squares_upto(125),
{
    lemma_square_from_values(124, -3019102, 2071892, 8990340674224);
}

proof fn lemma_square_125()
    requires
        squares_upto(125),
    ensures
        squares_upto(126),
{
    lemma_square_from_values(125, -3881060, 2071892, 14856663640676);
}

proof fn lemma_square_126()
    requires
        squares_upto(126),
    ensures
        squares_upto(127),
{
    lemma_square_from_values(126, -3628969, -2797779, 12989340271812);
}

proof fn lemma_square_127()
    requires
        squares_upto(127),
    ensures
        squares_upto(128),
{
    lemma_square_from_values(127, 3839961, -2797779, 14543676448638);
}

proof fn lemma_square_128()
    requires
        squares_upto(128),
    ensures
        squares_upto(129),
{
    lemma_square_from_values(128, 2091667, -3930395, 4315247071460);
}

proof fn lemma_square_129()
    requires
        squares_upto(129),
    ensures
        squares_upto(130),
{
    lemma_square_from_values(129, 3407706, -3930395, 11453673926665);
}

proof fn lemma_square_130()
    requires
        squares_upto(130),
    ensures
        squares_upto(131),
{
    lemma_square_from_values(130, 2316500, -1528703, 5292796377359);
}

proof fn lemma_square_131()
    requires
        squares_upto(131),
    ensures
        squares_upto(132),
{
    lemma_square_from_values(131, 3817976, -1528703, 14377618818241);
}

proof fn lemma_square_132()
    requires
        squares_upto(132),
    ensures
        squares_upto(133),
{
    lemma_square_from_values(132, -3342478, -3677745, 11019393504885);
}

proof fn lemma_square_133()
    requires
        squares_upto(133),
    ensures
        squares_upto(134),
{
    lemma_square_from_values(133, 2244091, -3677745, 4967084007240);
}

proof fn lemma_square_134()
    requires
        squares_upto(134),
    ensures
        squares_upto(135),
{
    lemma_square_from_values(134, -2446433, -3041255, 5903196364040);
}

proof fn lemma_square_135()
    requires
        squares_upto(135),
    ensures
        squares_upto(136),
{
    lemma_square_from_values(135, -3562462, -3041255, 12517599673885);
}

proof fn lemma_square_136()
    requires
        squares_upto(136),
    ensures
        squares_upto(137),
{
    lemma_square_from_values(136, 266997, -1452451, 70312629628);
}

proof fn lemma_square_137()
    requires
        squares_upto(137),
    ensures
        squares_upto(138),
{
    lemma_square_from_values(137, 2434439, -1452451, 5845455664622);
}

proof fn lemma_square_138()
    requires
        squares_upto(138),
    ensures
        squares_upto(139),
{
    lemma_square_from_values(138, -1235728, 3475950, 1506143500050);
}

proof fn lemma_square_139()
    requires
        squares_upto(139),
    ensures
        squares_upto(140),
{
    lemma_square_from_values(139, 3513181, 3475950, 12173672887575);
}

proof fn lemma_square_140()
    requires
        squares_upto(140),
    ensures
        squares_upto(141),
{
    lemma_square_from_values(140, -3520352, 2176455, 12223420681785);
}

proof fn lemma_square_141()
    requires
        squares_upto(141),
    ensures
        squares_upto(142),
{
    lemma_square_from_values(141, -3759364, 2176455, 13939568608215);
}

proof fn lemma_square_142()
    requires
        squares_upto(142),
    ensures
        squares_upto(143),
{
    lemma_square_from_values(142, -1197226, -1585221, 1413750777513);
}

proof fn lemma_square_143()
    requires
        squares_upto(143),
    ensures
        squares_upto(144),
{
    lemma_square_from_values(143, -3193378, -1585221, 10058222423487);
}

proof fn lemma_square_144()
    requires
        squares_upto(144),
    ensures
        squares_upto(145),
{
    lemma_square_from_values(144, 900702, -1257611, 800171043983);
}

proof fn lemma_square_145()
    requires
        squares_upto(145),
    ensures
        squares_upto(146),
{
    lemma_square_from_values(145, 1859098, -1257611, 3408985425817);
}

proof fn lemma_square_146()
    requires
        squares_upto(146),
    ensures
        squares_upto(147),
{
    lemma_square_from_values(146, 909542, 1939314, 815954785458);
}

proof fn lemma_square_147()
    requires
        squares_upto(147),
    ensures
        squares_upto(148),
{
    lemma_square_from_values(147, 819034, 1939314, 661644091542);
}

proof fn lemma_square_148()
    requires
        squares_upto(148),
    ensures
        squares_upto(149),
{
    lemma_square_from_values(148, 495491, -4083598, 242154262519);
}

proof fn lemma_square_149()
    requires
        squares_upto(149),
    ensures
        squares_upto(150),
{
    lemma_square_from_values(149, -1613174, -4083598, 2566746654806);
}

proof fn lemma_square_150()
    requires
        squares_upto(150),
    ensures
        squares_upto(151),
{
    lemma_square_from_values(150, -43260, -1000202, 1845838106);
}

proof fn lemma_square_151()
    requires
        squares_upto(151),
    ensures
        squares_upto(152),
{
    lemma_square_from_values(151, -522500, -1000202, 269273221894);
}

proof fn lemma_square_152()
    requires
        squares_upto(152),
    ensures
        squares_upto(153),
{
    lemma_square_from_values(152, -655327, -3190144, 423581223457);
}

proof fn lemma_square_153()
    requires
        squares_upto(153),
    ensures
        squares_upto(154),
{
    lemma_square_from_values(153, -3122442, -3190144, 9616329530468);
}

proof fn lemma_square_154()
    requires
        squares_upto(154),
    ensures
        squares_upto(155),
{
    lemma_square_from_values(154, 2031748, -3157330, 4071554561890);
}

proof fn lemma_square_155()
    requires
        squares_upto(155),
    ensures
        squares_upto(156),
{
    lemma_square_from_values(155, 3207046, -3157330, 10144507222610);
}

proof fn lemma_square_156()
    requires
        squares_upto(156),
    ensures
        squares_upto(157),
{
    lemma_square_from_values(156, -3556995, -3632928, 12479209814409);
}

proof fn lemma_square_157()
    requires
        squares_upto(157),
    ensures
        squares_upto(158),
{
    lemma_square_from_values(157, -525098, -3632928, 271957666116);
}

proof fn lemma_square_158()
    requires
        squares_upto(158),
    ensures
        squares_upto(159),
{
    lemma_square_from_values(158, -768622, 126922, 582701584634);
}

proof fn lemma_square_159()
    requires
        squares_upto(159),
    ensures
        squares_upto(160),
{
    lemma_square_from_values(159, -3595838, 126922, 12753248217166);
}

proof fn lemma_square_160()
    requires
        squares_upto(160),
    ensures
        squares_upto(161),
{
    lemma_square_from_values(160, 342297, 3412210, 115565116895);
}

proof fn lemma_square_161()
    requires
        squares_upto(161),
    ensures
        squares_upto(162),
{
    lemma_square_from_values(161, 286988, 3412210, 81235910530);
}

proof fn lemma_square_162()
    requires
        squares_upto(162),
    ensures
        squares_upto(163),
{
    lemma_square_from_values(162, -2437823, -983419, 5861717949532);
}

proof fn lemma_square_163()
    requires
        squares_upto(163),
    ensures
        squares_upto(164),
{
    lemma_square_from_values(163, 4108315, -983419, 16647462589118);
}

proof fn lemma_square_164()
    requires
        squares_upto(164),
    ensures
        squares_upto(165),
{
    lemma_square_from_values(164, 3437287, 2147896, 11653386973337);
}

proof fn lemma_square_165()
    requires
        squares_upto(165),
    ensures
        squares_upto(166),
{
    lemma_square_from_values(165, -3342277, 2147896, 11018068241713);
}

proof fn lemma_square_166()
    requires
        squares_upto(166),
    ensures
        squares_upto(167),
{
    lemma_square_from_values(166, 1735879, 2715295, 2972073023090);
}

proof fn lemma_square_167()
    requires
        squares_upto(167),
    ensures
        squares_upto(168),
{
    lemma_square_from_values(167, 203044, 2715295, 40663138735);
}

proof fn lemma_square_168()
    requires
        squares_upto(168),
    ensures
        squares_upto(169),
{
    lemma_square_from_values(168, 2842341, -2967645, 7968433205910);
}

proof fn lemma_square_169()
    requires
        squares_upto(169),
    ensures
        squares_upto(170),
{
    lemma_square_from_values(169, 2691481, -2967645, 7145016135540);
}

proof fn lemma_square_170()
    requires
        squares_upto(170),
    ensures
        squares_upto(171),
{
    lemma_square_from_values(170, -2590150, -3693493, 6617141296729);
}

proof fn lemma_square_171()
    requires
        squares_upto(171),
    ensures
        squares_upto(172),
{
    lemma_square_from_values(171, 1265009, -3693493, 1578366329996);
}

proof fn lemma_square_172()
    requires
        squares_upto(172),
    ensures
        squares_upto(173),
{
    lemma_square_from_values(172, 4055324, -411027, 16220778464931);
}

proof fn lemma_square_173()
    requires
        squares_upto(173),
    ensures
        squares_upto(174),
{
    lemma_square_from_values(173, 1247620, -411027, 1535271660669);
}

proof fn lemma_square_174()
    requires
        squares_upto(174),
    ensures
        squares_upto(175),
{
    lemma_square_from_values(174, 2486353, -2477047, 6097420583416);
}

proof fn lemma_square_175()
    requires
        squares_upto(175),
    ensures
        squares_upto(176),
{
    lemma_square_from_values(175, 1595974, -2477047, 2512304065709);
}

proof fn lemma_square_176()
    requires
        squares_upto(176),
    ensures
        squares_upto(177),
{
    lemma_square_from_values(176, -3767016, -671102, 13996372969406);
}

proof fn lemma_square_177()
    requires
        squares_upto(177),
    ensures
        squares_upto(178),
{
    lemma_square_from_values(177, 1250494, -671102, 1542353068294);
}

proof fn lemma_square_178()
    requires
        squares_upto(178),
    ensures
        squares_upto(179),
{
    lemma_square_from_values(178, 2635921, -1228525, 6853072989550);
}

proof fn lemma_square_179()
    requires
        squares_upto(179),
    ensures
        squares_upto(180),
{
    lemma_square_from_values(179, -3548272, -1228525, 12418078061075);
}

proof fn lemma_square_180()
    requires
        squares_upto(180),
    ensures
        squares_upto(181),
{
    lemma_square_from_values(180, -2994039, -22981, 8841694060918);
}

proof fn lemma_square_181()
    requires
        squares_upto(181),
    ensures
        squares_upto(182),
{
    lemma_square_from_values(181, 1869119, -22981, 3445835029532);
}

proof fn lemma_square_182()
    requires
        squares_upto(182),
    ensures
        squares_upto(183),
{
    lemma_square_from_values(182, 1903435, -1308169, 3573523798882);
}

proof fn lemma_square_183()
    requires
        squares_upto(183),
    ensures
        squares_upto(184),
{
    lemma_square_from_values(183, -1050970, -1308169, 1089434729243);
}

proof fn lemma_square_184()
    requires
        squares_upto(184),
    ensures
        squares_upto(185),
{
    lemma_square_from_values(184, -1333058, -381987, 1752744723111);
}

proof fn lemma_square_185()
    requires
        squares_upto(185),
    ensures
        squares_upto(186),
{
    lemma_square_from_values(185, 1237275, -381987, 1509916923414);
}

proof fn lemma_square_186()
    requires
        squares_upto(186),
    ensures
        squares_upto(187),
{
    lemma_square_from_values(186, -3318210, 1349076, 10859962180272);
}

proof fn lemma_square_187()
    requires
        squares_upto(187),
    ensures
        squares_upto(188),
{
    lemma_square_from_values(187, -1430225, 1349076, 2017573232853);
}

proof fn lemma_square_188()
    requires
        squares_upto(188),
    ensures
        squares_upto(189),
{
    lemma_square_from_values(188, -451100, 1852771, 200708715437);
}

proof fn lemma_square_189()
    requires
        squares_upto(189),
    ensures
        squares_upto(190),
{
    lemma_square_from_values(189, 1312455, 1852771, 1698984515188);
}

proof fn lemma_square_190()
    requires
        squares_upto(190),
    ensures
        squares_upto(191),
{
    lemma_square_from_values(190, 3306115, -1430430, 10780936529415);
}

proof fn lemma_square_191()
    requires
        squares_upto(191),
    ensures
        squares_upto(192),
{
    lemma_square_from_values(191, -1962642, -1430430, 3799292707110);
}

proof fn lemma_square_192()
    requires
        squares_upto(192),
    ensures
        squares_upto(193),
{
    lemma_square_from_values(192, -1279661, -3343383, 1615141014624);
}

proof fn lemma_square_193()
    requires
        squares_upto(193),
    ensures
        squares_upto(194),
{
    lemma_square_from_values(193, 1917081, -3343383, 3624945680826);
}

proof fn lemma_square_194()
    requires
        squares_upto(194),
    ensures
        squares_upto(195),
{
    lemma_square_from_values(194, -2546312, 264944, 6395048031568);
}

proof fn lemma_square_195()
    requires
        squares_upto(195),
    ensures
        squares_upto(196),
{
    lemma_square_from_values(195, -1374803, 264944, 1864238700857);
}

proof fn lemma_square_196()
    requires
        squares_upto(196),
    ensures
        squares_upto(197),
{
    lemma_square_from_values(196, 1500165, 508951, 2219722247522);
}

proof fn lemma_square_197()
    requires
        squares_upto(197),
    ensures
        squares_upto(198),
{
    lemma_square_from_values(197, 777191, 508951, 595766532328);
}

proof fn lemma_square_198()
    requires
        squares_upto(198),
    ensures
        squares_upto(199),
{
    lemma_square_from_values(198, 2235880, 3097992, 4930801956024);
}

proof fn lemma_square_199()
    requires
        squares_upto(199),
    ensures
        squares_upto(200),
{
    lemma_square_from_values(199, 3406031, 3097992, 11442416976201);
}

proof fn lemma_square_200()
    requires
        squares_upto(200),
    ensures
        squares_upto(201),
{
    lemma_square_from_values(200, -542412, 44288, 290187803536);
}

proof fn lemma_square_201()
    requires
        squares_upto(201),
    ensures
        squares_upto(202),
{
    lemma_square_from_values(201, -2831860, 44288, 7909775102864);
}

proof fn lemma_square_202()
    requires
        squares_upto(202),
    ensures
        squares_upto(203),
{
    lemma_square_from_values(202, -1671176, -1100098, 2754640683394);
}

proof fn lemma_square_203()
    requires
        squares_upto(203),
    ensures
        squares_upto(204),
{
    lemma_square_from_values(203, -1846953, -1100098, 3364590893231);
}

proof fn lemma_square_204()
    requires
        squares_upto(204),
    ensures
        squares_upto(205),
{
    lemma_square_from_values(204, -2584293, 904516, 6587248991477);
}

proof fn lemma_square_205()
    requires
        squares_upto(205),
    ensures
        squares_upto(206),
{
    lemma_square_from_values(205, -3724270, 904516, 13680529111048);
}

proof fn lemma_square_206()
    requires
        squares_upto(206),
    ensures
        squares_upto(207),
{
    lemma_square_from_values(206, 594136, 3958618, 348170774246);
}

proof fn lemma_square_207()
    requires
        squares_upto(207),
    ensures
        squares_upto(208),
{
    lemma_square_from_values(207, -3776993, 3958618, 14070610368379);
}

proof fn lemma_square_208()
    requires
        squares_upto(208),
    ensures
        squares_upto(209),
{
    lemma_square_from_values(208, -2013608, -3724342, 3999175223926);
}

proof fn lemma_square_209()
    requires
        squares_upto(209),
    ensures
        squares_upto(210),
{
    lemma_square_from_values(209, 2432395, -3724342, 5835643880099);
}

proof fn lemma_square_210()
    requires
        squares_upto(210),
    ensures
        squares_upto(211),
{
    lemma_square_from_values(210, 2454455, -8578, 5941973703859);
}

proof fn lemma_square_211()
    requires
        squares_upto(211),
    ensures
        squares_upto(212),
{
    lemma_square_from_values(211, -164721, -8578, 26761996991);
}

proof fn lemma_square_212()
    requires
        squares_upto(212),
    ensures
        squares_upto(213),
{
    lemma_square_from_values(212, 1957272, 1653064, 3778530601208);
}

proof fn lemma_square_213()
    requires
        squares_upto(213),
    ensures
        squares_upto(214),
{
    lemma_square_from_values(213, 3369112, 1653064, 11195705715592);
}

proof fn lemma_square_214()
    requires
        squares_upto(214),
    ensures
        squares_upto(215),
{
    lemma_square_from_values(214, 185531, -3249728, 33951076409);
}

proof fn lemma_square_215()
    requires
        squares_upto(215),
    ensures
        squares_upto(216),
{
    lemma_square_from_values(215, -1207385, -3249728, 1437845191441);
}

proof fn lemma_square_216()
    requires
        squares_upto(216),
    ensures
        squares_upto(217),
{
    lemma_square_from_values(216, -3183426, 2389356, 9995628235032);
}

proof fn lemma_square_217()
    requires
        squares_upto(217),
    ensures
        squares_upto(218),
{
    lemma_square_from_values(217, 162844, 2389356, 26155564668);
}

proof fn lemma_square_218()
    requires
        squares_upto(218),
    ensures
        squares_upto(219),
{
    lemma_square_from_values(218, 1616392, -210977, 2576997290081);
}

proof fn lemma_square_219()
    requires
        squares_upto(219),
    ensures
        squares_upto(220),
{
    lemma_square_from_values(219, 3014001, -210977, 8959986624544);
}

proof fn lemma_square_220()
    requires
        squares_upto(220),
    ensures
        squares_upto(221),
{
    lemma_square_from_values(220, 810149, 759969, 647366732568);
}

proof fn lemma_square_221()
    requires
        squares_upto(221),
    ensures
        squares_upto(222),
{
    lemma_square_from_values(221, 1652634, 759969, 2693853314757);
}

proof fn lemma_square_222()
    requires
        squares_upto(222),
    ensures
        squares_upto(223),
{
    lemma_square_from_values(222, -3694233, -1316856, 13460746459593);
}

proof fn lemma_square_223()
    requires
        squares_upto(223),
    ensures
        squares_upto(224),
{
    lemma_square_from_values(223, -1799107, -1316856, 3192526889457);
}

proof fn lemma_square_224()
    requires
        squares_upto(224),
    ensures
        squares_upto(225),
{
    lemma_square_from_values(224, -3038916, 189548, 9108732929956);
}

proof fn lemma_square_225()
    requires
        squares_upto(225),
    ensures
        squares_upto(226),
{
    lemma_square_from_values(225, 3523897, 189548, 12248051084669);
}

proof fn lemma_square_226()
    requires
        squares_upto(226),
    ensures
        squares_upto(227),
{
    lemma_square_from_values(226, 3866901, -3553272, 14748460321041);
}

proof fn lemma_square_227()
    requires
        squares_upto(227),
    ensures
        squares_upto(228),
{
    lemma_square_from_values(227, 269760, -3553272, 71775410184);
}

proof fn lemma_square_228()
    requires
        squares_upto(228),
    ensures
        squares_upto(229),
{
    lemma_square_from_values(228, 2213111, 3159746, 4830888021487);
}

proof fn lemma_square_229()
    requires
        squares_upto(229),
    ensures
        squares_upto(230),
{
    lemma_square_from_values(229, -975884, 3159746, 939327360338);
}

proof fn lemma_square_230()
    requires
        squares_upto(230),
    ensures
        squares_upto(231),
{
    lemma_square_from_values(230, 1717735, -1851402, 2910267482331);
}

proof fn lemma_square_231()
    requires
        squares_upto(231),
    ensures
        squares_upto(232),
{
    lemma_square_from_values(231, 472078, -1851402, 219810331194);
}

proof fn lemma_square_232()
    requires
        squares_upto(232),
    ensures
        squares_upto(233),
{
    lemma_square_from_values(232, -426683, -2409325, 179568955750);
}

proof fn lemma_square_233()
    requires
        squares_upto(233),
    ensures
        squares_upto(234),
{
    lemma_square_from_values(233, 1723600, -2409325, 2930174928275);
}

proof fn lemma_square_234()
    requires
        squares_upto(234),
    ensures
        squares_upto(235),
{
    lemma_square_from_values(234, -1803090, -177440, 3206678254820);
}

proof fn lemma_square_235()
    requires
        squares_upto(235),
    ensures
        squares_upto(236),
{
    lemma_square_from_values(235, 1910376, -177440, 3599633493280);
}

proof fn lemma_square_236()
    requires
        squares_upto(236),
    ensures
        squares_upto(237),
{
    lemma_square_from_values(236, -1667432, 1315589, 2742311853883);
}

proof fn lemma_square_237()
    requires
        squares_upto(237),
    ensures
        squares_upto(238),
{
    lemma_square_from_values(237, -1104333, 1315589, 1202875494542);
}

proof fn lemma_square_238()
    requires
        squares_upto(238),
    ensures
        squares_upto(239),
{
    lemma_square_from_values(238, -260646, 1341330, 67007390610);
}

proof fn lemma_square_239()
    requires
        squares_upto(239),
    ensures
        squares_upto(240),
{
    lemma_square_from_values(239, -3833893, 1341330, 14497748221515);
}

proof fn lemma_square_240()
    requires
        squares_upto(240),
    ensures
        squares_upto(241),
{
    lemma_square_from_values(240, -2939036, 1285669, 8519819396843);
}

proof fn lemma_square_241()
    requires
        squares_upto(241),
    ensures
        squares_upto(242),
{
    lemma_square_from_values(241, -2235985, 1285669, 4931265081382);
}

proof fn lemma_square_242()
    requires
        squares_upto(242),
    ensures
        squares_upto(243),
{
    lemma_square_from_values(242, -420899, -1584928, 174733576009);
}

proof fn lemma_square_243()
    requires
        squares_upto(243),
    ensures
        squares_upto(244),
{
    lemma_square_from_values(243, -2286327, -1584928, 5155814308241);
}

proof fn lemma_square_244()
    requires
        squares_upto(244),
    ensures
        squares_upto(245),
{
    lemma_square_from_values(244, 183443, -812732, 33191193221);
}

proof fn lemma_square_245()
    requires
        squares_upto(245),
    ensures
        squares_upto(246),
{
    lemma_square_from_values(245, -976891, -812732, 941266916029);
}

proof fn lemma_square_246()
    requires
        squares_upto(246),
    ensures
        squares_upto(247),
{
    lemma_square_from_values(246, 1612842, -1439742, 2565690262626);
}

proof fn lemma_square_247()
    requires
        squares_upto(247),
    ensures
        squares_upto(248),
{
    lemma_square_from_values(247, -3545687, -1439742, 12399990925299);
}

proof fn lemma_square_248()
    requires
        squares_upto(248),
    ensures
        squares_upto(249),
{
    lemma_square_from_values(248, -554416, -3019102, 303174093406);
}

proof fn lemma_square_249()
    requires
        squares_upto(249),
    ensures
        squares_upto(250),
{
    lemma_square_from_values(249, 3919660, -3019102, 15153654150194);
}

proof fn lemma_square_250()
    requires
        squares_upto(250),
    ensures
        squares_upto(251),
{
    lemma_square_from_values(250, -48306, -3881060, 2301562280);
}

proof fn lemma_square_251()
    requires
        squares_upto(251),
    ensures
        squares_upto(252),
{
    lemma_square_from_values(251, -1362209, -3881060, 1830240106045);
}

proof fn lemma_square_252()
    requires
        squares_upto(252),
    ensures
        squares_upto(253),
{
    lemma_square_from_values(252, 3937738, -3628969, 15293757884557);
}

proof fn lemma_square_253()
    requires
        squares_upto(253),
    ensures
        squares_upto(254),
{
    lemma_square_from_values(253, 1400424, -3628969, 1934370529943);
}

proof fn lemma_square_254()
    requires
        squares_upto(254),
    ensures
        squares_upto(255),
{
    lemma_square_from_values(254, -846154, 3839961, 706186483467);
}

proof fn lemma_square_255()
    requires
        squares_upto(255),
    ensures
        squares_upto(256),
{
    lemma_square_from_values(255, 1976782, 3839961, 3854234485533);
}

/// Every twiddle 1 <= k < 256 satisfies `square_ok`.
proof fn lemma_all_squares()
    ensures
        squares_upto(256),
{
    assert(squares_upto(1));
    lemma_square_1();
    lemma_square_2();
    lemma_square_3();
    lemma_square_4();
    lemma_square_5();
    lemma_square_6();
    lemma_square_7();
    lemma_square_8();
    lemma_square_9();
    lemma_square_10();
    lemma_square_11();
    lemma_square_12();
    lemma_square_13();
    lemma_square_14();
    lemma_square_15();
    lemma_square_16();
    lemma_square_17();
    lemma_square_18();
    lemma_square_19();
    lemma_square_20();
    lemma_square_21();
    lemma_square_22();
    lemma_square_23();
    lemma_square_24();
    lemma_square_25();
    lemma_square_26();
    lemma_square_27();
    lemma_square_28();
    lemma_square_29();
    lemma_square_30();
    lemma_square_31();
    lemma_square_32();
    lemma_square_33();
    lemma_square_34();
    lemma_square_35();
    lemma_square_36();
    lemma_square_37();
    lemma_square_38();
    lemma_square_39();
    lemma_square_40();
    lemma_square_41();
    lemma_square_42();
    lemma_square_43();
    lemma_square_44();
    lemma_square_45();
    lemma_square_46();
    lemma_square_47();
    lemma_square_48();
    lemma_square_49();
    lemma_square_50();
    lemma_square_51();
    lemma_square_52();
    lemma_square_53();
    lemma_square_54();
    lemma_square_55();
    lemma_square_56();
    lemma_square_57();
    lemma_square_58();
    lemma_square_59();
    lemma_square_60();
    lemma_square_61();
    lemma_square_62();
    lemma_square_63();
    lemma_square_64();
    lemma_square_65();
    lemma_square_66();
    lemma_square_67();
    lemma_square_68();
    lemma_square_69();
    lemma_square_70();
    lemma_square_71();
    lemma_square_72();
    lemma_square_73();
    lemma_square_74();
    lemma_square_75();
    lemma_square_76();
    lemma_square_77();
    lemma_square_78();
    lemma_square_79();
    lemma_square_80();
    lemma_square_81();
    lemma_square_82();
    lemma_square_83();
    lemma_square_84();
    lemma_square_85();
    lemma_square_86();
    lemma_square_87();
    lemma_square_88();
    lemma_square_89();
    lemma_square_90();
    lemma_square_91();
    lemma_square_92();
    lemma_square_93();
    lemma_square_94();
    lemma_square_95();
    lemma_square_96();
    lemma_square_97();
    lemma_square_98();
    lemma_square_99();
    lemma_square_100();
    lemma_square_101();
    lemma_square_102();
    lemma_square_103();
    lemma_square_104();
    lemma_square_105();
    lemma_square_106();
    lemma_square_107();
    lemma_square_108();
    lemma_square_109();
    lemma_square_110();
    lemma_square_111();
    lemma_square_112();
    lemma_square_113();
    lemma_square_114();
    lemma_square_115();
    lemma_square_116();
    lemma_square_117();
    lemma_square_118();
    lemma_square_119();
    lemma_square_120();
    lemma_square_121();
    lemma_square_122();
    lemma_square_123();
    lemma_square_124();
    lemma_square_125();
    lemma_square_126();
    lemma_square_127();
    lemma_square_128();
    lemma_square_129();
    lemma_square_130();
    lemma_square_131();
    lemma_square_132();
    lemma_square_133();
    lemma_square_134();
    lemma_square_135();
    lemma_square_136();
    lemma_square_137();
    lemma_square_138();
    lemma_square_139();
    lemma_square_140();
    lemma_square_141();
    lemma_square_142();
    lemma_square_143();
    lemma_square_144();
    lemma_square_145();
    lemma_square_146();
    lemma_square_147();
    lemma_square_148();
    lemma_square_149();
    lemma_square_150();
    lemma_square_151();
    lemma_square_152();
    lemma_square_153();
    lemma_square_154();
    lemma_square_155();
    lemma_square_156();
    lemma_square_157();
    lemma_square_158();
    lemma_square_159();
    lemma_square_160();
    lemma_square_161();
    lemma_square_162();
    lemma_square_163();
    lemma_square_164();
    lemma_square_165();
    lemma_square_166();
    lemma_square_167();
    lemma_square_168();
    lemma_square_169();
    lemma_square_170();
    lemma_square_171();
    lemma_square_172();
    lemma_square_173();
    lemma_square_174();
    lemma_square_175();
    lemma_square_176();
    lemma_square_177();
    lemma_square_178();
    lemma_square_179();
    lemma_square_180();
    lemma_square_181();
    lemma_square_182();
    lemma_square_183();
    lemma_square_184();
    lemma_square_185();
    lemma_square_186();
    lemma_square_187();
    lemma_square_188();
    lemma_square_189();
    lemma_square_190();
    lemma_square_191();
    lemma_square_192();
    lemma_square_193();
    lemma_square_194();
    lemma_square_195();
    lemma_square_196();
    lemma_square_197();
    lemma_square_198();
    lemma_square_199();
    lemma_square_200();
    lemma_square_201();
    lemma_square_202();
    lemma_square_203();
    lemma_square_204();
    lemma_square_205();
    lemma_square_206();
    lemma_square_207();
    lemma_square_208();
    lemma_square_209();
    lemma_square_210();
    lemma_square_211();
    lemma_square_212();
    lemma_square_213();
    lemma_square_214();
    lemma_square_215();
    lemma_square_216();
    lemma_square_217();
    lemma_square_218();
    lemma_square_219();
    lemma_square_220();
    lemma_square_221();
    lemma_square_222();
    lemma_square_223();
    lemma_square_224();
    lemma_square_225();
    lemma_square_226();
    lemma_square_227();
    lemma_square_228();
    lemma_square_229();
    lemma_square_230();
    lemma_square_231();
    lemma_square_232();
    lemma_square_233();
    lemma_square_234();
    lemma_square_235();
    lemma_square_236();
    lemma_square_237();
    lemma_square_238();
    lemma_square_239();
    lemma_square_240();
    lemma_square_241();
    lemma_square_242();
    lemma_square_243();
    lemma_square_244();
    lemma_square_245();
    lemma_square_246();
    lemma_square_247();
    lemma_square_248();
    lemma_square_249();
    lemma_square_250();
    lemma_square_251();
    lemma_square_252();
    lemma_square_253();
    lemma_square_254();
    lemma_square_255();
}

proof fn lemma_squares_below(n: int, k: int)
    requires
        squares_upto(n),
        1 <= k < n,
    ensures
        square_ok(k),
    decreases n,
{
    if k < n - 1 {
        lemma_squares_below(n - 1, k);
    }
}

/// Twiddle k squared is `tw_square(k)` modulo q, for 1 <= k < 256.
pub proof fn lemma_twiddle_square(k: int)
    requires
        1 <= k < 256,
    ensures
        cong(tw(k) * tw(k), tw_square(k)),
{
    lemma_all_squares();
    lemma_squares_below(256, k);
    reveal(square_ok);
}

} // verus!
