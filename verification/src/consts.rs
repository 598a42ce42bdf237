//! Constants of the arithmetic modulo q: Montgomery factors, the NTT
//! twiddle factors and their Shoup companions, and the named parameters
//! that the rounding and sampling code uses.

use vstd::prelude::*;
use crate::params::Q;

verus! {

/// Q as i64.
pub const Q64: i64 = 8380417;

/// q^-1 mod 2^32 (so that q * QINV = 1 mod 2^32).
pub const QINV: i32 = 58728449;

/// QINV as u32.
pub const QINV_U32: u32 = 58728449;

/// The Montgomery factor R = 2^32 mod q.
pub const MONT: i32 = 4193792;

/// R^2 mod q.
pub const MONT_SQ: i32 = 2365951;

/// mont^2 / 256 mod q: the scaling factor of the inverse NTT.
pub const F: i32 = 41978;

/// The Shoup companion of F, that is (F * QINV) mod 2^32 read as an i32.
pub const F_SHOUP: i32 = -8395782;

/// (q - 1) / 2.
pub const Q_HALF: i32 = 4190208;

/// log2(N).
pub const LOG_N: usize = 8;

/// The primitive 512th root of unity modulo q used by the NTT.
pub const ZETA: i32 = 1753;

/// 2^32 as an integer.
pub open spec fn two32() -> int {
    4294967296
}

/// The Shoup companion of a: (a * QINV) mod 2^32, read as a signed 32-bit
/// number.
pub open spec fn shoup_spec(a: int) -> int {
    let m = (a * 58728449) % two32();
    if m < 2147483648 { m } else { m - two32() }
}

/// Computes the Shoup companion (a * QINV) mod 2^32 of a, read as an i32.
pub fn compute_shoup_const(a: i32) -> (r: i32)
    ensures
        r as int == shoup_spec(a as int),
{
    // (a + 2^32) * QINV = a * QINV (mod 2^32), and the left side is
    // computed on nonnegative numbers.
    let u: u64 = ((a as i64) + 4294967296i64) as u64;
    let p: u64 = u * 58728449u64;
    let m: u64 = p % 4294967296u64;
    proof {
        vstd::arithmetic::div_mod::lemma_mod_multiples_vanish(
            58728449,
            (a as int) * 58728449,
            4294967296,
        );
        assert(p as int == (a as int) * 58728449 + 4294967296 * 58728449) by (nonlinear_arith)
            requires
                u as int == a as int + 4294967296,
                p as int == (u as int) * 58728449,
        ;
    }
    if m < 2147483648u64 {
        m as i32
    } else {
        ((m as i64) - 4294967296i64) as i32
    }
}

/// The twiddle factors zeta^brv(k) * 2^32 mod q (centered) for
/// 0 < k < 256, in the order in which the NTT uses them; entry 0 is unused
/// and 0.
pub open spec fn zeta_spec(k: usize) -> i32 {
    match k {
        0 => 0i32,
        1 => 25847i32,
        2 => -2608894i32,
        3 => -518909i32,
        4 => 237124i32,
        5 => -777960i32,
        6 => -876248i32,
        7 => 466468i32,
        8 => 1826347i32,
        9 => 2353451i32,
        10 => -359251i32,
        11 => -2091905i32,
        12 => 3119733i32,
        13 => -2884855i32,
        14 => 3111497i32,
        15 => 2680103i32,
        16 => 2725464i32,
        17 => 1024112i32,
        18 => -1079900i32,
        19 => 3585928i32,
        20 => -549488i32,
        21 => -1119584i32,
        22 => 2619752i32,
        23 => -2108549i32,
        24 => -2118186i32,
        25 => -3859737i32,
        26 => -1399561i32,
        27 => -3277672i32,
        28 => 1757237i32,
        29 => -19422i32,
        30 => 4010497i32,
        31 => 280005i32,
        32 => 2706023i32,
        33 => 95776i32,
        34 => 3077325i32,
        35 => 3530437i32,
        36 => -1661693i32,
        37 => -3592148i32,
        38 => -2537516i32,
        39 => 3915439i32,
        40 => -3861115i32,
        41 => -3043716i32,
        42 => 3574422i32,
        43 => -2867647i32,
        44 => 3539968i32,
        45 => -300467i32,
        46 => 2348700i32,
        47 => -539299i32,
        48 => -1699267i32,
        49 => -1643818i32,
        50 => 3505694i32,
        51 => -3821735i32,
        52 => 3507263i32,
        53 => -2140649i32,
        54 => -1600420i32,
        55 => 3699596i32,
        56 => 811944i32,
        57 => 531354i32,
        58 => 954230i32,
        59 => 3881043i32,
        60 => 3900724i32,
        61 => -2556880i32,
        62 => 2071892i32,
        63 => -2797779i32,
        64 => -3930395i32,
        65 => -1528703i32,
        66 => -3677745i32,
        67 => -3041255i32,
        68 => -1452451i32,
        69 => 3475950i32,
        70 => 2176455i32,
        71 => -1585221i32,
        72 => -1257611i32,
        73 => 1939314i32,
        74 => -4083598i32,
        75 => -1000202i32,
        76 => -3190144i32,
        77 => -3157330i32,
        78 => -3632928i32,
        79 => 126922i32,
        80 => 3412210i32,
        81 => -983419i32,
        82 => 2147896i32,
        83 => 2715295i32,
        84 => -2967645i32,
        85 => -3693493i32,
        86 => -411027i32,
        87 => -2477047i32,
        88 => -671102i32,
        89 => -1228525i32,
        90 => -22981i32,
        91 => -1308169i32,
        92 => -381987i32,
        93 => 1349076i32,
        94 => 1852771i32,
        95 => -1430430i32,
        96 => -3343383i32,
        97 => 264944i32,
        98 => 508951i32,
        99 => 3097992i32,
        100 => 44288i32,
        101 => -1100098i32,
        102 => 904516i32,
        103 => 3958618i32,
        104 => -3724342i32,
        105 => -8578i32,
        106 => 1653064i32,
        107 => -3249728i32,
        108 => 2389356i32,
        109 => -210977i32,
        110 => 759969i32,
        111 => -1316856i32,
        112 => 189548i32,
        113 => -3553272i32,
        114 => 3159746i32,
        115 => -1851402i32,
        116 => -2409325i32,
        117 => -177440i32,
        118 => 1315589i32,
        119 => 1341330i32,
        120 => 1285669i32,
        121 => -1584928i32,
        122 => -812732i32,
        123 => -1439742i32,
        124 => -3019102i32,
        125 => -3881060i32,
        126 => -3628969i32,
        127 => 3839961i32,
        128 => 2091667i32,
        129 => 3407706i32,
        130 => 2316500i32,
        131 => 3817976i32,
        132 => -3342478i32,
        133 => 2244091i32,
        134 => -2446433i32,
        135 => -3562462i32,
        136 => 266997i32,
        137 => 2434439i32,
        138 => -1235728i32,
        139 => 3513181i32,
        140 => -3520352i32,
        141 => -3759364i32,
        142 => -1197226i32,
        143 => -3193378i32,
        144 => 900702i32,
        145 => 1859098i32,
        146 => 909542i32,
        147 => 819034i32,
        148 => 495491i32,
        149 => -1613174i32,
        150 => -43260i32,
        151 => -522500i32,
        152 => -655327i32,
        153 => -3122442i32,
        154 => 2031748i32,
        155 => 3207046i32,
        156 => -3556995i32,
        157 => -525098i32,
        158 => -768622i32,
        159 => -3595838i32,
        160 => 342297i32,
        161 => 286988i32,
        162 => -2437823i32,
        163 => 4108315i32,
        164 => 3437287i32,
        165 => -3342277i32,
        166 => 1735879i32,
        167 => 203044i32,
        168 => 2842341i32,
        169 => 2691481i32,
        170 => -2590150i32,
        171 => 1265009i32,
        172 => 4055324i32,
        173 => 1247620i32,
        174 => 2486353i32,
        175 => 1595974i32,
        176 => -3767016i32,
        177 => 1250494i32,
        178 => 2635921i32,
        179 => -3548272i32,
        180 => -2994039i32,
        181 => 1869119i32,
        182 => 1903435i32,
        183 => -1050970i32,
        184 => -1333058i32,
        185 => 1237275i32,
        186 => -3318210i32,
        187 => -1430225i32,
        188 => -451100i32,
        189 => 1312455i32,
        190 => 3306115i32,
        191 => -1962642i32,
        192 => -1279661i32,
        193 => 1917081i32,
        194 => -2546312i32,
        195 => -1374803i32,
        196 => 1500165i32,
        197 => 777191i32,
        198 => 2235880i32,
        199 => 3406031i32,
        200 => -542412i32,
        201 => -2831860i32,
        202 => -1671176i32,
        203 => -1846953i32,
        204 => -2584293i32,
        205 => -3724270i32,
        206 => 594136i32,
        207 => -3776993i32,
        208 => -2013608i32,
        209 => 2432395i32,
        210 => 2454455i32,
        211 => -164721i32,
        212 => 1957272i32,
        213 => 3369112i32,
        214 => 185531i32,
        215 => -1207385i32,
        216 => -3183426i32,
        217 => 162844i32,
        218 => 1616392i32,
        219 => 3014001i32,
        220 => 810149i32,
        221 => 1652634i32,
        222 => -3694233i32,
        223 => -1799107i32,
        224 => -3038916i32,
        225 => 3523897i32,
        226 => 3866901i32,
        227 => 269760i32,
        228 => 2213111i32,
        229 => -975884i32,
        230 => 1717735i32,
        231 => 472078i32,
        232 => -426683i32,
        233 => 1723600i32,
        234 => -1803090i32,
        235 => 1910376i32,
        236 => -1667432i32,
        237 => -1104333i32,
        238 => -260646i32,
        239 => -3833893i32,
        240 => -2939036i32,
        241 => -2235985i32,
        242 => -420899i32,
        243 => -2286327i32,
        244 => 183443i32,
        245 => -976891i32,
        246 => 1612842i32,
        247 => -3545687i32,
        248 => -554416i32,
        249 => 3919660i32,
        250 => -48306i32,
        251 => -1362209i32,
        252 => 3937738i32,
        253 => 1400424i32,
        254 => -846154i32,
        255 => 1976782i32,
        _ => 0i32,
    }
}

/// The twiddle factor zeta^brv(k) * 2^32 mod q (centered), for k < 256,
/// with the entry 0 unused and set to 0.
pub fn zeta(k: usize) -> (z: i32)
    requires
        k < 256,
    ensures
        z == zeta_spec(k),
        -4108315 <= z <= 4108315,
{
    match k {
        0 => 0,
        1 => 25847,
        2 => -2608894,
        3 => -518909,
        4 => 237124,
        5 => -777960,
        6 => -876248,
        7 => 466468,
        8 => 1826347,
        9 => 2353451,
        10 => -359251,
        11 => -2091905,
        12 => 3119733,
        13 => -2884855,
        14 => 3111497,
        15 => 2680103,
        16 => 2725464,
        17 => 1024112,
        18 => -1079900,
        19 => 3585928,
        20 => -549488,
        21 => -1119584,
        22 => 2619752,
        23 => -2108549,
        24 => -2118186,
        25 => -3859737,
        26 => -1399561,
        27 => -3277672,
        28 => 1757237,
        29 => -19422,
        30 => 4010497,
        31 => 280005,
        32 => 2706023,
        33 => 95776,
        34 => 3077325,
        35 => 3530437,
        36 => -1661693,
        37 => -3592148,
        38 => -2537516,
        39 => 3915439,
        40 => -3861115,
        41 => -3043716,
        42 => 3574422,
        43 => -2867647,
        44 => 3539968,
        45 => -300467,
        46 => 2348700,
        47 => -539299,
        48 => -1699267,
        49 => -1643818,
        50 => 3505694,
        51 => -3821735,
        52 => 3507263,
        53 => -2140649,
        54 => -1600420,
        55 => 3699596,
        56 => 811944,
        57 => 531354,
        58 => 954230,
        59 => 3881043,
        60 => 3900724,
        61 => -2556880,
        62 => 2071892,
        63 => -2797779,
        64 => -3930395,
        65 => -1528703,
        66 => -3677745,
        67 => -3041255,
        68 => -1452451,
        69 => 3475950,
        70 => 2176455,
        71 => -1585221,
        72 => -1257611,
        73 => 1939314,
        74 => -4083598,
        75 => -1000202,
        76 => -3190144,
        77 => -3157330,
        78 => -3632928,
        79 => 126922,
        80 => 3412210,
        81 => -983419,
        82 => 2147896,
        83 => 2715295,
        84 => -2967645,
        85 => -3693493,
        86 => -411027,
        87 => -2477047,
        88 => -671102,
        89 => -1228525,
        90 => -22981,
        91 => -1308169,
        92 => -381987,
        93 => 1349076,
        94 => 1852771,
        95 => -1430430,
        96 => -3343383,
        97 => 264944,
        98 => 508951,
        99 => 3097992,
        100 => 44288,
        101 => -1100098,
        102 => 904516,
        103 => 3958618,
        104 => -3724342,
        105 => -8578,
        106 => 1653064,
        107 => -3249728,
        108 => 2389356,
        109 => -210977,
        110 => 759969,
        111 => -1316856,
        112 => 189548,
        113 => -3553272,
        114 => 3159746,
        115 => -1851402,
        116 => -2409325,
        117 => -177440,
        118 => 1315589,
        119 => 1341330,
        120 => 1285669,
        121 => -1584928,
        122 => -812732,
        123 => -1439742,
        124 => -3019102,
        125 => -3881060,
        126 => -3628969,
        127 => 3839961,
        128 => 2091667,
        129 => 3407706,
        130 => 2316500,
        131 => 3817976,
        132 => -3342478,
        133 => 2244091,
        134 => -2446433,
        135 => -3562462,
        136 => 266997,
        137 => 2434439,
        138 => -1235728,
        139 => 3513181,
        140 => -3520352,
        141 => -3759364,
        142 => -1197226,
        143 => -3193378,
        144 => 900702,
        145 => 1859098,
        146 => 909542,
        147 => 819034,
        148 => 495491,
        149 => -1613174,
        150 => -43260,
        151 => -522500,
        152 => -655327,
        153 => -3122442,
        154 => 2031748,
        155 => 3207046,
        156 => -3556995,
        157 => -525098,
        158 => -768622,
        159 => -3595838,
        160 => 342297,
        161 => 286988,
        162 => -2437823,
        163 => 4108315,
        164 => 3437287,
        165 => -3342277,
        166 => 1735879,
        167 => 203044,
        168 => 2842341,
        169 => 2691481,
        170 => -2590150,
        171 => 1265009,
        172 => 4055324,
        173 => 1247620,
        174 => 2486353,
        175 => 1595974,
        176 => -3767016,
        177 => 1250494,
        178 => 2635921,
        179 => -3548272,
        180 => -2994039,
        181 => 1869119,
        182 => 1903435,
        183 => -1050970,
        184 => -1333058,
        185 => 1237275,
        186 => -3318210,
        187 => -1430225,
        188 => -451100,
        189 => 1312455,
        190 => 3306115,
        191 => -1962642,
        192 => -1279661,
        193 => 1917081,
        194 => -2546312,
        195 => -1374803,
        196 => 1500165,
        197 => 777191,
        198 => 2235880,
        199 => 3406031,
        200 => -542412,
        201 => -2831860,
        202 => -1671176,
        203 => -1846953,
        204 => -2584293,
        205 => -3724270,
        206 => 594136,
        207 => -3776993,
        208 => -2013608,
        209 => 2432395,
        210 => 2454455,
        211 => -164721,
        212 => 1957272,
        213 => 3369112,
        214 => 185531,
        215 => -1207385,
        216 => -3183426,
        217 => 162844,
        218 => 1616392,
        219 => 3014001,
        220 => 810149,
        221 => 1652634,
        222 => -3694233,
        223 => -1799107,
        224 => -3038916,
        225 => 3523897,
        226 => 3866901,
        227 => 269760,
        228 => 2213111,
        229 => -975884,
        230 => 1717735,
        231 => 472078,
        232 => -426683,
        233 => 1723600,
        234 => -1803090,
        235 => 1910376,
        236 => -1667432,
        237 => -1104333,
        238 => -260646,
        239 => -3833893,
        240 => -2939036,
        241 => -2235985,
        242 => -420899,
        243 => -2286327,
        244 => 183443,
        245 => -976891,
        246 => 1612842,
        247 => -3545687,
        248 => -554416,
        249 => 3919660,
        250 => -48306,
        251 => -1362209,
        252 => 3937738,
        253 => 1400424,
        254 => -846154,
        255 => 1976782,
        _ => 0,
    }
}

/// The table of all 256 twiddle factors, in the order in which the NTT
/// uses them.
pub fn zetas() -> (t: [i32; 256])
    ensures
        forall|i: int| 0 <= i < 256 ==> #[trigger] t[i] == zeta_spec(i as usize),
        forall|i: int| 0 <= i < 256 ==> -4108315 <= #[trigger] t[i] <= 4108315,
{
    let mut t = [0i32; 256];
    for i in 0..256usize
        invariant
            forall|j: int| 0 <= j < i ==> #[trigger] t[j] == zeta_spec(j as usize),
            forall|j: int| 0 <= j < 256 ==> -4108315 <= #[trigger] t[j] <= 4108315,
    {
        t[i] = zeta(i);
    }
    t
}

/// The Shoup companions of all 256 twiddle factors.
pub fn compute_all_shoup_consts() -> (r: [i32; 256])
    ensures
        forall|i: int| 0 <= i < 256 ==> #[trigger] r[i] as int == shoup_spec(zeta_spec(i as usize) as int),
{
    let t = zetas();
    let mut r = [0i32; 256];
    for i in 0..256usize
        invariant
            forall|j: int| 0 <= j < 256 ==> #[trigger] t[j] == zeta_spec(j as usize),
            forall|j: int| 0 <= j < i ==> #[trigger] r[j] as int == shoup_spec(zeta_spec(j as usize) as int),
    {
        r[i] = compute_shoup_const(t[i]);
    }
    r
}

/// gamma1 of ML-DSA-44: 2^17.
pub const GAMMA1_44: i32 = 131072;

/// gamma1 of ML-DSA-65 and ML-DSA-87: 2^19.
pub const GAMMA1_65: i32 = 524288;

/// gamma2 of ML-DSA-44: (q-1)/88.
pub const GAMMA2_44: i32 = 95232;

/// gamma2 of ML-DSA-65 and ML-DSA-87: (q-1)/32.
pub const GAMMA2_65: i32 = 261888;

/// alpha = 2 * gamma2 of ML-DSA-44.
pub const ALPHA_44: i32 = 190464;

/// alpha = 2 * gamma2 of ML-DSA-65 and ML-DSA-87.
pub const ALPHA_65: i32 = 523776;

/// eta of ML-DSA-44 and ML-DSA-87.
pub const ETA_44: usize = 2;

/// eta of ML-DSA-65.
pub const ETA_65: usize = 4;

/// tau of ML-DSA-44.
pub const TAU_44: usize = 39;

/// tau of ML-DSA-65.
pub const TAU_65: usize = 49;

/// tau of ML-DSA-87.
pub const TAU_87: usize = 60;

/// 2^D.
pub const POWER2D: i32 = 8192;

/// 2^(D-1).
pub const HALF_POWER2D: i32 = 4096;

/// Mask of the low 23 bits (q < 2^23).
pub const MASK_23BIT: i32 = 8388607;

} // verus!
