use vstd::prelude::*;

verus! {

/// One full cycle of a sine wave, 960 samples, amplitude 32767 (Q15).
/// Entry `j` is `round(32767 * sin(2*pi*j/960))`.
pub const SINE_TABLE: [i16; 960] = [
    0, 214, 429, 643, 858, 1072, 1286, 1501, 1715, 1929, 2143, 2357,
    2571, 2785, 2998, 3212, 3425, 3638, 3851, 4064, 4277, 4489, 4702, 4914,
    5126, 5338, 5549, 5760, 5971, 6182, 6393, 6603, 6813, 7022, 7232, 7441,
    7649, 7858, 8066, 8273, 8481, 8688, 8894, 9101, 9306, 9512, 9717, 9921,
    10126, 10329, 10533, 10735, 10938, 11140, 11341, 11542, 11743, 11943, 12142, 12341,
    12539, 12737, 12935, 13131, 13328, 13523, 13718, 13913, 14107, 14300, 14492, 14685,
    14876, 15067, 15257, 15446, 15635, 15823, 16011, 16197, 16383, 16569, 16754, 16937,
    17121, 17303, 17485, 17666, 17846, 18026, 18204, 18382, 18559, 18736, 18911, 19086,
    19260, 19433, 19605, 19777, 19947, 20117, 20286, 20454, 20621, 20787, 20952, 21117,
    21280, 21443, 21605, 21766, 21925, 22084, 22242, 22399, 22555, 22710, 22864, 23018,
    23170, 23321, 23471, 23620, 23768, 23915, 24062, 24207, 24351, 24494, 24636, 24776,
    24916, 25055, 25193, 25329, 25465, 25599, 25732, 25865, 25996, 26126, 26255, 26382,
    26509, 26635, 26759, 26882, 27004, 27125, 27245, 27363, 27481, 27597, 27712, 27826,
    27938, 28050, 28160, 28269, 28377, 28484, 28589, 28693, 28796, 28898, 28998, 29098,
    29196, 29292, 29388, 29482, 29575, 29667, 29757, 29846, 29934, 30021, 30106, 30190,
    30273, 30354, 30434, 30513, 30591, 30667, 30742, 30815, 30888, 30958, 31028, 31096,
    31163, 31229, 31293, 31356, 31418, 31478, 31537, 31594, 31650, 31705, 31759, 31811,
    31862, 31911, 31959, 32006, 32051, 32095, 32137, 32179, 32218, 32257, 32294, 32329,
    32364, 32396, 32428, 32458, 32487, 32514, 32540, 32564, 32587, 32609, 32630, 32648,
    32666, 32682, 32697, 32710, 32722, 32733, 32742, 32749, 32756, 32761, 32764, 32766,
    32767, 32766, 32764, 32761, 32756, 32749, 32742, 32733, 32722, 32710, 32697, 32682,
    32666, 32648, 32630, 32609, 32587, 32564, 32540, 32514, 32487, 32458, 32428, 32396,
    32364, 32329, 32294, 32257, 32218, 32179, 32137, 32095, 32051, 32006, 31959, 31911,
    31862, 31811, 31759, 31705, 31650, 31594, 31537, 31478, 31418, 31356, 31293, 31229,
    31163, 31096, 31028, 30958, 30888, 30815, 30742, 30667, 30591, 30513, 30434, 30354,
    30273, 30190, 30106, 30021, 29934, 29846, 29757, 29667, 29575, 29482, 29388, 29292,
    29196, 29098, 28998, 28898, 28796, 28693, 28589, 28484, 28377, 28269, 28160, 28050,
    27938, 27826, 27712, 27597, 27481, 27363, 27245, 27125, 27004, 26882, 26759, 26635,
    26509, 26382, 26255, 26126, 25996, 25865, 25732, 25599, 25465, 25329, 25193, 25055,
    24916, 24776, 24636, 24494, 24351, 24207, 24062, 23915, 23768, 23620, 23471, 23321,
    23170, 23018, 22864, 22710, 22555, 22399, 22242, 22084, 21925, 21766, 21605, 21443,
    21280, 21117, 20952, 20787, 20621, 20454, 20286, 20117, 19947, 19777, 19605, 19433,
    19260, 19086, 18911, 18736, 18559, 18382, 18204, 18026, 17846, 17666, 17485, 17303,
    17121, 16937, 16754, 16569, 16383, 16197, 16011, 15823, 15635, 15446, 15257, 15067,
    14876, 14685, 14492, 14300, 14107, 13913, 13718, 13523, 13328, 13131, 12935, 12737,
    12539, 12341, 12142, 11943, 11743, 11542, 11341, 11140, 10938, 10735, 10533, 10329,
    10126, 9921, 9717, 9512, 9306, 9101, 8894, 8688, 8481, 8273, 8066, 7858,
    7649, 7441, 7232, 7022, 6813, 6603, 6393, 6182, 5971, 5760, 5549, 5338,
    5126, 4914, 4702, 4489, 4277, 4064, 3851, 3638, 3425, 3212, 2998, 2785,
    2571, 2357, 2143, 1929, 1715, 1501, 1286, 1072, 858, 643, 429, 214,
    0, -214, -429, -643, -858, -1072, -1286, -1501, -1715, -1929, -2143, -2357,
    -2571, -2785, -2998, -3212, -3425, -3638, -3851, -4064, -4277, -4489, -4702, -4914,
    -5126, -5338, -5549, -5760, -5971, -6182, -6393, -6603, -6813, -7022, -7232, -7441,
    -7649, -7858, -8066, -8273, -8481, -8688, -8894, -9101, -9306, -9512, -9717, -9921,
    -10126, -10329, -10533, -10735, -10938, -11140, -11341, -11542, -11743, -11943, -12142, -12341,
    -12539, -12737, -12935, -13131, -13328, -13523, -13718, -13913, -14107, -14300, -14492, -14685,
    -14876, -15067, -15257, -15446, -15635, -15823, -16011, -16197, -16383, -16569, -16754, -16937,
    -17121, -17303, -17485, -17666, -17846, -18026, -18204, -18382, -18559, -18736, -18911, -19086,
    -19260, -19433, -19605, -19777, -19947, -20117, -20286, -20454, -20621, -20787, -20952, -21117,
    -21280, -21443, -21605, -21766, -21925, -22084, -22242, -22399, -22555, -22710, -22864, -23018,
    -23170, -23321, -23471, -23620, -23768, -23915, -24062, -24207, -24351, -24494, -24636, -24776,
    -24916, -25055, -25193, -25329, -25465, -25599, -25732, -25865, -25996, -26126, -26255, -26382,
    -26509, -26635, -26759, -26882, -27004, -27125, -27245, -27363, -27481, -27597, -27712, -27826,
    -27938, -28050, -28160, -28269, -28377, -28484, -28589, -28693, -28796, -28898, -28998, -29098,
    -29196, -29292, -29388, -29482, -29575, -29667, -29757, -29846, -29934, -30021, -30106, -30190,
    -30273, -30354, -30434, -30513, -30591, -30667, -30742, -30815, -30888, -30958, -31028, -31096,
    -31163, -31229, -31293, -31356, -31418, -31478, -31537, -31594, -31650, -31705, -31759, -31811,
    -31862, -31911, -31959, -32006, -32051, -32095, -32137, -32179, -32218, -32257, -32294, -32329,
    -32364, -32396, -32428, -32458, -32487, -32514, -32540, -32564, -32587, -32609, -32630, -32648,
    -32666, -32682, -32697, -32710, -32722, -32733, -32742, -32749, -32756, -32761, -32764, -32766,
    -32767, -32766, -32764, -32761, -32756, -32749, -32742, -32733, -32722, -32710, -32697, -32682,
    -32666, -32648, -32630, -32609, -32587, -32564, -32540, -32514, -32487, -32458, -32428, -32396,
    -32364, -32329, -32294, -32257, -32218, -32179, -32137, -32095, -32051, -32006, -31959, -31911,
    -31862, -31811, -31759, -31705, -31650, -31594, -31537, -31478, -31418, -31356, -31293, -31229,
    -31163, -31096, -31028, -30958, -30888, -30815, -30742, -30667, -30591, -30513, -30434, -30354,
    -30273, -30190, -30106, -30021, -29934, -29846, -29757, -29667, -29575, -29482, -29388, -29292,
    -29196, -29098, -28998, -28898, -28796, -28693, -28589, -28484, -28377, -28269, -28160, -28050,
    -27938, -27826, -27712, -27597, -27481, -27363, -27245, -27125, -27004, -26882, -26759, -26635,
    -26509, -26382, -26255, -26126, -25996, -25865, -25732, -25599, -25465, -25329, -25193, -25055,
    -24916, -24776, -24636, -24494, -24351, -24207, -24062, -23915, -23768, -23620, -23471, -23321,
    -23170, -23018, -22864, -22710, -22555, -22399, -22242, -22084, -21925, -21766, -21605, -21443,
    -21280, -21117, -20952, -20787, -20621, -20454, -20286, -20117, -19947, -19777, -19605, -19433,
    -19260, -19086, -18911, -18736, -18559, -18382, -18204, -18026, -17846, -17666, -17485, -17303,
    -17121, -16937, -16754, -16569, -16383, -16197, -16011, -15823, -15635, -15446, -15257, -15067,
    -14876, -14685, -14492, -14300, -14107, -13913, -13718, -13523, -13328, -13131, -12935, -12737,
    -12539, -12341, -12142, -11943, -11743, -11542, -11341, -11140, -10938, -10735, -10533, -10329,
    -10126, -9921, -9717, -9512, -9306, -9101, -8894, -8688, -8481, -8273, -8066, -7858,
    -7649, -7441, -7232, -7022, -6813, -6603, -6393, -6182, -5971, -5760, -5549, -5338,
    -5126, -4914, -4702, -4489, -4277, -4064, -3851, -3638, -3425, -3212, -2998, -2785,
    -2571, -2357, -2143, -1929, -1715, -1501, -1286, -1072, -858, -643, -429, -214,
];

/// Integer division that truncates toward zero, as the machine division of
/// signed integers does; `b` is expected positive.
pub open spec fn trunc_div(a: int, b: int) -> int {
    if a >= 0 {
        a / b
    } else {
        -((-a) / b)
    }
}

/// The quotient of non-negative values is non-negative.
pub proof fn lemma_div_nonneg(a: int, b: int)
    requires
        a >= 0,
        b > 0,
    ensures
        a / b >= 0,
{
    assert(a / b >= 0) by (nonlinear_arith)
        requires a >= 0, b > 0;
}

/// Truncating division for `i64` values, proved against `trunc_div`.
pub fn trunc_div_i64(a: i64, b: i64) -> (r: i64)
    requires
        b > 0,
        a > i64::MIN,
    ensures
        r == trunc_div(a as int, b as int),
{
    if a >= 0 {
        a / b
    } else {
        proof {
            lemma_div_nonneg(-(a as int), b as int);
        }
        -((-a) / b)
    }
}

/// Truncating division for `i128` values, proved against `trunc_div`.
pub fn trunc_div_i128(a: i128, b: i128) -> (r: i128)
    requires
        b > 0,
        a > i128::MIN,
    ensures
        r == trunc_div(a as int, b as int),
{
    if a >= 0 {
        a / b
    } else {
        proof {
            lemma_div_nonneg(-(a as int), b as int);
        }
        -((-a) / b)
    }
}

/// A truncating quotient stays at or under `m` when the numerator is under
/// `(m + 1) * b`.
pub proof fn lemma_trunc_div_upper(a: int, b: int, m: int)
    requires
        b > 0,
        m >= 0,
        a < (m + 1) * b,
    ensures
        trunc_div(a, b) <= m,
{
    if a >= 0 {
        assert(a / b <= m) by (nonlinear_arith)
            requires b > 0, m >= 0, a < (m + 1) * b, a >= 0;
    } else {
        assert((-a) / b >= 0) by (nonlinear_arith)
            requires b > 0, -a >= 0;
    }
}

/// A truncating quotient stays at or above `-m` when the numerator is above
/// `-(m + 1) * b`.
pub proof fn lemma_trunc_div_lower(a: int, b: int, m: int)
    requires
        b > 0,
        m >= 0,
        -((m + 1) * b) < a,
    ensures
        -m <= trunc_div(a, b),
{
    if a >= 0 {
        assert(a / b >= 0) by (nonlinear_arith)
            requires b > 0, a >= 0;
    } else {
        assert((-a) / b <= m) by (nonlinear_arith)
            requires b > 0, m >= 0, -a < (m + 1) * b, -a >= 0;
    }
}

/// Table value at index `j`, taken modulo the table length.
#[verifier::opaque]
pub open spec fn table_at(j: int) -> int {
    SINE_TABLE@[j % 960] as int
}

/// Linear interpolation of the sine table at phase `p`, in units of 1/64 of
/// a table step; the result is the Q15 sine value scaled by 64.
pub open spec fn sine_interp(p: int) -> int {
    let j = p / 64;
    let f = p % 64;
    table_at(j) * 64 + (table_at(j + 1) - table_at(j)) * f
}

/// The interpolated value stays between the scaled extremes of `i16`.
pub proof fn lemma_sine_interp_bound(p: int)
    requires
        0 <= p,
    ensures
        -2097152 <= sine_interp(p) <= 2097088,
{
    let j = p / 64;
    let f = p % 64;
    let a = table_at(j);
    let b = table_at(j + 1);
    assert(0 <= f < 64) by {
        vstd::arithmetic::div_mod::lemma_mod_bound(p, 64);
    }
    assert(-32768 <= a <= 32767 && -32768 <= b <= 32767) by {
        reveal(table_at);
        vstd::arithmetic::div_mod::lemma_mod_bound(j, 960);
        vstd::arithmetic::div_mod::lemma_mod_bound(j + 1, 960);
    }
    assert(a * 64 + (b - a) * f == a * (64 - f) + b * f) by (nonlinear_arith);
    assert(-2097152 <= a * (64 - f) + b * f <= 2097088) by (nonlinear_arith)
        requires
            -32768 <= a <= 32767,
            -32768 <= b <= 32767,
            0 <= f < 64;
}

/// Interpolated sine-table lookup; `p` is a phase in 1/64 table steps,
/// below one full cycle (61440 units).
pub fn sine_interp_exec(p: u64) -> (r: i64)
    requires
        p < 61440,
    ensures
        r == sine_interp(p as int),
        -2097152 <= r <= 2097088,
{
    let j: usize = (p / 64) as usize;
    let f: i64 = (p % 64) as i64;
    let jn: usize = if j == 959 { 0 } else { j + 1 };
    proof {
        reveal(table_at);
        assert(j < 960);
        assert(j as int % 960 == j as int) by {
            vstd::arithmetic::div_mod::lemma_small_mod(j as nat, 960);
        }
        assert((j as int + 1) % 960 == jn as int) by {
            if j < 959 {
                vstd::arithmetic::div_mod::lemma_small_mod((j + 1) as nat, 960);
            } else {
                vstd::arithmetic::div_mod::lemma_mod_self_0(960);
            }
        }
        lemma_sine_interp_bound(p as int);
    }
    let a: i64 = SINE_TABLE[j] as i64;
    let b: i64 = SINE_TABLE[jn] as i64;
    a * 64 + (b - a) * f
}

/// `r` is the integer square root of `x`.
pub open spec fn is_isqrt(x: int, r: int) -> bool {
    &&& r >= 0
    &&& r * r <= x
    &&& x < (r + 1) * (r + 1)
}

/// The integer square root, as a specification value.
pub open spec fn spec_isqrt(x: int) -> int {
    choose|r: int| is_isqrt(x, r)
}

/// The integer square root is unique.
pub proof fn lemma_isqrt_unique(x: int, a: int, b: int)
    requires
        is_isqrt(x, a),
        is_isqrt(x, b),
    ensures
        a == b,
{
    if a < b {
        assert((a + 1) * (a + 1) <= b * b) by (nonlinear_arith)
            requires 0 <= a, 0 <= b, a < b;
    }
    if b < a {
        assert((b + 1) * (b + 1) <= a * a) by (nonlinear_arith)
            requires 0 <= a, 0 <= b, b < a;
    }
}

/// Floor of the square root of `x`, by binary search.
pub fn isqrt_u128(x: u128) -> (r: u64)
    requires
        (x as int) < 0x400000000000000000000000,
    ensures
        is_isqrt(x as int, r as int),
        r as int == spec_isqrt(x as int),
        r < 0x800000000000,
{
    let mut lo: u64 = 0;
    let mut hi: u64 = 0x800000000000;
    proof {
        assert((hi as int) * (hi as int) == 0x400000000000000000000000)
            by (nonlinear_arith)
            requires hi == 0x800000000000u64;
    }
    while hi - lo > 1
        invariant
            lo < hi <= 0x800000000000,
            (lo as int) * (lo as int) <= x as int,
            (x as int) < (hi as int) * (hi as int),
        decreases hi - lo,
    {
        let mid: u64 = lo + (hi - lo) / 2;
        proof {
            assert((mid as int) * (mid as int) <= 0x400000000000000000000000)
                by (nonlinear_arith)
                requires 0 <= mid <= 0x800000000000u64;
        }
        let sq: u128 = (mid as u128) * (mid as u128);
        if sq <= x {
            lo = mid;
        } else {
            hi = mid;
        }
    }
    proof {
        assert(hi == lo + 1);
        let r = lo as int;
        assert(is_isqrt(x as int, r));
        lemma_isqrt_unique(x as int, r, spec_isqrt(x as int));
    }
    lo
}

} // verus!
