//! The heading styles that the document writers share.
use vstd::arithmetic::power2::{lemma2_to64, lemma_pow2_pos, lemma_pow2_unfold, pow2};
use vstd::prelude::*;

verus! {

/// The power of two by which a number is cut to 24 significant bits.
pub open spec fn single_scale(x: nat) -> nat
    decreases x,
{
    if x < 0x100_0000 {
        1
    } else {
        2 * single_scale(x / 2)
    }
}

/// A number rounded to the 24 significant bits of single precision, ties to even.
pub open spec fn single(x: nat) -> nat {
    let scale = single_scale(x);
    let kept = x / scale;
    let rest = x % scale;
    if 2 * rest > scale || (2 * rest == scale && kept % 2 == 1) {
        (kept + 1) * scale
    } else {
        kept * scale
    }
}

proof fn single_scale_steps(x: nat, scale: nat)
    requires
        scale > 0,
        x / scale >= 0x100_0000,
    ensures
        scale * single_scale(x / scale) == (2 * scale) * single_scale(x / (2 * scale)),
        2 * scale <= x,
{
    assert(x / scale / 2 == x / (scale * 2)) by {
        vstd::arithmetic::div_mod::lemma_div_denominator(x as int, scale as int, 2);
    }
    assert(scale * 2 == 2 * scale);
    let inner = single_scale(x / (2 * scale));
    assert(scale * (2 * inner) == (2 * scale) * inner) by (nonlinear_arith);
    assert(2 * scale <= x) by (nonlinear_arith)
        requires
            scale > 0,
            x / scale >= 0x100_0000,
    ;
}

proof fn single_scale_shrinks(x: nat, scale: nat)
    requires
        scale > 0,
        x / scale >= 0x100_0000,
    ensures
        x / (2 * scale) < x / scale,
{
    vstd::arithmetic::div_mod::lemma_div_denominator(x as int, scale as int, 2);
    assert(scale * 2 == 2 * scale);
}

/// A number rounded to single precision.
fn to_single(x: u128) -> (y: u128)
    requires
        x <= 0xFFFF_FFFF_FFFF_FFFF_FFFF_FFFF,
    ensures
        y == single(x as nat),
        y <= 2 * x,
{
    let mut scale: u128 = 1;
    assert(x as nat / 1 == x);
    while x / scale >= 0x100_0000
        invariant
            scale > 0,
            scale <= x || scale == 1,
            x <= 0xFFFF_FFFF_FFFF_FFFF_FFFF_FFFF,
            single_scale(x as nat) == scale * single_scale(x as nat / scale as nat),
        decreases x / scale,
    {
        proof {
            single_scale_steps(x as nat, scale as nat);
            single_scale_shrinks(x as nat, scale as nat);
        }
        scale = 2 * scale;
    }
    proof {
        assert(x as nat / scale as nat == (x / scale) as nat);
        assert(single_scale(x as nat / scale as nat) == 1);
        assert(scale * 1 == scale) by (nonlinear_arith);
    }
    let kept: u128 = x / scale;
    let rest: u128 = x % scale;
    proof {
        assert(kept * scale <= x) by (nonlinear_arith)
            requires
                scale > 0,
                kept == x / scale,
        ;
        assert((kept + 1) * scale == kept * scale + scale) by (nonlinear_arith);
        assert(2 * rest > scale || 2 * rest == scale ==> scale <= x) by {
            if 2 * rest >= scale && scale > x {
                assert(scale == 1);
            }
        }
    }
    if 2 * rest > scale || (2 * rest == scale && kept % 2 == 1) {
        (kept + 1) * scale
    } else {
        kept * scale
    }
}

/// A size times a factor of `scale / 2^23`, computed in single precision and
/// rounded half up, no less than two and no more than a size can say.
pub open spec fn scaled_size(body: nat, scale: nat) -> nat {
    let size = (single(single(body) * scale) + 0x40_0000) / 0x80_0000;
    if size < 2 {
        2
    } else if size > usize::MAX {
        usize::MAX as nat
    } else {
        size
    }
}

/// A size times a factor of `scale / 2^23`.
pub(crate) fn scale_size(body: usize, scale: u32) -> (size: usize)
    requires
        scale <= 0x100_0000,
    ensures
        size == scaled_size(body as nat, scale as nat),
{
    let rounded: u128 = to_single(body as u128);
    proof {
        assert(rounded * scale <= 0x2_0000_0000_0000_0000 * 0x100_0000) by (nonlinear_arith)
            requires
                rounded <= 0x2_0000_0000_0000_0000,
                scale <= 0x100_0000,
        ;
        assert(0 <= rounded * scale) by (nonlinear_arith)
            requires
                0 <= rounded,
                0 <= scale,
        ;
    }
    let product: u128 = to_single(rounded * scale as u128);
    let size: u128 = (product + 0x40_0000) / 0x80_0000;
    if size < 2 {
        2
    } else if size > usize::MAX as u128 {
        usize::MAX
    } else {
        size as usize
    }
}

/// One level of the conventional ramp: the size as a multiple of the body's in
/// units of `2^-23`, and the space above and below in twips.
pub struct RampLevel {
    pub scale: nat,
    pub before: i32,
    pub after: i32,
    pub italic: bool,
}

/// The conventional six-level ramp: 1.8, 1.5, 1.25, 1.1 and twice 1 times the
/// body size, in single precision. Level 6 is the one conventionally set apart
/// by slope rather than size, since it is already at body size.
pub open spec fn ramp_level(i: int) -> RampLevel {
    if i == 0 {
        RampLevel { scale: 15099494, before: 480, after: 240, italic: false }
    } else if i == 1 {
        RampLevel { scale: 12582912, before: 360, after: 180, italic: false }
    } else if i == 2 {
        RampLevel { scale: 10485760, before: 280, after: 140, italic: false }
    } else if i == 3 {
        RampLevel { scale: 9227469, before: 240, after: 120, italic: false }
    } else {
        RampLevel { scale: 8388608, before: 240, after: 120, italic: i == 5 }
    }
}

proof fn single_scale_bounds(x: nat)
    ensures
        single_scale(x) >= 1,
        x / single_scale(x) < 0x100_0000,
        single_scale(x) > 1 ==> x / single_scale(x) >= 0x80_0000,
    decreases x,
{
    if x >= 0x100_0000 {
        single_scale_bounds(x / 2);
        let inner = single_scale(x / 2);
        vstd::arithmetic::div_mod::lemma_div_denominator(x as int, 2, inner as int);
        assert(x / (2 * inner) == (x / 2) / inner);
        if inner == 1 {
            assert((x / 2) / 1 == x / 2);
        }
    } else {
        assert(x / 1 == x);
    }
}

proof fn single_scale_grows(x: nat, y: nat)
    requires
        x <= y,
    ensures
        single_scale(x) == single_scale(y) || 2 * single_scale(x) <= single_scale(y),
    decreases y,
{
    if x >= 0x100_0000 {
        single_scale_grows(x / 2, y / 2);
    } else if y >= 0x100_0000 {
        single_scale_bounds(y / 2);
    }
}

/// What a number in single precision lies between.
proof fn single_between(x: nat)
    ensures
        ({
            let scale = single_scale(x);
            let kept = x / scale;
            &&& single(x) == kept * scale || single(x) == (kept + 1) * scale
            &&& kept * scale <= single(x) <= (kept + 1) * scale
            &&& (kept + 1) * scale == kept * scale + scale
            &&& x == kept * scale + x % scale
            &&& x % scale < scale
        }),
{
    single_scale_bounds(x);
    let scale = single_scale(x);
    let kept = x / scale;
    vstd::arithmetic::div_mod::lemma_fundamental_div_mod(x as int, scale as int);
    vstd::arithmetic::div_mod::lemma_mod_bound(x as int, scale as int);
    assert(kept * scale == scale * kept) by (nonlinear_arith);
    assert((kept + 1) * scale == kept * scale + scale) by (nonlinear_arith);
}

/// Single precision keeps the order of numbers.
proof fn single_keeps_order(x: nat, y: nat)
    requires
        x <= y,
    ensures
        single(x) <= single(y),
{
    single_between(x);
    single_between(y);
    single_scale_bounds(x);
    single_scale_bounds(y);
    single_scale_grows(x, y);
    let s = single_scale(x);
    let t = single_scale(y);
    let k = x / s;
    let l = y / t;
    if s == t {
        if k == l {
        } else if k < l {
            assert((k + 1) * s <= l * s) by (nonlinear_arith)
                requires
                    k < l,
            ;
        } else {
            assert((l + 1) * s <= k * s) by (nonlinear_arith)
                requires
                    l < k,
            ;
        }
    } else {
        assert((k + 1) * s <= l * t) by (nonlinear_arith)
            requires
                k < 0x100_0000,
                l >= 0x80_0000,
                2 * s <= t,
        ;
    }
}

/// A larger factor gives no smaller size.
proof fn scaled_size_keeps_order(body: nat, a: nat, b: nat)
    requires
        a <= b,
    ensures
        scaled_size(body, a) <= scaled_size(body, b),
{
    let x = single(body);
    assert(x * a <= x * b) by (nonlinear_arith)
        requires
            a <= b,
    ;
    single_keeps_order(x * a, x * b);
    vstd::arithmetic::div_mod::lemma_div_is_ordered(
        (single(x * a) + 0x40_0000) as int,
        (single(x * b) + 0x40_0000) as int,
        0x80_0000,
    );
}

/// No level of the conventional ramp is larger than the one above it, nor opens with
/// more space.
pub proof fn ramp_only_falls(body: nat, i: int)
    requires
        0 <= i < 5,
    ensures
        scaled_size(body, ramp_level(i + 1).scale) <= scaled_size(body, ramp_level(i).scale),
        ramp_level(i + 1).before <= ramp_level(i).before,
        0 < ramp_level(i).before,
{
    scaled_size_keeps_order(body, ramp_level(i + 1).scale, ramp_level(i).scale);
}

/// A number in single precision is within one part in 2^24 of the number.
proof fn single_is_near(x: nat)
    ensures
        0x100_0000 * single(x) <= 0x100_0000 * x + x,
        0x100_0000 * x <= 0x100_0000 * single(x) + x,
{
    single_between(x);
    single_scale_bounds(x);
    let scale = single_scale(x);
    let kept = x / scale;
    let rest = x % scale;
    if scale > 1 {
        assert(0x80_0000 * scale <= kept * scale) by (nonlinear_arith)
            requires
                kept >= 0x80_0000,
        ;
    }
}

proof fn single_scale_divides(x: nat, k: nat)
    requires
        x < 0x100_0000 * pow2(k),
    ensures
        pow2(k) % single_scale(x) == 0,
    decreases k,
{
    lemma_pow2_pos(k);
    if x >= 0x100_0000 {
        if k == 0 {
            lemma2_to64();
        } else {
            lemma_pow2_unfold(k);
            let half = pow2((k - 1) as nat);
            single_scale_divides(x / 2, (k - 1) as nat);
            single_scale_bounds(x / 2);
            let inner = single_scale(x / 2);
            vstd::arithmetic::div_mod::lemma_fundamental_div_mod(half as int, inner as int);
            let m = half / inner;
            assert(2 * half == (2 * inner) * m) by (nonlinear_arith)
                requires
                    half == inner * m,
            ;
            vstd::arithmetic::div_mod::lemma_mod_multiples_basic(m as int, (2 * inner) as int);
            assert((2 * inner) * m == m * (2 * inner)) by (nonlinear_arith);
        }
    }
}

/// Half of a whole number is exact in single precision where it is not too large.
proof fn halves_are_exact(m: nat)
    requires
        m < 0x100_0000,
    ensures
        single(m * 0x40_0000) == m * 0x40_0000,
{
    let x = m * 0x40_0000;
    lemma2_to64();
    single_scale_divides(x, 22);
    single_scale_bounds(x);
    single_between(x);
    let scale = single_scale(x);
    let q = 0x40_0000nat / scale;
    vstd::arithmetic::div_mod::lemma_fundamental_div_mod(0x40_0000, scale as int);
    assert(x == (m * q) * scale) by (nonlinear_arith)
        requires
            x == m * 0x40_0000,
            0x40_0000 == scale * q,
    ;
    vstd::arithmetic::div_mod::lemma_mod_multiples_basic((m * q) as int, scale as int);
    assert((m * q) * scale % scale == 0);
    assert(x % scale == 0);
    assert(2 * 0 != scale);
}

/// The size that a factor gives lies within half a size of what single precision makes of
/// the product, and that within one part in 2^24 of the product.
proof fn scaled_size_is_near(body: nat, scale: nat)
    requires
        2 <= body <= 0x4_0000,
        0x80_0000 <= scale <= 0x100_0000,
    ensures
        ({
            let x = body * scale;
            let p = single(x);
            let s = scaled_size(body, scale);
            &&& s * 0x80_0000 <= p + 0x40_0000 < (s + 1) * 0x80_0000
            &&& 0x100_0000 * p <= 0x100_0000 * x + x
            &&& 0x100_0000 * x <= 0x100_0000 * p + x
        }),
{
    assert(single(body) == body) by {
        assert(single_scale(body) == 1);
        assert(body / 1 == body);
        assert(body % 1 == 0);
        assert(body * 1 == body);
    }
    let x = body * scale;
    let p = single(x);
    single_is_near(x);
    assert(0x100_0000 <= x) by (nonlinear_arith)
        requires
            x == body * scale,
            2 <= body,
            0x80_0000 <= scale,
    ;
    assert(x <= 0x400_0000_0000) by (nonlinear_arith)
        requires
            x == body * scale,
            body <= 0x4_0000,
            scale <= 0x100_0000,
    ;
    assert(p + 0x40_0000 >= 0x100_0000);
    let size = (p + 0x40_0000) / 0x80_0000;
    assert(2 <= size <= 0x10_0000);
    assert(0x10_0000 <= usize::MAX);
}

proof fn first_level_is_nearest(body: nat)
    requires
        2 <= body <= 0x4_0000,
    ensures
        -5 <= 10 * scaled_size(body, 15099494) - 18 * body <= 5,
{
    scaled_size_is_near(body, 15099494);
}

proof fn second_level_is_nearest(body: nat)
    requires
        2 <= body <= 0x4_0000,
    ensures
        0 <= 2 * scaled_size(body, 12582912) - 3 * body <= 1,
{
    scaled_size_is_near(body, 12582912);
    halves_are_exact(3 * body);
    assert(body * 12582912 == 3 * body * 0x40_0000);
}

proof fn third_level_is_nearest(body: nat)
    requires
        2 <= body <= 0x4_0000,
    ensures
        -1 <= 4 * scaled_size(body, 10485760) - 5 * body <= 2,
{
    scaled_size_is_near(body, 10485760);
    if body % 2 == 0 {
        let t = 5 * (body / 2);
        halves_are_exact(t);
        assert(body * 10485760 == t * 0x40_0000);
    }
}

proof fn fourth_level_is_nearest(body: nat)
    requires
        2 <= body <= 0x4_0000,
    ensures
        -4 <= 10 * scaled_size(body, 9227469) - 11 * body <= 5,
{
    scaled_size_is_near(body, 9227469);
    if body % 5 == 0 {
        let t = 11 * (body / 5);
        halves_are_exact(t);
        assert(t * 0x40_0000 <= body * 9227469);
        single_keeps_order(t * 0x40_0000, body * 9227469);
    }
}

proof fn last_levels_are_the_body(body: nat)
    requires
        2 <= body <= 0x4_0000,
    ensures
        scaled_size(body, 8388608) == body,
{
    scaled_size_is_near(body, 8388608);
    halves_are_exact(2 * body);
    assert(body * 8388608 == 2 * body * 0x40_0000);
}

/// The sizes of the conventional ramp are 1.8, 1.5, 1.25, 1.1 and twice 1 times the size of
/// the body, each to the nearest whole size and from the middle up.
pub proof fn ramp_is_multiples_of_the_body(body: nat)
    requires
        2 <= body <= 0x4_0000,
    ensures
        -5 <= 10 * scaled_size(body, ramp_level(0).scale) - 18 * body <= 5,
        0 <= 2 * scaled_size(body, ramp_level(1).scale) - 3 * body <= 1,
        -1 <= 4 * scaled_size(body, ramp_level(2).scale) - 5 * body <= 2,
        -4 <= 10 * scaled_size(body, ramp_level(3).scale) - 11 * body <= 5,
        scaled_size(body, ramp_level(4).scale) == body,
        scaled_size(body, ramp_level(5).scale) == body,
{
    first_level_is_nearest(body);
    second_level_is_nearest(body);
    third_level_is_nearest(body);
    fourth_level_is_nearest(body);
    last_levels_are_the_body(body);
}

/// The spaces of the conventional ramp, in twips: twice as much above a heading as below,
/// and less for each of the first four levels; the last level alone is in italics.
pub proof fn ramp_opens_with_twice_the_space(i: int)
    requires
        0 <= i < 6,
    ensures
        ramp_level(i).before == 2 * ramp_level(i).after,
        ramp_level(0).before == 480,
        ramp_level(1).before == 360,
        ramp_level(2).before == 280,
        i >= 3 ==> ramp_level(i).before == 240,
        ramp_level(i).italic <==> i == 5,
{
}

} // verus!
