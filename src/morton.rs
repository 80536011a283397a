use vstd::prelude::*;

verus! {

/// Bit `i` of `v` (counting from the least significant bit).
pub open spec fn bit(v: u64, i: u64) -> bool {
    (v >> i) & 1u64 == 1u64
}

/// Number of bits that each axis contributes to a code.
pub const GRID_BITS: u32 = 26;

/// Number of grid cells along each axis: two to the power `GRID_BITS`.
pub const GRID_SIZE: u32 = 0x400_0000;

/// Codes built from in-grid indices lie below this bound: two to the power
/// `2 * GRID_BITS`.
pub const CODE_LIMIT: u64 = 0x10_0000_0000_0000;

/// `r` holds the bits of `v` at its even positions and zeros at its odd ones.
pub open spec fn is_spread_of(r: u64, v: u32) -> bool {
    forall|i: u64| i < 64 ==> #[trigger] bit(r, i) == (i % 2 == 0 && bit(v as u64, i / 2))
}

proof fn lemma_spread_steps(v: u64, r: u64)
    by (bit_vector)
    requires
        v < 0x1_0000_0000u64,
        r == ({
            let a = (v | (v << 16u64)) & 0x0000FFFF0000FFFFu64;
            let b = (a | (a << 8u64)) & 0x00FF00FF00FF00FFu64;
            let c = (b | (b << 4u64)) & 0x0F0F0F0F0F0F0F0Fu64;
            let d = (c | (c << 2u64)) & 0x3333333333333333u64;
            (d | (d << 1u64)) & 0x5555555555555555u64
        }),
    ensures
        forall|i: u64| i < 64 ==> #[trigger] bit(r, i) == (i % 2 == 0 && bit(v, i / 2)),
{
}

/// Moves bit `i` of `v` to bit `2 * i` of the result, leaving the odd bits clear.
pub fn spread_int32_to_int64(v: u32) -> (r: u64)
    ensures
        is_spread_of(r, v),
{
    let mut result: u64 = v as u64;
    result = (result | (result << 16u64)) & 0x0000FFFF0000FFFFu64;
    result = (result | (result << 8u64)) & 0x00FF00FF00FF00FFu64;
    result = (result | (result << 4u64)) & 0x0F0F0F0F0F0F0F0Fu64;
    result = (result | (result << 2u64)) & 0x3333333333333333u64;
    result = (result | (result << 1u64)) & 0x5555555555555555u64;
    proof {
        lemma_spread_steps(v as u64, result);
    }
    result
}

/// `r` holds, from its lowest bit up, the bits at the even positions of `v`.
pub open spec fn is_compaction_of(r: u32, v: u64) -> bool {
    forall|i: u64| i < 32 ==> #[trigger] bit(r as u64, i) == bit(v, (2 * i) as u64)
}

/// The even bits of `code` are those of `x`, its odd bits those of `y`.
pub open spec fn is_interleaving(code: u64, x: u32, y: u32) -> bool {
    forall|i: u64|
        i < 64 ==> #[trigger] bit(code, i) == if i % 2 == 0 {
            bit(x as u64, i / 2)
        } else {
            bit(y as u64, i / 2)
        }
}

proof fn lemma_top_bit(a: u64, b: u64)
    by (bit_vector)
    requires
        bit(a, 63) == bit(b, 63),
    ensures
        a >> 63u64 == b >> 63u64,
{
}

proof fn lemma_shift_step(a: u64, b: u64, k: u64)
    by (bit_vector)
    requires
        k < 63,
        a >> ((k + 1) as u64) == b >> ((k + 1) as u64),
        bit(a, k) == bit(b, k),
    ensures
        a >> k == b >> k,
{
}

proof fn lemma_shift_zero(a: u64)
    by (bit_vector)
    ensures
        a >> 0u64 == a,
{
}

proof fn lemma_high_bits_determine(a: u64, b: u64, k: u64)
    requires
        k < 64,
        forall|i: u64| k <= i < 64 ==> #[trigger] bit(a, i) == bit(b, i),
    ensures
        a >> k == b >> k,
    decreases 63 - k,
{
    assert(bit(a, k) == bit(b, k));
    if k == 63 {
        lemma_top_bit(a, b);
    } else {
        lemma_high_bits_determine(a, b, (k + 1) as u64);
        lemma_shift_step(a, b, k);
    }
}

/// Two words that agree on every bit are equal.
pub proof fn lemma_bits_determine(a: u64, b: u64)
    requires
        forall|i: u64| i < 64 ==> #[trigger] bit(a, i) == bit(b, i),
    ensures
        a == b,
{
    lemma_high_bits_determine(a, b, 0);
    lemma_shift_zero(a);
    lemma_shift_zero(b);
}

/// A 32-bit value has no bit set at position 32 or above.
proof fn lemma_narrow_high_bits(v: u32)
    by (bit_vector)
    ensures
        forall|i: u64| 32 <= i < 64 ==> !#[trigger] bit(v as u64, i),
{
}

/// A value below the grid size has no bit set at position `GRID_BITS` or above.
proof fn lemma_grid_high_bits(v: u32)
    by (bit_vector)
    requires
        v < 0x400_0000u32,
    ensures
        forall|i: u64| 26 <= i < 64 ==> !#[trigger] bit(v as u64, i),
{
}

proof fn lemma_no_bits_is_zero(i: u64)
    by (bit_vector)
    ensures
        !bit(0u64, i),
{
}

proof fn lemma_small_from_shift(r: u64)
    by (bit_vector)
    requires
        r >> 52u64 == 0u64 >> 52u64,
    ensures
        r < 0x10_0000_0000_0000u64,
{
}

proof fn lemma_code_high_bits(code: u64)
    by (bit_vector)
    requires
        code < 0x10_0000_0000_0000u64,
    ensures
        forall|i: u64| 52 <= i < 64 ==> !#[trigger] bit(code, i),
{
}

proof fn lemma_grid_from_shift(v: u64)
    by (bit_vector)
    requires
        v >> 26u64 == 0u64 >> 26u64,
    ensures
        v < 0x400_0000u64,
{
}

/// Bit `j` of `c >> 1` is bit `j + 1` of `c`.
proof fn lemma_bit_of_shift_right(c: u64, j: u64)
    by (bit_vector)
    requires
        j < 63,
    ensures
        bit(c >> 1u64, j) == bit(c, (j + 1) as u64),
{
}

/// Bit `i` of `xs | (ys << 1)` is bit `i` of `xs` or bit `i - 1` of `ys`.
proof fn lemma_bit_of_or_shifted(xs: u64, ys: u64, i: u64)
    by (bit_vector)
    requires
        i < 64,
    ensures
        bit(xs | (ys << 1u64), i) == (bit(xs, i) || (i > 0 && bit(ys, (i - 1) as u64))),
{
}

proof fn lemma_compact_steps(v: u64, r: u64)
    by (bit_vector)
    requires
        r == ({
            let a = v & 0x5555555555555555u64;
            let b = (a | (a >> 1u64)) & 0x3333333333333333u64;
            let c = (b | (b >> 2u64)) & 0x0F0F0F0F0F0F0F0Fu64;
            let d = (c | (c >> 4u64)) & 0x00FF00FF00FF00FFu64;
            let e = (d | (d >> 8u64)) & 0x0000FFFF0000FFFFu64;
            (e | (e >> 16u64)) & 0x00000000FFFFFFFFu64
        }),
    ensures
        r < 0x1_0000_0000u64,
        forall|i: u64| i < 32 ==> #[trigger] bit(r, i) == bit(v, (2 * i) as u64),
{
}

/// Gathers the bits at the even positions of `v` (0, 2, 4, ...) into the bits
/// 0, 1, 2, ... of the result; the odd bits of `v` are dropped.
pub fn compact_int64_to_int32(v: u64) -> (r: u32)
    ensures
        is_compaction_of(r, v),
{
    let mut result: u64 = v & 0x5555555555555555u64;
    result = (result | (result >> 1u64)) & 0x3333333333333333u64;
    result = (result | (result >> 2u64)) & 0x0F0F0F0F0F0F0F0Fu64;
    result = (result | (result >> 4u64)) & 0x00FF00FF00FF00FFu64;
    result = (result | (result >> 8u64)) & 0x0000FFFF0000FFFFu64;
    result = (result | (result >> 16u64)) & 0x00000000FFFFFFFFu64;
    proof {
        lemma_compact_steps(v, result);
    }
    result as u32
}

/// Interleaves the bits of `x` and `y`: bit `i` of `x` goes to bit `2 * i` of
/// the code, bit `i` of `y` to bit `2 * i + 1`.
pub fn interleave(x: u32, y: u32) -> (r: u64)
    ensures
        is_interleaving(r, x, y),
        (x < GRID_SIZE && y < GRID_SIZE) <==> r < CODE_LIMIT,
{
    let x_spread = spread_int32_to_int64(x);
    let y_spread = spread_int32_to_int64(y);
    let y_shifted = y_spread << 1u64;
    let r = x_spread | y_shifted;
    assert forall|i: u64| i < 64 implies #[trigger] bit(r, i) == if i % 2 == 0 {
        bit(x as u64, i / 2)
    } else {
        bit(y as u64, i / 2)
    } by {
        lemma_bit_of_or_shifted(x_spread, y_spread, i);
        assert(bit(x_spread, i) == (i % 2 == 0 && bit(x as u64, i / 2)));
        if i > 0 {
            let j = (i - 1) as u64;
            assert(bit(y_spread, j) == (j % 2 == 0 && bit(y as u64, j / 2)));
        }
    }
    proof {
        if x < GRID_SIZE && y < GRID_SIZE {
            lemma_grid_pair_below_limit(r, x, y);
        }
        if r < CODE_LIMIT {
            lemma_code_below_limit(r, x, y);
        }
    }
    r
}

/// Two values inside the grid interleave to a code below `CODE_LIMIT`: its
/// bits `2 * GRID_BITS` and above are clear.
pub proof fn lemma_grid_pair_below_limit(code: u64, x: u32, y: u32)
    requires
        is_interleaving(code, x, y),
        x < GRID_SIZE,
        y < GRID_SIZE,
    ensures
        code < CODE_LIMIT,
{
    lemma_grid_high_bits(x);
    lemma_grid_high_bits(y);
    assert forall|i: u64| 52 <= i < 64 implies #[trigger] bit(code, i) == bit(0u64, i) by {
        lemma_no_bits_is_zero(i);
    }
    lemma_high_bits_determine(code, 0u64, 52);
    lemma_small_from_shift(code);
}

/// A code below `CODE_LIMIT` interleaves two values inside the grid.
pub proof fn lemma_code_below_limit(code: u64, x: u32, y: u32)
    requires
        is_interleaving(code, x, y),
        code < CODE_LIMIT,
    ensures
        x < GRID_SIZE,
        y < GRID_SIZE,
{
    lemma_code_high_bits(code);
    lemma_narrow_high_bits(x);
    lemma_narrow_high_bits(y);
    assert forall|i: u64| 26 <= i < 64 implies #[trigger] bit(x as u64, i) == bit(0u64, i) by {
        lemma_no_bits_is_zero(i);
        if i < 32 {
            assert(bit(code, (2 * i) as u64) == bit(x as u64, i));
        }
    }
    assert forall|i: u64| 26 <= i < 64 implies #[trigger] bit(y as u64, i) == bit(0u64, i) by {
        lemma_no_bits_is_zero(i);
        if i < 32 {
            assert(bit(code, (2 * i + 1) as u64) == bit(y as u64, i));
        }
    }
    lemma_high_bits_determine(x as u64, 0u64, 26);
    lemma_high_bits_determine(y as u64, 0u64, 26);
    lemma_grid_from_shift(x as u64);
    lemma_grid_from_shift(y as u64);
}

/// The pair of values that a code interleaves is unique.
pub proof fn lemma_interleaving_determines_pair(code: u64, x1: u32, y1: u32, x2: u32, y2: u32)
    requires
        is_interleaving(code, x1, y1),
        is_interleaving(code, x2, y2),
    ensures
        x1 == x2,
        y1 == y2,
{
    lemma_narrow_high_bits(x1);
    lemma_narrow_high_bits(x2);
    lemma_narrow_high_bits(y1);
    lemma_narrow_high_bits(y2);
    assert forall|i: u64| i < 64 implies #[trigger] bit(x1 as u64, i) == bit(x2 as u64, i) by {
        if i < 32 {
            assert(bit(code, (2 * i) as u64) == bit(x1 as u64, i));
            assert(bit(code, (2 * i) as u64) == bit(x2 as u64, i));
        }
    }
    assert forall|i: u64| i < 64 implies #[trigger] bit(y1 as u64, i) == bit(y2 as u64, i) by {
        if i < 32 {
            assert(bit(code, (2 * i + 1) as u64) == bit(y1 as u64, i));
            assert(bit(code, (2 * i + 1) as u64) == bit(y2 as u64, i));
        }
    }
    lemma_bits_determine(x1 as u64, x2 as u64);
    lemma_bits_determine(y1 as u64, y2 as u64);
}

/// A pair of values has exactly one interleaved code.
pub proof fn lemma_interleaving_determines_code(code1: u64, code2: u64, x: u32, y: u32)
    requires
        is_interleaving(code1, x, y),
        is_interleaving(code2, x, y),
    ensures
        code1 == code2,
{
    assert forall|i: u64| i < 64 implies #[trigger] bit(code1, i) == bit(code2, i) by {}
    lemma_bits_determine(code1, code2);
}

/// Compaction inverts interleaving: the even bits of `interleave(x, y)` give
/// back `x`, and the even bits of that code shifted right by one give back `y`.
pub proof fn lemma_compact_inverts_interleave(x: u32, y: u32, code: u64, a: u32, b: u32)
    requires
        is_interleaving(code, x, y),
        is_compaction_of(a, code),
        is_compaction_of(b, code >> 1u64),
    ensures
        a == x,
        b == y,
{
    lemma_compaction_interleaves(code, a, b);
    lemma_interleaving_determines_pair(code, x, y, a, b);
}

/// Compaction inverts spreading: the even bits of `spread(v)` give back `v`.
pub proof fn lemma_compact_inverts_spread(v: u32, spread: u64, back: u32)
    requires
        is_spread_of(spread, v),
        is_compaction_of(back, spread),
    ensures
        back == v,
{
    lemma_narrow_high_bits(v);
    lemma_narrow_high_bits(back);
    assert forall|i: u64| i < 64 implies #[trigger] bit(back as u64, i) == bit(v as u64, i) by {
        if i < 32 {
            let k = (2 * i) as u64;
            assert(bit(spread, k) == (k % 2 == 0 && bit(v as u64, k / 2)));
        }
    }
    lemma_bits_determine(back as u64, v as u64);
}

/// Every code is the interleaving of the compactions of itself and of itself
/// shifted right by one.
pub proof fn lemma_compaction_interleaves(code: u64, a: u32, b: u32)
    requires
        is_compaction_of(a, code),
        is_compaction_of(b, code >> 1u64),
    ensures
        is_interleaving(code, a, b),
{
    assert forall|i: u64| i < 64 implies #[trigger] bit(code, i) == if i % 2 == 0 {
        bit(a as u64, i / 2)
    } else {
        bit(b as u64, i / 2)
    } by {
        let j = i / 2;
        if i % 2 == 0 {
            assert(bit(a as u64, j) == bit(code, (2 * j) as u64));
        } else {
            assert(bit(b as u64, j) == bit(code >> 1u64, (2 * j) as u64));
            lemma_bit_of_shift_right(code, (2 * j) as u64);
        }
    }
}

} // verus!
