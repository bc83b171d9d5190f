//! What the passes of a transform compute, term by term.
//!
//! Every value that a pass writes is a sum of input values, each multiplied
//! by a power of the principal root of unity `w` of the grid's order. This
//! module counts, for every cell, how often each term `input(source) * w^e`
//! occurs in the value written for the cell, and shows that the passes
//! taken together write the inverse discrete Fourier sum of their input,
//! with the origin of the frequencies at the centre of the grid.

use vstd::prelude::*;
use vstd::arithmetic::power2::{pow2, lemma_pow2_unfold, lemma_pow2_pos, lemma_pow2_adds, lemma2_to64};
use vstd::arithmetic::div_mod::{
    lemma_fundamental_div_mod,
    lemma_fundamental_div_mod_converse,
    lemma_mod_equivalence,
    lemma_small_mod,
    lemma_mod_multiples_vanish,
    lemma_div_denominator,
    lemma_breakdown,
    lemma_add_mod_noop,
    lemma_mod_bound,
};
use crate::fft::{Direction, PassKind, kind_at, tap_at, sign_at, pass_count};
use crate::grid::{
    Cell,
    GridSize,
    MAX_BITS,
    MAX_GRID,
    on_grid,
    wave_number,
    partner_of,
    partner_at,
    lemma_grid_bound,
    lemma_partner_involution,
    lemma_partner_is_opposite,
};
use crate::reversal::{reverse_bits, lemma_reverse_bound};
use crate::twiddle::{
    span,
    block_size,
    top_wing,
    wing_a,
    wing_b,
    twiddle_exponent,
    lemma_blocks_tile,
    lemma_wings,
    lemma_exponent,
    lemma_entry_on_grid,
};

verus! {

/// The power of `w` that, multiplied by `w^k`, gives `w^e`, on a grid of
/// order `n`.
pub open spec fn turned_back(n: nat, e: nat, k: nat) -> nat {
    ((e - k) % (n as int)) as nat
}

/// The power of `w` that stands for the sign correction at a cell: none
/// where the sign is plus, half a turn where it is minus, as `w^(n/2)` is
/// minus one.
pub open spec fn half_turn(n: nat, cell: Cell) -> nat {
    if sign_at(cell) == 1 {
        0
    } else {
        n / 2
    }
}

/// How often the term `input(source) * w^exponent` occurs in the value
/// that is written for `cell` by the first `passes` passes of a transform
/// on a grid of `2^bits` cells a side.
///
/// Before any pass a cell holds its own input. A butterfly pass writes the
/// value at its first source plus the value at its second source turned by
/// the table's power of `w`. The sign correction turns by half a turn
/// where the sign is minus.
pub open spec fn weight(bits: nat, passes: nat, cell: Cell, source: Cell, exponent: nat) -> nat
    decreases passes,
{
    if passes == 0 {
        if cell == source && exponent == 0 {
            1
        } else {
            0
        }
    } else {
        let before = (passes - 1) as nat;
        match kind_at(bits, before) {
            PassKind::Butterfly { direction, stage } => {
                let tap = tap_at(bits, direction, stage as nat, cell);
                weight(bits, before, tap.a, source, exponent) + weight(
                    bits,
                    before,
                    tap.b,
                    source,
                    turned_back(pow2(bits), exponent, tap.exponent as nat),
                )
            },
            PassKind::Inversion => weight(
                bits,
                before,
                cell,
                source,
                turned_back(pow2(bits), exponent, half_turn(pow2(bits), cell)),
            ),
        }
    }
}

/// The power of `w` by which the inverse Fourier sum at `cell` turns the
/// input at `source`.
pub open spec fn fourier_phase(n: nat, cell: Cell, source: Cell) -> nat {
    ((cell.x * source.x + cell.y * source.y) % (n as int)) as nat
}

/// The power of `w` by which the inverse Fourier sum at `cell` turns the
/// input at `source` when the frequencies are counted from the centre of
/// the grid: the input at `source` stands for the frequency
/// `source + n / 2`, taken modulo `n`.
pub open spec fn centred_phase(n: nat, cell: Cell, source: Cell) -> nat {
    ((cell.x * source.x + cell.y * source.y + (n / 2) * (cell.x + cell.y)) % (n as int)) as nat
}

/// The power of the root of unity by which the transform on a grid of the
/// given size turns the input at `source` in the value that it writes for
/// `cell`.
pub fn phase(size: GridSize, cell: Cell, source: Cell) -> (e: u32)
    requires
        on_grid(size.spec_n(), cell),
        on_grid(size.spec_n(), source),
    ensures
        e == centred_phase(size.spec_n(), cell, source),
        e < size.spec_n(),
{
    let n = size.n() as u64;
    let x = cell.x as u64;
    let y = cell.y as u64;
    let sx = source.x as u64;
    let sy = source.y as u64;
    proof {
        assert(x * sx <= MAX_GRID * MAX_GRID) by (nonlinear_arith)
            requires
                x <= MAX_GRID,
                sx <= MAX_GRID,
        ;
        assert(y * sy <= MAX_GRID * MAX_GRID) by (nonlinear_arith)
            requires
                y <= MAX_GRID,
                sy <= MAX_GRID,
        ;
        assert((n / 2) * (x + y) <= MAX_GRID * (2 * MAX_GRID)) by (nonlinear_arith)
            requires
                n / 2 <= MAX_GRID,
                x + y <= 2 * MAX_GRID,
        ;
    }
    ((x * sx + y * sy + (n / 2) * (x + y)) % n) as u32
}

/// How often the term `input(source) * w^exponent` occurs in the value at
/// `row` after `stages` butterfly stages along an axis, when the values
/// before the first stage are the inputs in bit-reversed order, each
/// turned by `w^offset`.
///
/// With `stride = 2^(bits - stages)`, the value at `row` sums the inputs
/// whose position is congruent modulo `stride` to the reversal of
/// `row / span(stages)`; the input at position `stride * t + c` is turned
/// by `stride * t * (row % span(stages))`. Each such term occurs once: the
/// stages so far have transformed every residue class on its own.
pub open spec fn partial(bits: nat, stages: nat, offset: nat, row: nat, source: nat, exponent: nat) -> nat {
    let rest = (bits - stages) as nat;
    let stride = pow2(rest);
    if source % stride == reverse_bits(row / span(stages), rest) && exponent == (offset + stride * (row
        % span(stages)) * (source / stride)) % pow2(bits) {
        1
    } else {
        0
    }
}

/// Turning back by `k` undoes turning on by `k`.
proof fn lemma_turn(n: int, e: int, k: int, x: int)
    requires
        0 < n,
        0 <= e < n,
    ensures
        ((e - k) % n == x % n) <==> (e == (x + k) % n),
{
    lemma_mod_equivalence(e - k, x, n);
    lemma_mod_equivalence(e, x + k, n);
    lemma_small_mod(e as nat, n as nat);
}

/// A power of `w` that is turned back is again below the order.
proof fn lemma_turned_back_bound(n: nat, e: nat, k: nat)
    requires
        0 < n,
    ensures
        turned_back(n, e, k) < n,
{
    lemma_mod_bound(e - k, n as int);
}

/// The place of a butterfly's two wings in the blocks of its stage: with
/// `row = block_size * q + r`, the upper wing is `span * 2q + r % span` and
/// the lower wing is `span * (2q + 1) + r % span`.
proof fn lemma_wing_parts(bits: nat, stage: nat, row: nat)
    requires
        stage < bits,
        row < pow2(bits),
    ensures
        wing_a(stage, row) / span(stage) == 2 * (row / block_size(stage)),
        wing_b(stage, row) / span(stage) == 2 * (row / block_size(stage)) + 1,
        wing_a(stage, row) % span(stage) == wing_b(stage, row) % span(stage),
        top_wing(stage, row) ==> row % block_size(stage) == wing_a(stage, row) % span(stage),
        !top_wing(stage, row) ==> row % block_size(stage) == wing_a(stage, row) % span(stage) + span(
            stage,
        ),
        row / block_size(stage) < pow2((bits - stage - 1) as nat),
{
    let s = span(stage) as int;
    let b = block_size(stage) as int;
    let q = row as int / b;
    let r = row as int % b;
    lemma_blocks_tile(bits, stage);
    lemma_wings(bits, stage, row);
    lemma_pow2_pos(stage);
    lemma_fundamental_div_mod(row as int, b);
    assert(0 <= r < b);
    let blocks = pow2((bits - stage - 1) as nat) as int;
    assert(q < blocks) by (nonlinear_arith)
        requires
            b * q + r < b * blocks,
            0 <= r,
            b > 0,
    ;
    assert(q >= 0) by (nonlinear_arith)
        requires
            b * q + r >= 0,
            r < b,
            b > 0,
    ;
    let low = if r < s {
        r
    } else {
        r - s
    };
    let a = wing_a(stage, row) as int;
    let bb = wing_b(stage, row) as int;
    assert(a == (2 * q) * s + low) by (nonlinear_arith)
        requires
            a == b * q + low,
            b == 2 * s,
    ;
    assert(bb == (2 * q + 1) * s + low) by (nonlinear_arith)
        requires
            bb == b * q + low + s,
            b == 2 * s,
    ;
    lemma_fundamental_div_mod_converse(a, s, 2 * q, low);
    lemma_fundamental_div_mod_converse(bb, s, 2 * q + 1, low);
}

/// One stage more: the value at `row` after `stage + 1` stages is the
/// value at the upper wing after `stage` stages plus the value at the
/// lower wing turned by the row's power of `w`, term by term.
pub proof fn lemma_axis_step(bits: nat, stage: nat, offset: nat, row: nat, source: nat, exponent: nat)
    requires
        stage < bits,
        row < pow2(bits),
        source < pow2(bits),
        exponent < pow2(bits),
    ensures
        partial(bits, stage + 1, offset, row, source, exponent) == partial(
            bits,
            stage,
            offset,
            wing_a(stage, row),
            source,
            exponent,
        ) + partial(
            bits,
            stage,
            offset,
            wing_b(stage, row),
            source,
            turned_back(pow2(bits), exponent, twiddle_exponent(pow2(bits), stage, row)),
        ),
{
    let n = pow2(bits) as int;
    let s = span(stage) as int;
    let b = block_size(stage) as int;
    let rest = (bits - stage) as nat;
    let m = pow2(rest) as int;
    let half = pow2((rest - 1) as nat) as int;
    lemma_pow2_unfold(rest);
    lemma_pow2_unfold(stage + 1);
    lemma_pow2_adds(stage, rest);
    lemma_pow2_pos(stage);
    lemma_pow2_pos((rest - 1) as nat);
    lemma_pow2_pos(bits);
    lemma_blocks_tile(bits, stage);
    assert(m == 2 * half);
    assert(n == s * m);
    assert(b == span(stage + 1));
    // the row and its wings
    let q = row as int / b;
    let r1 = row as int % b;
    let wa = wing_a(stage, row);
    let wb = wing_b(stage, row);
    let r = wa as int % s;
    lemma_wing_parts(bits, stage, row);
    lemma_wings(bits, stage, row);
    let delta: int = if top_wing(stage, row) {
        0
    } else {
        1
    };
    assert(r1 == r + s * delta) by (nonlinear_arith)
        requires
            delta == 0 ==> r1 == r,
            delta == 1 ==> r1 == r + s,
            delta == 0 || delta == 1,
    ;
    let k = twiddle_exponent(pow2(bits), stage, row) as int;
    lemma_exponent(bits, stage, row);
    assert(k == r1 * half);
    // the residue that the row selects
    let c = reverse_bits(q as nat, (rest - 1) as nat) as int;
    lemma_reverse_bound(q as nat, (rest - 1) as nat);
    assert(reverse_bits((2 * q) as nat, rest) == c) by {
        assert(((2 * q) as nat) % 2 == 0);
        assert(((2 * q) as nat) / 2 == q as nat);
        assert(0 * pow2((rest - 1) as nat) == 0) by (nonlinear_arith);
    }
    assert(reverse_bits((2 * q + 1) as nat, rest) == half + c) by {
        assert(((2 * q + 1) as nat) % 2 == 1);
        assert(((2 * q + 1) as nat) / 2 == q as nat);
        assert(1 * pow2((rest - 1) as nat) == pow2((rest - 1) as nat)) by (nonlinear_arith);
    }
    // the source, digit by digit
    let t1 = source as int / half;
    let u = source as int % half;
    let t = t1 / 2;
    let d = t1 % 2;
    lemma_fundamental_div_mod(source as int, half);
    lemma_div_denominator(source as int, half, 2);
    lemma_breakdown(source as int, half, 2);
    assert(half * 2 == m);
    assert(source as int / m == t);
    assert(source as int % m == half * d + u);
    assert(0 <= u < half);
    assert(d == 0 ==> half * d == 0) by (nonlinear_arith);
    assert(d == 1 ==> half * d == half) by (nonlinear_arith);
    assert(t1 == 2 * t + d);
    // the three exponents
    let x = offset + m * r * t;
    assert(half * r1 * t1 == m * r * t + n * (delta * t) + k * d) by {
        assert(half * r1 == k) by (nonlinear_arith)
            requires
                k == r1 * half,
        ;
        assert(k * t1 == (2 * k) * t + k * d) by (nonlinear_arith)
            requires
                t1 == 2 * t + d,
        ;
        assert(2 * k == m * r + n * delta) by (nonlinear_arith)
            requires
                k == (r + s * delta) * half,
                m == 2 * half,
                n == s * m,
        ;
        assert((m * r + n * delta) * t == m * r * t + n * (delta * t)) by (nonlinear_arith);
    }
    lemma_mod_multiples_vanish(delta * t, x + k * d, n);
    assert((offset + half * r1 * t1) % n == (x + k * d) % n) by {
        assert(offset + half * r1 * t1 == n * (delta * t) + (x + k * d));
    }
    lemma_turn(n, exponent as int, k, x);
    assert(d == 0 ==> k * d == 0) by (nonlinear_arith);
    assert(d == 1 ==> k * d == k) by (nonlinear_arith);
    // the three counts, unfolded
    let e2 = turned_back(pow2(bits), exponent, twiddle_exponent(pow2(bits), stage, row));
    assert(e2 as int == (exponent as int - k) % n);
    assert((bits - (stage + 1)) as nat == (rest - 1) as nat);
    assert(row / span(stage + 1) == q);
    assert(row % span(stage + 1) == r1);
    assert(partial(bits, stage + 1, offset, row, source, exponent) == if u == c && exponent as int == (
        offset + half * r1 * t1) % n {
        1nat
    } else {
        0nat
    });
    assert(partial(bits, stage, offset, wa, source, exponent) == if half * d + u == c && exponent as int
        == x % n {
        1nat
    } else {
        0nat
    });
    assert(partial(bits, stage, offset, wb, source, e2) == if half * d + u == half + c && e2 as int == x
        % n {
        1nat
    } else {
        0nat
    });
}

/// Before the first stage the value at `row` is the input at the
/// reversal of `row`, turned by `w^offset`.
pub proof fn lemma_partial_start(bits: nat, offset: nat, row: nat, source: nat, exponent: nat)
    requires
        source < pow2(bits),
    ensures
        partial(bits, 0, offset, row, source, exponent) == if source == reverse_bits(row, bits)
            && exponent == offset % pow2(bits) {
            1nat
        } else {
            0nat
        },
{
    let n = pow2(bits);
    lemma2_to64();
    lemma_small_mod(source, n);
    assert(row / 1 == row);
    assert(row % 1 == 0);
    assert(n * (row % 1) * (source / n) == 0) by (nonlinear_arith)
        requires
            row % 1 == 0,
    ;
}

/// After the last stage the value at `row` is the whole Fourier sum: every
/// input occurs once, the input at `source` turned by `row * source`.
pub proof fn lemma_partial_end(bits: nat, offset: nat, row: nat, source: nat, exponent: nat)
    requires
        row < pow2(bits),
    ensures
        partial(bits, bits, offset, row, source, exponent) == if exponent == (offset + row * source)
            % pow2(bits) {
            1nat
        } else {
            0nat
        },
{
    let n = pow2(bits);
    lemma2_to64();
    lemma_small_mod(row, n);
    assert(source % 1 == 0);
    assert(source / 1 == source);
    assert(row / n == 0) by {
        lemma_fundamental_div_mod_converse(row as int, n as int, 0, row as int);
    }
    assert(reverse_bits(0, 0) == 0);
    assert(1 * (row % n) * (source / 1) == row * source) by (nonlinear_arith)
        requires
            row % n == row,
            source / 1 == source,
    ;
}

/// After `stages` horizontal stages the value at a cell sums inputs of its
/// own row only, as `partial` says of the cell's column.
pub proof fn lemma_horizontal(bits: nat, stages: nat, cell: Cell, source: Cell, exponent: nat)
    requires
        bits <= MAX_BITS,
        1 <= stages <= bits,
        on_grid(pow2(bits), cell),
        on_grid(pow2(bits), source),
        exponent < pow2(bits),
    ensures
        weight(bits, stages, cell, source, exponent) == if source.y == cell.y {
            partial(bits, stages, 0, cell.x as nat, source.x as nat, exponent)
        } else {
            0
        },
    decreases stages,
{
    let n = pow2(bits);
    let stage = (stages - 1) as nat;
    let row = cell.x as nat;
    lemma_grid_bound(bits);
    lemma_entry_on_grid(bits, stage, row);
    lemma_wings(bits, stage, row);
    lemma_reverse_bound(wing_a(stage, row), bits);
    lemma_reverse_bound(wing_b(stage, row), bits);
    assert(kind_at(bits, stage) == PassKind::Butterfly {
        direction: Direction::Horizontal,
        stage: stage as u32,
    });
    let tap = tap_at(bits, Direction::Horizontal, stage, cell);
    let k = twiddle_exponent(n, stage, row);
    let e2 = turned_back(n, exponent, k);
    lemma_turned_back_bound(n, exponent, k);
    assert(tap.exponent as nat == k);
    assert(weight(bits, stages, cell, source, exponent) == weight(bits, stage, tap.a, source, exponent)
        + weight(bits, stage, tap.b, source, e2));
    let wa = wing_a(stage, row);
    let wb = wing_b(stage, row);
    if stage == 0 {
        assert(tap.a == Cell { x: reverse_bits(wa, bits) as u32, y: cell.y });
        assert(tap.b == Cell { x: reverse_bits(wb, bits) as u32, y: cell.y });
        lemma_partial_start(bits, 0, wa, source.x as nat, exponent);
        lemma_partial_start(bits, 0, wb, source.x as nat, e2);
        lemma_small_mod(0, n);
    } else {
        assert(tap.a == Cell { x: wa as u32, y: cell.y });
        assert(tap.b == Cell { x: wb as u32, y: cell.y });
        lemma_horizontal(bits, stage, tap.a, source, exponent);
        lemma_horizontal(bits, stage, tap.b, source, e2);
    }
    lemma_axis_step(bits, stage, 0, row, source.x as nat, exponent);
}

/// After all horizontal stages and `stages` vertical ones the value at a
/// cell sums, over the inputs that `partial` names in the cell's column
/// of rows, the whole Fourier sum of each such row.
pub proof fn lemma_vertical(bits: nat, stages: nat, cell: Cell, source: Cell, exponent: nat)
    requires
        bits <= MAX_BITS,
        1 <= stages <= bits,
        on_grid(pow2(bits), cell),
        on_grid(pow2(bits), source),
        exponent < pow2(bits),
    ensures
        weight(bits, bits + stages, cell, source, exponent) == partial(
            bits,
            stages,
            (cell.x * source.x) as nat,
            cell.y as nat,
            source.y as nat,
            exponent,
        ),
    decreases stages,
{
    let n = pow2(bits);
    let stage = (stages - 1) as nat;
    let row = cell.y as nat;
    let offset = (cell.x * source.x) as nat;
    lemma_grid_bound(bits);
    lemma_entry_on_grid(bits, stage, row);
    lemma_wings(bits, stage, row);
    lemma_reverse_bound(wing_a(stage, row), bits);
    lemma_reverse_bound(wing_b(stage, row), bits);
    assert(kind_at(bits, bits + stage) == PassKind::Butterfly {
        direction: Direction::Vertical,
        stage: stage as u32,
    });
    let tap = tap_at(bits, Direction::Vertical, stage, cell);
    let k = twiddle_exponent(n, stage, row);
    let e2 = turned_back(n, exponent, k);
    lemma_turned_back_bound(n, exponent, k);
    assert(tap.exponent as nat == k);
    assert(weight(bits, bits + stages, cell, source, exponent) == weight(
        bits,
        bits + stage,
        tap.a,
        source,
        exponent,
    ) + weight(bits, bits + stage, tap.b, source, e2));
    let wa = wing_a(stage, row);
    let wb = wing_b(stage, row);
    if stage == 0 {
        assert(tap.a == Cell { x: cell.x, y: reverse_bits(wa, bits) as u32 });
        assert(tap.b == Cell { x: cell.x, y: reverse_bits(wb, bits) as u32 });
        lemma_horizontal(bits, bits, tap.a, source, exponent);
        lemma_horizontal(bits, bits, tap.b, source, e2);
        lemma_partial_end(bits, 0, cell.x as nat, source.x as nat, exponent);
        lemma_partial_end(bits, 0, cell.x as nat, source.x as nat, e2);
        lemma_partial_start(bits, offset, wa, source.y as nat, exponent);
        lemma_partial_start(bits, offset, wb, source.y as nat, e2);
    } else {
        assert(tap.a == Cell { x: cell.x, y: wa as u32 });
        assert(tap.b == Cell { x: cell.x, y: wb as u32 });
        lemma_vertical(bits, stage, tap.a, source, exponent);
        lemma_vertical(bits, stage, tap.b, source, e2);
    }
    lemma_axis_step(bits, stage, offset, row, source.y as nat, exponent);
}

/// The butterfly passes of both axes write the two-dimensional inverse
/// Fourier sum of their input: in the value at a cell every input occurs
/// once, turned by `fourier_phase`.
pub proof fn lemma_butterflies_sum(bits: nat, cell: Cell, source: Cell, exponent: nat)
    requires
        bits <= MAX_BITS,
        on_grid(pow2(bits), cell),
        on_grid(pow2(bits), source),
        exponent < pow2(bits),
    ensures
        weight(bits, 2 * bits, cell, source, exponent) == if exponent == fourier_phase(
            pow2(bits),
            cell,
            source,
        ) {
            1nat
        } else {
            0nat
        },
{
    let n = pow2(bits);
    lemma2_to64();
    if bits == 0 {
        assert(cell == source);
        assert((cell.x * source.x + cell.y * source.y) % 1 == 0);
    } else {
        lemma_vertical(bits, bits, cell, source, exponent);
        lemma_partial_end(bits, (cell.x * source.x) as nat, cell.y as nat, source.y as nat, exponent);
    }
}

/// The sign correction by half turns: adding `n / 2` for every unit of
/// `x + y` is, modulo `n`, adding `n / 2` where `x + y` is odd.
proof fn lemma_half_turns(bits: nat, cell: Cell, base: int)
    ensures
        (base + (pow2(bits) / 2) * (cell.x + cell.y)) % (pow2(bits) as int) == (base + half_turn(
            pow2(bits),
            cell,
        )) % (pow2(bits) as int),
{
    let n = pow2(bits) as int;
    let h = n / 2;
    let sum = cell.x + cell.y;
    let pairs = sum / 2;
    let odd = sum % 2;
    lemma2_to64();
    lemma_pow2_pos(bits);
    if bits == 0 {
        assert(h == 0);
        assert(h * sum == 0) by (nonlinear_arith)
            requires
                h == 0,
        ;
    } else {
        lemma_pow2_unfold(bits);
        assert(n == 2 * h);
        assert(h * sum == n * pairs + h * odd) by (nonlinear_arith)
            requires
                sum == 2 * pairs + odd,
                n == 2 * h,
        ;
        assert(odd == 0 ==> h * odd == 0) by (nonlinear_arith);
        assert(odd == 1 ==> h * odd == h) by (nonlinear_arith);
        lemma_mod_multiples_vanish(pairs, base + h * odd, n);
        assert(base + h * sum == n * pairs + (base + h * odd));
    }
}

/// All passes of a transform taken together write, for every cell, the
/// inverse discrete Fourier sum of the input with the frequencies counted
/// from the centre of the grid: every input occurs once in the value at a
/// cell, turned by `centred_phase`.
pub proof fn lemma_transform(bits: nat, cell: Cell, source: Cell, exponent: nat)
    requires
        bits <= MAX_BITS,
        on_grid(pow2(bits), cell),
        on_grid(pow2(bits), source),
        exponent < pow2(bits),
    ensures
        weight(bits, pass_count(bits), cell, source, exponent) == if exponent == centred_phase(
            pow2(bits),
            cell,
            source,
        ) {
            1nat
        } else {
            0nat
        },
{
    let n = pow2(bits);
    let h = half_turn(n, cell);
    let x = cell.x * source.x + cell.y * source.y;
    let back = turned_back(n, exponent, h);
    lemma_pow2_pos(bits);
    lemma_turned_back_bound(n, exponent, h);
    assert(kind_at(bits, 2 * bits) == PassKind::Inversion);
    assert(weight(bits, pass_count(bits), cell, source, exponent) == weight(
        bits,
        2 * bits,
        cell,
        source,
        back,
    ));
    lemma_butterflies_sum(bits, cell, source, back);
    lemma_turn(n as int, exponent as int, h as int, x);
    lemma_half_turns(bits, cell, x);
    lemma_mod_bound(x, n as int);
}

/// The phase in wave numbers: the input at `source` is turned by the
/// product of the cell's place and the wave vector that `source` stands
/// for.
pub proof fn lemma_phase_by_wave_vector(bits: nat, cell: Cell, source: Cell)
    ensures
        centred_phase(pow2(bits), cell, source) == (cell.x * wave_number(pow2(bits), source.x as nat)
            + cell.y * wave_number(pow2(bits), source.y as nat)) % (pow2(bits) as int),
{
    let n = pow2(bits) as int;
    let h = n / 2;
    let x = cell.x as int;
    let y = cell.y as int;
    let sx = source.x as int;
    let sy = source.y as int;
    let by_wave = x * (sx - h) + y * (sy - h);
    lemma2_to64();
    lemma_pow2_pos(bits);
    if bits == 0 {
        assert(h == 0);
        assert(x * sx + y * sy + h * (x + y) == by_wave) by (nonlinear_arith)
            requires
                h == 0,
                by_wave == x * (sx - h) + y * (sy - h),
        ;
    } else {
        lemma_pow2_unfold(bits);
        assert(n == 2 * h);
        assert(x * sx + y * sy + h * (x + y) == n * (x + y) + by_wave) by (nonlinear_arith)
            requires
                n == 2 * h,
                by_wave == x * (sx - h) + y * (sy - h),
        ;
        lemma_mod_multiples_vanish(x + y, by_wave, n);
    }
    lemma_mod_bound(by_wave, n);
}

/// The inputs at a cell and at its partner are turned by opposite phases.
/// So where the value at every partner is the conjugate of the value at
/// the cell, the two terms of every such pair are conjugates of each other
/// and the sum has no imaginary part: the spectrum of real heights
/// transforms to real heights.
pub proof fn lemma_partner_phases_cancel(bits: nat, cell: Cell, source: Cell)
    requires
        bits <= MAX_BITS,
        on_grid(pow2(bits), source),
    ensures
        on_grid(pow2(bits), partner_of(pow2(bits), source)),
        (centred_phase(pow2(bits), cell, source) + centred_phase(
            pow2(bits),
            cell,
            partner_of(pow2(bits), source),
        )) % pow2(bits) == 0,
{
    let n = pow2(bits) as int;
    let x = cell.x as int;
    let y = cell.y as int;
    let other = partner_of(pow2(bits), source);
    lemma_grid_bound(bits);
    lemma_partner_involution(pow2(bits), source.x as nat);
    lemma_partner_involution(pow2(bits), source.y as nat);
    assert(other.x == partner_at(pow2(bits), source.x as nat));
    assert(other.y == partner_at(pow2(bits), source.y as nat));
    let kx = wave_number(pow2(bits), source.x as nat);
    let ky = wave_number(pow2(bits), source.y as nat);
    let ox = wave_number(pow2(bits), other.x as nat);
    let oy = wave_number(pow2(bits), other.y as nat);
    lemma_partner_is_opposite(bits, source.x as nat);
    lemma_partner_is_opposite(bits, source.y as nat);
    lemma_fundamental_div_mod(kx + ox, n);
    lemma_fundamental_div_mod(ky + oy, n);
    let a = (kx + ox) / n;
    let b = (ky + oy) / n;
    let here = x * kx + y * ky;
    let there = x * ox + y * oy;
    lemma_phase_by_wave_vector(bits, cell, source);
    lemma_phase_by_wave_vector(bits, cell, other);
    lemma_add_mod_noop(here, there, n);
    assert(here + there == n * (x * a + y * b) + 0) by {
        assert(x * kx + x * ox == x * (n * a)) by (nonlinear_arith)
            requires
                kx + ox == n * a,
        ;
        assert(y * ky + y * oy == y * (n * b)) by (nonlinear_arith)
            requires
                ky + oy == n * b,
        ;
        assert(x * (n * a) == n * (x * a)) by (nonlinear_arith);
        assert(y * (n * b) == n * (y * b)) by (nonlinear_arith);
        assert(n * (x * a) + n * (y * b) == n * (x * a + y * b)) by (nonlinear_arith);
    }
    lemma_mod_multiples_vanish(x * a + y * b, 0, n);
    lemma_small_mod(0, n as nat);
}

} // verus!
