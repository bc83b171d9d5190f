//! The butterfly table of a radix-2 decimation-in-time transform.
//!
//! For every stage and every row of the grid the table names the two
//! positions whose values are combined and the power of the principal root
//! of unity that multiplies the second one. The table depends on the grid
//! size alone.

use vstd::prelude::*;
use vstd::arithmetic::power2::{pow2, lemma_pow2_unfold, lemma_pow2_pos, lemma_pow2_adds, lemma2_to64};
use vstd::arithmetic::div_mod::{lemma_fundamental_div_mod, lemma_fundamental_div_mod_converse};
use crate::grid::{GridSize, MAX_BITS, MAX_GRID, lemma_grid_bound};
use crate::reversal::{reverse, reverse_bits, lemma_reverse_bound};

verus! {

/// One cell of the butterfly table.
///
/// The value written for a row is `value(index_a) + w^exponent * value(index_b)`,
/// where `w` is the principal root of unity of the grid's order, the complex
/// number of angle `2 * pi / n`.
#[derive(Clone, Copy, Debug, PartialEq, Eq, Structural)]
pub struct TwiddleEntry {
    /// The power of the root of unity, below the grid size.
    pub exponent: u32,
    /// The position of the value that is taken as it is.
    pub index_a: u32,
    /// The position of the value that is rotated before it is added.
    pub index_b: u32,
}

/// The distance between the two positions that a butterfly of `stage` combines.
pub open spec fn span(stage: nat) -> nat {
    pow2(stage)
}

/// The length of the blocks that the butterflies of `stage` stay within.
pub open spec fn block_size(stage: nat) -> nat {
    2 * span(stage)
}

/// Whether `row` lies in the upper half of its block.
pub open spec fn top_wing(stage: nat, row: nat) -> bool {
    row % block_size(stage) < span(stage)
}

/// The power of the root of unity for `row` at `stage`, on a grid of `n` rows.
pub open spec fn twiddle_exponent(n: nat, stage: nat, row: nat) -> nat {
    (row * n / block_size(stage)) % n
}

/// The upper position of the butterfly that `row` belongs to at `stage`.
pub open spec fn wing_a(stage: nat, row: nat) -> nat {
    if top_wing(stage, row) {
        row
    } else {
        (row - span(stage)) as nat
    }
}

/// The lower position of the butterfly that `row` belongs to at `stage`.
pub open spec fn wing_b(stage: nat, row: nat) -> nat {
    if top_wing(stage, row) {
        row + span(stage)
    } else {
        row
    }
}

/// The position that the table names first: the upper wing, bit-reversed
/// in the first stage, which reads the input in permuted order.
pub open spec fn source_a(bits: nat, stage: nat, row: nat) -> nat {
    if stage == 0 {
        reverse_bits(wing_a(stage, row), bits)
    } else {
        wing_a(stage, row)
    }
}

/// The position that the table names second: the lower wing, bit-reversed
/// in the first stage.
pub open spec fn source_b(bits: nat, stage: nat, row: nat) -> nat {
    if stage == 0 {
        reverse_bits(wing_b(stage, row), bits)
    } else {
        wing_b(stage, row)
    }
}

/// Whether `e` is the table's cell for `row` at `stage` on a grid of `2^bits` rows.
pub open spec fn is_entry(e: TwiddleEntry, bits: nat, stage: nat, row: nat) -> bool {
    &&& e.exponent == twiddle_exponent(pow2(bits), stage, row)
    &&& e.index_a == source_a(bits, stage, row)
    &&& e.index_b == source_b(bits, stage, row)
}

/// Whether `cells` is the whole table for a grid of `2^bits` rows: `bits`
/// cells for each row, one per stage, row after row.
pub open spec fn is_table(cells: Seq<TwiddleEntry>, bits: nat) -> bool {
    &&& cells.len() == pow2(bits) * bits
    &&& forall|stage: nat, row: nat|
        stage < bits && row < pow2(bits) ==> is_entry(
            #[trigger] cells[table_index(bits, stage, row)],
            bits,
            stage,
            row,
        )
}

/// Where the cell for `row` at `stage` stands in the table.
pub open spec fn table_index(bits: nat, stage: nat, row: nat) -> int {
    (row * bits + stage) as int
}

/// The span of a stage is twice that of the stage before.
pub proof fn lemma_span_doubles(stage: nat)
    ensures
        span(0) == 1,
        span(stage + 1) == 2 * span(stage),
        span(stage) < span(stage + 1),
{
    lemma2_to64();
    lemma_pow2_unfold(stage + 1);
    lemma_pow2_pos(stage);
}

/// The blocks of every stage tile the grid: the grid size is a multiple of
/// the block size, by the factor `2^(bits - stage - 1)`.
pub proof fn lemma_blocks_tile(bits: nat, stage: nat)
    requires
        stage < bits,
    ensures
        pow2(bits) == block_size(stage) * pow2((bits - stage - 1) as nat),
        block_size(stage) == pow2(stage + 1),
        block_size(stage) > 0,
{
    lemma_pow2_unfold(stage + 1);
    lemma_pow2_pos(stage);
    lemma_pow2_adds(stage + 1, (bits - stage - 1) as nat);
}

/// The two wings of a butterfly lie `span(stage)` apart, both on the grid,
/// and `row` is one of them.
pub proof fn lemma_wings(bits: nat, stage: nat, row: nat)
    requires
        stage < bits,
        row < pow2(bits),
    ensures
        wing_b(stage, row) == wing_a(stage, row) + span(stage),
        wing_b(stage, row) < pow2(bits),
        top_wing(stage, row) ==> wing_a(stage, row) == row,
        !top_wing(stage, row) ==> wing_b(stage, row) == row && row >= span(stage),
{
    let block = block_size(stage) as int;
    let blocks = pow2((bits - stage - 1) as nat) as int;
    lemma_blocks_tile(bits, stage);
    lemma_fundamental_div_mod(row as int, block);
    let q = row as int / block;
    let r = row as int % block;
    assert(0 <= r < block);
    if top_wing(stage, row) {
        assert(q < blocks) by (nonlinear_arith)
            requires
                block * q + r < block * blocks,
                0 <= r,
                block > 0,
        ;
        assert(block * (q + 1) <= block * blocks) by (nonlinear_arith)
            requires
                q + 1 <= blocks,
                block > 0,
        ;
        assert(block * (q + 1) == block * q + block) by (nonlinear_arith);
    } else {
        assert(q >= 0) by (nonlinear_arith)
            requires
                block * q + r >= 0,
                r < block,
                block > 0,
        ;
        assert(block * q >= 0) by (nonlinear_arith)
            requires
                q >= 0,
                block > 0,
        ;
    }
}

/// The exponent of a row is the row's offset in its block, scaled to the
/// grid: `(row % block_size) * (n / block_size)`. It is below `n`.
pub proof fn lemma_exponent(bits: nat, stage: nat, row: nat)
    requires
        stage < bits,
        row < pow2(bits),
    ensures
        twiddle_exponent(pow2(bits), stage, row) == (row % block_size(stage)) * pow2(
            (bits - stage - 1) as nat,
        ),
        twiddle_exponent(pow2(bits), stage, row) < pow2(bits),
{
    let n = pow2(bits) as int;
    let block = block_size(stage) as int;
    let scale = pow2((bits - stage - 1) as nat) as int;
    lemma_blocks_tile(bits, stage);
    lemma_pow2_pos((bits - stage - 1) as nat);
    lemma_fundamental_div_mod(row as int, block);
    let q = row as int / block;
    let r = row as int % block;
    // row * n == (row * scale) * block, so the division is exact
    assert(row * n == (row * scale) * block + 0) by (nonlinear_arith)
        requires
            n == block * scale,
    ;
    lemma_fundamental_div_mod_converse(row * n, block, row * scale, 0);
    assert(row * n / block == row * scale);
    // row * scale == q * n + r * scale
    assert(row * scale == n * q + r * scale) by (nonlinear_arith)
        requires
            row == block * q + r,
            n == block * scale,
    ;
    assert(0 <= r * scale < n) by (nonlinear_arith)
        requires
            0 <= r < block,
            n == block * scale,
            scale > 0,
    ;
    lemma_fundamental_div_mod_converse(row * scale, n, q, r * scale);
}

/// The two rows of a butterfly turn their second source by exponents that
/// lie half a turn apart: as `w^(n/2)` is minus one, the upper row writes
/// `a + w^k * b` and the lower row `a - w^k * b`, with `k` below `n / 2`.
pub proof fn lemma_wings_half_a_turn_apart(bits: nat, stage: nat, row: nat)
    requires
        stage < bits,
        row < pow2(bits),
    ensures
        twiddle_exponent(pow2(bits), stage, wing_a(stage, row)) < pow2(bits) / 2,
        twiddle_exponent(pow2(bits), stage, wing_b(stage, row)) == twiddle_exponent(
            pow2(bits),
            stage,
            wing_a(stage, row),
        ) + pow2(bits) / 2,
{
    let n = pow2(bits) as int;
    let s = span(stage) as int;
    let block = block_size(stage) as int;
    let scale = pow2((bits - stage - 1) as nat) as int;
    let a = wing_a(stage, row);
    let b = wing_b(stage, row);
    lemma_wings(bits, stage, row);
    lemma_blocks_tile(bits, stage);
    lemma_pow2_pos(stage);
    lemma_pow2_pos((bits - stage - 1) as nat);
    lemma_exponent(bits, stage, a);
    lemma_exponent(bits, stage, b);
    lemma_fundamental_div_mod(row as int, block);
    let q = row as int / block;
    let r = row as int % block;
    let low = if r < s {
        r
    } else {
        r - s
    };
    assert(a as int == block * q + low);
    assert(b as int == block * q + (low + s));
    lemma_fundamental_div_mod_converse(a as int, block, q, low);
    lemma_fundamental_div_mod_converse(b as int, block, q, low + s);
    assert(n == 2 * (s * scale)) by (nonlinear_arith)
        requires
            n == block * scale,
            block == 2 * s,
    ;
    assert((low + s) * scale == low * scale + s * scale) by (nonlinear_arith);
    assert(low * scale < s * scale) by (nonlinear_arith)
        requires
            0 <= low < s,
            scale > 0,
    ;
}

/// The butterfly table of one grid size.
pub struct TwiddleTable {
    size: GridSize,
    cells: Vec<TwiddleEntry>,
}

impl View for TwiddleTable {
    type V = Seq<TwiddleEntry>;

    closed spec fn view(&self) -> Seq<TwiddleEntry> {
        self.cells@
    }
}

impl TwiddleTable {
    /// The grid size that the table was built for.
    pub closed spec fn spec_size(self) -> GridSize {
        self.size
    }

    /// The invariant of the type: the cells are the whole table of the grid size.
    #[verifier::type_invariant]
    pub open spec fn valid(self) -> bool {
        &&& self.spec_size().valid()
        &&& is_table(self@, self.spec_size().spec_bits())
    }

    /// The grid size that the table was built for.
    pub fn size(&self) -> (size: GridSize)
        ensures
            size == self.spec_size(),
            self.valid(),
    {
        proof {
            use_type_invariant(self);
        }
        self.size
    }

    /// All cells: `bits` for each row, one per stage, row after row.
    pub fn cells(&self) -> (cells: &Vec<TwiddleEntry>)
        ensures
            cells@ == self@,
            self.valid(),
    {
        proof {
            use_type_invariant(self);
        }
        &self.cells
    }

    /// The cell for `row` at `stage`.
    pub fn entry(&self, stage: u32, row: u32) -> (e: TwiddleEntry)
        requires
            stage < self.spec_size().spec_bits(),
            row < self.spec_size().spec_n(),
        ensures
            is_entry(e, self.spec_size().spec_bits(), stage as nat, row as nat),
            e == self@[table_index(self.spec_size().spec_bits(), stage as nat, row as nat)],
            e.exponent < self.spec_size().spec_n(),
            e.index_a < self.spec_size().spec_n(),
            e.index_b < self.spec_size().spec_n(),
    {
        proof {
            use_type_invariant(self);
        }
        let bits = self.size.bits();
        let n = self.size.n();
        proof {
            lemma_entry_on_grid(bits as nat, stage as nat, row as nat);
            assert(row * bits + stage < n * bits) by (nonlinear_arith)
                requires
                    row < n,
                    stage < bits,
            ;
            assert(n * bits <= MAX_GRID * MAX_BITS) by (nonlinear_arith)
                requires
                    n <= MAX_GRID,
                    bits <= MAX_BITS,
            ;
            assert(self.cells@[table_index(bits as nat, stage as nat, row as nat)]
                == self.cells@[row * bits + stage]);
        }
        self.cells[(row * bits + stage) as usize]
    }
}

/// Every number in a cell of the table is below the grid size.
pub proof fn lemma_entry_on_grid(bits: nat, stage: nat, row: nat)
    requires
        stage < bits,
        row < pow2(bits),
    ensures
        twiddle_exponent(pow2(bits), stage, row) < pow2(bits),
        source_a(bits, stage, row) < pow2(bits),
        source_b(bits, stage, row) < pow2(bits),
{
    lemma_exponent(bits, stage, row);
    lemma_wings(bits, stage, row);
    lemma_reverse_bound(wing_a(stage, row), bits);
    lemma_reverse_bound(wing_b(stage, row), bits);
}

/// In the first stage the table reads the input in bit-reversed order: the
/// butterfly of rows `2q` and `2q + 1` combines the input positions that are
/// the reversals of `2q` and `2q + 1`.
pub proof fn lemma_first_stage_reversed(bits: nat, row: nat)
    requires
        0 < bits,
        row < pow2(bits),
    ensures
        row % 2 == 0 ==> source_a(bits, 0, row) == reverse_bits(row, bits) && source_b(bits, 0, row)
            == reverse_bits(row + 1, bits),
        row % 2 == 1 ==> source_a(bits, 0, row) == reverse_bits((row - 1) as nat, bits)
            && source_b(bits, 0, row) == reverse_bits(row, bits),
{
    lemma2_to64();
}

/// From the second stage on the table names the two wings themselves,
/// which lie `span(stage)` apart.
pub proof fn lemma_later_stage_spans(bits: nat, stage: nat, row: nat)
    requires
        0 < stage < bits,
        row < pow2(bits),
    ensures
        source_b(bits, stage, row) == source_a(bits, stage, row) + span(stage),
        source_a(bits, stage, row) == row || source_b(bits, stage, row) == row,
{
    lemma_wings(bits, stage, row);
}

/// Builds the butterfly table for a grid size.
pub fn twiddle_indices(size: GridSize) -> (table: TwiddleTable)
    ensures
        table.spec_size() == size,
        table.valid(),
{
    let bits = size.bits();
    let n = size.n();
    let mut cells: Vec<TwiddleEntry> = Vec::new();
    let mut row: u32 = 0;
    while row < n
        invariant
            row <= n,
            n == pow2(bits as nat),
            bits <= MAX_BITS,
            n <= MAX_GRID,
            cells@.len() == row * bits,
            forall|i: int|
                0 <= i < cells@.len() ==> is_entry(
                    #[trigger] cells@[i],
                    bits as nat,
                    (i % bits as int) as nat,
                    (i / bits as int) as nat,
                ),
        decreases n - row,
    {
        let mut stage: u32 = 0;
        let mut width: u32 = 1;
        proof {
            lemma2_to64();
        }
        while stage < bits
            invariant
                stage <= bits,
                row < n,
                n == pow2(bits as nat),
                bits <= MAX_BITS,
                n <= MAX_GRID,
                width == span(stage as nat),
                cells@.len() == row * bits + stage,
                forall|i: int|
                    0 <= i < cells@.len() ==> is_entry(
                        #[trigger] cells@[i],
                        bits as nat,
                        (i % bits as int) as nat,
                        (i / bits as int) as nat,
                    ),
            decreases bits - stage,
        {
            proof {
                lemma_blocks_tile(bits as nat, stage as nat);
                lemma_wings(bits as nat, stage as nat, row as nat);
                lemma_exponent(bits as nat, stage as nat, row as nat);
                lemma_span_doubles(stage as nat);
                lemma_grid_bound((stage + 1) as nat);
                assert(row * n <= MAX_GRID * MAX_GRID) by (nonlinear_arith)
                    requires
                        row <= MAX_GRID,
                        n <= MAX_GRID,
                ;
            }
            let block = 2 * width;
            let exponent = (row * n / block) % n;
            let top = row % block < width;
            let (mut a, mut b) = if top {
                (row, row + width)
            } else {
                (row - width, row)
            };
            if stage == 0 {
                a = reverse(a, bits);
                b = reverse(b, bits);
            }
            let e = TwiddleEntry { exponent, index_a: a, index_b: b };
            proof {
                assert(is_entry(e, bits as nat, stage as nat, row as nat));
                let at = cells@.len() as int;
                lemma_fundamental_div_mod_converse(at, bits as int, row as int, stage as int);
            }
            cells.push(e);
            width = block;
            stage = stage + 1;
        }
        proof {
            assert((row + 1) * bits == row * bits + bits) by (nonlinear_arith);
        }
        row = row + 1;
    }
    proof {
        assert(cells@.len() == pow2(bits as nat) * bits);
        assert forall|stage: nat, row: nat| stage < bits && row < pow2(bits as nat) implies is_entry(
            #[trigger] cells@[table_index(bits as nat, stage, row)],
            bits as nat,
            stage,
            row,
        ) by {
            let at = table_index(bits as nat, stage, row);
            assert(0 <= at < n * bits) by (nonlinear_arith)
                requires
                    at == row * bits + stage,
                    row < n,
                    stage < bits,
            ;
            lemma_fundamental_div_mod_converse(at, bits as int, row as int, stage as int);
        }
    }
    TwiddleTable { size, cells }
}

} // verus!
