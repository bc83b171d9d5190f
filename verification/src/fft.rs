//! The inverse transform as a sequence of passes.
//!
//! A transform of an `n` by `n` field runs `log2(n)` butterfly stages along
//! the horizontal axis, as many along the vertical axis and one pass that
//! corrects the signs. Each pass reads one buffer and writes another; this
//! module decides which, and where in its input a butterfly finds the two
//! values that it combines.

use vstd::prelude::*;
use crate::grid::{Cell, GridSize, MAX_BITS};
use crate::twiddle::{twiddle_indices, TwiddleTable, source_a, source_b, twiddle_exponent};
use vstd::arithmetic::power2::pow2;

verus! {

/// The axis along which a butterfly stage combines values.
#[derive(Clone, Copy, Debug, PartialEq, Eq, Structural)]
pub enum Direction {
    /// Along a row of the grid: the two sources differ in `x`.
    Horizontal,
    /// Along a column of the grid: the two sources differ in `y`.
    Vertical,
}

/// One of the two buffers that the passes of a transform write in turn.
#[derive(Clone, Copy, Debug, PartialEq, Eq, Structural)]
pub enum Target {
    /// The scratch buffer that the transform owns.
    PingPong,
    /// The buffer that the caller reads the heights from.
    Output,
}

/// Where a pass reads from.
#[derive(Clone, Copy, Debug, PartialEq, Eq, Structural)]
pub enum PassInput {
    /// The spectrum as it was advanced to the frame's time.
    Spectrum,
    /// A buffer that an earlier pass of the same transform wrote.
    Buffer(Target),
}

/// What a pass computes.
#[derive(Clone, Copy, Debug, PartialEq, Eq, Structural)]
pub enum PassKind {
    /// One butterfly stage along one axis.
    Butterfly { direction: Direction, stage: u32 },
    /// The sign correction, which also drops the imaginary part.
    Inversion,
}

/// One pass over the whole grid.
#[derive(Clone, Copy, Debug, PartialEq, Eq, Structural)]
pub struct Pass {
    pub kind: PassKind,
    pub input: PassInput,
    pub output: Target,
}

/// The buffer that is not `t`.
pub open spec fn other(t: Target) -> Target {
    match t {
        Target::PingPong => Target::Output,
        Target::Output => Target::PingPong,
    }
}

/// The buffer that pass `i` of a transform writes. The passes alternate,
/// and as their number is odd the first and the last write the output.
pub open spec fn target_at(i: nat) -> Target {
    if i % 2 == 0 {
        Target::Output
    } else {
        Target::PingPong
    }
}

/// What pass `i` reads: the spectrum for the first pass, for every other
/// pass what the pass before it wrote.
pub open spec fn input_at(i: nat) -> PassInput {
    if i == 0 {
        PassInput::Spectrum
    } else {
        PassInput::Buffer(target_at((i - 1) as nat))
    }
}

/// What pass `i` computes on a grid of `2^bits` cells a side: the
/// horizontal stages, then the vertical stages, then the sign correction.
pub open spec fn kind_at(bits: nat, i: nat) -> PassKind {
    if i < bits {
        PassKind::Butterfly { direction: Direction::Horizontal, stage: i as u32 }
    } else if i < 2 * bits {
        PassKind::Butterfly { direction: Direction::Vertical, stage: (i - bits) as u32 }
    } else {
        PassKind::Inversion
    }
}

/// Pass `i` of a transform.
pub open spec fn pass_at(bits: nat, i: nat) -> Pass {
    Pass { kind: kind_at(bits, i), input: input_at(i), output: target_at(i) }
}

/// The number of passes of a transform.
pub open spec fn pass_count(bits: nat) -> nat {
    2 * bits + 1
}

/// All passes of a transform, in the order in which they run.
pub open spec fn schedule(bits: nat) -> Seq<Pass> {
    Seq::new(pass_count(bits), |i: int| pass_at(bits, i as nat))
}

/// No pass reads the buffer that it writes.
pub proof fn lemma_no_pass_reads_its_output(bits: nat, i: nat)
    requires
        i < pass_count(bits),
    ensures
        schedule(bits)[i as int].input != PassInput::Buffer(schedule(bits)[i as int].output),
{
}

/// The first pass reads the spectrum, and every later pass reads the
/// buffer that the pass before it wrote.
pub proof fn lemma_passes_chain(bits: nat, i: nat)
    requires
        i < pass_count(bits),
    ensures
        i == 0 ==> schedule(bits)[i as int].input == PassInput::Spectrum,
        i > 0 ==> schedule(bits)[i as int].input == PassInput::Buffer(
            schedule(bits)[i - 1].output,
        ),
{
}

/// The last pass is the sign correction, and it writes the output buffer.
pub proof fn lemma_last_pass_writes_output(bits: nat)
    ensures
        schedule(bits).last().kind == PassKind::Inversion,
        schedule(bits).last().output == Target::Output,
        forall|i: int| 0 <= i < 2 * bits ==> (#[trigger] schedule(bits)[i]).kind != PassKind::Inversion,
{
}

/// What a butterfly reads for one cell: the value at `a` is taken as it
/// is, the value at `b` is multiplied by the root of unity to the power
/// `exponent` and added.
#[derive(Clone, Copy, Debug, PartialEq, Eq, Structural)]
pub struct Tap {
    pub a: Cell,
    pub b: Cell,
    pub exponent: u32,
}

/// The coordinate of `cell` along `direction`: the row of the butterfly
/// table that serves the cell.
pub open spec fn along(direction: Direction, cell: Cell) -> u32 {
    match direction {
        Direction::Horizontal => cell.x,
        Direction::Vertical => cell.y,
    }
}

/// The cell that differs from `cell` only along `direction`, where it has
/// the coordinate `at`.
pub open spec fn moved(direction: Direction, cell: Cell, at: u32) -> Cell {
    match direction {
        Direction::Horizontal => Cell { x: at, y: cell.y },
        Direction::Vertical => Cell { x: cell.x, y: at },
    }
}

/// What the butterfly of `stage` along `direction` reads for `cell`.
pub open spec fn tap_at(bits: nat, direction: Direction, stage: nat, cell: Cell) -> Tap {
    let row = along(direction, cell) as nat;
    Tap {
        a: moved(direction, cell, source_a(bits, stage, row) as u32),
        b: moved(direction, cell, source_b(bits, stage, row) as u32),
        exponent: twiddle_exponent(pow2(bits), stage, row) as u32,
    }
}

/// The factor of the sign correction at a cell: `(-1)^(x + y)`.
pub open spec fn sign_at(cell: Cell) -> int {
    if (cell.x + cell.y) % 2 == 0 {
        1
    } else {
        -1
    }
}

/// The factor of the sign correction at a cell: `(-1)^(x + y)`.
pub fn inversion_sign(cell: Cell) -> (sign: i32)
    ensures
        sign == sign_at(cell),
{
    if (cell.x % 2) == (cell.y % 2) {
        1
    } else {
        -1
    }
}

/// The inverse transform of one grid size.
pub struct Fft {
    twiddle_indices: TwiddleTable,
}

impl Fft {
    /// The butterfly table of the transform.
    pub closed spec fn spec_table(self) -> TwiddleTable {
        self.twiddle_indices
    }

    /// The invariant of the type: the table is whole.
    #[verifier::type_invariant]
    pub open spec fn valid(self) -> bool {
        self.spec_table().valid()
    }

    /// The grid size of the transform.
    pub open spec fn spec_size(self) -> GridSize {
        self.spec_table().spec_size()
    }

    /// The base-two logarithm of the grid size: the number of stages along each axis.
    pub open spec fn spec_bits(self) -> nat {
        self.spec_size().spec_bits()
    }

    /// A transform for grids of the given size, with its butterfly table.
    pub fn new(size: GridSize) -> (fft: Fft)
        ensures
            fft.spec_size() == size,
            fft.valid(),
    {
        Fft { twiddle_indices: twiddle_indices(size) }
    }

    /// The butterfly table of the transform.
    pub fn table(&self) -> (table: &TwiddleTable)
        ensures
            *table == self.spec_table(),
            table.valid(),
    {
        proof {
            use_type_invariant(self);
        }
        &self.twiddle_indices
    }

    /// The passes of one transform, in the order in which they run.
    pub fn render(&self) -> (passes: Vec<Pass>)
        ensures
            passes@ == schedule(self.spec_bits()),
    {
        proof {
            use_type_invariant(self);
        }
        let bits = self.twiddle_indices.size().bits();
        let mut passes: Vec<Pass> = Vec::new();
        let mut written = Target::PingPong;
        let mut first_round = true;
        let mut axis: u32 = 0;
        while axis < 2
            invariant
                axis <= 2,
                bits <= MAX_BITS,
                passes@.len() == axis * bits,
                first_round == (passes@.len() == 0),
                written == other(target_at(passes@.len())),
                forall|i: int|
                    0 <= i < passes@.len() ==> #[trigger] passes@[i] == pass_at(bits as nat, i as nat),
            decreases 2 - axis,
        {
            let direction = if axis == 0 {
                Direction::Horizontal
            } else {
                Direction::Vertical
            };
            let mut stage: u32 = 0;
            while stage < bits
                invariant
                    stage <= bits,
                    axis < 2,
                    bits <= MAX_BITS,
                    direction == if axis == 0 {
                        Direction::Horizontal
                    } else {
                        Direction::Vertical
                    },
                    passes@.len() == axis * bits + stage,
                    first_round == (passes@.len() == 0),
                    written == other(target_at(passes@.len())),
                    forall|i: int|
                        0 <= i < passes@.len() ==> #[trigger] passes@[i] == pass_at(
                            bits as nat,
                            i as nat,
                        ),
                decreases bits - stage,
            {
                let input = if first_round {
                    first_round = false;
                    PassInput::Spectrum
                } else {
                    PassInput::Buffer(written)
                };
                let output = match written {
                    Target::PingPong => Target::Output,
                    Target::Output => Target::PingPong,
                };
                passes.push(Pass { kind: PassKind::Butterfly { direction, stage }, input, output });
                written = output;
                stage = stage + 1;
            }
            axis = axis + 1;
        }
        let input = if first_round {
            PassInput::Spectrum
        } else {
            PassInput::Buffer(written)
        };
        let output = match written {
            Target::PingPong => Target::Output,
            Target::Output => Target::PingPong,
        };
        passes.push(Pass { kind: PassKind::Inversion, input, output });
        proof {
            assert(passes@ =~= schedule(bits as nat));
        }
        passes
    }

    /// What the butterfly of `stage` along `direction` reads for `cell`:
    /// the table's cell for the coordinate of `cell` along the axis, with
    /// the other coordinate kept.
    pub fn butterfly(&self, direction: Direction, stage: u32, cell: Cell) -> (tap: Tap)
        requires
            stage < self.spec_bits(),
            cell.x < self.spec_size().spec_n(),
            cell.y < self.spec_size().spec_n(),
        ensures
            tap == tap_at(self.spec_bits(), direction, stage as nat, cell),
            tap.a.x < self.spec_size().spec_n(),
            tap.a.y < self.spec_size().spec_n(),
            tap.b.x < self.spec_size().spec_n(),
            tap.b.y < self.spec_size().spec_n(),
            tap.exponent < self.spec_size().spec_n(),
    {
        proof {
            use_type_invariant(self);
        }
        match direction {
            Direction::Horizontal => {
                let e = self.twiddle_indices.entry(stage, cell.x);
                Tap {
                    a: Cell { x: e.index_a, y: cell.y },
                    b: Cell { x: e.index_b, y: cell.y },
                    exponent: e.exponent,
                }
            },
            Direction::Vertical => {
                let e = self.twiddle_indices.entry(stage, cell.y);
                Tap {
                    a: Cell { x: cell.x, y: e.index_a },
                    b: Cell { x: cell.x, y: e.index_b },
                    exponent: e.exponent,
                }
            },
        }
    }
}

} // verus!
