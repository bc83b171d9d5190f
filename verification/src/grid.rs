//! Sizes of the square grids that every buffer of a pipeline shares.

use vstd::prelude::*;
use vstd::arithmetic::power2::{
    pow2,
    lemma_pow2_unfold,
    lemma_pow2_strictly_increases,
    lemma_pow2_pos,
    lemma2_to64,
};
use vstd::arithmetic::div_mod::{lemma_small_mod, lemma_mod_self_0};
use crate::error::ConfigurationError;

verus! {

/// The largest exponent of a grid size: grids have at most `2^14` cells a side,
/// so that four channels for every cell can still be counted in 32 bits.
pub const MAX_BITS: u32 = 14;

/// The largest grid size, `2^MAX_BITS`.
pub const MAX_GRID: u32 = 0x4000;

/// Whether `n` is a power of two.
pub open spec fn is_power_of_two(n: nat) -> bool {
    exists|e: nat| pow2(e) == n
}

/// The side length of a grid: a power of two that is at most `MAX_GRID`.
#[derive(Clone, Copy, Debug, PartialEq, Eq, Structural)]
pub struct GridSize {
    n: u32,
    bits: u32,
}

impl GridSize {
    /// The number of cells along one side.
    pub closed spec fn spec_n(self) -> nat {
        self.n as nat
    }

    /// The base-two logarithm of the side length.
    pub closed spec fn spec_bits(self) -> nat {
        self.bits as nat
    }

    /// The invariant of the type: the side length is two to the power of
    /// its logarithm, which is at most `MAX_BITS`.
    #[verifier::type_invariant]
    pub open spec fn valid(self) -> bool {
        &&& self.spec_bits() <= MAX_BITS
        &&& self.spec_n() == pow2(self.spec_bits())
    }

    /// Accepts `n` if and only if it is a power of two that is at most `MAX_GRID`.
    pub fn new(n: u32) -> (r: Result<GridSize, ConfigurationError>)
        ensures
            match r {
                Ok(size) => size.valid() && size.spec_n() == n,
                Err(ConfigurationError::GridNotPowerOfTwo) => !is_power_of_two(n as nat),
                Err(ConfigurationError::GridTooLarge) => is_power_of_two(n as nat) && n > MAX_GRID,
                Err(_) => false,
            },
            r is Ok <==> is_power_of_two(n as nat) && n <= MAX_GRID,
    {
        let mut bits: u32 = 0;
        let mut p: u32 = 1;
        proof {
            lemma2_to64();
        }
        while p < n && bits < 31
            invariant
                bits <= 31,
                p as nat == pow2(bits as nat),
                forall|e: nat| e < bits ==> pow2(e) < n,
            decreases 31 - bits,
        {
            proof {
                lemma_pow2_unfold((bits + 1) as nat);
                lemma2_to64();
                if bits + 1 <= 31 {
                    lemma_pow2_strictly_increases((bits + 1) as nat, 32);
                }
                assert forall|e: nat| e < bits + 1 implies pow2(e) < n by {
                    if e == bits {
                    }
                }
            }
            p = p * 2;
            bits = bits + 1;
        }
        if p != n {
            proof {
                assert forall|e: nat| pow2(e) != n as nat by {
                    if e < bits {
                    } else if e == bits {
                    } else {
                        lemma_pow2_strictly_increases(bits as nat, e);
                        if p < n {
                            // only when bits == 31: every larger power exceeds 32 bits
                            lemma2_to64();
                            if e > 32 {
                                lemma_pow2_strictly_increases(32, e);
                            } else if e < 32 {
                                lemma_pow2_strictly_increases(e, 32);
                            }
                        }
                    }
                }
            }
            return Err(ConfigurationError::GridNotPowerOfTwo);
        }
        assert(is_power_of_two(n as nat)) by {
            assert(pow2(bits as nat) == n as nat);
        }
        if bits > MAX_BITS {
            proof {
                lemma2_to64();
                lemma_pow2_strictly_increases(MAX_BITS as nat, bits as nat);
            }
            return Err(ConfigurationError::GridTooLarge);
        }
        proof {
            lemma2_to64();
            if bits < MAX_BITS {
                lemma_pow2_strictly_increases(bits as nat, MAX_BITS as nat);
            }
        }
        Ok(GridSize { n, bits })
    }

    /// The number of cells along one side.
    pub fn n(&self) -> (n: u32)
        ensures
            n == self.spec_n(),
            self.valid(),
            1 <= n <= MAX_GRID,
    {
        proof {
            use_type_invariant(self);
            lemma_grid_bound(self.bits as nat);
        }
        self.n
    }

    /// The base-two logarithm of the side length: the number of butterfly
    /// stages of a transform along one axis.
    pub fn bits(&self) -> (bits: u32)
        ensures
            bits == self.spec_bits(),
            self.valid(),
    {
        proof {
            use_type_invariant(self);
        }
        self.bits
    }
}

/// Powers of two up to `2^MAX_BITS` lie between 1 and `MAX_GRID`.
pub proof fn lemma_grid_bound(bits: nat)
    requires
        bits <= MAX_BITS,
    ensures
        1 <= pow2(bits) <= MAX_GRID,
{
    lemma2_to64();
    lemma_pow2_pos(bits);
    if bits < MAX_BITS {
        lemma_pow2_strictly_increases(bits, MAX_BITS as nat);
    }
}

/// A cell of a grid.
#[derive(Clone, Copy, Debug, PartialEq, Eq, Structural)]
pub struct Cell {
    pub x: u32,
    pub y: u32,
}

/// Whether `cell` lies on the grid of `n` cells a side.
pub open spec fn on_grid(n: nat, cell: Cell) -> bool {
    cell.x < n && cell.y < n
}

/// The wave number that the position `at` of a frequency-domain field
/// stands for on a grid of `n` cells a side: the positions count the wave
/// numbers from `-n / 2` up, so that zero stands at the centre.
pub open spec fn wave_number(n: nat, at: nat) -> int {
    at - n / 2
}

/// The position that stands for the opposite wave number, modulo `n`.
pub open spec fn partner_at(n: nat, at: nat) -> nat {
    (((n - at) as int) % (n as int)) as nat
}

/// The cell that stands for the opposite wave vector: for a field that is
/// the spectrum of real heights, the value there is the conjugate of the
/// value at `cell`.
pub open spec fn partner_of(n: nat, cell: Cell) -> Cell {
    Cell { x: partner_at(n, cell.x as nat) as u32, y: partner_at(n, cell.y as nat) as u32 }
}

/// A wave vector in whole wave numbers.
#[derive(Clone, Copy, Debug, PartialEq, Eq, Structural)]
pub struct WaveIndex {
    pub x: i32,
    pub y: i32,
}

/// The partner of a position is a position, and the partner's partner is
/// the position itself.
pub proof fn lemma_partner_involution(n: nat, at: nat)
    requires
        at < n,
    ensures
        partner_at(n, at) < n,
        partner_at(n, partner_at(n, at)) == at,
        at == 0 ==> partner_at(n, at) == 0,
        at > 0 ==> partner_at(n, at) == n - at,
{
    if at == 0 {
        lemma_mod_self_0(n as int);
        assert(partner_at(n, 0) == 0);
    } else {
        lemma_small_mod((n - at) as nat, n);
        lemma_small_mod(at, n);
    }
}

/// The wave numbers of a position and of its partner are opposite modulo
/// `n`, on a grid whose size is a power of two.
pub proof fn lemma_partner_is_opposite(bits: nat, at: nat)
    requires
        at < pow2(bits),
    ensures
        (wave_number(pow2(bits), at) + wave_number(pow2(bits), partner_at(pow2(bits), at))) % (pow2(
            bits,
        ) as int) == 0,
{
    let n = pow2(bits);
    lemma_partner_involution(n, at);
    lemma2_to64();
    lemma_pow2_pos(bits);
    if bits == 0 {
        assert(n / 2 == 0);
    } else {
        lemma_pow2_unfold(bits);
        assert(2 * (n / 2) == n);
        if at == 0 {
            assert(wave_number(n, 0) + wave_number(n, 0) == -(n as int));
            assert((-(n as int)) % (n as int) == 0) by (nonlinear_arith)
                requires
                    n > 0,
            ;
        } else {
            assert(wave_number(n, at) + wave_number(n, partner_at(n, at)) == 0);
        }
    }
}

/// A position and its partner stand for wave numbers of the same size, so
/// that whatever depends on the length of the wave vector alone, as the
/// frequency of a wave does, is the same at a cell and at its partner.
pub proof fn lemma_partner_same_length(bits: nat, at: nat)
    requires
        at < pow2(bits),
    ensures
        wave_number(pow2(bits), partner_at(pow2(bits), at)) * wave_number(
            pow2(bits),
            partner_at(pow2(bits), at),
        ) == wave_number(pow2(bits), at) * wave_number(pow2(bits), at),
{
    let n = pow2(bits);
    let k = wave_number(n, at);
    let o = wave_number(n, partner_at(n, at));
    lemma_partner_involution(n, at);
    lemma2_to64();
    lemma_pow2_pos(bits);
    if at > 0 {
        lemma_pow2_unfold(bits);
        assert(2 * (n / 2) == n);
        assert(o == -k);
        assert((-k) * (-k) == k * k) by (nonlinear_arith);
    }
}

impl GridSize {
    /// Whether `cell` lies on the grid.
    pub fn contains(&self, cell: Cell) -> (r: bool)
        ensures
            r == on_grid(self.spec_n(), cell),
    {
        let n = self.n();
        cell.x < n && cell.y < n
    }

    /// The wave vector that a cell of a frequency-domain field stands for,
    /// in whole wave numbers.
    pub fn wave_index(&self, cell: Cell) -> (k: WaveIndex)
        requires
            on_grid(self.spec_n(), cell),
        ensures
            k.x == wave_number(self.spec_n(), cell.x as nat),
            k.y == wave_number(self.spec_n(), cell.y as nat),
    {
        let n = self.n();
        let half = (n / 2) as i32;
        WaveIndex { x: cell.x as i32 - half, y: cell.y as i32 - half }
    }

    /// The cell that stands for the opposite wave vector.
    pub fn partner(&self, cell: Cell) -> (p: Cell)
        requires
            on_grid(self.spec_n(), cell),
        ensures
            p == partner_of(self.spec_n(), cell),
            on_grid(self.spec_n(), p),
    {
        let n = self.n();
        proof {
            lemma_partner_involution(n as nat, cell.x as nat);
            lemma_partner_involution(n as nat, cell.y as nat);
        }
        Cell { x: (n - cell.x) % n, y: (n - cell.y) % n }
    }
}

} // verus!
