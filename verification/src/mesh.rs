//! The index list of the surface mesh: a square of quads drawn as triangle
//! strips, one strip for each column of quads.

use vstd::prelude::*;
use vstd::arithmetic::div_mod::{lemma_fundamental_div_mod, lemma_fundamental_div_mod_converse};
use crate::grid::MAX_GRID;

verus! {

/// The index that ends a strip and starts the next.
pub const RESTART: u32 = 0xffff_ffff;

/// The number of vertices along one side of a mesh of `side` quads a side.
pub open spec fn line_count(side: nat) -> nat {
    side + 1
}

/// The number of indices from the start of one strip to the start of the
/// next: two for each vertex of a line, and the restart index.
pub open spec fn stride(side: nat) -> nat {
    2 * line_count(side) + 1
}

/// The length of the index list: `side` strips with a restart index
/// between each two.
pub open spec fn strip_len(side: nat) -> nat {
    (side * stride(side) - 1) as nat
}

/// The index at position `p` of the list. Counted from one position
/// before the list, every strip takes `stride` positions: its first is the
/// restart index that precedes it, then its vertices follow, alternating
/// between the strip's own line and the next line.
pub open spec fn strip_index_at(side: nat, p: nat) -> nat {
    let strip = (p + 1) / stride(side);
    let offset = (p + 1) % stride(side);
    if offset == 0 {
        RESTART as nat
    } else {
        let vertex = strip * line_count(side) + ((offset - 1) / 2) as nat;
        if (offset - 1) % 2 == 0 {
            vertex
        } else {
            vertex + line_count(side)
        }
    }
}

/// Whether `indices` is the index list of a mesh of `side` quads a side.
pub open spec fn is_mesh(indices: Seq<u32>, side: nat) -> bool {
    &&& indices.len() == strip_len(side)
    &&& forall|p: int| 0 <= p < indices.len() ==> #[trigger] indices[p] == strip_index_at(side, p as nat)
}

/// Every index but the restart index names a vertex of the mesh, which has
/// `line_count` lines of `line_count` vertices.
pub proof fn lemma_index_names_vertex(side: nat, p: nat)
    requires
        0 < side,
        p < strip_len(side),
    ensures
        strip_index_at(side, p) == RESTART || strip_index_at(side, p) < line_count(side)
            * line_count(side),
{
    let s = stride(side) as int;
    let lc = line_count(side) as int;
    let strip = (p + 1) as int / s;
    let offset = (p + 1) as int % s;
    lemma_fundamental_div_mod((p + 1) as int, s);
    assert(0 <= offset < s);
    assert((p + 1) as int == s * strip + offset);
    assert(side * stride(side) >= 1) by (nonlinear_arith)
        requires
            side >= 1,
            stride(side) >= 1,
    ;
    assert(side * stride(side) == s * side) by (nonlinear_arith)
        requires
            s == stride(side),
    ;
    assert(p + 1 < s * side);
    assert(strip < side) by (nonlinear_arith)
        requires
            s * strip + offset < s * side,
            0 <= offset,
            s > 0,
    ;
    assert(strip >= 0) by (nonlinear_arith)
        requires
            s * strip + offset >= 0,
            offset < s,
            s > 0,
    ;
    if offset != 0 {
        let k = (offset - 1) / 2;
        assert(k < lc);
        assert(strip * lc + k + lc < lc * lc) by (nonlinear_arith)
            requires
                0 <= strip,
                strip + 2 <= lc,
                0 <= k < lc,
        ;
    }
}

/// The index list of a mesh of `side` quads a side.
pub fn strip_indices(side: u32) -> (indices: Vec<u32>)
    requires
        0 < side <= MAX_GRID,
    ensures
        is_mesh(indices@, side as nat),
{
    let lines: u32 = side + 1;
    let ghost s = stride(side as nat) as int;
    let mut indices: Vec<u32> = Vec::new();
    let mut x: u32 = 0;
    while x < side
        invariant
            0 < side <= MAX_GRID,
            lines == side + 1,
            s == 2 * lines + 1,
            s == stride(side as nat),
            x <= side,
            x == 0 ==> indices@.len() == 0,
            x > 0 ==> indices@.len() + 1 == x * s,
            forall|p: int|
                0 <= p < indices@.len() ==> #[trigger] indices@[p] == strip_index_at(
                    side as nat,
                    p as nat,
                ),
        decreases side - x,
    {
        if x != 0 {
            proof {
                let p = indices@.len() as int;
                lemma_fundamental_div_mod_converse(p + 1, s, x as int, 0);
            }
            indices.push(RESTART);
        }
        let mut y: u32 = 0;
        while y < lines
            invariant
                0 < side <= MAX_GRID,
                lines == side + 1,
                s == 2 * lines + 1,
                s == stride(side as nat),
                x < side,
                y <= lines,
                indices@.len() + 1 == x * s + 1 + 2 * y,
                forall|p: int|
                    0 <= p < indices@.len() ==> #[trigger] indices@[p] == strip_index_at(
                        side as nat,
                        p as nat,
                    ),
            decreases lines - y,
        {
            proof {
                assert(x * lines + y + lines <= MAX_GRID * (MAX_GRID + 1) + MAX_GRID + 1) by (nonlinear_arith)
                    requires
                        x < side,
                        side <= MAX_GRID,
                        lines == side + 1,
                        y < lines,
                ;
                let p = indices@.len() as int;
                lemma_fundamental_div_mod_converse(p + 1, s, x as int, 1 + 2 * y);
                lemma_fundamental_div_mod_converse(p + 2, s, x as int, 2 + 2 * y);
                assert(strip_index_at(side as nat, p as nat) == x * lines + y);
                assert(strip_index_at(side as nat, (p + 1) as nat) == x * lines + y + lines);
            }
            indices.push(x * lines + y);
            indices.push(x * lines + y + lines);
            y = y + 1;
        }
        proof {
            assert((x + 1) * s == x * s + s) by (nonlinear_arith);
        }
        x = x + 1;
    }
    indices
}

} // verus!
