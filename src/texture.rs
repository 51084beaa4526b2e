use vstd::prelude::*;

verus! {

/// Which of a checker's two textures colors a cell.
#[derive(Clone, Copy, PartialEq, Eq, Structural, Debug)]
pub enum CheckerSide {
    First,
    Second,
}

/// The side of the cell with indices `(cx, cy, cz)`, where each index is
/// `floor(coordinate / period)` on its axis: cells whose index sum is even
/// take the first texture, the others the second.
pub open spec fn checker_side_of(cx: int, cy: int, cz: int) -> CheckerSide {
    if (cx + cy + cz) % 2 == 0 {
        CheckerSide::First
    } else {
        CheckerSide::Second
    }
}

/// Picks the texture of a checker for the cell with indices `(cx, cy, cz)`.
pub fn checker_side(cx: i64, cy: i64, cz: i64) -> (r: CheckerSide)
    ensures
        r == checker_side_of(cx as int, cy as int, cz as int),
{
    let sum: i128 = cx as i128 + cy as i128 + cz as i128;
    let rem: i128 = sum % 2;
    if rem == 0 {
        CheckerSide::First
    } else {
        CheckerSide::Second
    }
}

/// Stepping one cell along any single axis always switches the texture:
/// neighbouring cells of a checker never share a side.
pub proof fn lemma_checker_alternates(cx: int, cy: int, cz: int)
    ensures
        checker_side_of(cx, cy, cz) != checker_side_of(cx + 1, cy, cz),
        checker_side_of(cx, cy, cz) != checker_side_of(cx, cy + 1, cz),
        checker_side_of(cx, cy, cz) != checker_side_of(cx, cy, cz + 1),
        checker_side_of(cx, cy, cz) != checker_side_of(cx - 1, cy, cz),
        checker_side_of(cx, cy, cz) != checker_side_of(cx, cy - 1, cz),
        checker_side_of(cx, cy, cz) != checker_side_of(cx, cy, cz - 1),
{
}

/// Cells whose index sums have the same parity share a side, those whose
/// sums differ in parity do not.
pub proof fn lemma_checker_parity(ax: int, ay: int, az: int, bx: int, by: int, bz: int)
    ensures
        (checker_side_of(ax, ay, az) == checker_side_of(bx, by, bz)) <==> ((ax + ay + az) - (bx
            + by + bz)) % 2 == 0,
{
}

} // verus!
