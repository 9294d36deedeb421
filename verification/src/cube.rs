//! A fixed test trajectory: two squares joined by an edge, tracing a cube's
//! outline.

use vstd::prelude::*;

use crate::space::Pixel3D;
use crate::space::Point3;

verus! {

/// Points per side of a square run.
pub const SQUARE_SIDE: usize = 11;

/// Points in one full square run.
pub const SQUARE_LEN: usize = 44;

/// Points in the whole cube path.
pub const CUBE_LEN: usize = 99;

/// The `i`-th point of a square at depth `z`: along the top edge left to
/// right, down the right edge, back along the bottom edge, and up the left
/// edge.
pub open spec fn square_point(z: int, color: (u8, u8, u8), i: int) -> Pixel3D {
    let coordinate = if i < 11 {
        Point3 { x: (-5 + i) as i64, y: 5i64, z: z as i64 }
    } else if i < 22 {
        Point3 { x: 5i64, y: (5 - (i - 11)) as i64, z: z as i64 }
    } else if i < 33 {
        Point3 { x: (5 - (i - 22)) as i64, y: -5i64, z: z as i64 }
    } else {
        Point3 { x: -5i64, y: (-5 + (i - 33)) as i64, z: z as i64 }
    };
    Pixel3D { coordinate, color }
}

/// The `i`-th point of the cube path: a red square at depth zero, a green
/// edge receding to depth minus ten, and a blue square there.
pub open spec fn cube_walk_point(i: int) -> Pixel3D {
    if i < 44 {
        square_point(0, (255u8, 0u8, 0u8), i)
    } else if i < 55 {
        Pixel3D {
            coordinate: Point3 { x: -5i64, y: 5i64, z: (0 - (i - 44)) as i64 },
            color: (0u8, 255u8, 0u8),
        }
    } else {
        square_point(-10, (0u8, 0u8, 255u8), i - 55)
    }
}

/// Appends the 44 points of one square run at depth `z` to the path.
fn square(result: &mut Vec<Pixel3D>, z: i64, color: (u8, u8, u8))
    requires
        old(result)@.len() + 44 <= usize::MAX,
    ensures
        final(result)@.len() == old(result)@.len() + 44,
        forall|k: int| 0 <= k < old(result)@.len() ==> final(result)@[k] == old(result)@[k],
        forall|k: int|
            0 <= k < 44 ==> final(result)@[old(result)@.len() + k] == square_point(
                z as int,
                color,
                k,
            ),
{
    let ghost base = result@.len() as int;
    let mut i: usize = 0;
    while i < 44
        invariant
            i <= 44,
            base == old(result)@.len(),
            result@.len() == base + i,
            forall|k: int| 0 <= k < base ==> result@[k] == old(result)@[k],
            forall|k: int| 0 <= k < i ==> #[trigger] result@[base + k] == square_point(z as int, color, k),
        decreases 44 - i,
    {
        let coordinate = if i < 11 {
            Point3 { x: -5 + i as i64, y: 5, z }
        } else if i < 22 {
            Point3 { x: 5, y: 5 - (i as i64 - 11), z }
        } else if i < 33 {
            Point3 { x: 5 - (i as i64 - 22), y: -5, z }
        } else {
            Point3 { x: -5, y: -5 + (i as i64 - 33), z }
        };
        result.push(Pixel3D { coordinate, color });
        proof {
            assert(result@[base + i as int] == square_point(z as int, color, i as int));
        }
        i = i + 1;
    }
}

/// The cube trajectory. The step count is ignored: the path always holds
/// the same 99 points.
pub fn walk(_steps: usize) -> (path: Vec<Pixel3D>)
    ensures
        path@.len() == CUBE_LEN,
        forall|i: int| 0 <= i < CUBE_LEN ==> path@[i] == cube_walk_point(i),
{
    let mut result: Vec<Pixel3D> = Vec::new();
    square(&mut result, 0, (255, 0, 0));
    proof {
        assert forall|k: int| 0 <= k < 44 implies result@[k] == cube_walk_point(k) by {
            assert(result@[0 + k] == square_point(0, (255u8, 0u8, 0u8), k));
        }
    }
    let mut zi: usize = 0;
    while zi < 11
        invariant
            zi <= 11,
            result@.len() == 44 + zi,
            forall|k: int| 0 <= k < 44 ==> result@[k] == cube_walk_point(k),
            forall|k: int| 0 <= k < zi ==> #[trigger] result@[44 + k] == cube_walk_point(44 + k),
        decreases 11 - zi,
    {
        result.push(
            Pixel3D { coordinate: Point3 { x: -5, y: 5, z: -(zi as i64) }, color: (0, 255, 0) },
        );
        zi = zi + 1;
    }
    let ghost before_last = result@;
    square(&mut result, -10, (0, 0, 255));
    proof {
        assert forall|i: int| 0 <= i < CUBE_LEN implies result@[i] == cube_walk_point(i) by {
            if i < 44 {
                assert(before_last[i] == cube_walk_point(i));
                assert(result@[i] == before_last[i]);
            } else if i < 55 {
                assert(before_last[44 + (i - 44)] == cube_walk_point(44 + (i - 44)));
                assert(result@[i] == before_last[i]);
            } else {
                assert(result@[55 + (i - 55)] == square_point(-10, (0u8, 0u8, 255u8), i - 55));
            }
        }
    }
    result
}

} // verus!
