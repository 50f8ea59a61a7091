//! Which object a hit-scan shot strikes: the nearest one within reach.
use vstd::prelude::*;
use crate::geometry::Vector3;

verus! {

/// Squared distance between two points.
pub open spec fn dist_sq(a: Vector3, b: Vector3) -> int {
    (a.x - b.x) * (a.x - b.x) + (a.y - b.y) * (a.y - b.y) + (a.z - b.z) * (a.z - b.z)
}

/// Object `i` has a position strictly closer to `origin` than `reach`.
pub open spec fn in_reach(positions: Seq<Option<Vector3>>, origin: Vector3, reach: u32, i: int) -> bool {
    &&& 0 <= i < positions.len()
    &&& positions[i] is Some
    &&& dist_sq(origin, positions[i]->0) < reach * reach
}

/// Object `i` is the one struck: in reach, no object is nearer, and every
/// object before it is farther away.
pub open spec fn struck(positions: Seq<Option<Vector3>>, origin: Vector3, reach: u32, i: int) -> bool {
    &&& in_reach(positions, origin, reach, i)
    &&& forall|j: int|
        0 <= j < positions.len() && positions[j] is Some ==> dist_sq(origin, positions[i]->0) <= dist_sq(
            origin,
            #[trigger] positions[j]->0,
        )
    &&& forall|j: int|
        0 <= j < i && positions[j] is Some ==> dist_sq(origin, positions[i]->0) < dist_sq(
            origin,
            #[trigger] positions[j]->0,
        )
}

fn squared_distance(a: Vector3, b: Vector3) -> (d: i128)
    ensures
        d == dist_sq(a, b),
        d >= 0,
{
    let dx = a.x as i128 - b.x as i128;
    let dy = a.y as i128 - b.y as i128;
    let dz = a.z as i128 - b.z as i128;
    assert(dx * dx <= 0x1_0000_0000_0000_0000 && dx * dx >= 0) by (nonlinear_arith)
        requires
            -0x1_0000_0000 <= dx <= 0x1_0000_0000,
    ;
    assert(dy * dy <= 0x1_0000_0000_0000_0000 && dy * dy >= 0) by (nonlinear_arith)
        requires
            -0x1_0000_0000 <= dy <= 0x1_0000_0000,
    ;
    assert(dz * dz <= 0x1_0000_0000_0000_0000 && dz * dz >= 0) by (nonlinear_arith)
        requires
            -0x1_0000_0000 <= dz <= 0x1_0000_0000,
    ;
    dx * dx + dy * dy + dz * dz
}

/// The object a hit-scan shot from `origin` strikes: of the objects that
/// have a position (`positions[i]` is none for those that have not), the
/// nearest one closer than `reach`, the earliest among equally near ones.
pub fn point_damage_target(origin: Vector3, positions: &[Option<Vector3>], reach: u32) -> (r: Option<usize>)
    ensures
        r is Some <==> exists|i: int| in_reach(positions@, origin, reach, i),
        r matches Some(i) ==> struck(positions@, origin, reach, i as int),
{
    let reach_wide: i128 = reach as i128;
    assert(reach_wide * reach_wide <= 0x1_0000_0000_0000_0000) by (nonlinear_arith)
        requires
            0 <= reach_wide <= u32::MAX,
    ;
    let reach_sq: i128 = reach_wide * reach_wide;
    let mut best: Option<usize> = None;
    let mut best_sq: i128 = reach_sq;
    let mut i: usize = 0;
    while i < positions.len()
        invariant
            i <= positions@.len(),
            reach_sq == reach * reach,
            match best {
                None => best_sq == reach_sq && forall|j: int|
                    0 <= j < i && positions@[j] is Some ==> dist_sq(origin, #[trigger] positions@[j]->0)
                        >= reach_sq,
                Some(b) => {
                    &&& b < i
                    &&& in_reach(positions@, origin, reach, b as int)
                    &&& best_sq == dist_sq(origin, positions@[b as int]->0)
                    &&& forall|j: int|
                        0 <= j < i && positions@[j] is Some ==> best_sq <= dist_sq(
                            origin,
                            #[trigger] positions@[j]->0,
                        )
                    &&& forall|j: int|
                        0 <= j < b && positions@[j] is Some ==> best_sq < dist_sq(
                            origin,
                            #[trigger] positions@[j]->0,
                        )
                },
            },
        decreases positions.len() - i,
    {
        if let Some(p) = positions[i] {
            let d = squared_distance(origin, p);
            if d < best_sq {
                best = Some(i);
                best_sq = d;
            }
        }
        i = i + 1;
    }
    proof {
        if best is None {
            assert forall|k: int| !in_reach(positions@, origin, reach, k) by {
                if 0 <= k < positions@.len() && positions@[k] is Some {
                    assert(dist_sq(origin, positions@[k]->0) >= reach_sq);
                }
            }
        }
    }
    best
}

} // verus!
