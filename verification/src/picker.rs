//! Voxel ray picking: 3-D DDA traversal against a voxel world.
//!
//! The traversal walks a ray through the voxel grid one boundary at a time:
//! each axis carries the parametric distance to its next voxel boundary
//! (`t_max`) and the distance between boundaries (`t_delta`); every step
//! advances the axis whose boundary is nearest and queries the world at the
//! new voxel. An axis whose direction component is zero never reaches a
//! boundary: its distances are the infinity sentinel (`None`), so the axis
//! is never selected against a finite one, with no special-cased branch.
//!
//! Distances are scaled integers (the caller fixes the scale when it turns
//! a direction into per-axis parameters), so the selection arithmetic is
//! exact and verified. The traversal is bounded by a fixed step budget and
//! checks no world extent: a ray through an all-air world simply exhausts
//! the budget.

use vstd::prelude::*;

verus! {

use crate::coords::GlobalCoord;
use crate::world::World;

/// The fixed step budget of one traversal: after this many voxel steps
/// without a hit the pick gives up and answers `None`.
pub const MAX_TRAVERSAL_STEPS: u32 = 100;

/// Traversal parameters of one axis of a ray.
#[derive(Clone, Copy, Debug)]
pub struct AxisTraversal {
    /// Which way the voxel index moves on this axis: `1` or `-1` (a zero
    /// direction component gets `1`, matching a non-negative component).
    pub step: i32,
    /// `Some((t_max, t_delta))` when the direction component is nonzero:
    /// the scaled parametric distance from the origin to the first boundary
    /// on this axis, and the scaled distance between boundaries. `None`
    /// when the component is zero: no boundary is ever reached.
    pub t: Option<(u64, u64)>,
}

/// Stateless voxel picker.
#[derive(Debug)]
pub struct MousePicker {}

/// Ghost per-axis increments and step signs of a ray.
pub struct DdaRay {
    pub step_x: int,
    pub step_y: int,
    pub step_z: int,
    pub dx: Option<int>,
    pub dy: Option<int>,
    pub dz: Option<int>,
}

/// Ghost state of a traversal: the current voxel, and each axis's scaled
/// distance to its next boundary (`None`: never reached).
pub struct DdaState {
    pub x: int,
    pub y: int,
    pub z: int,
    pub tx: Option<int>,
    pub ty: Option<int>,
    pub tz: Option<int>,
}

/// `a < b` where `None` is the infinity sentinel: infinity is smaller than
/// nothing, and nothing is smaller than infinity.
pub open spec fn t_lt(a: Option<int>, b: Option<int>) -> bool {
    match (a, b) {
        (Some(x), Some(y)) => x < y,
        (Some(_), None) => true,
        (None, _) => false,
    }
}

/// One axis advance: a finite distance grows by the axis's increment; the
/// infinity sentinel stays put.
pub open spec fn t_add(t: Option<int>, d: Option<int>) -> Option<int> {
    match (t, d) {
        (Some(x), Some(inc)) => Some(x + inc),
        _ => None,
    }
}

/// One DDA step: advance the voxel one unit along the axis whose next
/// boundary is nearest, and move that axis's boundary distance forward.
/// Ties fall to the later axis in the x, y, z comparison order.
pub open spec fn dda_advance(ray: DdaRay, st: DdaState) -> DdaState {
    if t_lt(st.tx, st.ty) {
        if t_lt(st.tx, st.tz) {
            DdaState { x: st.x + ray.step_x, tx: t_add(st.tx, ray.dx), ..st }
        } else {
            DdaState { z: st.z + ray.step_z, tz: t_add(st.tz, ray.dz), ..st }
        }
    } else {
        if t_lt(st.ty, st.tz) {
            DdaState { y: st.y + ray.step_y, ty: t_add(st.ty, ray.dy), ..st }
        } else {
            DdaState { z: st.z + ray.step_z, tz: t_add(st.tz, ray.dz), ..st }
        }
    }
}

/// The whole traversal from `st` with `fuel` steps left: step, query the
/// world at the new voxel, stop on the first solid block. Returns how many
/// steps were taken and the first solid voxel, if any: `(fuel, None)` when
/// the budget runs out.
pub open spec fn dda_search(w: World, ray: DdaRay, st: DdaState, fuel: nat) -> (nat, Option<
    (int, int, int),
>)
    decreases fuel,
{
    if fuel == 0 {
        (0, None)
    } else {
        let next = dda_advance(ray, st);
        if w.block_at(next.x, next.y, next.z) is Some {
            (1, Some((next.x, next.y, next.z)))
        } else {
            let sub = dda_search(w, ray, next, (fuel - 1) as nat);
            (sub.0 + 1, sub.1)
        }
    }
}

/// The ghost increments that a triple of axis parameters denotes.
pub open spec fn ray_of(ax: AxisTraversal, ay: AxisTraversal, az: AxisTraversal) -> DdaRay {
    DdaRay {
        step_x: ax.step as int,
        step_y: ay.step as int,
        step_z: az.step as int,
        dx: match ax.t {
            Some(t) => Some(t.1 as int),
            None => None,
        },
        dy: match ay.t {
            Some(t) => Some(t.1 as int),
            None => None,
        },
        dz: match az.t {
            Some(t) => Some(t.1 as int),
            None => None,
        },
    }
}

/// The ghost start state that an origin voxel and a triple of axis
/// parameters denote.
pub open spec fn start_of(
    origin: GlobalCoord,
    ax: AxisTraversal,
    ay: AxisTraversal,
    az: AxisTraversal,
) -> DdaState {
    DdaState {
        x: origin.x as int,
        y: origin.y as int,
        z: origin.z as int,
        tx: match ax.t {
            Some(t) => Some(t.0 as int),
            None => None,
        },
        ty: match ay.t {
            Some(t) => Some(t.0 as int),
            None => None,
        },
        tz: match az.t {
            Some(t) => Some(t.0 as int),
            None => None,
        },
    }
}

/// The value a running distance denotes.
pub open spec fn t_view(t: Option<u128>) -> Option<int> {
    match t {
        Some(v) => Some(v as int),
        None => None,
    }
}

/// `a < b` on running distances, `None` the infinity sentinel.
fn t_less(a: Option<u128>, b: Option<u128>) -> (r: bool)
    ensures
        r == t_lt(t_view(a), t_view(b)),
{
    match (a, b) {
        (Some(x), Some(y)) => x < y,
        (Some(_), None) => true,
        (None, _) => false,
    }
}

/// Law: in an all-air world a traversal finds nothing and uses its whole
/// step budget: exactly `fuel` steps, never fewer, and no result.
pub proof fn lemma_dda_all_air(w: World, ray: DdaRay, st: DdaState, fuel: nat)
    requires
        forall|x: int, y: int, z: int| #[trigger] w.block_at(x, y, z) is None,
    ensures
        dda_search(w, ray, st, fuel) == (fuel, None::<(int, int, int)>),
    decreases fuel,
{
    if fuel > 0 {
        lemma_dda_all_air(w, ray, dda_advance(ray, st), (fuel - 1) as nat);
    }
}

/// A world that stores no chunks at all is all air.
pub proof fn lemma_empty_world_all_air(w: World)
    requires
        w.chunks@.len() == 0,
    ensures
        forall|x: int, y: int, z: int| #[trigger] w.block_at(x, y, z) is None,
{
    assert forall|x: int, y: int, z: int| #[trigger] w.block_at(x, y, z) is None by {
        assert(w.chunk_entries().len() == 0);
        assert(w.chunk_map() =~= Map::empty());
    }
}

/// Law: whatever the ray, a returned voxel is solid: the traversal answers
/// `Some` only at a position where the world holds a block.
pub proof fn lemma_dda_hit_is_solid(w: World, ray: DdaRay, st: DdaState, fuel: nat)
    ensures
        dda_search(w, ray, st, fuel).1 matches Some(p) ==> w.block_at(p.0, p.1, p.2) is Some,
    decreases fuel,
{
    if fuel > 0 {
        lemma_dda_hit_is_solid(w, ray, dda_advance(ray, st), (fuel - 1) as nat);
    }
}

/// Law: a ray that only ever steps along `+x` (both other axes hold the
/// infinity sentinel), aimed at a solid block `d` voxels ahead with only
/// air between, finds exactly that block, after exactly `d` steps.
pub proof fn lemma_dda_straight_x(w: World, ray: DdaRay, st: DdaState, d: nat, fuel: nat)
    requires
        ray.step_x == 1,
        ray.dx is Some,
        st.tx is Some,
        st.ty is None,
        st.tz is None,
        1 <= d <= fuel,
        forall|x: int| st.x < x < st.x + d ==> #[trigger] w.block_at(x, st.y, st.z) is None,
        w.block_at(st.x + d, st.y, st.z) is Some,
    ensures
        dda_search(w, ray, st, fuel) == (d, Some((st.x + d, st.y, st.z))),
    decreases d,
{
    let next = dda_advance(ray, st);
    assert(t_lt(st.tx, st.ty) && t_lt(st.tx, st.tz));
    assert(next.x == st.x + 1 && next.y == st.y && next.z == st.z);
    assert(next.tx is Some && next.ty is None && next.tz is None);
    if d == 1 {
        assert(w.block_at(next.x, next.y, next.z) is Some);
    } else {
        assert(w.block_at(next.x, next.y, next.z) is None);
        assert forall|x: int| next.x < x < next.x + (d - 1) implies #[trigger] w.block_at(
            x,
            next.y,
            next.z,
        ) is None by {
            assert(w.block_at(x, st.y, st.z) is None);
        }
        lemma_dda_straight_x(w, ray, next, (d - 1) as nat, (fuel - 1) as nat);
    }
}

impl MousePicker {
    /// Walks the ray described by `origin` and the three axis parameter
    /// triples through the world and returns the first solid voxel struck,
    /// or `None` once the fixed step budget is exhausted — whether the ray
    /// left the populated world or the world is simply all air.
    pub fn pick_voxel(
        world: &World,
        origin: GlobalCoord,
        ax: AxisTraversal,
        ay: AxisTraversal,
        az: AxisTraversal,
    ) -> (r: Option<GlobalCoord>)
        requires
            world.wf(),
            ax.step == 1 || ax.step == -1,
            ay.step == 1 || ay.step == -1,
            az.step == 1 || az.step == -1,
            i32::MIN <= origin.x - MAX_TRAVERSAL_STEPS,
            i32::MIN <= origin.y - MAX_TRAVERSAL_STEPS,
            i32::MIN <= origin.z - MAX_TRAVERSAL_STEPS,
            origin.x + MAX_TRAVERSAL_STEPS <= i32::MAX,
            origin.y + MAX_TRAVERSAL_STEPS <= i32::MAX,
            origin.z + MAX_TRAVERSAL_STEPS <= i32::MAX,
        ensures
            ({
                let full = dda_search(
                    *world,
                    ray_of(ax, ay, az),
                    start_of(origin, ax, ay, az),
                    MAX_TRAVERSAL_STEPS as nat,
                );
                match r {
                    Some(g) => full.1 == Some((g.x as int, g.y as int, g.z as int))
                        && world.block_at(g.x as int, g.y as int, g.z as int) is Some,
                    None => full.1 is None,
                }
            }),
    {
        let ghost ray = ray_of(ax, ay, az);
        let ghost st0 = start_of(origin, ax, ay, az);
        let ghost full = dda_search(*world, ray, st0, MAX_TRAVERSAL_STEPS as nat);

        let mut cx: i32 = origin.x;
        let mut cy: i32 = origin.y;
        let mut cz: i32 = origin.z;
        let mut tmx: Option<u128> = match ax.t {
            Some(t) => Some(t.0 as u128),
            None => None,
        };
        let mut tmy: Option<u128> = match ay.t {
            Some(t) => Some(t.0 as u128),
            None => None,
        };
        let mut tmz: Option<u128> = match az.t {
            Some(t) => Some(t.0 as u128),
            None => None,
        };
        let tdx: Option<u64> = match ax.t {
            Some(t) => Some(t.1),
            None => None,
        };
        let tdy: Option<u64> = match ay.t {
            Some(t) => Some(t.1),
            None => None,
        };
        let tdz: Option<u64> = match az.t {
            Some(t) => Some(t.1),
            None => None,
        };

        let mut counter: u32 = 0;
        let mut found: Option<GlobalCoord> = None;
        while found.is_none() && counter < MAX_TRAVERSAL_STEPS
            invariant
                world.wf(),
                counter <= MAX_TRAVERSAL_STEPS,
                ray == ray_of(ax, ay, az),
                st0 == start_of(origin, ax, ay, az),
                full == dda_search(*world, ray, st0, MAX_TRAVERSAL_STEPS as nat),
                ax.step == 1 || ax.step == -1,
                ay.step == 1 || ay.step == -1,
                az.step == 1 || az.step == -1,
                i32::MIN <= origin.x - MAX_TRAVERSAL_STEPS,
                i32::MIN <= origin.y - MAX_TRAVERSAL_STEPS,
                i32::MIN <= origin.z - MAX_TRAVERSAL_STEPS,
                origin.x + MAX_TRAVERSAL_STEPS <= i32::MAX,
                origin.y + MAX_TRAVERSAL_STEPS <= i32::MAX,
                origin.z + MAX_TRAVERSAL_STEPS <= i32::MAX,
                origin.x - counter <= cx <= origin.x + counter,
                origin.y - counter <= cy <= origin.y + counter,
                origin.z - counter <= cz <= origin.z + counter,
                t_view(tmx) is Some <==> ray.dx is Some,
                t_view(tmy) is Some <==> ray.dy is Some,
                t_view(tmz) is Some <==> ray.dz is Some,
                tdx == (match ray.dx {
                    Some(d) => Some(d as u64),
                    None => None::<u64>,
                }),
                tdy == (match ray.dy {
                    Some(d) => Some(d as u64),
                    None => None::<u64>,
                }),
                tdz == (match ray.dz {
                    Some(d) => Some(d as u64),
                    None => None::<u64>,
                }),
                ray.dx matches Some(d) ==> 0 <= d <= u64::MAX,
                ray.dy matches Some(d) ==> 0 <= d <= u64::MAX,
                ray.dz matches Some(d) ==> 0 <= d <= u64::MAX,
                tmx matches Some(v) ==> v <= u64::MAX + counter * (u64::MAX as int),
                tmy matches Some(v) ==> v <= u64::MAX + counter * (u64::MAX as int),
                tmz matches Some(v) ==> v <= u64::MAX + counter * (u64::MAX as int),
                ({
                    let cur = DdaState {
                        x: cx as int,
                        y: cy as int,
                        z: cz as int,
                        tx: t_view(tmx),
                        ty: t_view(tmy),
                        tz: t_view(tmz),
                    };
                    match found {
                        None => {
                            let sub = dda_search(
                                *world,
                                ray,
                                cur,
                                (MAX_TRAVERSAL_STEPS - counter) as nat,
                            );
                            full.0 == counter + sub.0 && full.1 == sub.1
                        },
                        Some(g) => full == (
                            counter as nat,
                            Some((g.x as int, g.y as int, g.z as int)),
                        ),
                    }
                }),
            decreases MAX_TRAVERSAL_STEPS - counter + (if found.is_none() {
                1int
            } else {
                0int
            }),
        {
            let ghost prev = DdaState {
                x: cx as int,
                y: cy as int,
                z: cz as int,
                tx: t_view(tmx),
                ty: t_view(tmy),
                tz: t_view(tmz),
            };
            if t_less(tmx, tmy) {
                if t_less(tmx, tmz) {
                    cx = cx + ax.step;
                    tmx = match (tmx, tdx) {
                        (Some(v), Some(d)) => Some(v + (d as u128)),
                        _ => None,
                    };
                } else {
                    cz = cz + az.step;
                    tmz = match (tmz, tdz) {
                        (Some(v), Some(d)) => Some(v + (d as u128)),
                        _ => None,
                    };
                }
            } else {
                if t_less(tmy, tmz) {
                    cy = cy + ay.step;
                    tmy = match (tmy, tdy) {
                        (Some(v), Some(d)) => Some(v + (d as u128)),
                        _ => None,
                    };
                } else {
                    cz = cz + az.step;
                    tmz = match (tmz, tdz) {
                        (Some(v), Some(d)) => Some(v + (d as u128)),
                        _ => None,
                    };
                }
            }
            counter = counter + 1;
            proof {
                let cur = DdaState {
                    x: cx as int,
                    y: cy as int,
                    z: cz as int,
                    tx: t_view(tmx),
                    ty: t_view(tmy),
                    tz: t_view(tmz),
                };
                assert(cur == dda_advance(ray, prev));
            }
            let g = GlobalCoord { x: cx, y: cy, z: cz };
            match world.lookup(g) {
                Some(_) => {
                    found = Some(g);
                },
                None => {},
            }
        }
        proof {
            if found is None {
                assert(counter == MAX_TRAVERSAL_STEPS);
            }
            lemma_dda_hit_is_solid(*world, ray, st0, MAX_TRAVERSAL_STEPS as nat);
        }
        found
    }
}

} // verus!
