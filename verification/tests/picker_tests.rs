use cgmath::{InnerSpace, SquareMatrix};
use kuberirust::coords::{ChunkCoord, GlobalCoord, LocalCoord};
use kuberirust::picker::{AxisTraversal, MousePicker};
use kuberirust::world::{Block, BlockType, Chunk, World};

/// Fixed-point scale for the traversal's parametric distances.
const SCALE: f64 = 4294967296.0;

/// Turns one world-space direction component and the camera's fractional
/// offset within its voxel into the axis's traversal parameters, exactly as
/// the interaction layer does before calling the picker.
fn axis_of(dir: f32, frac: f64) -> AxisTraversal {
    let step: i32 = if dir >= 0.0 { 1 } else { -1 };
    if dir == 0.0 {
        AxisTraversal { step, t: None }
    } else {
        let inv = 1.0f64 / (dir.abs() as f64);
        let boundary = if step > 0 {
            1.0 - frac
        } else if frac == 0.0 {
            1.0
        } else {
            frac
        };
        AxisTraversal {
            step,
            t: Some(((boundary * inv * SCALE) as u64, (inv * SCALE) as u64)),
        }
    }
}

fn stone_at(world: &mut World, chunk_coord: ChunkCoord, local: LocalCoord) {
    let mut chunk = Chunk::new();
    chunk.insert_block(local, Block { blocktype: BlockType::STONE });
    world.insert_chunk(chunk_coord, chunk);
}

#[test]
fn straight_ray_hits_block_d_voxels_away() {
    // A ray from (0,0,0) pointing exactly along +x, with a stone block 3
    // voxels away and only air between, lands exactly on that block.
    let mut world = World::new(16);
    stone_at(&mut world, ChunkCoord { x: 0, y: 0, z: 0 }, LocalCoord { x: 3, y: 0, z: 0 });
    let origin = GlobalCoord { x: 0, y: 0, z: 0 };
    let moving = AxisTraversal { step: 1, t: Some((1 << 32, 1 << 32)) };
    let halted = AxisTraversal { step: 1, t: None };
    let hit = MousePicker::pick_voxel(&world, origin, moving, halted, halted);
    assert_eq!(hit, Some(GlobalCoord { x: 3, y: 0, z: 0 }));
}

#[test]
fn ray_does_not_see_blocks_off_its_line() {
    // Same ray, but the only block sits one voxel off the line: no hit.
    let mut world = World::new(16);
    stone_at(&mut world, ChunkCoord { x: 0, y: 0, z: 0 }, LocalCoord { x: 3, y: 1, z: 0 });
    let origin = GlobalCoord { x: 0, y: 0, z: 0 };
    let moving = AxisTraversal { step: 1, t: Some((1 << 32, 1 << 32)) };
    let halted = AxisTraversal { step: 1, t: None };
    assert_eq!(MousePicker::pick_voxel(&world, origin, moving, halted, halted), None);
}

#[test]
fn negative_direction_steps_downward() {
    let mut world = World::new(16);
    stone_at(&mut world, ChunkCoord { x: -1, y: 0, z: 0 }, LocalCoord { x: 14, y: 0, z: 0 });
    let origin = GlobalCoord { x: 0, y: 0, z: 0 };
    let moving = AxisTraversal { step: -1, t: Some((1 << 32, 1 << 32)) };
    let halted = AxisTraversal { step: 1, t: None };
    let hit = MousePicker::pick_voxel(&world, origin, moving, halted, halted);
    assert_eq!(hit, Some(GlobalCoord { x: -2, y: 0, z: 0 }));
}

#[test]
fn all_air_world_exhausts_the_step_budget() {
    // No chunk anywhere: the traversal runs its full budget and gives up.
    let world = World::new(4);
    let origin = GlobalCoord { x: 0, y: 0, z: 0 };
    let moving = AxisTraversal { step: 1, t: Some((1 << 32, 1 << 32)) };
    let halted = AxisTraversal { step: 1, t: None };
    assert_eq!(MousePicker::pick_voxel(&world, origin, moving, halted, halted), None);
    // A block beyond the 100-step budget is out of reach.
    let mut far = World::new(16);
    stone_at(&mut far, ChunkCoord { x: 7, y: 0, z: 0 }, LocalCoord { x: 5, y: 0, z: 0 });
    assert_eq!(MousePicker::pick_voxel(&far, origin, moving, halted, halted), None);
    // One step closer (x = 100) is within it.
    let mut near = World::new(16);
    stone_at(&mut near, ChunkCoord { x: 6, y: 0, z: 0 }, LocalCoord { x: 4, y: 0, z: 0 });
    assert_eq!(
        MousePicker::pick_voxel(&near, origin, moving, halted, halted),
        Some(GlobalCoord { x: 100, y: 0, z: 0 })
    );
}

#[test]
fn end_to_end_center_pick() {
    // World with one chunk at (0,0,0), chunk size 3, a single stone block
    // at local (1,1,1); camera at (1,1,-5) looking toward +z; mouse at the
    // viewport center. The picker returns exactly that block.
    let mut world = World::new(3);
    stone_at(&mut world, ChunkCoord { x: 0, y: 0, z: 0 }, LocalCoord { x: 1, y: 1, z: 1 });

    let width: f64 = 800.0;
    let height: f64 = 600.0;
    let mouse_x: f64 = width / 2.0;
    let mouse_y: f64 = height / 2.0;
    let camera = cgmath::Point3::new(1.0f32, 1.0, -5.0);

    // Screen to normalized device coordinates (y flipped: pixels grow
    // downward, device coordinates grow upward).
    let ndc_x = (2.0 * mouse_x / width - 1.0) as f32;
    let ndc_y = (1.0 - 2.0 * mouse_y / height) as f32;

    // Clip-space point on the near plane, through the inverse projection.
    let projection = cgmath::perspective(cgmath::Deg(45.0f32), (width / height) as f32, 0.1, 100.0);
    let ray_clip = cgmath::Vector4::new(ndc_x, ndc_y, -1.0, 1.0);
    let ray_eye = projection.invert().unwrap() * ray_clip;
    // A pure direction: overwrite z and w.
    let ray_eye = cgmath::Vector4::new(ray_eye.x, ray_eye.y, -1.0, 0.0);

    // Eye to world, then normalize.
    let view = cgmath::Matrix4::look_to_rh(
        camera,
        cgmath::Vector3::new(0.0f32, 0.0, 1.0),
        cgmath::Vector3::unit_y(),
    );
    let ray_wor4 = view.invert().unwrap() * ray_eye;
    let dir = cgmath::Vector3::new(ray_wor4.x, ray_wor4.y, ray_wor4.z).normalize();

    // The ray starts in the voxel containing the camera.
    let origin = GlobalCoord {
        x: camera.x.floor() as i32,
        y: camera.y.floor() as i32,
        z: camera.z.floor() as i32,
    };
    let frac_x = (camera.x as f64) - (camera.x as f64).floor();
    let frac_y = (camera.y as f64) - (camera.y as f64).floor();
    let frac_z = (camera.z as f64) - (camera.z as f64).floor();

    let hit = MousePicker::pick_voxel(
        &world,
        origin,
        axis_of(dir.x, frac_x),
        axis_of(dir.y, frac_y),
        axis_of(dir.z, frac_z),
    );
    assert_eq!(hit, Some(GlobalCoord { x: 1, y: 1, z: 1 }));
}
