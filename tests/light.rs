use sandbox_world::light::{
    decay_light, generate_light_rays, is_valid_spawn_position, update_light_rays, FULL_INTENSITY,
    MAX_LIGHT_RAYS,
};
use sandbox_world::{LightRay, RayDraw, SpawnDraw, Tile, TileMap, TileType};

fn tile(kind: TileType) -> Tile {
    Tile { tile_type: kind, water_amount: 0, light_energy: 0 }
}

const ABSORB: RayDraw = RayDraw { reflect: 999_999, dir_x: 0, dir_y: 1000 };
const REFLECT: RayDraw = RayDraw { reflect: 0, dir_x: 0, dir_y: 5 };

#[test]
fn directions_are_normalised() {
    let up = LightRay::new(0, 0, 0, 0);
    assert_eq!((up.dir_x, up.dir_y), (0, 1000));
    assert_eq!(up.vy(), 100_000);
    let r = LightRay::new(0, 0, 3, 4);
    assert_eq!((r.dir_x, r.dir_y), (600, 800));
    let d = LightRay::new(0, 0, -1, 1);
    assert_eq!((d.dir_x, d.dir_y), (-707, 707));
    let long = LightRay::new(0, 0, 2_000_000_000, 0);
    assert_eq!((long.dir_x, long.dir_y), (1000, 0));
}

#[test]
fn a_ray_moves_at_its_speed() {
    let mut r = LightRay::new(1_000, 2_000, 1000, 0);
    assert_eq!(r.intensity, FULL_INTENSITY);
    assert_eq!(r.vx(), 100_000);
    assert_eq!(r.vy(), 0);
    r.update(1_000_000);
    assert_eq!((r.x, r.y), (101_000, 2_000));
    let mut back = LightRay::new(50_000, 50_000, -600, -800);
    back.update(16_667);
    assert_eq!((back.x, back.y), (50_000 - 1_000, 50_000 - 1_333));
    assert!(!back.is_out_of_bounds(64_000, 64_000));
    assert!(LightRay::new(64_000, 0, 0, 0).is_out_of_bounds(64_000, 64_000));
}

fn two_tiles(right: TileType) -> TileMap {
    let mut m = TileMap::new(2, 1);
    m.set_tile(1, 0, tile(right));
    m
}

#[test]
fn a_solid_tile_absorbs_a_ray() {
    let mut m = two_tiles(TileType::Stone);
    let mut rays = vec![LightRay::new(31_000, 16_000, 1000, 0)];
    update_light_rays(&mut rays, &mut m, 64_000, 32_000, 16_667, &vec![ABSORB]);
    assert!(rays.is_empty());
    assert_eq!(m.tiles[1].light_energy, 1000);
    assert_eq!(m.tiles[0].light_energy, 0);
}

#[test]
fn a_solid_tile_may_reflect_a_ray() {
    let mut m = two_tiles(TileType::Dirt);
    let mut rays = vec![LightRay::new(31_000, 16_000, 1000, 0)];
    update_light_rays(&mut rays, &mut m, 64_000, 32_000, 16_667, &vec![REFLECT]);
    assert_eq!(rays.len(), 1);
    assert_eq!(rays[0].intensity, 500);
    assert_eq!(rays[0].speed, 70_000);
    assert_eq!((rays[0].dir_x, rays[0].dir_y), (0, 1000));
    assert_eq!((rays[0].x, rays[0].y), (32_666, 16_000));
    assert_eq!(m.tiles[1].light_energy, 500);
}

#[test]
fn water_dims_and_slows_a_ray() {
    let mut m = two_tiles(TileType::Water);
    let mut rays = vec![LightRay::new(31_000, 16_000, 1000, 0)];
    update_light_rays(&mut rays, &mut m, 64_000, 32_000, 16_667, &vec![ABSORB]);
    assert_eq!(rays.len(), 1);
    assert_eq!(rays[0].intensity, 950);
    assert_eq!(rays[0].speed, 90_000);
    assert_eq!(m.tiles[1].light_energy, 0);
}

#[test]
fn rays_that_leave_the_world_are_dropped() {
    let mut m = two_tiles(TileType::Air);
    let mut rays = vec![LightRay::new(63_500, 16_000, 1000, 0), LightRay::new(100, 16_000, 1000, 0)];
    update_light_rays(&mut rays, &mut m, 64_000, 32_000, 16_667, &vec![ABSORB, ABSORB]);
    assert_eq!(rays.len(), 1);
    assert_eq!(rays[0].x, 1_766);
}

#[test]
fn rays_spawn_inside_the_drawn_edge() {
    let m = TileMap::new(10, 10);
    let mut rays = Vec::new();
    let draws = vec![
        SpawnDraw { side: 0, along: 500_000, dir_x: 0, dir_y: -1000 },
        SpawnDraw { side: 250_000, along: 250_000, dir_x: -1000, dir_y: 0 },
        SpawnDraw { side: 500_000, along: 0, dir_x: 0, dir_y: 1000 },
        SpawnDraw { side: 999_999, along: 999_999, dir_x: 1000, dir_y: 0 },
    ];
    generate_light_rays(&mut rays, &m, 320_000, 320_000, &draws);
    let starts: Vec<(i64, i64)> = rays.iter().map(|r| (r.x, r.y)).collect();
    assert_eq!(starts, vec![(160_000, 318_000), (318_000, 80_000), (0, 2_000), (2_000, 319_999)]);
}

#[test]
fn rays_do_not_spawn_in_solid_tiles() {
    let mut m = TileMap::new(10, 10);
    m.set_tile(5, 9, tile(TileType::Stone));
    assert!(!is_valid_spawn_position(&m, 320_000, 320_000, 160_000, 318_000));
    assert!(is_valid_spawn_position(&m, 320_000, 320_000, 130_000, 318_000));
    assert!(!is_valid_spawn_position(&m, 320_000, 320_000, -1, 318_000));
    let mut rays = Vec::new();
    generate_light_rays(&mut rays, &m, 320_000, 320_000, &vec![SpawnDraw { side: 0, along: 500_000, dir_x: 0, dir_y: -1000 }]);
    assert!(rays.is_empty());
}

#[test]
fn spawning_is_capped() {
    let m = TileMap::new(10, 10);
    let draw = SpawnDraw { side: 0, along: 500_000, dir_x: 0, dir_y: -1000 };
    let mut rays = Vec::new();
    generate_light_rays(&mut rays, &m, 320_000, 320_000, &vec![draw; 150]);
    assert_eq!(rays.len(), 100);
    let mut full = vec![LightRay::new(1, 1, 0, 0); MAX_LIGHT_RAYS - 3];
    generate_light_rays(&mut full, &m, 320_000, 320_000, &vec![draw; 150]);
    assert_eq!(full.len(), MAX_LIGHT_RAYS);
}

#[test]
fn tiles_glow_and_warm_with_energy_and_fade() {
    let mut t = tile(TileType::Stone);
    assert_eq!(t.brightness(), 100);
    assert_eq!(t.temperature(), 0);
    t.light_energy = 2_000;
    assert_eq!(t.brightness(), 550);
    assert_eq!(t.temperature(), 200);
    let mut m = TileMap::new(2, 1);
    m.set_tile(0, 0, Tile { light_energy: 800, ..tile(TileType::Stone) });
    m.set_tile(1, 0, Tile { light_energy: 7, ..tile(TileType::Air) });
    decay_light(&mut m);
    assert_eq!(m.tiles[0].light_energy, 700);
    assert_eq!(m.tiles[1].light_energy, 7);
}
