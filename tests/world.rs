use sandbox_world::game::INITIAL_PROMISERS;
use sandbox_world::{
    compute_fibonacci, heavy_computation_sum, GameState, PromiserDraw, RayDraw, SpawnDraw,
    TickDraw,
};

struct Lcg(u64);

impl Lcg {
    fn next(&mut self) -> u32 {
        self.0 = self.0.wrapping_mul(6364136223846793005).wrapping_add(1442695040888963407);
        ((self.0 >> 33) % 1_000_000) as u32
    }

    fn dir(&mut self) -> i32 {
        (self.next() % 2001) as i32 - 1000
    }

    fn promiser(&mut self) -> PromiserDraw {
        PromiserDraw { x: self.next(), vx: self.next(), vy: self.next(), size: self.next(), color: self.next() }
    }
}

fn world(rng: &mut Lcg) -> GameState {
    let draws: Vec<PromiserDraw> = (0..INITIAL_PROMISERS).map(|_| rng.promiser()).collect();
    GameState::new(10, 10, &draws)
}

fn tick(g: &mut GameState, rng: &mut Lcg) {
    let entity: Vec<TickDraw> = (0..g.promiser_count())
        .map(|_| TickDraw { think: rng.next(), dwell: rng.next(), nudge: rng.next(), impulse: rng.next() })
        .collect();
    let rays: Vec<RayDraw> = (0..g.light_rays.len())
        .map(|_| RayDraw { reflect: rng.next(), dir_x: rng.dir(), dir_y: rng.dir() })
        .collect();
    let spawns: Vec<SpawnDraw> = (0..100)
        .map(|_| SpawnDraw { side: rng.next(), along: rng.next(), dir_x: rng.dir(), dir_y: rng.dir() })
        .collect();
    g.tick(&entity, &rays, &spawns);
}

#[test]
fn a_new_world_has_its_population_and_terrain() {
    let mut rng = Lcg(7);
    let g = world(&mut rng);
    assert_eq!(g.promiser_count(), 20);
    assert_eq!(g.next_id, 20);
    assert_eq!((g.world_width, g.world_height), (320_000, 320_000));
    let ids: Vec<u32> = g.promisers.iter().map(|p| p.id()).collect();
    assert_eq!(ids, (0..20).collect::<Vec<u32>>());
    assert!(g.promisers.iter().all(|p| p.y() == 320_000));
    assert_eq!(g.get_tile_at(0, 0), "Dirt");
    assert_eq!(g.get_tile_at(9, 2), "Dirt");
    assert_eq!(g.get_tile_at(0, 3), "Air");
    assert_eq!(g.get_tile_at(2, 5), "Water");
    assert_eq!(g.get_tile_at(8, 9), "Water");
    assert_eq!(g.get_tile_at(9, 5), "Air");
    assert_eq!(g.get_tile_at(1, 5), "Air");
    assert_eq!(g.get_tile_at(5, 4), "Air");
    assert_eq!(g.tile_map().tiles.len(), 100);
}

#[test]
fn the_pixel_survives_ticks_and_churn_until_removed() {
    let mut rng = Lcg(11);
    let mut g = world(&mut rng);
    assert_eq!(g.find_pixel(), Some(0));
    for round in 0..300 {
        tick(&mut g, &mut rng);
        if round % 7 == 0 {
            let draw = rng.promiser();
            g.add_promiser(&draw);
        }
        if round % 11 == 0 {
            let id = 1 + rng.next() % 30;
            g.remove_promiser(id);
        }
        assert_eq!(g.find_pixel(), Some(0), "round {}", round);
        assert_eq!(g.get_pixel_id(), 0);
    }
    assert_eq!(g.promisers.iter().filter(|p| p.is_pixel()).count(), 1);
    g.remove_promiser(0);
    assert_eq!(g.find_pixel(), None);
    assert_eq!(g.get_pixel_id(), 0);
    let draw = rng.promiser();
    g.add_promiser(&draw);
    assert_eq!(g.find_pixel(), None);
}

#[test]
fn ticks_keep_entities_inside_and_light_the_ground() {
    let mut rng = Lcg(3);
    let mut g = world(&mut rng);
    for _ in 0..240 {
        tick(&mut g, &mut rng);
        for p in g.promisers.iter() {
            assert!(p.size() <= p.x() && p.x() <= g.world_width - p.size());
            assert!(p.size() <= p.y() && p.y() <= g.world_height - p.size());
        }
        assert!(g.light_rays.len() <= 10_000);
    }
    assert_eq!(g.tick_count, 240);
    assert!(g.tile_map().tiles.iter().any(|t| t.light_energy > 0));
    assert!(!g.light_rays.is_empty());
}

#[test]
fn tiles_are_placed_by_label() {
    let mut rng = Lcg(5);
    let mut g = world(&mut rng);
    g.place_tile(4, 8, "Stone".to_string());
    assert_eq!(g.get_tile_at(4, 8), "Stone");
    g.place_tile(4, 8, "Foliage".to_string());
    assert_eq!(g.get_tile_at(4, 8), "Foliage");
    g.place_tile(4, 8, "Water".to_string());
    assert_eq!(g.get_tile_at(4, 8), "Water");
    assert_eq!(g.tile_map().get_tile(4, 8).unwrap().water_amount, 1024);
    g.place_tile(0, 0, "Lava".to_string());
    assert_eq!(g.get_tile_at(0, 0), "Air");
    g.place_tile(10, 0, "Stone".to_string());
    assert_eq!(g.get_tile_at(10, 0), "Air");
    assert_eq!(g.get_tile_at(0, 100), "Air");
}

#[test]
fn commands_change_the_named_entity_only() {
    let mut rng = Lcg(9);
    let mut g = world(&mut rng);
    g.make_promiser_think(3);
    assert_eq!(g.promisers[3].state(), 1);
    g.make_promiser_speak(4, "hi".to_string());
    assert_eq!(g.promisers[4].state(), 2);
    assert_eq!(g.promisers[4].thought(), "hi");
    g.make_promiser_whisper(5, "psst".to_string(), 4);
    assert_eq!(g.promisers[5].state(), 3);
    assert_eq!(g.promisers[5].target_id(), 4);
    g.make_promiser_run(6);
    assert_eq!(g.promisers[6].state(), 4);
    assert_eq!(g.promisers[7].state(), 0);
    g.make_promiser_run(99);
    g.remove_promiser(99);
    assert_eq!(g.promiser_count(), 20);
    g.remove_promiser(4);
    assert_eq!(g.promiser_count(), 19);
    assert!(g.promisers.iter().all(|p| p.id() != 4));
}

#[test]
fn random_id_follows_the_draw() {
    let mut rng = Lcg(13);
    let mut g = world(&mut rng);
    assert_eq!(g.get_random_promiser_id(0), 0);
    assert_eq!(g.get_random_promiser_id(999_999), 19);
    assert_eq!(g.get_random_promiser_id(500_000), 10);
    for id in 0..20 {
        g.remove_promiser(id);
    }
    assert_eq!(g.get_random_promiser_id(500_000), 0);
}

#[test]
fn the_first_frame_has_a_nominal_length() {
    let mut rng = Lcg(17);
    let mut g = world(&mut rng);
    let draws = vec![TickDraw { think: 999_999, dwell: 0, nudge: 999_999, impulse: 0 }; 20];
    let before: Vec<i64> = g.promisers.iter().map(|p| p.state_timer as i64).collect();
    g.update(5_000, &draws);
    assert_eq!(g.last_update, 5_000);
    for (p, t) in g.promisers.iter().zip(before) {
        assert_eq!(p.state_timer as i64, t + 16_667);
    }
    g.update(5_010, &draws);
    assert!(g.promisers.iter().all(|p| p.state_timer == 26_667));
}

#[test]
fn water_step_runs_on_command() {
    let mut rng = Lcg(19);
    let mut g = world(&mut rng);
    let total = |g: &GameState| g.tile_map().tiles.iter().map(|t| t.water_amount as u64).sum::<u64>();
    let before = total(&g);
    g.simulate_water();
    assert_eq!(total(&g), before);
    assert_eq!(g.get_tile_at(5, 4), "Water");
    g.simulate_foliage();
    assert_eq!(g.get_tile_at(0, 3), "Air");
}

#[test]
fn fibonacci_numbers() {
    assert_eq!(compute_fibonacci(0), 0);
    assert_eq!(compute_fibonacci(1), 1);
    assert_eq!(compute_fibonacci(10), 55);
    assert_eq!(compute_fibonacci(47), 2_971_215_073);
}

#[test]
fn heavy_computation_wraps() {
    let n: i128 = 10_000_000;
    let exact = (n - 1) * n * (2 * n - 1) / 6;
    assert_eq!(heavy_computation_sum(), exact as i32);
}

#[test]
fn a_world_without_tiles_still_ticks() {
    let mut rng = Lcg(23);
    let draws: Vec<PromiserDraw> = (0..20).map(|_| rng.promiser()).collect();
    let mut g = GameState::new(0, 0, &draws);
    for _ in 0..20 {
        tick(&mut g, &mut rng);
    }
    assert_eq!(g.promiser_count(), 20);
    assert!(g.light_rays.is_empty());
    assert_eq!(g.get_tile_at(0, 0), "Air");
    assert_eq!(g.find_pixel(), Some(0));
}
