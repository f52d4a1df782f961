use sandbox_world::promiser::PIXEL_COLOR;
use sandbox_world::{Promiser, PromiserDraw, PromiserState, Tile, TickDraw, TileMap, TileType};

fn draw(v: u32) -> PromiserDraw {
    PromiserDraw { x: v, vx: v, vy: v, size: v, color: v }
}

fn quiet() -> TickDraw {
    TickDraw { think: 999_999, dwell: 0, nudge: 999_999, impulse: 0 }
}

struct Lcg(u64);

impl Lcg {
    fn next(&mut self) -> u32 {
        self.0 = self.0.wrapping_mul(6364136223846793005).wrapping_add(1442695040888963407);
        ((self.0 >> 33) % 1_000_000) as u32
    }
}

#[test]
fn the_first_entity_is_the_pixel() {
    let p = Promiser::new(0, 10_000, 20_000, &draw(500_000));
    assert!(p.is_pixel());
    assert_eq!(p.size(), 8_000);
    assert_eq!(p.color(), PIXEL_COLOR);
    assert_eq!(p.state(), 0);
    assert_eq!(p.thought(), "");
    let q = Promiser::new(3, 10_000, 20_000, &draw(500_000));
    assert!(!q.is_pixel());
    assert_eq!(q.id(), 3);
    assert_eq!(q.size(), 5_000 + 5_000);
    assert_eq!(q.vx, 0);
    assert_eq!(q.vy, -(75_000 + 50_000));
    assert_eq!(q.color(), 0xFF00_0000 + 0x7F_FFFF);
    assert_eq!((q.x(), q.y()), (10_000, 20_000));
}

#[test]
fn thinking_ends_between_its_shortest_and_longest_stay() {
    let map = TileMap::new(10, 10);
    for (dwell, ticks) in [(0u32, 3), (999_999u32, 5)] {
        let mut p = Promiser::new(1, 100_000, 100_000, &draw(0));
        p.start_thinking();
        let d = TickDraw { dwell, ..quiet() };
        for t in 1..=ticks {
            assert_eq!(p.state, PromiserState::Thinking, "tick {}", t);
            p.update(320_000, 320_000, 1_000_000, &map, &d);
        }
        assert_eq!(p.state, PromiserState::Idle);
        assert_eq!(p.state_timer, 0);
    }
}

#[test]
fn whispering_ends_and_clears_words_and_target() {
    let map = TileMap::new(10, 10);
    let mut p = Promiser::new(1, 100_000, 100_000, &draw(0));
    p.set_whisper("psst".to_string(), 7);
    assert_eq!(p.state(), 3);
    assert_eq!(p.target_id(), 7);
    p.update(320_000, 320_000, 1_000_000, &map, &quiet());
    assert_eq!(p.state(), 3);
    assert_eq!(p.thought(), "psst");
    p.update(320_000, 320_000, 1_000_000, &map, &quiet());
    assert_eq!(p.state(), 0);
    assert_eq!(p.thought(), "");
    assert_eq!(p.target_id(), 0);
}

#[test]
fn speaking_ends_and_clears_words() {
    let map = TileMap::new(10, 10);
    let mut p = Promiser::new(1, 100_000, 100_000, &draw(0));
    p.set_thought("hello".to_string());
    assert_eq!(p.state(), 2);
    for _ in 0..3 {
        p.update(320_000, 320_000, 1_000_000, &map, &quiet());
        assert_eq!(p.thought(), "hello");
    }
    p.update(320_000, 320_000, 1_000_000, &map, &quiet());
    assert_eq!(p.state(), 0);
    assert_eq!(p.thought(), "");
}

#[test]
fn running_doubles_speed_and_slows_on_exit() {
    let map = TileMap::new(10, 10);
    let mut p = Promiser::new(1, 100_000, 100_000, &draw(750_000));
    assert_eq!(p.vx, 50_000);
    p.start_running();
    assert_eq!(p.state(), 4);
    assert_eq!(p.vx, 100_000);
    let mut exited = false;
    for _ in 0..400 {
        p.update(320_000, 320_000, 16_667, &map, &quiet());
        if p.state == PromiserState::Idle {
            exited = true;
            break;
        }
        assert!(p.vx.abs() <= 300_000);
    }
    assert!(exited);
}

#[test]
fn an_idle_entity_may_start_thinking() {
    let map = TileMap::new(10, 10);
    let mut p = Promiser::new(1, 100_000, 100_000, &draw(0));
    p.update(320_000, 320_000, 16_667, &map, &TickDraw { think: 1_999, ..quiet() });
    assert_eq!(p.state, PromiserState::Thinking);
}

#[test]
fn entities_stay_inside_the_world() {
    let mut map = TileMap::new(10, 10);
    for x in 0..10 {
        map.set_tile(x, 0, Tile { tile_type: TileType::Dirt, water_amount: 0, light_energy: 0 });
        map.set_tile(x, 5, Tile { tile_type: TileType::Stone, water_amount: 0, light_energy: 0 });
    }
    map.set_tile(5, 5, Tile { tile_type: TileType::Air, water_amount: 0, light_energy: 0 });
    let mut rng = Lcg(42);
    let mut entities: Vec<Promiser> = (0..8)
        .map(|i| {
            let d = PromiserDraw { x: rng.next(), vx: rng.next(), vy: rng.next(), size: rng.next(), color: rng.next() };
            Promiser::new(i, (d.x as i64) * 320 / 1000, 320_000, &d)
        })
        .collect();
    for tick in 0..3000 {
        for p in entities.iter_mut() {
            if tick % 500 == 0 {
                p.start_running();
            }
            let d = TickDraw { think: rng.next(), dwell: rng.next(), nudge: rng.next(), impulse: rng.next() };
            p.update(320_000, 320_000, 16_667, &map, &d);
            assert!(p.size <= p.x && p.x <= 320_000 - p.size, "x = {}", p.x);
            assert!(p.size <= p.y && p.y <= 320_000 - p.size, "y = {}", p.y);
        }
    }
}

#[test]
fn falling_entity_lands_on_dirt() {
    let mut map = TileMap::new(10, 10);
    for x in 0..10 {
        for y in 0..3 {
            map.set_tile(x, y, Tile { tile_type: TileType::Dirt, water_amount: 0, light_energy: 0 });
        }
    }
    let mut p = Promiser::new(1, 160_000, 200_000, &draw(500_000));
    let calm = TickDraw { think: 999_999, dwell: 0, nudge: 999_999, impulse: 0 };
    for _ in 0..300 {
        p.update(320_000, 320_000, 16_667, &map, &calm);
        assert!(p.y - p.size >= 96_000, "y = {}", p.y);
    }
    assert_eq!(p.vy, 0);
}
