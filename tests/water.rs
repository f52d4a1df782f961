use sandbox_world::foliage::simulate_foliage_step;
use sandbox_world::water::simulate_water_with_seepage;
use sandbox_world::{simulate_water_step, Tile, TileMap, TileType, MAX_WATER_AMOUNT};

fn tile(kind: TileType, amount: u16) -> Tile {
    Tile { tile_type: kind, water_amount: amount, light_energy: 0 }
}

fn total_water(m: &TileMap) -> u64 {
    m.tiles.iter().map(|t| t.water_amount as u64).sum()
}

fn at(m: &TileMap, x: usize, y: usize) -> Tile {
    *m.get_tile(x, y).unwrap()
}

#[test]
fn water_falls_into_air_below() {
    let mut m = TileMap::new(1, 2);
    m.set_tile(0, 1, tile(TileType::Water, MAX_WATER_AMOUNT));
    simulate_water_step(&mut m);
    assert_eq!(at(&m, 0, 0), tile(TileType::Water, MAX_WATER_AMOUNT));
    assert_eq!(at(&m, 0, 1), tile(TileType::Air, 0));
}

#[test]
fn water_fills_only_the_room_below() {
    let mut m = TileMap::new(1, 2);
    m.set_tile(0, 0, tile(TileType::Water, 1000));
    m.set_tile(0, 1, tile(TileType::Water, 100));
    simulate_water_step(&mut m);
    assert_eq!(at(&m, 0, 0).water_amount, 1024);
    assert_eq!(at(&m, 0, 1).water_amount, 76);
}

#[test]
fn sideways_flow_halves_the_difference() {
    // Left first: the excess over (100 + 0) / 2 moves, then the excess over
    // (50 + 0) / 2 moves right.
    let mut m = TileMap::new(3, 1);
    m.set_tile(1, 0, tile(TileType::Water, 100));
    simulate_water_step(&mut m);
    assert_eq!(at(&m, 0, 0), tile(TileType::Water, 50));
    assert_eq!(at(&m, 1, 0), tile(TileType::Water, 25));
    assert_eq!(at(&m, 2, 0), tile(TileType::Water, 25));
}

#[test]
fn odd_difference_moves_the_larger_half() {
    let mut m = TileMap::new(2, 1);
    m.set_tile(0, 0, tile(TileType::Water, 5));
    simulate_water_step(&mut m);
    assert_eq!(at(&m, 0, 0).water_amount, 2);
    assert_eq!(at(&m, 1, 0).water_amount, 3);
}

#[test]
fn stone_blocks_water() {
    let mut m = TileMap::new(2, 2);
    m.set_tile(0, 0, tile(TileType::Stone, 0));
    m.set_tile(1, 1, tile(TileType::Stone, 0));
    m.set_tile(0, 1, tile(TileType::Water, 300));
    simulate_water_step(&mut m);
    assert_eq!(at(&m, 0, 1), tile(TileType::Water, 300));
    assert_eq!(at(&m, 0, 0), tile(TileType::Stone, 0));
    assert_eq!(at(&m, 1, 1), tile(TileType::Stone, 0));
}

#[test]
fn dirt_soaks_up_a_little_water() {
    let mut m = TileMap::new(1, 2);
    m.set_tile(0, 0, tile(TileType::Dirt, 0));
    m.set_tile(0, 1, tile(TileType::Water, 100));
    simulate_water_with_seepage(&mut m);
    assert_eq!(at(&m, 0, 0), tile(TileType::Dirt, 4));
    assert_eq!(at(&m, 0, 1), tile(TileType::Water, 96));

    let mut side = TileMap::new(2, 1);
    side.set_tile(0, 0, tile(TileType::Water, 100));
    side.set_tile(1, 0, tile(TileType::Dirt, 255));
    simulate_water_with_seepage(&mut side);
    assert_eq!(at(&side, 1, 0), tile(TileType::Dirt, 256));
    assert_eq!(at(&side, 0, 0), tile(TileType::Water, 99));
}

#[test]
fn dirt_is_a_wall_without_seepage() {
    let mut m = TileMap::new(2, 2);
    m.set_tile(0, 0, tile(TileType::Dirt, 0));
    m.set_tile(1, 1, tile(TileType::Dirt, 10));
    m.set_tile(0, 1, tile(TileType::Water, 100));
    simulate_water_step(&mut m);
    assert_eq!(at(&m, 0, 0), tile(TileType::Dirt, 0));
    assert_eq!(at(&m, 1, 1), tile(TileType::Dirt, 10));
    assert_eq!(at(&m, 0, 1), tile(TileType::Water, 100));
}

#[test]
fn moisture_never_passes_its_cap() {
    // Dirt at 255 with water above, to the left and to the right: the tile
    // above fills the one unit of room, the neighbours get none.
    let mut m = TileMap::new(3, 2);
    m.set_tile(1, 0, tile(TileType::Dirt, 255));
    m.set_tile(0, 0, tile(TileType::Water, 50));
    m.set_tile(2, 0, tile(TileType::Water, 50));
    m.set_tile(1, 1, tile(TileType::Water, 50));
    simulate_water_with_seepage(&mut m);
    assert_eq!(at(&m, 1, 0), tile(TileType::Dirt, 256));
    assert_eq!(total_water(&m), 150 + 255);

    // Room for three: the tile above takes its full four-unit share first.
    let mut n = TileMap::new(3, 2);
    n.set_tile(1, 0, tile(TileType::Dirt, 253));
    n.set_tile(0, 0, tile(TileType::Water, 50));
    n.set_tile(2, 0, tile(TileType::Water, 50));
    n.set_tile(1, 1, tile(TileType::Water, 50));
    simulate_water_with_seepage(&mut n);
    assert_eq!(at(&n, 1, 0), tile(TileType::Dirt, 256));

    // Room for five: above takes four, the right neighbour one, the left none.
    let mut k = TileMap::new(3, 2);
    k.set_tile(1, 0, tile(TileType::Dirt, 251));
    k.set_tile(0, 0, tile(TileType::Water, 50));
    k.set_tile(2, 0, tile(TileType::Water, 50));
    k.set_tile(1, 1, tile(TileType::Water, 50));
    simulate_water_with_seepage(&mut k);
    assert_eq!(at(&k, 1, 0), tile(TileType::Dirt, 256));
    assert_eq!(at(&k, 2, 0).water_amount, 49);
    assert_eq!(at(&k, 0, 0).water_amount, 50);
}

#[test]
fn water_without_dirt_is_conserved() {
    let mut m = TileMap::new(5, 4);
    m.set_tile(2, 3, tile(TileType::Water, 700));
    m.set_tile(1, 2, tile(TileType::Water, 300));
    m.set_tile(3, 0, tile(TileType::Stone, 0));
    m.set_tile(4, 1, tile(TileType::Water, 1024));
    let before = total_water(&m);
    for _ in 0..5 {
        simulate_water_step(&mut m);
        assert_eq!(total_water(&m), before);
    }
}

#[test]
fn free_water_lost_equals_moisture_gained() {
    let mut m = TileMap::new(3, 2);
    for x in 0..3 {
        m.set_tile(x, 0, tile(TileType::Dirt, 0));
    }
    m.set_tile(1, 1, tile(TileType::Water, 500));
    let before = total_water(&m);
    simulate_water_with_seepage(&mut m);
    let moisture: u64 = (0..3).map(|x| at(&m, x, 0).water_amount as u64).sum();
    assert_eq!(moisture, 4);
    assert_eq!(total_water(&m), before);
}

fn scenario_grid(column_major: bool) -> TileMap {
    let mut m = TileMap::new(6, 4);
    let mut cells = Vec::new();
    for y in 0..4 {
        for x in 0..6 {
            let kind = if x == 0 || x == 5 || y == 0 {
                TileType::Stone
            } else if (y + x) % 3 == 0 {
                TileType::Water
            } else {
                TileType::Air
            };
            let amount = if kind == TileType::Water { (100 * (x + y)) as u16 } else { 0 };
            cells.push((x, y, tile(kind, amount)));
        }
    }
    if column_major {
        cells.sort_by_key(|(x, y, _)| (*x, *y));
    }
    for (x, y, t) in cells {
        m.set_tile(x, y, t);
    }
    m
}

#[test]
fn step_result_does_not_depend_on_how_the_grid_was_built() {
    let mut a = scenario_grid(false);
    let mut b = scenario_grid(true);
    assert_eq!(a.tiles, b.tiles);
    for _ in 0..4 {
        simulate_water_step(&mut a);
        simulate_water_step(&mut b);
        assert_eq!(a.tiles, b.tiles);
    }
}

#[test]
fn settled_pool_is_a_fixed_point() {
    // Two full rows and an even top row of 300, between Stone walls, on a
    // Stone floor, with Air above.
    let mut m = TileMap::new(6, 6);
    for y in 0..6 {
        m.set_tile(0, y, tile(TileType::Stone, 0));
        m.set_tile(5, y, tile(TileType::Stone, 0));
    }
    for x in 1..5 {
        m.set_tile(x, 0, tile(TileType::Stone, 0));
        m.set_tile(x, 1, tile(TileType::Water, MAX_WATER_AMOUNT));
        m.set_tile(x, 2, tile(TileType::Water, MAX_WATER_AMOUNT));
        m.set_tile(x, 3, tile(TileType::Water, 300));
    }
    let before = m.tiles.clone();
    simulate_water_step(&mut m);
    assert_eq!(m.tiles, before);
    simulate_water_with_seepage(&mut m);
    assert_eq!(m.tiles, before);
}

#[test]
fn a_pool_on_dry_dirt_rests_when_dirt_is_a_wall() {
    let mut m = TileMap::new(5, 3);
    for x in 0..5 {
        m.set_tile(x, 0, tile(TileType::Dirt, 0));
    }
    m.set_tile(0, 1, tile(TileType::Dirt, 0));
    m.set_tile(4, 1, tile(TileType::Dirt, 0));
    for x in 1..4 {
        m.set_tile(x, 1, tile(TileType::Water, 700));
    }
    let before = m.tiles.clone();
    simulate_water_step(&mut m);
    assert_eq!(m.tiles, before);
}

#[test]
fn water_block_settles_on_dirt_floor() {
    let mut m = TileMap::new(10, 10);
    for x in 0..10 {
        m.set_tile(x, 0, tile(TileType::Dirt, 0));
        m.set_tile(x, 1, tile(TileType::Dirt, 0));
    }
    for x in 4..7 {
        for y in 4..7 {
            m.set_tile(x, y, tile(TileType::Water, MAX_WATER_AMOUNT));
        }
    }
    let before = total_water(&m);
    assert_eq!(before, 9 * 1024);
    for _ in 0..400 {
        simulate_water_step(&mut m);
    }
    for y in 3..10 {
        for x in 0..10 {
            assert_eq!(at(&m, x, y), tile(TileType::Air, 0), "water left at ({}, {})", x, y);
        }
    }
    for y in 0..2 {
        for x in 0..10 {
            assert_eq!(at(&m, x, y), tile(TileType::Dirt, 0));
        }
    }
    let row: Vec<u16> = (0..10).map(|x| at(&m, x, 2).water_amount).collect();
    for x in 0..10 {
        assert_eq!(at(&m, x, 2).tile_type, TileType::Water, "row {:?}", row);
    }
    let max = *row.iter().max().unwrap();
    let min = *row.iter().min().unwrap();
    assert!(max - min <= 2, "row {:?}", row);
    // Water is never created; some is lost on the steps in which a tile is
    // poured into from several sides beyond its capacity.
    assert!(total_water(&m) <= before);
}

#[test]
fn inflow_beyond_capacity_is_clamped() {
    let mut m = TileMap::new(3, 2);
    m.set_tile(0, 0, tile(TileType::Water, MAX_WATER_AMOUNT));
    m.set_tile(2, 0, tile(TileType::Water, MAX_WATER_AMOUNT));
    m.set_tile(1, 1, tile(TileType::Water, MAX_WATER_AMOUNT));
    simulate_water_step(&mut m);
    assert_eq!(at(&m, 1, 0), tile(TileType::Water, MAX_WATER_AMOUNT));
    assert_eq!(at(&m, 0, 0).water_amount, 512);
    assert_eq!(at(&m, 2, 0).water_amount, 512);
    assert_eq!(at(&m, 1, 1), tile(TileType::Air, 0));
    assert_eq!(total_water(&m), 2048);
}

#[test]
fn foliage_grows_on_moist_dirt_and_dies_on_dry_dirt() {
    let mut m = TileMap::new(3, 2);
    m.set_tile(0, 0, tile(TileType::Dirt, 128));
    m.set_tile(1, 0, tile(TileType::Dirt, 127));
    m.set_tile(2, 0, tile(TileType::Dirt, 10));
    m.set_tile(2, 1, tile(TileType::Foliage, 0));
    simulate_foliage_step(&mut m);
    let mut on_stone = TileMap::new(1, 2);
    on_stone.set_tile(0, 0, tile(TileType::Stone, 0));
    on_stone.set_tile(0, 1, tile(TileType::Foliage, 0));
    simulate_foliage_step(&mut on_stone);
    assert_eq!(at(&on_stone, 0, 1), tile(TileType::Air, 0));
    assert_eq!(at(&m, 0, 1), tile(TileType::Foliage, 0));
    assert_eq!(at(&m, 1, 1), tile(TileType::Air, 0));
    assert_eq!(at(&m, 2, 1), tile(TileType::Air, 0));
}

#[test]
fn foliage_on_the_bottom_row_dies() {
    let mut m = TileMap::new(2, 2);
    m.set_tile(0, 0, tile(TileType::Foliage, 0));
    m.set_tile(1, 0, tile(TileType::Dirt, 200));
    m.set_tile(1, 1, tile(TileType::Foliage, 0));
    simulate_foliage_step(&mut m);
    assert_eq!(at(&m, 0, 0), tile(TileType::Air, 0));
    assert_eq!(at(&m, 1, 1), tile(TileType::Foliage, 0));
}

#[test]
fn tile_map_edges_are_lenient() {
    let mut m = TileMap::new(2, 3);
    assert!(m.get_tile(2, 0).is_none());
    assert!(m.get_tile(0, 3).is_none());
    m.set_tile(5, 5, tile(TileType::Stone, 0));
    assert!(m.tiles.iter().all(|t| *t == tile(TileType::Air, 0)));
    m.set_tile(1, 2, tile(TileType::Stone, 0));
    assert_eq!(m.tiles[2 * 2 + 1], tile(TileType::Stone, 0));
    if let Some(t) = m.get_tile_mut(0, 1) {
        t.water_amount = 9;
        t.tile_type = TileType::Water;
    }
    assert_eq!(at(&m, 0, 1), tile(TileType::Water, 9));
    assert!(m.get_tile_mut(3, 0).is_none());
}

#[test]
fn an_empty_grid_steps_to_itself() {
    let mut m = TileMap::new(0, 0);
    simulate_water_step(&mut m);
    simulate_foliage_step(&mut m);
    assert!(m.tiles.is_empty());
    let mut row = TileMap::new(4, 0);
    simulate_water_step(&mut row);
    assert!(row.tiles.is_empty());
}
