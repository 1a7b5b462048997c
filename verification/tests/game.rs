use drend::game::{
    enemy_hit, next_rng, player_hit, rng_bits, DoorState, EnemyKind, Weapon, MAP, MAX_HEALTH, WALL,
};
use drend::maze::{cell, collides_cells, grid_fits, parse_map, solid_cell, use_door_ahead, EnemySpawn};

const CELL: f32 = 4.0;

fn closed_doors(doors: &[(usize, usize)]) -> Vec<(usize, usize, bool)> {
    doors.iter().map(|&(x, z)| (x, z, false)).collect()
}

#[test]
fn maze_parses_walls_doors_and_enemies() {
    let g = parse_map(MAP);
    let walls = g.grid.iter().filter(|&&c| c == 1).count();
    let doors = g.grid.iter().filter(|&&c| c == 2).count();
    assert!(walls > 40, "walls = {walls}");
    assert_eq!(g.doors.len(), doors);
    assert_eq!(g.enemies.len(), 4, "3 spiders + 1 wuson");
    assert_eq!(g.w, 15);
    assert_eq!(g.h, 15);
}

#[test]
fn solid_at_respects_walls_and_open_doors() {
    let g = parse_map(MAP);
    let doors = closed_doors(&g.doors);
    let at = |x: f32, z: f32| solid_cell(&g.grid, g.w, g.h, &doors, (x / CELL).floor() as i32, (z / CELL).floor() as i32);
    // (0,0) is the outer border wall cell.
    assert!(at(1.0, 1.0));
    // Player spawn cell (1,1) is a floor.
    let (sx, sz) = g.spawn.unwrap();
    assert!(!at(sx as f32 * CELL + CELL / 2.0, sz as f32 * CELL + CELL / 2.0));
}

#[test]
fn map_lists_spawn_enemies_and_doors_in_reading_order() {
    let g = parse_map(MAP);
    assert_eq!(g.spawn, Some((1, 1)));
    assert_eq!(g.grid.len(), 15 * 15);
    assert_eq!(g.enemies[0], EnemySpawn { col: 13, row: 1, kind: EnemyKind::Spider });
    assert_eq!(g.enemies[2], EnemySpawn { col: 12, row: 10, kind: EnemyKind::Wuson });
    assert_eq!(g.doors[0], (3, 3));
    assert_eq!(g.doors.len(), 8);
}

#[test]
fn map_of_small_text() {
    let g = parse_map("#D\nPE\r\n");
    assert_eq!((g.w, g.h), (2, 2));
    assert_eq!(g.grid, vec![1, 2, 0, 0]);
    assert_eq!(g.doors, vec![(1, 0)]);
    assert_eq!(g.spawn, Some((0, 1)));
    let empty = parse_map("");
    assert_eq!((empty.w, empty.h, empty.grid.len()), (0, 0, 0));
    assert_eq!(empty.spawn, None);
    // the width is the byte length of the last line
    let wide = parse_map("é#\n");
    assert_eq!(wide.w, 3);
    assert_eq!(wide.grid.len(), 2);
}

#[test]
fn outside_the_grid_is_wall() {
    let g = parse_map(MAP);
    assert_eq!(cell(&g.grid, g.w, g.h, -1, 3), WALL);
    assert_eq!(cell(&g.grid, g.w, g.h, 3, 15), WALL);
    assert_eq!(cell(&g.grid, g.w, g.h, 1, 1), 0);
    assert_eq!(cell(&g.grid, g.w, g.h, 3, 3), 2);
}

#[test]
fn open_door_lets_player_through() {
    let g = parse_map(MAP);
    let mut doors = closed_doors(&g.doors);
    assert!(solid_cell(&g.grid, g.w, g.h, &doors, 3, 3));
    assert!(collides_cells(&g.grid, g.w, g.h, &doors, 3, 3, 3, 3));
    doors[0].2 = true;
    assert!(!solid_cell(&g.grid, g.w, g.h, &doors, 3, 3));
    assert!(!collides_cells(&g.grid, g.w, g.h, &doors, 3, 3, 3, 3));
    // a square overlapping floor only
    assert!(!collides_cells(&g.grid, g.w, g.h, &doors, 1, 2, 1, 1));
    // reaching into the border wall
    assert!(collides_cells(&g.grid, g.w, g.h, &doors, 0, 1, 1, 1));
}

#[test]
fn use_key_toggles_the_door_ahead() {
    let g = parse_map(MAP);
    let mut states = vec![DoorState::Closed; g.doors.len()];
    // floor at (3,4)? (3,4) is '.', then the door at (3,3)
    use_door_ahead(&g.grid, g.w, g.h, &g.doors, &mut states, &[(3, 4), (3, 3)]);
    assert_eq!(states[0], DoorState::Opening);
    assert!(states[1..].iter().all(|s| *s == DoorState::Closed));
    // a wall first: nothing happens
    let before = states.clone();
    use_door_ahead(&g.grid, g.w, g.h, &g.doors, &mut states, &[(0, 0), (99, 99)]);
    assert_eq!(states, before);
    // a moving door keeps moving
    use_door_ahead(&g.grid, g.w, g.h, &g.doors, &mut states, &[(3, 3)]);
    assert_eq!(states[0], DoorState::Opening);
}

#[test]
fn door_cycle() {
    let s = DoorState::Closed.toggled();
    assert_eq!(s, DoorState::Opening);
    assert_eq!(s.advanced(false), DoorState::Opening);
    let s = s.advanced(true);
    assert_eq!(s, DoorState::Open);
    assert_eq!(s.toggled(), DoorState::Closing);
    let s = s.advanced(true);
    assert_eq!(s, DoorState::Closing);
    assert_eq!(s.advanced(true), DoorState::Closed);
}

#[test]
fn weapons_by_number() {
    for (i, w) in Weapon::all().iter().enumerate() {
        assert_eq!(w.index() as usize, i);
    }
    assert_eq!(Weapon::Pistol.select(2), Weapon::Shotgun);
    assert_eq!(Weapon::Smg.select(-1), Weapon::Smg);
    assert_eq!(Weapon::Smg.select(3), Weapon::Smg);
    assert_eq!(Weapon::Shotgun.select(0), Weapon::Pistol);
    assert_eq!(Weapon::Shotgun.pellets(), 6);
    assert_eq!(Weapon::Pistol.pellets(), 1);
    assert_eq!(Weapon::Smg.damage(), 9);
}

#[test]
fn hits_take_health() {
    assert_eq!(enemy_hit(EnemyKind::Spider.start_health(), Weapon::Pistol), 15);
    assert_eq!(enemy_hit(EnemyKind::Wuson.start_health(), Weapon::Shotgun), 75);
    assert_eq!(player_hit(MAX_HEALTH, EnemyKind::Spider), 92);
    assert_eq!(player_hit(MAX_HEALTH, EnemyKind::Wuson), 85);
}

#[test]
fn rng_sequence() {
    let r = next_rng(0x1234_5678);
    assert_eq!(r, 0x1234_5678u32.wrapping_mul(1103515245).wrapping_add(12345));
    assert_eq!(next_rng(0), 12345);
    assert_eq!(rng_bits(0xffff_ffff), 0xff_ffff);
    assert_eq!(rng_bits(0x100), 1);
}

#[test]
fn grid_fits_rectangular_maps_only() {
    let g = parse_map(MAP);
    assert!(grid_fits(&g.grid, g.w, g.h));
    let ragged = parse_map("####\n#\n##");
    assert_eq!((ragged.w, ragged.h, ragged.grid.len()), (2, 3, 7));
    assert!(grid_fits(&ragged.grid, ragged.w, ragged.h));
    let short = parse_map("#\n####");
    assert_eq!((short.w, short.h, short.grid.len()), (4, 2, 5));
    assert!(!grid_fits(&short.grid, short.w, short.h));
    assert!(!grid_fits(&[], usize::MAX, 2));
}
