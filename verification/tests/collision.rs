use fps_client::collision::{
    are_probes_in_grid, handle_wall_collisions, hits_wall, is_probe_in_grid, MoveProbe, Slide,
};
use fps_client::grid::{map_to_slice, Cell};

const GAP: f32 = 0.05;

fn grid(s: &str) -> Vec<Vec<bool>> {
    map_to_slice(&String::from(s))
}

fn corners(x: f32, z: f32) -> [Cell; 4] {
    let points = [
        (x + 0.5 + GAP, z + 0.5 + GAP),
        (x + 0.5 - GAP, z + 0.5 - GAP),
        (x + 0.5 + GAP, z + 0.5 - GAP),
        (x + 0.5 - GAP, z + 0.5 + GAP),
    ];
    points.map(|(px, pz)| Cell { x: f32::floor(px) as usize, z: f32::floor(pz) as usize })
}

fn probe(from: (f32, f32), to: (f32, f32)) -> MoveProbe {
    MoveProbe {
        x_pass: corners(to.0, from.1),
        z_pass_moved: corners(to.0, to.1),
        z_pass_held: corners(from.0, to.1),
    }
}

fn room() -> Vec<Vec<bool>> {
    grid("#####\n#   #\n#   #\n#   #\n#####")
}

#[test]
fn a_free_move_stands() {
    let slide = handle_wall_collisions(&room(), &probe((2.0, 2.0), (2.03, 2.03)));
    assert_eq!(slide, Slide { x_moves: true, z_moves: true });
}

#[test]
fn a_wall_ahead_on_x_lets_the_player_slide_along_z() {
    let slide = handle_wall_collisions(&room(), &probe((3.44, 2.0), (3.47, 2.03)));
    assert_eq!(slide, Slide { x_moves: false, z_moves: true });
}

#[test]
fn a_wall_ahead_on_z_lets_the_player_slide_along_x() {
    let slide = handle_wall_collisions(&room(), &probe((2.0, 3.44), (2.03, 3.47)));
    assert_eq!(slide, Slide { x_moves: true, z_moves: false });
}

#[test]
fn a_corner_stops_both_axes() {
    let slide = handle_wall_collisions(&room(), &probe((3.44, 3.44), (3.47, 3.47)));
    assert_eq!(slide, Slide { x_moves: false, z_moves: false });
}

#[test]
fn the_second_pass_starts_from_what_the_first_left() {
    let map = grid("#####\n#   #\n#  ##\n#   #\n#####");
    let around = probe((2.44, 1.44), (2.47, 1.47));
    assert!(!hits_wall(&map, &around.x_pass));
    assert!(hits_wall(&map, &around.z_pass_moved));
    assert!(!hits_wall(&map, &around.z_pass_held));
    assert_eq!(handle_wall_collisions(&map, &around), Slide { x_moves: true, z_moves: false });
    let into = probe((2.44, 2.0), (2.47, 2.03));
    assert!(hits_wall(&map, &into.x_pass));
    assert!(hits_wall(&map, &into.z_pass_moved));
    assert!(!hits_wall(&map, &into.z_pass_held));
    assert_eq!(handle_wall_collisions(&map, &into), Slide { x_moves: false, z_moves: true });
}

#[test]
fn corners_are_tested_against_the_grid() {
    let map = room();
    assert!(hits_wall(&map, &corners(3.47, 2.0)));
    assert!(!hits_wall(&map, &corners(3.44, 2.0)));
    assert!(hits_wall(&map, &corners(0.5, 0.5)));
}

#[test]
fn a_probe_outside_the_grid_is_told_apart() {
    let map = room();
    assert!(is_probe_in_grid(&map, &corners(2.0, 2.0)));
    let outside = [Cell { x: 1, z: 1 }, Cell { x: 7, z: 1 }, Cell { x: 1, z: 1 }, Cell { x: 1, z: 1 }];
    assert!(!is_probe_in_grid(&map, &outside));
    let below = [Cell { x: 1, z: 9 }, Cell { x: 1, z: 1 }, Cell { x: 1, z: 1 }, Cell { x: 1, z: 1 }];
    assert!(!is_probe_in_grid(&map, &below));
    let wall_first =
        [Cell { x: 0, z: 0 }, Cell { x: 7, z: 1 }, Cell { x: 1, z: 1 }, Cell { x: 1, z: 1 }];
    assert!(is_probe_in_grid(&map, &wall_first));
    assert!(hits_wall(&map, &wall_first));
    let inside = corners(2.0, 2.0);
    assert!(are_probes_in_grid(
        &map,
        &MoveProbe { x_pass: inside, z_pass_moved: inside, z_pass_held: outside }
    ));
    assert!(!are_probes_in_grid(
        &map,
        &MoveProbe { x_pass: inside, z_pass_moved: outside, z_pass_held: inside }
    ));
    assert!(!are_probes_in_grid(
        &map,
        &MoveProbe { x_pass: outside, z_pass_moved: inside, z_pass_held: inside }
    ));
    assert!(are_probes_in_grid(
        &map,
        &MoveProbe { x_pass: wall_first, z_pass_moved: outside, z_pass_held: inside }
    ));
}
