use fps_client::fire::{Shot, SHOT_DURATION};
use fps_client::game::TickInput;
use fps_client::grid::{map_to_slice, MapError};
use fps_client::hit::{Hit, Hittable};
use fps_client::player::{Player, PlayerStatus, ServerMessage};
use fps_client::ray::{FaceCrossing, SphereCrossing};
use fps_client::scalar::{Point3, Position, Scalar};
use fps_client::surface::{add_shields, Axis, Shield};
use fps_client::world::World;

type V = [f32; 3];

const CORRIDOR: &str = "#####\n#####\n#   #\n#####\n#####\n";

fn s(value: f32) -> Scalar {
    Scalar::from_bits(value.to_bits())
}

fn f(value: Scalar) -> f32 {
    f32::from_bits(value.bits)
}

fn point(v: V) -> Point3 {
    Point3 { x: s(v[0]), y: s(v[1]), z: s(v[2]) }
}

fn dot(a: V, b: V) -> f32 {
    a[0] * b[0] + a[1] * b[1] + a[2] * b[2]
}

fn sub(a: V, b: V) -> V {
    [a[0] - b[0], a[1] - b[1], a[2] - b[2]]
}

fn along(origin: V, direction: V, t: f32) -> V {
    [
        origin[0] + direction[0] * t,
        origin[1] + direction[1] * t,
        origin[2] + direction[2] * t,
    ]
}

fn on_face(shield: &Shield, origin: V, direction: V) -> Option<Hit> {
    let q = [shield.x as f32 - 0.5, 0.5, shield.z as f32 - 0.5];
    let (u, n) = match shield.axis {
        Axis::X => ([1.0, 0.0, 0.0], [0.0, 0.0, 1.0]),
        Axis::Z => ([0.0, 0.0, 1.0], [-1.0, 0.0, 0.0]),
    };
    let v = [0.0, 1.0, 0.0];
    let slope = dot(n, direction);
    let t = (dot(n, q) - dot(n, origin)) / slope;
    let p = along(origin, direction, t);
    let w = sub(p, q);
    let crossing = FaceCrossing {
        slope: s(slope),
        t: s(t),
        along_first: s(dot(w, u)),
        first_length: s(1.0),
        along_second: s(dot(w, v)),
        second_length: s(1.0),
    };
    shield.hit(&crossing, point(p))
}

fn on_player(enemy: &Player, origin: V, direction: V) -> Option<Hit> {
    let centre = [f(enemy.position.x), 1.0, f(enemy.position.z)];
    let a = dot(direction, direction);
    let c_o = sub(centre, origin);
    let b = -2.0 * dot(c_o, direction);
    let c = dot(c_o, c_o) - 0.05 * 0.05;
    let discriminant = b * b - 4.0 * a * c;
    let root = discriminant.sqrt();
    let near = (-b - root) / (2.0 * a);
    let far = (-b + root) / (2.0 * a);
    let crossing =
        SphereCrossing { a: s(a), discriminant: s(discriminant), near: s(near), far: s(far) };
    enemy.hit(
        &crossing,
        point(along(origin, direction, near)),
        point(along(origin, direction, far)),
    )
}

fn hits_of(targets: &Vec<Hittable>, origin: V, direction: V) -> Vec<Option<Hit>> {
    targets
        .iter()
        .map(|target| match target {
            Hittable::Wall(shield) => on_face(shield, origin, direction),
            Hittable::Enemy(enemy) => on_player(enemy, origin, direction),
        })
        .collect()
}

fn load(map: &str) -> World {
    World::new(&String::from(map), &String::from("Ann"), &String::from("maps/one.txt")).unwrap().0
}

fn faces_of(map: &str) -> Vec<Hittable> {
    let mut faces = Vec::new();
    add_shields(&mut faces, &map_to_slice(&String::from(map)));
    faces
}

fn enemy_at(x: f32, z: f32, status: PlayerStatus) -> Player {
    let mut enemy = Player::new();
    enemy.name = String::from("Sam");
    enemy.position = Position::build(s(x), s(z));
    enemy.player_status = status;
    enemy
}

fn with_status(player: &Player, status: PlayerStatus) -> Player {
    let mut changed = player.clone();
    changed.player_status = status;
    changed
}

fn idle() -> TickInput {
    TickInput {
        forward: false,
        back: false,
        left: false,
        right: false,
        pointer_moved: false,
        fire: false,
        quit: false,
    }
}

#[test]
fn a_loaded_world_holds_the_faces_of_its_map() {
    let (world, cell) =
        World::new(&String::from(CORRIDOR), &String::from("Ann"), &String::from("maps/one.txt"))
            .unwrap();
    assert!(world.is_wf());
    assert_eq!(world.mini_map(), &map_to_slice(&String::from(CORRIDOR)));
    assert_eq!(world.hittables(), &faces_of(CORRIDOR));
    assert_eq!(world.hittables().len(), 8);
    assert_eq!(world.enemies(), &None);
    assert!(world.shots().is_empty());
    assert!(world.is_first_run());
    assert_eq!(world.player().name, "Ann");
    assert_eq!(world.player().current_map, "maps/one.txt");
    assert_eq!(world.player().score, 0);
    assert_eq!(world.player().player_status, PlayerStatus::Active);
    assert_eq!(world.player().id.len(), 36);
    assert_eq!(cell.z, 2);
    assert!(cell.x >= 1 && cell.x <= 3);
    assert_eq!(world.player().position, Position::build(s(cell.x as f32), s(2.0)));
}

#[test]
fn a_bad_map_loads_no_world() {
    let name = String::from("Ann");
    let path = String::from("maps/one.txt");
    assert_eq!(
        World::new(&String::from("###\n# #"), &name, &path).err(),
        Some(MapError::InvalidFormat)
    );
    assert_eq!(
        World::new(&String::from("###\n###\n###"), &name, &path).err(),
        Some(MapError::InvalidFormat)
    );
    assert_eq!(
        World::new(&String::from("# #\n# #\n###"), &name, &path).err(),
        Some(MapError::OpenBorder)
    );
}

#[test]
fn the_pose_is_recorded_in_the_snapshot() {
    let mut world = load(CORRIDOR);
    let before = world.player().clone();
    world.set_pose(Position::build(s(2.5), s(2.0)), s(1.25));
    assert_eq!(world.player().position, Position::build(s(2.5), s(2.0)));
    assert_eq!(world.player().orientation, s(1.25));
    assert_eq!(world.player().id, before.id);
    assert_eq!(world.player().name, before.name);
    assert!(world.is_wf());
}

#[test]
fn a_world_forgets_its_peers_on_a_payload_that_is_not_utf8() {
    let mut world = load(CORRIDOR);
    let peer = enemy_at(3.0, 2.0, PlayerStatus::Active);
    world.reconcile(&Some(vec![peer.clone()]));
    assert_eq!(world.enemies(), &Some(vec![peer]));
    assert_eq!(world.hittables().len(), 9);
    assert_eq!(world.accept_datagram(&[0xc0, 0x80]), None);
    assert_eq!(world.enemies(), &None);
    assert_eq!(world.hittables(), &faces_of(CORRIDOR));
    assert!(world.is_wf());
}

#[test]
fn a_world_hands_back_the_text_of_a_payload_that_is_utf8() {
    let mut world = load(CORRIDOR);
    let peer = enemy_at(3.0, 2.0, PlayerStatus::Active);
    world.reconcile(&Some(vec![peer.clone()]));
    assert_eq!(world.accept_datagram("[]".as_bytes()), Some(String::from("[]")));
    assert_eq!(world.enemies(), &Some(vec![peer]));
    assert_eq!(world.hittables().len(), 9);
}

#[test]
fn a_killed_local_player_starts_over_in_an_open_cell() {
    let map = "#######\n#  #  #\n# ### #\n#     #\n#######";
    let grid = map_to_slice(&String::from(map));
    for _ in 0..30 {
        let mut world = load(map);
        let peer = enemy_at(1.0, 1.0, PlayerStatus::Active);
        world.reconcile(&Some(vec![peer]));
        let before = world.player().clone();
        let notice = with_status(&before, PlayerStatus::Killed);
        let respawns = world.reconcile(&Some(vec![notice]));
        assert_eq!(respawns.len(), 1);
        let cell = respawns[0].cell;
        assert!(!grid[cell.z][cell.x]);
        let mut expected = with_status(&before, PlayerStatus::Active);
        expected.position = Position::build(s(cell.x as f32), s(cell.z as f32));
        assert_eq!(world.player(), &expected);
        assert_eq!(respawns[0].envelope, expected.envelope());
        assert_eq!(world.enemies(), &None);
        assert_eq!(world.hittables(), &faces_of(map));
        assert!(world.is_wf());
    }
}

#[test]
fn firing_at_an_active_enemy_in_the_corridor_scores_exactly_once() {
    let mut world = load(CORRIDOR);
    world.set_pose(Position::build(s(1.0), s(2.0)), s(0.0));
    let enemy = enemy_at(3.0, 2.0, PlayerStatus::Active);
    world.reconcile(&Some(vec![enemy.clone()]));
    assert_eq!(world.hittables().len(), 9);
    let front = [1.0, 0.0, 0.0];
    let start = along([1.0, 0.95, 2.0], front, 0.1);
    let range_end = along(start, front, 500.0);
    let hits = hits_of(world.hittables(), start, front);
    let outcome = world.handle_game_run(
        &TickInput { fire: true, ..idle() },
        &hits,
        point(start),
        point(range_end),
    );
    assert_eq!(world.player().score, 1);
    assert_eq!(world.hittables(), &faces_of(CORRIDOR));
    assert!(!outcome.quit);
    assert_eq!(
        outcome.envelopes,
        vec![
            ServerMessage {
                sender_id: world.player().id.clone(),
                player: with_status(&enemy, PlayerStatus::Killed),
            },
            world.player().envelope(),
        ]
    );
    assert_eq!(world.shots().len(), 1);
    assert_eq!(world.shots()[0].start, point(start));
    assert_eq!(world.shots()[0].time_out, SHOT_DURATION);
    assert!((f(world.shots()[0].end.x) - 3.0).abs() < 0.05);
    assert!(!world.is_first_run());
    assert!(world.is_wf());

    let hits = hits_of(world.hittables(), start, front);
    let again = world.handle_game_run(
        &TickInput { fire: true, ..idle() },
        &hits,
        point(start),
        point(range_end),
    );
    assert_eq!(world.player().score, 1);
    assert!(again.envelopes.is_empty());
    assert_eq!(world.shots().len(), 2);
    assert_eq!(world.shots()[1].end, point([3.5, 0.95, 2.0]));
}

#[test]
fn the_first_tick_of_a_world_tells_the_relay_once() {
    let mut world = load(CORRIDOR);
    let first = world.handle_game_run(&idle(), &vec![], point([0.0; 3]), point([1.0; 3]));
    assert_eq!(first.envelopes, vec![world.player().envelope()]);
    let second = world.handle_game_run(&idle(), &vec![], point([0.0; 3]), point([1.0; 3]));
    assert!(second.envelopes.is_empty());
}

#[test]
fn leaving_a_world_marks_the_player_as_gone() {
    let mut world = load(CORRIDOR);
    let outcome = world.handle_game_run(
        &TickInput { quit: true, ..idle() },
        &vec![],
        point([0.0; 3]),
        point([1.0; 3]),
    );
    assert!(outcome.quit);
    assert_eq!(world.player().player_status, PlayerStatus::Disconnent);
    assert_eq!(outcome.envelopes, vec![world.player().envelope()]);
    assert!(world.is_wf());
}

#[test]
fn the_tracers_of_a_world_age_and_leave() {
    let mut world = load(CORRIDOR);
    let fire = TickInput { fire: true, ..idle() };
    world.handle_game_run(&fire, &vec![], point([0.0; 3]), point([1.0; 3]));
    world.remove_shots();
    assert_eq!(
        world.shots(),
        &vec![Shot { start: point([0.0; 3]), end: point([1.0; 3]), time_out: 9 }]
    );
    for _ in 0..8 {
        world.remove_shots();
    }
    assert_eq!(world.shots().len(), 1);
    assert_eq!(world.shots()[0].time_out, 1);
    world.remove_shots();
    assert!(world.shots().is_empty());
    assert!(world.is_wf());
}
