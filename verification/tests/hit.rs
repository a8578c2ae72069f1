use fps_client::hit::{closest_hit, Hit, Hittable};
use fps_client::player::Player;
use fps_client::ray::{FaceCrossing, SphereCrossing};
use fps_client::scalar::{Point3, Scalar};
use fps_client::surface::{Axis, Shield};

fn s(value: f32) -> Scalar {
    Scalar::from_bits(value.to_bits())
}

fn origin() -> Point3 {
    Point3 { x: s(0.0), y: s(0.0), z: s(0.0) }
}

fn on_wall(t: f32, x: usize) -> Option<Hit> {
    Some(Hit { t: s(t), p: origin(), hittable: Hittable::Wall(Shield::new(x, 1, Axis::X)) })
}

fn on_enemy(t: f32) -> Option<Hit> {
    Some(Hit { t: s(t), p: origin(), hittable: Hittable::Enemy(Player::new()) })
}

#[test]
fn nothing_struck_means_no_closest_hit() {
    assert_eq!(closest_hit(&vec![]), None);
    assert_eq!(closest_hit(&vec![None, None]), None);
}

#[test]
fn the_least_ray_parameter_wins() {
    assert_eq!(closest_hit(&vec![on_wall(3.0, 1), on_wall(2.0, 2), on_wall(2.5, 3)]), Some(1));
    assert_eq!(closest_hit(&vec![None, on_wall(3.0, 1), None, on_enemy(0.5)]), Some(3));
    assert_eq!(closest_hit(&vec![on_enemy(1.0e-30), on_wall(1.0e-20, 1)]), Some(0));
}

#[test]
fn a_tie_goes_to_the_first_inserted() {
    let wall = || on_wall(2.0, 1);
    let enemy = || on_enemy(2.0);
    assert_eq!(closest_hit(&vec![wall(), enemy()]), Some(0));
    assert_eq!(closest_hit(&vec![enemy(), wall()]), Some(0));
    assert_eq!(closest_hit(&vec![on_wall(5.0, 1), wall(), enemy()]), Some(1));
    assert_eq!(closest_hit(&vec![on_wall(5.0, 1), enemy(), wall()]), Some(1));
    assert_eq!(closest_hit(&vec![wall(), on_wall(5.0, 1), enemy()]), Some(0));
    assert_eq!(closest_hit(&vec![enemy(), None, wall(), on_wall(5.0, 1)]), Some(0));
    let first = closest_hit(&vec![wall(), enemy()]);
    for _ in 0..10 {
        assert_eq!(closest_hit(&vec![wall(), enemy()]), first);
    }
}

#[test]
fn a_strike_that_is_not_ahead_is_passed_over() {
    assert_eq!(closest_hit(&vec![on_wall(0.0, 1), on_wall(4.0, 2)]), Some(1));
    assert_eq!(closest_hit(&vec![on_wall(-1.0, 1), on_wall(4.0, 2)]), Some(1));
    assert_eq!(closest_hit(&vec![on_wall(f32::NAN, 1), on_wall(4.0, 2)]), Some(1));
    assert_eq!(closest_hit(&vec![on_wall(-0.0, 1), on_wall(-3.0, 2)]), None);
    assert_eq!(closest_hit(&vec![on_wall(f32::INFINITY, 1)]), Some(0));
}

#[test]
fn a_hit_copy_is_equal_to_the_hit() {
    let hit = on_enemy(2.0).unwrap();
    assert_eq!(hit.clone(), hit);
    let wall = on_wall(1.0, 1).unwrap();
    assert_eq!(wall.clone(), wall);
}

#[test]
fn a_face_that_is_struck_gives_a_hit_on_itself() {
    let face = Shield::new(2, 3, Axis::Z);
    let p = Point3 { x: s(1.5), y: s(1.0), z: s(3.0) };
    let crossing = FaceCrossing {
        slope: s(-1.0),
        t: s(2.5),
        along_first: s(0.5),
        first_length: s(1.0),
        along_second: s(0.5),
        second_length: s(1.0),
    };
    assert_eq!(face.hit(&crossing, p), Some(Hit { t: s(2.5), p, hittable: Hittable::Wall(face) }));
    let beside = FaceCrossing { along_first: s(1.5), ..crossing };
    assert_eq!(face.hit(&beside, p), None);
    let parallel = FaceCrossing { slope: s(0.0), ..crossing };
    assert_eq!(face.hit(&parallel, p), None);
}

#[test]
fn a_player_that_is_struck_gives_a_hit_at_the_chosen_root() {
    let enemy = Player::new();
    let near_point = Point3 { x: s(2.95), y: s(1.0), z: s(1.0) };
    let far_point = Point3 { x: s(3.05), y: s(1.0), z: s(1.0) };
    let through =
        SphereCrossing { a: s(1.0), discriminant: s(0.01), near: s(1.95), far: s(2.05) };
    assert_eq!(
        enemy.hit(&through, near_point, far_point),
        Some(Hit { t: s(1.95), p: near_point, hittable: Hittable::Enemy(enemy.clone()) })
    );
    let inside = SphereCrossing { near: s(-0.06), far: s(0.04), ..through };
    assert_eq!(
        enemy.hit(&inside, near_point, far_point),
        Some(Hit { t: s(0.04), p: far_point, hittable: Hittable::Enemy(enemy.clone()) })
    );
    let past = SphereCrossing { discriminant: s(-0.5), ..through };
    assert_eq!(enemy.hit(&past, near_point, far_point), None);
    let behind = SphereCrossing { near: s(-2.05), far: s(-1.95), ..through };
    assert_eq!(enemy.hit(&behind, near_point, far_point), None);
}
