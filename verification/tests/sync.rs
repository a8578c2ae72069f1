use fps_client::grid::map_to_slice;
use fps_client::hit::Hittable;
use fps_client::player::{Player, PlayerStatus};
use fps_client::scalar::{Position, Scalar};
use fps_client::surface::{add_shields, Axis, Shield};
use fps_client::sync::{
    accept_datagram, build_roster, clear_peers, is_killed_feedback, purge_enemies, reconcile,
    reconcile_local_player, respawn_for_each_notice, track_enemies,
};

fn grid(s: &str) -> Vec<Vec<bool>> {
    map_to_slice(&String::from(s))
}

fn corridor() -> Vec<Vec<bool>> {
    grid("#####\n#   #\n#####")
}

fn named(name: &str, status: PlayerStatus) -> Player {
    let mut p = Player::new();
    p.name = String::from(name);
    p.player_status = status;
    p
}

fn notice_for(player: &Player, status: PlayerStatus) -> Player {
    let mut notice = player.clone();
    notice.player_status = status;
    notice
}

fn in_cell(player: &Player, x: usize, z: usize) -> Player {
    let mut moved = player.clone();
    moved.position = Position::build(
        Scalar::from_bits((x as f32).to_bits()),
        Scalar::from_bits((z as f32).to_bits()),
    );
    moved
}

fn wall(x: usize, z: usize, axis: Axis) -> Hittable {
    Hittable::Wall(Shield::new(x, z, axis))
}

fn enemy_count(targets: &Vec<Hittable>) -> usize {
    targets.iter().filter(|h| matches!(h, Hittable::Enemy(_))).count()
}

#[test]
fn purging_keeps_the_walls_in_their_order() {
    let a = named("a", PlayerStatus::Active);
    let mut targets = vec![
        wall(1, 1, Axis::X),
        Hittable::Enemy(a.clone()),
        wall(2, 1, Axis::Z),
        Hittable::Enemy(a),
        wall(1, 2, Axis::X),
    ];
    purge_enemies(&mut targets);
    assert_eq!(targets, vec![wall(1, 1, Axis::X), wall(2, 1, Axis::Z), wall(1, 2, Axis::X)]);
}

#[test]
fn every_other_player_becomes_a_target() {
    let me = named("me", PlayerStatus::Active);
    let a = named("a", PlayerStatus::Active);
    let b = named("b", PlayerStatus::Killed);
    let c = named("c", PlayerStatus::Disconnent);
    let mut targets = vec![wall(1, 1, Axis::X)];
    track_enemies(&mut targets, &me.id, &vec![a.clone(), me.clone(), b.clone(), c.clone()]);
    assert_eq!(
        targets,
        vec![wall(1, 1, Axis::X), Hittable::Enemy(a), Hittable::Enemy(b), Hittable::Enemy(c)]
    );
}

#[test]
fn the_roster_holds_the_active_others() {
    let me = named("me", PlayerStatus::Active);
    let a = named("a", PlayerStatus::Active);
    let b = named("b", PlayerStatus::Killed);
    let c = named("c", PlayerStatus::Active);
    let d = named("d", PlayerStatus::Unknown);
    let roster = build_roster(&me.id, &vec![a.clone(), b, me.clone(), c.clone(), d]);
    assert_eq!(roster, Some(vec![a, c]));
}

#[test]
fn a_roster_without_peers_is_absent() {
    let me = named("me", PlayerStatus::Active);
    assert_eq!(build_roster(&me.id, &vec![]), None);
    assert_eq!(build_roster(&me.id, &vec![me.clone()]), None);
    assert_eq!(build_roster(&me.id, &vec![named("b", PlayerStatus::Killed)]), None);
}

#[test]
fn clearing_forgets_every_peer() {
    let a = named("a", PlayerStatus::Active);
    let mut roster = Some(vec![a.clone()]);
    let mut targets = vec![wall(1, 1, Axis::X), Hittable::Enemy(a)];
    clear_peers(&mut roster, &mut targets);
    assert_eq!(roster, None);
    assert_eq!(targets, vec![wall(1, 1, Axis::X)]);
}

#[test]
fn only_a_killed_snapshot_of_the_local_player_is_a_kill_notice() {
    let me = named("me", PlayerStatus::Active);
    let other = named("other", PlayerStatus::Killed);
    assert!(is_killed_feedback(&me.id, &notice_for(&me, PlayerStatus::Killed)));
    assert!(!is_killed_feedback(&me.id, &notice_for(&me, PlayerStatus::Active)));
    assert!(!is_killed_feedback(&me.id, &notice_for(&me, PlayerStatus::Disconnent)));
    assert!(!is_killed_feedback(&me.id, &other));
}

#[test]
fn a_kill_notice_respawns_the_local_player_in_an_open_cell() {
    let map = grid("#####\n# # #\n#   #\n#####");
    for _ in 0..50 {
        let mut me = named("me", PlayerStatus::Killed);
        me.score = 4;
        let before = me.clone();
        let notice = notice_for(&me, PlayerStatus::Killed);
        let respawn = reconcile_local_player(&mut me, &map, &notice);
        let respawn = respawn.expect("a kill notice gives a new start");
        let cell = respawn.cell;
        assert!(!map[cell.z][cell.x]);
        assert_eq!(me.player_status, PlayerStatus::Active);
        assert_eq!(me, in_cell(&notice_for(&before, PlayerStatus::Active), cell.x, cell.z));
        assert_eq!(respawn.envelope, me.envelope());
    }
}

#[test]
fn any_other_snapshot_leaves_the_local_player_alone() {
    let map = corridor();
    let mut me = named("me", PlayerStatus::Killed);
    let before = me.clone();
    let alive = notice_for(&me, PlayerStatus::Active);
    assert_eq!(reconcile_local_player(&mut me, &map, &alive), None);
    assert_eq!(me, before);
    let other = named("other", PlayerStatus::Killed);
    assert_eq!(reconcile_local_player(&mut me, &map, &other), None);
    assert_eq!(me, before);
    let no_room = grid("###\n###\n###");
    assert_eq!(reconcile_local_player(&mut me, &no_room, &other), None);
}

#[test]
fn each_kill_notice_gives_a_cell() {
    let map = corridor();
    let mut me = named("me", PlayerStatus::Active);
    let killed = notice_for(&me, PlayerStatus::Killed);
    let other = named("other", PlayerStatus::Killed);
    let alive = notice_for(&me, PlayerStatus::Active);
    let respawns =
        respawn_for_each_notice(&mut me, &map, &vec![killed.clone(), other, killed.clone(), alive]);
    assert_eq!(respawns.len(), 2);
    for respawn in &respawns {
        let cell = respawn.cell;
        assert!(!map[cell.z][cell.x]);
        assert_eq!(respawn.envelope.sender_id, me.id);
        assert_eq!(
            respawn.envelope.player,
            in_cell(&notice_for(&me, PlayerStatus::Active), cell.x, cell.z)
        );
    }
    assert_eq!(me, respawns[1].envelope.player);
    assert_eq!(me.player_status, PlayerStatus::Active);
    let none = respawn_for_each_notice(&mut me, &map, &vec![]);
    assert!(none.is_empty());
}

#[test]
fn a_lone_kill_notice_respawns_and_shows_no_peer() {
    let map = grid("#####\n#   #\n# # #\n#   #\n#####");
    let mut me = named("me", PlayerStatus::Active);
    me.score = 3;
    let before = me.clone();
    let stale = named("stale", PlayerStatus::Active);
    let mut roster = Some(vec![stale.clone()]);
    let mut targets = Vec::new();
    add_shields(&mut targets, &map);
    let walls = targets.clone();
    targets.push(Hittable::Enemy(stale));
    let inbound = Some(vec![notice_for(&me, PlayerStatus::Killed)]);
    let respawns = reconcile(&mut me, &mut roster, &mut targets, &map, &inbound);
    assert_eq!(respawns.len(), 1);
    let cell = respawns[0].cell;
    assert!(!map[cell.z][cell.x]);
    assert_eq!(me, in_cell(&notice_for(&before, PlayerStatus::Active), cell.x, cell.z));
    assert_eq!(respawns[0].envelope, me.envelope());
    assert_eq!(me.player_status, PlayerStatus::Active);
    assert_eq!(me.score, 3);
    assert_eq!(me.id, before.id);
    assert_eq!(roster, None);
    assert_eq!(targets, walls);
}

#[test]
fn a_roster_replaces_what_was_known() {
    let map = corridor();
    let mut me = named("me", PlayerStatus::Active);
    let before = me.clone();
    let stale = named("stale", PlayerStatus::Active);
    let a = named("a", PlayerStatus::Active);
    let b = named("b", PlayerStatus::Killed);
    let mut roster = Some(vec![stale.clone()]);
    let mut targets = vec![wall(1, 1, Axis::X), Hittable::Enemy(stale), wall(1, 2, Axis::X)];
    let inbound = Some(vec![a.clone(), notice_for(&me, PlayerStatus::Active), b.clone()]);
    let respawns = reconcile(&mut me, &mut roster, &mut targets, &map, &inbound);
    assert!(respawns.is_empty());
    assert_eq!(me, before);
    assert_eq!(roster, Some(vec![a.clone()]));
    assert_eq!(
        targets,
        vec![wall(1, 1, Axis::X), wall(1, 2, Axis::X), Hittable::Enemy(a), Hittable::Enemy(b)]
    );
}

#[test]
fn a_datagram_delivered_twice_changes_nothing_more() {
    let map = corridor();
    let mut me = named("me", PlayerStatus::Active);
    let a = named("a", PlayerStatus::Active);
    let mut roster = None;
    let mut targets = vec![wall(1, 1, Axis::X)];
    let inbound = Some(vec![a.clone()]);
    reconcile(&mut me, &mut roster, &mut targets, &map, &inbound);
    let (roster_once, targets_once) = (roster.clone(), targets.clone());
    reconcile(&mut me, &mut roster, &mut targets, &map, &inbound);
    assert_eq!(roster, roster_once);
    assert_eq!(targets, targets_once);
    assert_eq!(enemy_count(&targets), 1);
}

#[test]
fn a_datagram_that_cannot_be_decoded_clears_the_peers() {
    let map = corridor();
    let mut me = named("me", PlayerStatus::Killed);
    let before = me.clone();
    let a = named("a", PlayerStatus::Active);
    let mut roster = Some(vec![a.clone()]);
    let mut targets = vec![Hittable::Enemy(a), wall(1, 1, Axis::X)];
    let respawns = reconcile(&mut me, &mut roster, &mut targets, &map, &None);
    assert!(respawns.is_empty());
    assert_eq!(me, before);
    assert_eq!(roster, None);
    assert_eq!(targets, vec![wall(1, 1, Axis::X)]);
}

#[test]
fn a_payload_that_is_not_utf8_clears_the_peers() {
    let a = named("a", PlayerStatus::Active);
    for payload in [&[0xff_u8, 0xfe][..], &[b'[', 0xc3][..], &[0xed, 0xa0, 0x80][..], &[0x80][..]] {
        let mut roster = Some(vec![a.clone()]);
        let mut targets =
            vec![wall(1, 1, Axis::X), Hittable::Enemy(a.clone()), Hittable::Enemy(a.clone())];
        let text = accept_datagram(payload, &mut roster, &mut targets);
        assert_eq!(text, None);
        assert_eq!(roster, None);
        assert_eq!(enemy_count(&targets), 0);
        assert_eq!(targets, vec![wall(1, 1, Axis::X)]);
    }
}

#[test]
fn a_payload_that_is_utf8_comes_back_as_text() {
    let a = named("a", PlayerStatus::Active);
    for payload in ["[]", "", "[{\"id\":\"é\"}]", "no json at all"] {
        let mut roster = Some(vec![a.clone()]);
        let mut targets = vec![wall(1, 1, Axis::X), Hittable::Enemy(a.clone())];
        let text = accept_datagram(payload.as_bytes(), &mut roster, &mut targets);
        assert_eq!(text, Some(String::from(payload)));
        assert_eq!(roster, Some(vec![a.clone()]));
        assert_eq!(targets, vec![wall(1, 1, Axis::X), Hittable::Enemy(a.clone())]);
    }
}
