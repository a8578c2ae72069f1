use fps_client::player::{Player, PlayerStatus, ServerMessage, IDENTITY_LENGTH};
use fps_client::scalar::{Position, Scalar};

#[test]
fn a_new_player_is_blank_and_active() {
    let p = Player::new();
    assert_eq!(p.name, "");
    assert_eq!(p.current_map, "");
    assert_eq!(p.score, 0);
    assert_eq!(p.player_status, PlayerStatus::Active);
    assert_eq!(p.position, Position::new());
    assert_eq!(p.orientation, Scalar::zero());
}

#[test]
fn an_identity_is_a_hyphenated_uuid() {
    let p = Player::new();
    assert_eq!(IDENTITY_LENGTH, 36);
    assert_eq!(p.id.chars().count(), IDENTITY_LENGTH);
    assert!(!p.id.is_empty());
    for (i, c) in p.id.chars().enumerate() {
        if i == 8 || i == 13 || i == 18 || i == 23 {
            assert_eq!(c, '-');
        } else {
            assert!(c.is_ascii_hexdigit());
        }
    }
    assert_eq!(p.id.chars().nth(14), Some('4'));
}

#[test]
fn identities_are_not_reused() {
    let ids: Vec<String> = (0..50).map(|_| Player::new().id).collect();
    for i in 0..ids.len() {
        for j in 0..i {
            assert_ne!(ids[i], ids[j]);
        }
    }
}

#[test]
fn a_copy_is_equal_to_the_player() {
    let mut p = Player::new();
    p.name = String::from("Sam");
    p.score = 7;
    p.player_status = PlayerStatus::Killed;
    p.position = Position::build(Scalar::from_bits(1), Scalar::from_bits(2));
    p.current_map = String::from("maps/one.txt");
    assert_eq!(p.clone(), p);
}

#[test]
fn a_player_is_known_by_its_identity() {
    let p = Player::new();
    let q = Player::new();
    assert!(p.has_identity(&p.id));
    assert!(!p.has_identity(&q.id));
    assert!(!p.has_identity(&String::new()));
}

#[test]
fn an_envelope_carries_the_player_in_its_own_name() {
    let mut p = Player::new();
    p.name = String::from("Sam");
    let message = p.envelope();
    assert_eq!(message, ServerMessage { sender_id: p.id.clone(), player: p.clone() });
    assert_eq!(message.clone(), message);
}
