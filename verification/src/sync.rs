//! What an inbound datagram does to the shared state.
//!
//! The relay sends the whole roster each time, and each datagram replaces
//! what the client knew: the visible roster, and the players among the shot
//! targets. A datagram that cannot be read stands for "no peers". A snapshot
//! of the local player is the relay's word on it: if it says killed, the
//! player starts again in an open cell.

use crate::filters::{lemma_filter_all, lemma_filter_none, lemma_filter_take};
use crate::grid::{grid_of, has_open_cell, is_open, Cell};
use crate::hit::Hittable;
use crate::player::{Player, PlayerStatus, ServerMessage};
use crate::spawn::{cell_position, generate_position, position_of};
use vstd::prelude::*;
use vstd::string::StringSliceAdditionalSpecFns;
use vstd::utf8::{decode_utf8, encode_utf8_decode_utf8, valid_utf8};

verus! {

/// Why a byte string is no text; nothing is read from it.
#[verifier::external_type_specification]
#[verifier::external_body]
pub struct ExUtf8Error(core::str::Utf8Error);

/// `core::str::from_utf8` checks that the bytes are UTF-8 and hands them back
/// as a string slice: it succeeds exactly on the byte strings that are valid
/// UTF-8, and the slice it gives is made of the bytes it was given.
pub assume_specification[ core::str::from_utf8 ](v: &[u8]) -> (text: Result<
    &str,
    core::str::Utf8Error,
>)
    ensures
        text is Ok <==> valid_utf8(v@),
        text is Ok ==> text->Ok_0.spec_bytes() == v@,
;

/// The wall faces among the shot targets, in their order.
pub open spec fn walls_only(targets: Seq<Hittable>) -> Seq<Hittable> {
    targets.filter(|h: Hittable| h is Wall)
}

/// The snapshots of players other than `local`, in their order.
pub open spec fn others(local: Seq<char>, players: Seq<Player>) -> Seq<Player> {
    players.filter(|p: Player| !p.is_identity(local))
}

/// The snapshots of active players other than `local`, in their order.
pub open spec fn active_others(local: Seq<char>, players: Seq<Player>) -> Seq<Player> {
    players.filter(|p: Player| !p.is_identity(local) && p.player_status == PlayerStatus::Active)
}

/// `notice` tells the player `local` that it was killed.
pub open spec fn is_kill_notice(local: Seq<char>, notice: Player) -> bool {
    notice.is_identity(local) && notice.player_status == PlayerStatus::Killed
}

/// The snapshots that tell the player `local` that it was killed.
pub open spec fn kill_notices(local: Seq<char>, players: Seq<Player>) -> Seq<Player> {
    players.filter(|p: Player| is_kill_notice(local, p))
}

/// No player is among the shot targets.
pub open spec fn no_enemy(targets: Seq<Hittable>) -> bool {
    forall|i: int| 0 <= i < targets.len() ==> #[trigger] targets[i] is Wall
}

/// The players as shot targets.
pub open spec fn as_enemies(players: Seq<Player>) -> Seq<Hittable> {
    players.map_values(|p: Player| Hittable::Enemy(p))
}

/// The roster that a list of visible players makes: absent where the list is
/// empty.
pub open spec fn roster_of(visible: Seq<Player>) -> Option<Seq<Player>> {
    if visible.len() == 0 {
        None
    } else {
        Some(visible)
    }
}

/// The roster held in `enemies`, as a sequence.
pub open spec fn roster_view(enemies: Option<Vec<Player>>) -> Option<Seq<Player>> {
    match enemies {
        Some(list) => Some(list@),
        None => None,
    }
}

/// What is left of the shot targets without the players holds no player.
pub proof fn lemma_walls_only_holds_walls(targets: Seq<Hittable>)
    ensures
        no_enemy(walls_only(targets)),
{
    let pred = |h: Hittable| h is Wall;
    assert forall|i: int| 0 <= i < walls_only(targets).len() implies #[trigger] walls_only(
        targets,
    )[i] is Wall by {
        targets.lemma_filter_pred(pred, i);
    }
}

/// The wall faces among the shot targets outlast every datagram: taking
/// the players out and putting others in leaves the faces as they were, in
/// their order.
pub proof fn lemma_walls_outlast_peers(targets: Seq<Hittable>, players: Seq<Player>)
    ensures
        walls_only(walls_only(targets)) == walls_only(targets),
        walls_only(walls_only(targets) + as_enemies(players)) == walls_only(targets),
{
    let wall = |h: Hittable| h is Wall;
    lemma_walls_only_holds_walls(targets);
    lemma_filter_all(walls_only(targets), wall);
    lemma_filter_none(as_enemies(players), wall);
    Seq::filter_distributes_over_add(walls_only(targets), as_enemies(players), wall);
    assert(walls_only(targets) + Seq::<Hittable>::empty() =~= walls_only(targets));
}

/// A datagram that holds nothing but the word that the local player was
/// killed shows no peer: the one snapshot is a kill notice, and neither the
/// roster nor the shot targets gain anything from it.
pub proof fn lemma_lone_kill_notice(local: Seq<char>, notice: Player)
    requires
        is_kill_notice(local, notice),
    ensures
        kill_notices(local, seq![notice]) == seq![notice],
        others(local, seq![notice]) == Seq::<Player>::empty(),
        active_others(local, seq![notice]) == Seq::<Player>::empty(),
        roster_of(active_others(local, seq![notice])) is None,
        as_enemies(others(local, seq![notice])) == Seq::<Hittable>::empty(),
{
    let none = Seq::<Player>::empty();
    assert(seq![notice] =~= none.push(notice));
    reveal(Seq::filter);
    none.lemma_filter_push(notice, |p: Player| is_kill_notice(local, p));
    none.lemma_filter_push(notice, |p: Player| !p.is_identity(local));
    none.lemma_filter_push(
        notice,
        |p: Player| !p.is_identity(local) && p.player_status == PlayerStatus::Active,
    );
    assert(kill_notices(local, seq![notice]) =~= seq![notice]);
    assert(others(local, seq![notice]) =~= none);
    assert(active_others(local, seq![notice]) =~= none);
    assert(as_enemies(none) =~= Seq::<Hittable>::empty());
}

/// The roster mirrors the shot targets: every player of the roster built
/// from a datagram is among the players that the datagram adds to the shot
/// targets.
pub proof fn lemma_roster_is_tracked(local: Seq<char>, players: Seq<Player>, p: Player)
    requires
        active_others(local, players).contains(p),
    ensures
        others(local, players).contains(p),
        as_enemies(others(local, players)).contains(Hittable::Enemy(p)),
{
    let visible = |q: Player| !q.is_identity(local) && q.player_status == PlayerStatus::Active;
    let other = |q: Player| !q.is_identity(local);
    let i = choose|i: int| 0 <= i < active_others(local, players).len() && active_others(
        local,
        players,
    )[i] == p;
    players.lemma_filter_pred(visible, i);
    players.lemma_filter_contains_rev(visible, p);
    let k = choose|k: int| 0 <= k < players.len() && players[k] == p;
    players.lemma_filter_contains(other, k);
    let j = choose|j: int| 0 <= j < others(local, players).len() && others(local, players)[j] == p;
    assert(as_enemies(others(local, players))[j] == Hittable::Enemy(p));
}

/// No two of the snapshots are about the same player.
pub open spec fn distinct_ids(players: Seq<Player>) -> bool {
    forall|i: int, j: int|
        0 <= i < j < players.len() ==> (#[trigger] players[i]).id@ != (#[trigger] players[j]).id@
}

/// A player appears at most once in the roster, as long as the relay names
/// each player at most once in a datagram.
pub proof fn lemma_roster_distinct(local: Seq<char>, players: Seq<Player>)
    requires
        distinct_ids(players),
    ensures
        distinct_ids(active_others(local, players)),
    decreases players.len(),
{
    let visible = |q: Player| !q.is_identity(local) && q.player_status == PlayerStatus::Active;
    reveal(Seq::filter);
    if players.len() > 0 {
        let front = players.drop_last();
        let last = players.last();
        assert(distinct_ids(front)) by {
            assert forall|i: int, j: int| 0 <= i < j < front.len() implies (#[trigger] front[i]).id@
                != (#[trigger] front[j]).id@ by {
                assert(front[i] == players[i] && front[j] == players[j]);
            }
        }
        lemma_roster_distinct(local, front);
        let kept = active_others(local, front);
        if visible(last) {
            assert(active_others(local, players) == kept.push(last));
            assert forall|i: int, j: int| 0 <= i < j < kept.len() + 1 implies (#[trigger] kept.push(
                last,
            )[i]).id@ != (#[trigger] kept.push(last)[j]).id@ by {
                if j == kept.len() {
                    assert(kept.contains(kept[i]));
                    front.lemma_filter_contains_rev(visible, kept[i]);
                    let k = choose|k: int| 0 <= k < front.len() && front[k] == kept[i];
                    assert(players[k] == kept[i]);
                    assert(players[players.len() - 1] == last);
                } else {
                    assert(kept.push(last)[i] == kept[i] && kept.push(last)[j] == kept[j]);
                }
            }
        } else {
            assert(active_others(local, players) == kept);
        }
    }
}

/// Copies the wall faces among the shot targets, in their order.
pub fn walls_of(hittables: &Vec<Hittable>) -> (kept: Vec<Hittable>)
    ensures
        kept@ == walls_only(hittables@),
        no_enemy(kept@),
{
    let mut kept: Vec<Hittable> = Vec::new();
    let mut i: usize = 0;
    assert(hittables@.take(0).filter(|h: Hittable| h is Wall) =~= Seq::<Hittable>::empty()) by {
        reveal(Seq::filter);
    }
    while i < hittables.len()
        invariant
            0 <= i <= hittables.len(),
            kept@ == walls_only(hittables@.take(i as int)),
        decreases hittables.len() - i,
    {
        proof {
            lemma_filter_take(hittables@, i as int, |h: Hittable| h is Wall);
        }
        match &hittables[i] {
            Hittable::Wall(shield) => {
                kept.push(Hittable::Wall(*shield));
            },
            Hittable::Enemy(_) => {},
        }
        i = i + 1;
    }
    proof {
        assert(hittables@.take(i as int) =~= hittables@);
        lemma_walls_only_holds_walls(hittables@);
    }
    kept
}

/// Takes the players out of the shot targets; the wall faces stay, in their
/// order.
pub fn purge_enemies(hittables: &mut Vec<Hittable>)
    ensures
        final(hittables)@ == walls_only(old(hittables)@),
        no_enemy(final(hittables)@),
{
    let kept = walls_of(hittables);
    *hittables = kept;
}

/// Adds every snapshot of another player to the shot targets, whatever its
/// status, in the order received.
pub fn track_enemies(hittables: &mut Vec<Hittable>, local_id: &String, players: &Vec<Player>)
    ensures
        final(hittables)@ == old(hittables)@ + as_enemies(others(local_id@, players@)),
{
    let ghost local = local_id@;
    let ghost pred = |p: Player| !p.is_identity(local);
    let mut i: usize = 0;
    assert(players@.take(0).filter(pred) =~= Seq::<Player>::empty()) by {
        reveal(Seq::filter);
    }
    assert(hittables@ =~= old(hittables)@ + as_enemies(others(local, players@.take(0))));
    while i < players.len()
        invariant
            0 <= i <= players.len(),
            local == local_id@,
            pred == (|p: Player| !p.is_identity(local)),
            hittables@ == old(hittables)@ + as_enemies(others(local, players@.take(i as int))),
        decreases players.len() - i,
    {
        proof {
            lemma_filter_take(players@, i as int, pred);
        }
        let ghost before = others(local, players@.take(i as int));
        if !players[i].has_identity(local_id) {
            hittables.push(Hittable::Enemy(players[i].clone()));
            assert(as_enemies(before.push(players@[i as int])) =~= as_enemies(before).push(
                Hittable::Enemy(players@[i as int]),
            ));
            assert(hittables@ =~= old(hittables)@ + as_enemies(before.push(players@[i as int])));
        }
        i = i + 1;
    }
    assert(players@.take(i as int) =~= players@);
}

/// Builds the visible roster: the active players other than the local one,
/// in the order received; absent where there is none.
pub fn build_roster(local_id: &String, players: &Vec<Player>) -> (roster: Option<Vec<Player>>)
    ensures
        roster_view(roster) == roster_of(active_others(local_id@, players@)),
{
    let ghost local = local_id@;
    let ghost pred = |p: Player|
        !p.is_identity(local) && p.player_status == PlayerStatus::Active;
    let mut visible: Vec<Player> = Vec::new();
    let mut i: usize = 0;
    assert(players@.take(0).filter(pred) =~= Seq::<Player>::empty()) by {
        reveal(Seq::filter);
    }
    while i < players.len()
        invariant
            0 <= i <= players.len(),
            local == local_id@,
            pred == (|p: Player| !p.is_identity(local) && p.player_status == PlayerStatus::Active),
            visible@ == active_others(local, players@.take(i as int)),
        decreases players.len() - i,
    {
        proof {
            lemma_filter_take(players@, i as int, pred);
        }
        if !players[i].has_identity(local_id) {
            if let PlayerStatus::Active = players[i].player_status {
                visible.push(players[i].clone());
            }
        }
        i = i + 1;
    }
    assert(players@.take(i as int) =~= players@);
    if visible.len() == 0 {
        None
    } else {
        Some(visible)
    }
}

/// Forgets every peer: the roster becomes absent and the players leave the
/// shot targets. This is what a datagram that cannot be read asks for.
pub fn clear_peers(enemies: &mut Option<Vec<Player>>, hittables: &mut Vec<Hittable>)
    ensures
        *final(enemies) is None,
        final(hittables)@ == walls_only(old(hittables)@),
        no_enemy(final(hittables)@),
{
    *enemies = None;
    purge_enemies(hittables);
}

/// Tells whether `notice` is the relay's word that the player with identity
/// `local_id` was killed.
pub fn is_killed_feedback(local_id: &String, notice: &Player) -> (killed: bool)
    ensures
        killed == is_kill_notice(local_id@, *notice),
{
    if notice.has_identity(local_id) {
        if let PlayerStatus::Killed = notice.player_status {
            return true;
        }
    }
    false
}

/// The local player after a new start in `cell`: active, in the middle of
/// the cell, and else as before.
pub open spec fn respawned(player: Player, cell: Cell) -> Player {
    Player { player_status: PlayerStatus::Active, position: cell_position(cell), ..player }
}

/// A new start of the local player: the cell it starts in, and the envelope
/// that tells the relay.
#[derive(Debug, PartialEq, Eq)]
pub struct Respawn {
    pub cell: Cell,
    pub envelope: ServerMessage,
}

/// Brings the local player in line with one snapshot from the relay. If the
/// snapshot is about this player and says killed, the player starts over:
/// it is active again and stands in the middle of an open cell, chosen by
/// chance, and the result holds that cell and the envelope that tells the
/// relay. For any other snapshot nothing changes.
pub fn reconcile_local_player(player: &mut Player, map: &Vec<Vec<bool>>, notice: &Player) -> (respawn:
    Option<Respawn>)
    requires
        is_kill_notice(old(player).id@, *notice) ==> has_open_cell(grid_of(map@)),
    ensures
        is_kill_notice(old(player).id@, *notice) ==> {
            &&& respawn is Some
            &&& is_open(grid_of(map@), respawn->0.cell.x as int, respawn->0.cell.z as int)
            &&& *final(player) == respawned(*old(player), respawn->0.cell)
            &&& respawn->0.envelope == final(player).own_envelope()
        },
        !is_kill_notice(old(player).id@, *notice) ==> respawn is None && *final(player) == *old(
            player,
        ),
{
    if is_killed_feedback(&player.id, notice) {
        let cell = generate_position(map);
        player.position = position_of(cell);
        player.player_status = PlayerStatus::Active;
        Some(Respawn { cell, envelope: player.envelope() })
    } else {
        None
    }
}

/// Reads the payload of a datagram as text. A payload that is not UTF-8 is
/// the relay's way of saying that no peer is known: the roster becomes absent
/// and the players leave the shot targets. A payload that is UTF-8 changes
/// nothing yet and comes back as text, to be decoded into snapshots.
pub fn accept_datagram(
    bytes: &[u8],
    enemies: &mut Option<Vec<Player>>,
    hittables: &mut Vec<Hittable>,
) -> (text: Option<String>)
    ensures
        valid_utf8(bytes@) ==> text is Some && text->0@ == decode_utf8(bytes@) && *final(enemies)
            == *old(enemies) && final(hittables)@ == old(hittables)@,
        !valid_utf8(bytes@) ==> text is None && *final(enemies) is None && final(hittables)@
            == walls_only(old(hittables)@) && no_enemy(final(hittables)@),
{
    match core::str::from_utf8(bytes) {
        Ok(text) => {
            proof {
                encode_utf8_decode_utf8(text@);
            }
            Some(text.to_owned())
        },
        Err(_) => {
            clear_peers(enemies, hittables);
            None
        },
    }
}

/// What the new starts of one datagram leave of the local player: the
/// player as it was if there was none, else the player after the last.
pub open spec fn after_respawns(player: Player, respawns: Seq<Respawn>) -> Player {
    if respawns.len() == 0 {
        player
    } else {
        respawned(player, respawns.last().cell)
    }
}

/// Each new start is in an open cell of `g`, and its envelope shows the
/// player `player` after that start.
pub open spec fn respawns_of(g: Seq<Seq<bool>>, player: Player, respawns: Seq<Respawn>) -> bool {
    forall|i: int|
        0 <= i < respawns.len() ==> {
            &&& is_open(g, (#[trigger] respawns[i]).cell.x as int, respawns[i].cell.z as int)
            &&& respawns[i].envelope == respawned(player, respawns[i].cell).own_envelope()
        }
}

/// Applies one decoded datagram to the shared state. `inbound` holds the
/// snapshots it carried, or nothing where its text could not be decoded.
///
/// Without snapshots every peer is forgotten. With snapshots the players
/// among the shot targets are replaced by all the other players received, the
/// roster by the active ones among them, and each snapshot that tells the
/// local player it was killed makes it start over in an open cell. The
/// result lists those new starts, each with the envelope that tells the
/// relay of it.
pub fn reconcile(
    player: &mut Player,
    enemies: &mut Option<Vec<Player>>,
    hittables: &mut Vec<Hittable>,
    map: &Vec<Vec<bool>>,
    inbound: &Option<Vec<Player>>,
) -> (respawns: Vec<Respawn>)
    requires
        inbound is Some && kill_notices(old(player).id@, inbound->0@).len() > 0 ==> has_open_cell(
            grid_of(map@),
        ),
    ensures
        walls_only(final(hittables)@) == walls_only(old(hittables)@),
        final(player).id == old(player).id,
        final(player).score == old(player).score,
        *final(player) == after_respawns(*old(player), respawns@),
        respawns_of(grid_of(map@), *old(player), respawns@),
        inbound is None ==> {
            &&& respawns@.len() == 0
            &&& *final(enemies) is None
            &&& final(hittables)@ == walls_only(old(hittables)@)
        },
        inbound is Some ==> {
            &&& respawns@.len() == kill_notices(old(player).id@, inbound->0@).len()
            &&& roster_view(*final(enemies)) == roster_of(
                active_others(old(player).id@, inbound->0@),
            )
            &&& final(hittables)@ == walls_only(old(hittables)@) + as_enemies(
                others(old(player).id@, inbound->0@),
            )
        },
{
    proof {
        match inbound {
            Some(players) => {
                lemma_walls_outlast_peers(hittables@, others(player.id@, players@));
            },
            None => {
                lemma_walls_outlast_peers(hittables@, Seq::empty());
            },
        }
    }
    match inbound {
        None => {
            clear_peers(enemies, hittables);
            Vec::new()
        },
        Some(players) => {
            purge_enemies(hittables);
            let respawns = respawn_for_each_notice(player, map, players);
            track_enemies(hittables, &player.id, players);
            *enemies = build_roster(&player.id, players);
            respawns
        },
    }
}

/// Brings the local player in line with every snapshot of a datagram, in the
/// order received, and lists the new starts.
pub fn respawn_for_each_notice(player: &mut Player, map: &Vec<Vec<bool>>, players: &Vec<Player>) -> (respawns:
    Vec<Respawn>)
    requires
        kill_notices(old(player).id@, players@).len() > 0 ==> has_open_cell(grid_of(map@)),
    ensures
        respawns@.len() == kill_notices(old(player).id@, players@).len(),
        respawns_of(grid_of(map@), *old(player), respawns@),
        *final(player) == after_respawns(*old(player), respawns@),
{
    let ghost local = player.id@;
    let ghost pred = |p: Player| is_kill_notice(local, p);
    let mut respawns: Vec<Respawn> = Vec::new();
    let mut i: usize = 0;
    assert(players@.take(0).filter(pred) =~= Seq::<Player>::empty()) by {
        reveal(Seq::filter);
    }
    while i < players.len()
        invariant
            0 <= i <= players.len(),
            local == old(player).id@,
            pred == (|p: Player| is_kill_notice(local, p)),
            kill_notices(local, players@).len() > 0 ==> has_open_cell(grid_of(map@)),
            respawns@.len() == kill_notices(local, players@.take(i as int)).len(),
            respawns_of(grid_of(map@), *old(player), respawns@),
            *player == after_respawns(*old(player), respawns@),
        decreases players.len() - i,
    {
        proof {
            lemma_filter_take(players@, i as int, pred);
            if pred(players@[i as int]) {
                players@.lemma_filter_contains(pred, i as int);
            }
        }
        let ghost before = respawns@;
        match reconcile_local_player(player, map, &players[i]) {
            Some(respawn) => {
                respawns.push(respawn);
                assert forall|k: int| 0 <= k < respawns@.len() implies ({
                    &&& is_open(
                        grid_of(map@),
                        (#[trigger] respawns@[k]).cell.x as int,
                        respawns@[k].cell.z as int,
                    )
                    &&& respawns@[k].envelope == respawned(
                        *old(player),
                        respawns@[k].cell,
                    ).own_envelope()
                }) by {
                    if k < before.len() {
                        assert(respawns@[k] == before[k]);
                    }
                }
            },
            None => {},
        }
        i = i + 1;
    }
    assert(players@.take(i as int) =~= players@);
    respawns
}

} // verus!
