//! The decisions of one tick of play: when the relay must hear of the local
//! player, how a session starts and how it ends.

use crate::fire::{notice_of, resolve_fire, tracer, victim_of, without_enemy, Shot};
use crate::grid::{grid_of, has_open_cell, is_open, Cell};
use crate::hit::{Hit, Hittable};
use crate::player::{Player, PlayerStatus, ServerMessage, IDENTITY_LENGTH};
use crate::scalar::{Point3, Scalar};
use crate::spawn::{cell_position, generate_position, position_of};
use crate::sync::walls_only;
use vstd::prelude::*;

verus! {

/// The bit pattern of 0.35: the highest the view may tilt, in radians.
pub const MAX_PITCH_BITS: u32 = 0x3eb3_3333;

/// The bit pattern of -0.35: the lowest the view may tilt, in radians.
pub const MIN_PITCH_BITS: u32 = 0xbeb3_3333;

/// The tilt that the view takes when `pitch` is asked for: the highest
/// allowed if `pitch` lies above it, the lowest allowed if `pitch` lies
/// below it, else `pitch` itself.
pub open spec fn clamped_pitch(pitch: Scalar) -> Scalar {
    if (Scalar { bits: MAX_PITCH_BITS }).less_than(pitch) {
        Scalar { bits: MAX_PITCH_BITS }
    } else if pitch.less_than(Scalar { bits: MIN_PITCH_BITS }) {
        Scalar { bits: MIN_PITCH_BITS }
    } else {
        pitch
    }
}

/// Keeps the tilt of the view within its limits.
pub fn clamp_pitch(pitch: Scalar) -> (kept: Scalar)
    ensures
        kept == clamped_pitch(pitch),
        !(Scalar { bits: MAX_PITCH_BITS }).less_than(kept),
        !kept.less_than(Scalar { bits: MIN_PITCH_BITS }),
{
    let highest = Scalar::from_bits(MAX_PITCH_BITS);
    let lowest = Scalar::from_bits(MIN_PITCH_BITS);
    if highest.lt(&pitch) {
        highest
    } else if pitch.lt(&lowest) {
        lowest
    } else {
        pitch
    }
}

/// What the player asked for during one tick.
#[derive(Clone, Copy, Debug, PartialEq, Eq, Structural)]
pub struct TickInput {
    pub forward: bool,
    pub back: bool,
    pub left: bool,
    pub right: bool,
    /// The pointer is not where it was a tick ago.
    pub pointer_moved: bool,
    /// The trigger was pulled during this tick.
    pub fire: bool,
    /// The player asked to leave during this tick.
    pub quit: bool,
}

impl TickInput {
    /// A movement key is held.
    pub open spec fn moving(self) -> bool {
        self.forward || self.back || self.left || self.right
    }

    /// Tells whether a movement key is held.
    pub fn is_moving(&self) -> (moving: bool)
        ensures
            moving == self.moving(),
    {
        self.forward || self.back || self.left || self.right
    }
}

/// The relay must hear of the local player: on the first tick, and whenever
/// the player moved, turned or scored.
pub open spec fn broadcast_due(first_run: bool, input: TickInput, scored: bool) -> bool {
    first_run || input.moving() || input.pointer_moved || scored
}

/// Tells whether the tick ends with an envelope to the relay.
pub fn needs_broadcast(first_run: bool, input: &TickInput, scored: bool) -> (due: bool)
    ensures
        due == broadcast_due(first_run, *input, scored),
{
    first_run || input.is_moving() || input.pointer_moved || scored
}

/// Starts a session: a new player with the given name on the given map, in
/// the middle of an open cell of the grid, chosen by chance. The cell is the
/// second part of the result.
pub fn init_player(map: &Vec<Vec<bool>>, player_name: &String, map_path: &String) -> (start: (
    Player,
    Cell,
))
    requires
        has_open_cell(grid_of(map@)),
    ensures
        start.0.id@.len() == IDENTITY_LENGTH,
        start.0.name@ == player_name@,
        start.0.current_map@ == map_path@,
        start.0.score == 0,
        start.0.player_status == PlayerStatus::Active,
        start.0.position == cell_position(start.1),
        start.0.orientation == (Scalar { bits: 0 }),
        is_open(grid_of(map@), start.1.x as int, start.1.z as int),
{
    let mut player = Player::new();
    player.name = player_name.clone();
    player.current_map = map_path.clone();
    let cell = generate_position(map);
    player.position = position_of(cell);
    (player, cell)
}

/// Ends a session at the player's wish: the player is marked as gone, and
/// the result is the envelope that says so to the relay.
pub fn disconnect(player: &mut Player) -> (farewell: ServerMessage)
    ensures
        *final(player) == old(player).with_status(PlayerStatus::Disconnent),
        farewell == final(player).own_envelope(),
{
    player.player_status = PlayerStatus::Disconnent;
    player.envelope()
}

/// What a tick of play asks of the caller: whether to end the session, and
/// which envelopes to send to the relay, in this order.
#[derive(Debug, PartialEq, Eq)]
pub struct TickOutcome {
    pub quit: bool,
    pub envelopes: Vec<ServerMessage>,
}

/// The shot fired during the tick scores: the trigger was pulled, and the
/// nearest strike is on an active player.
pub open spec fn tick_scores(input: TickInput, hits: Seq<Option<Hit>>) -> bool {
    input.fire && victim_of(hits) is Some && victim_of(hits)->0.player_status
        == PlayerStatus::Active
}

/// The local player after the tick: gone if it asked to leave, one point
/// richer if its shot scored, else as before.
pub open spec fn player_after_tick(player: Player, input: TickInput, hits: Seq<Option<Hit>>) -> Player {
    if input.quit {
        player.with_status(PlayerStatus::Disconnent)
    } else if tick_scores(input, hits) {
        player.with_score((player.score + 1) as u32)
    } else {
        player
    }
}

/// The shot targets after the tick: without the player that a shot struck.
pub open spec fn targets_after_tick(
    targets: Seq<Hittable>,
    input: TickInput,
    hits: Seq<Option<Hit>>,
) -> Seq<Hittable> {
    if !input.quit && input.fire && victim_of(hits) is Some {
        without_enemy(targets, victim_of(hits)->0.id@)
    } else {
        targets
    }
}

/// The tracers after the tick: one more, at the end, if a shot was fired.
pub open spec fn shots_after_tick(
    shots: Seq<Shot>,
    input: TickInput,
    hits: Seq<Option<Hit>>,
    start: Point3,
    range_end: Point3,
) -> Seq<Shot> {
    if !input.quit && input.fire {
        shots.push(tracer(hits, start, range_end))
    } else {
        shots
    }
}

/// The envelopes of the tick. A player that leaves says only that. Else the
/// word that a player was killed comes first, if a shot struck one, and the
/// local player's own envelope follows if the relay must hear of it.
pub open spec fn envelopes_of_tick(
    player: Player,
    first_run: bool,
    input: TickInput,
    hits: Seq<Option<Hit>>,
) -> Seq<ServerMessage> {
    let after = player_after_tick(player, input, hits);
    if input.quit {
        seq![after.own_envelope()]
    } else {
        let kills = if input.fire && victim_of(hits) is Some {
            seq![notice_of(player.id, victim_of(hits)->0)]
        } else {
            Seq::empty()
        };
        let own = if broadcast_due(first_run, input, tick_scores(input, hits)) {
            seq![after.own_envelope()]
        } else {
            Seq::empty()
        };
        kills + own
    }
}

/// Plays one tick, once the caller has moved the pose and worked out where
/// the view ray meets each shot target. `first_run` marks the first tick of
/// the session; `hits`, `start` and `range_end` describe the shot that is
/// fired if the trigger was pulled.
///
/// A player that asked to leave is marked as gone, and the tick ends the
/// session with that one envelope. Else a pulled trigger fires a shot, which
/// leaves its tracer, and which takes a struck player out of the shot
/// targets and counts for the score if that player was active; and the relay
/// hears of the local player if this is the first tick or the player moved,
/// turned or scored.
pub fn handle_game_run(
    player: &mut Player,
    hittables: &mut Vec<Hittable>,
    shots: &mut Vec<Shot>,
    first_run: bool,
    input: &TickInput,
    hits: &Vec<Option<Hit>>,
    start: Point3,
    range_end: Point3,
) -> (outcome: TickOutcome)
    requires
        !input.quit && tick_scores(*input, hits@) ==> old(player).score < u32::MAX,
    ensures
        outcome.quit == input.quit,
        *final(player) == player_after_tick(*old(player), *input, hits@),
        final(hittables)@ == targets_after_tick(old(hittables)@, *input, hits@),
        final(shots)@ == shots_after_tick(old(shots)@, *input, hits@, start, range_end),
        outcome.envelopes@ == envelopes_of_tick(*old(player), first_run, *input, hits@),
        final(player).score >= old(player).score,
        final(player).id == old(player).id,
        walls_only(final(hittables)@) == walls_only(old(hittables)@),
{
    let mut envelopes: Vec<ServerMessage> = Vec::new();
    if input.quit {
        let farewell = disconnect(player);
        envelopes.push(farewell);
        assert(envelopes@ =~= envelopes_of_tick(*old(player), first_run, *input, hits@));
        return TickOutcome { quit: true, envelopes };
    }
    let mut scored = false;
    if input.fire {
        let fired = resolve_fire(player, hittables, hits, start, range_end);
        shots.push(fired.shot);
        scored = fired.scored;
        match fired.notice {
            Some(notice) => {
                envelopes.push(notice);
            },
            None => {},
        }
    }
    if needs_broadcast(first_run, input, scored) {
        envelopes.push(player.envelope());
    }
    assert(envelopes@ =~= envelopes_of_tick(*old(player), first_run, *input, hits@));
    TickOutcome { quit: false, envelopes }
}

} // verus!
