//! What a shot does: which target it ends at, what a kill changes, and how
//! long its tracer stays.

use crate::filters::{lemma_filter_narrow, lemma_filter_take};
use crate::hit::{closest, closest_hit, Hit, Hittable};
use crate::player::{Player, PlayerStatus, ServerMessage};
use crate::scalar::Point3;
use crate::sync::walls_only;
use vstd::prelude::*;

verus! {

/// The number of ticks a tracer is shown for.
pub const SHOT_DURATION: i32 = 10;

/// The tracer of a shot: where it started, where it ended, and for how many
/// more ticks it is shown.
#[derive(Clone, Copy, Debug, PartialEq, Eq, Structural)]
pub struct Shot {
    pub start: Point3,
    pub end: Point3,
    pub time_out: i32,
}

/// What firing led to: the tracer, the word to the relay if a player was
/// struck, and whether the shot scored.
#[derive(Debug, PartialEq, Eq)]
pub struct FireOutcome {
    pub shot: Shot,
    pub notice: Option<ServerMessage>,
    pub scored: bool,
}

/// `h` is the player with identity `id`.
pub open spec fn is_enemy_named(h: Hittable, id: Seq<char>) -> bool {
    h is Enemy && h->Enemy_0.is_identity(id)
}

/// The shot targets without the player with identity `id`, in their order.
pub open spec fn without_enemy(targets: Seq<Hittable>, id: Seq<char>) -> Seq<Hittable> {
    targets.filter(|h: Hittable| !is_enemy_named(h, id))
}

/// The nearest strike among `hits`, if there is a strike.
pub open spec fn struck(hits: Seq<Option<Hit>>) -> Option<Hit> {
    match closest(hits) {
        Some(i) => hits[i],
        None => None,
    }
}

/// The player that the nearest strike is on, if it is on a player.
pub open spec fn victim_of(hits: Seq<Option<Hit>>) -> Option<Player> {
    match struck(hits) {
        Some(hit) => match hit.hittable {
            Hittable::Enemy(enemy) => Some(enemy),
            Hittable::Wall(_) => None,
        },
        None => None,
    }
}

/// The tracer of a shot from `start`: it ends at the nearest strike, or at
/// `range_end` where nothing is struck.
pub open spec fn tracer(hits: Seq<Option<Hit>>, start: Point3, range_end: Point3) -> Shot {
    Shot {
        start,
        end: match struck(hits) {
            Some(hit) => hit.p,
            None => range_end,
        },
        time_out: SHOT_DURATION,
    }
}

/// The word to the relay that `victim` was killed by the player `sender`.
pub open spec fn notice_of(sender: String, victim: Player) -> ServerMessage {
    ServerMessage { sender_id: sender, player: victim.with_status(PlayerStatus::Killed) }
}

/// A tracer one tick older.
pub open spec fn aged(shot: Shot) -> Shot {
    Shot { time_out: (shot.time_out - 1) as i32, ..shot }
}

/// A tracer that is still shown.
pub open spec fn live(shot: Shot) -> bool {
    shot.time_out > 0
}

/// Once a player was taken out of the shot targets, no entry for it is
/// left, and what is left holds a player only if the targets held it before.
pub proof fn lemma_without_enemy(targets: Seq<Hittable>, id: Seq<char>)
    ensures
        forall|i: int|
            0 <= i < without_enemy(targets, id).len() ==> !is_enemy_named(
                #[trigger] without_enemy(targets, id)[i],
                id,
            ),
        forall|h: Hittable| without_enemy(targets, id).contains(h) ==> targets.contains(h),
        forall|i: int|
            0 <= i < targets.len() && !is_enemy_named(#[trigger] targets[i], id) ==> without_enemy(
                targets,
                id,
            ).contains(targets[i]),
{
    let pred = |h: Hittable| !is_enemy_named(h, id);
    assert forall|i: int| 0 <= i < without_enemy(targets, id).len() implies !is_enemy_named(
        #[trigger] without_enemy(targets, id)[i],
        id,
    ) by {
        targets.lemma_filter_pred(pred, i);
    }
    assert forall|h: Hittable| without_enemy(targets, id).contains(h) implies targets.contains(
        h,
    ) by {
        targets.lemma_filter_contains_rev(pred, h);
    }
    assert forall|i: int|
        0 <= i < targets.len() && !is_enemy_named(#[trigger] targets[i], id) implies without_enemy(
        targets,
        id,
    ).contains(targets[i]) by {
        targets.lemma_filter_contains(pred, i);
    }
}

/// Taking a player out of the shot targets leaves the wall faces among them
/// as they were, in their order.
pub proof fn lemma_walls_outlast_shots(targets: Seq<Hittable>, id: Seq<char>)
    ensures
        walls_only(without_enemy(targets, id)) == walls_only(targets),
{
    lemma_filter_narrow(targets, |h: Hittable| h is Wall, |h: Hittable| !is_enemy_named(h, id));
}

/// Takes the player with identity `id` out of the shot targets; everything
/// else stays, in its order.
pub fn remove_enemy(hittables: &mut Vec<Hittable>, id: &String)
    ensures
        final(hittables)@ == without_enemy(old(hittables)@, id@),
{
    let ghost pred = |h: Hittable| !is_enemy_named(h, id@);
    let mut kept: Vec<Hittable> = Vec::new();
    let mut i: usize = 0;
    assert(hittables@.take(0).filter(pred) =~= Seq::<Hittable>::empty()) by {
        reveal(Seq::filter);
    }
    while i < hittables.len()
        invariant
            0 <= i <= hittables.len(),
            hittables@ == old(hittables)@,
            pred == (|h: Hittable| !is_enemy_named(h, id@)),
            kept@ == without_enemy(hittables@.take(i as int), id@),
        decreases hittables.len() - i,
    {
        proof {
            lemma_filter_take(hittables@, i as int, pred);
        }
        let keep = match &hittables[i] {
            Hittable::Wall(_) => true,
            Hittable::Enemy(enemy) => !enemy.has_identity(id),
        };
        if keep {
            kept.push(hittables[i].clone());
        }
        i = i + 1;
    }
    assert(hittables@.take(i as int) =~= hittables@);
    *hittables = kept;
}

/// Writes the word to the relay that `victim` was killed: the victim's
/// snapshot with the status killed, sent in the name of `sender_id`.
pub fn kill_notice(sender_id: &String, victim: &Player) -> (notice: ServerMessage)
    ensures
        notice == notice_of(*sender_id, *victim),
{
    let mut killed = victim.clone();
    killed.player_status = PlayerStatus::Killed;
    ServerMessage { sender_id: sender_id.clone(), player: killed }
}

/// Counts a strike on `victim` for `player`: the score goes up by one if the
/// victim was active, and stays as it is otherwise.
pub fn score_kill(player: &mut Player, victim: &Player) -> (scored: bool)
    requires
        victim.player_status == PlayerStatus::Active ==> old(player).score < u32::MAX,
    ensures
        scored == (victim.player_status == PlayerStatus::Active),
        *final(player) == if scored {
            old(player).with_score((old(player).score + 1) as u32)
        } else {
            *old(player)
        },
        final(player).score >= old(player).score,
{
    if let PlayerStatus::Active = victim.player_status {
        player.score = player.score + 1;
        true
    } else {
        false
    }
}

/// Resolves a shot. `hits` holds, for each shot target, where the ray from
/// `start` met it, if it did; `range_end` is the point at full range along
/// the ray.
///
/// The tracer ends at the nearest strike, or at `range_end` if there is none.
/// A strike on a wall face changes nothing. A strike on a player takes that
/// player out of the shot targets and yields the word to the relay that it
/// was killed; if the player was active, the score goes up by one.
pub fn resolve_fire(
    player: &mut Player,
    hittables: &mut Vec<Hittable>,
    hits: &Vec<Option<Hit>>,
    start: Point3,
    range_end: Point3,
) -> (outcome: FireOutcome)
    requires
        victim_of(hits@) is Some && victim_of(hits@)->0.player_status == PlayerStatus::Active
            ==> old(player).score < u32::MAX,
    ensures
        outcome.shot == tracer(hits@, start, range_end),
        match victim_of(hits@) {
            Some(victim) => {
                &&& outcome.scored == (victim.player_status == PlayerStatus::Active)
                &&& outcome.notice == Some(notice_of(old(player).id, victim))
                &&& final(hittables)@ == without_enemy(old(hittables)@, victim.id@)
                &&& *final(player) == if outcome.scored {
                    old(player).with_score((old(player).score + 1) as u32)
                } else {
                    *old(player)
                }
            },
            None => {
                &&& !outcome.scored
                &&& outcome.notice is None
                &&& final(hittables)@ == old(hittables)@
                &&& *final(player) == *old(player)
            },
        },
        final(player).score >= old(player).score,
        final(player).id == old(player).id,
        walls_only(final(hittables)@) == walls_only(old(hittables)@),
{
    proof {
        if victim_of(hits@) is Some {
            lemma_walls_outlast_shots(hittables@, victim_of(hits@)->0.id@);
        }
    }
    match closest_hit(hits) {
        Some(i) => {
            match &hits[i] {
                Some(hit) => {
                    let shot = Shot { start, end: hit.p, time_out: SHOT_DURATION };
                    match &hit.hittable {
                        Hittable::Wall(_) => FireOutcome { shot, notice: None, scored: false },
                        Hittable::Enemy(enemy) => {
                            let scored = score_kill(player, enemy);
                            remove_enemy(hittables, &enemy.id);
                            let notice = kill_notice(&player.id, enemy);
                            FireOutcome { shot, notice: Some(notice), scored }
                        },
                    }
                },
                None => {
                    proof {
                        assert(crate::hit::strikes(hits@, i as int));
                    }
                    FireOutcome {
                        shot: Shot { start, end: range_end, time_out: SHOT_DURATION },
                        notice: None,
                        scored: false,
                    }
                },
            }
        },
        None => FireOutcome {
            shot: Shot { start, end: range_end, time_out: SHOT_DURATION },
            notice: None,
            scored: false,
        },
    }
}

/// Lets a tick pass over the tracers: each is one tick older, and those whose
/// time is up are dropped; the others keep their order.
pub fn remove_shots(shots: &mut Vec<Shot>)
    requires
        forall|i: int| 0 <= i < old(shots)@.len() ==> (#[trigger] old(shots)@[i]).time_out > i32::MIN,
    ensures
        final(shots)@ == old(shots)@.map_values(|s: Shot| aged(s)).filter(|s: Shot| live(s)),
        forall|i: int| 0 <= i < final(shots)@.len() ==> live(#[trigger] final(shots)@[i]),
{
    let ghost older = shots@.map_values(|s: Shot| aged(s));
    let ghost pred = |s: Shot| live(s);
    let mut kept: Vec<Shot> = Vec::new();
    let mut i: usize = 0;
    assert(older.take(0).filter(pred) =~= Seq::<Shot>::empty()) by {
        reveal(Seq::filter);
    }
    while i < shots.len()
        invariant
            0 <= i <= shots.len(),
            shots@ == old(shots)@,
            older == shots@.map_values(|s: Shot| aged(s)),
            pred == (|s: Shot| live(s)),
            forall|k: int| 0 <= k < shots@.len() ==> (#[trigger] shots@[k]).time_out > i32::MIN,
            kept@ == older.take(i as int).filter(pred),
            forall|k: int| 0 <= k < kept@.len() ==> live(#[trigger] kept@[k]),
        decreases shots.len() - i,
    {
        proof {
            lemma_filter_take(older, i as int, pred);
        }
        let shot = shots[i];
        let next = Shot { start: shot.start, end: shot.end, time_out: shot.time_out - 1 };
        assert(next == older[i as int]);
        if next.time_out > 0 {
            kept.push(next);
        }
        i = i + 1;
    }
    assert(older.take(i as int) =~= older);
    *shots = kept;
}

} // verus!
