//! The state of a session under one owner.
//!
//! A world holds the grid, the local player, the roster, the shot targets
//! and the tracers, and changes only through the operations of this module.
//! Each of them starts from a sound world and leaves a sound world: the grid
//! is a playable, closed grid; the wall faces among the shot targets are the
//! faces of that grid, as they were made at load; the local player has an
//! identity; and every tracer kept is still live.

use crate::fire::{live, Shot};
use crate::filters::lemma_filter_all;
use crate::game::{
    envelopes_of_tick, handle_game_run, init_player, player_after_tick, shots_after_tick,
    targets_after_tick, tick_scores, TickInput, TickOutcome,
};
use crate::grid::{
    bordered, grid_of, is_bordered, is_grid_valid, is_open, parse_map, text_grid, valid_grid, Cell,
    MapError,
};
use crate::hit::{Hit, Hittable};
use crate::player::{Player, PlayerStatus, IDENTITY_LENGTH};
use crate::scalar::{Point3, Position, Scalar};
use crate::surface::{add_shields, as_walls, wall_faces};
use crate::spawn::cell_position;
use crate::sync::{
    accept_datagram, active_others, after_respawns, as_enemies, kill_notices, no_enemy, others,
    reconcile, respawns_of, roster_of, roster_view, walls_of, walls_only, Respawn,
};
use vstd::prelude::*;
use vstd::utf8::{decode_utf8, valid_utf8};

verus! {

/// The state of a session.
pub struct World {
    mini_map: Vec<Vec<bool>>,
    player: Player,
    enemies: Option<Vec<Player>>,
    hittables: Vec<Hittable>,
    shots: Vec<Shot>,
    first_run: bool,
}

/// What a world holds, as plain values.
pub struct WorldView {
    pub grid: Seq<Seq<bool>>,
    pub player: Player,
    pub enemies: Option<Seq<Player>>,
    pub targets: Seq<Hittable>,
    pub shots: Seq<Shot>,
    pub first_run: bool,
}

impl WorldView {
    /// What always holds of a world.
    pub open spec fn sound(self) -> bool {
        &&& valid_grid(self.grid)
        &&& bordered(self.grid)
        &&& walls_only(self.targets) == as_walls(wall_faces(self.grid))
        &&& self.player.id@.len() == IDENTITY_LENGTH
        &&& forall|i: int| 0 <= i < self.shots.len() ==> live(#[trigger] self.shots[i])
    }
}

impl View for World {
    type V = WorldView;

    closed spec fn view(&self) -> WorldView {
        WorldView {
            grid: grid_of(self.mini_map@),
            player: self.player,
            enemies: roster_view(self.enemies),
            targets: self.hittables@,
            shots: self.shots@,
            first_run: self.first_run,
        }
    }
}

/// The shot targets made of wall faces alone are their own wall faces.
proof fn lemma_faces_are_walls(g: Seq<Seq<bool>>)
    ensures
        walls_only(as_walls(wall_faces(g))) == as_walls(wall_faces(g)),
{
    lemma_filter_all(as_walls(wall_faces(g)), |h: Hittable| h is Wall);
}

/// Tells whether two lists of wall faces are the same list.
fn same_walls(a: &Vec<Hittable>, b: &Vec<Hittable>) -> (same: bool)
    requires
        no_enemy(a@),
        no_enemy(b@),
    ensures
        same == (a@ == b@),
{
    if a.len() != b.len() {
        return false;
    }
    let mut i: usize = 0;
    while i < a.len()
        invariant
            0 <= i <= a.len(),
            a.len() == b.len(),
            no_enemy(a@),
            no_enemy(b@),
            a@.take(i as int) == b@.take(i as int),
        decreases a.len() - i,
    {
        let equal = match (&a[i], &b[i]) {
            (Hittable::Wall(s), Hittable::Wall(t)) => s.x == t.x && s.z == t.z && s.axis == t.axis,
            _ => false,
        };
        assert(a@[i as int] is Wall && b@[i as int] is Wall);
        if !equal {
            assert(a@[i as int] != b@[i as int]);
            return false;
        }
        assert(a@.take(i + 1) =~= a@.take(i as int).push(a@[i as int]));
        assert(b@.take(i + 1) =~= b@.take(i as int).push(b@[i as int]));
        i = i + 1;
    }
    assert(a@.take(i as int) =~= a@);
    assert(b@.take(i as int) =~= b@);
    true
}

impl World {
    /// The world is sound.
    pub open spec fn wf(&self) -> bool {
        self@.sound()
    }

    /// Loads a world from a map text: the grid of the map, its wall faces as
    /// the first shot targets, no peers, no tracers, and a new player with
    /// the given name in the middle of an open cell, chosen by chance. That
    /// cell is the second part of the result. A map that is not a playable,
    /// closed grid is refused.
    pub fn new(content: &String, player_name: &String, map_path: &String) -> (loaded: Result<
        (World, Cell),
        MapError,
    >)
        ensures
            match loaded {
                Ok((world, cell)) => {
                    &&& world.wf()
                    &&& world@.grid == text_grid(content@)
                    &&& world@.targets == as_walls(wall_faces(world@.grid))
                    &&& world@.enemies is None
                    &&& world@.shots.len() == 0
                    &&& world@.first_run
                    &&& world@.player.name@ == player_name@
                    &&& world@.player.current_map@ == map_path@
                    &&& world@.player.score == 0
                    &&& world@.player.player_status == PlayerStatus::Active
                    &&& world@.player.position == cell_position(cell)
                    &&& is_open(world@.grid, cell.x as int, cell.z as int)
                },
                Err(MapError::InvalidFormat) => !valid_grid(text_grid(content@)),
                Err(MapError::OpenBorder) => valid_grid(text_grid(content@)) && !bordered(
                    text_grid(content@),
                ),
            },
    {
        let mini_map = match parse_map(content) {
            Ok(map) => map,
            Err(error) => {
                return Err(error);
            },
        };
        let mut hittables: Vec<Hittable> = Vec::new();
        add_shields(&mut hittables, &mini_map);
        let (player, cell) = init_player(&mini_map, player_name, map_path);
        proof {
            let g = grid_of(mini_map@);
            assert(hittables@ =~= as_walls(wall_faces(g)));
            lemma_faces_are_walls(g);
        }
        let world = World {
            mini_map,
            player,
            enemies: None,
            hittables,
            shots: Vec::new(),
            first_run: true,
        };
        Ok((world, cell))
    }

    /// Tells whether the world is sound. A world that was loaded and has
    /// changed through the operations of this module is.
    pub fn is_wf(&self) -> (ok: bool)
        ensures
            ok == self.wf(),
    {
        if !is_grid_valid(&self.mini_map) || !is_bordered(&self.mini_map) {
            return false;
        }
        if self.player.id.as_str().unicode_len() != IDENTITY_LENGTH {
            return false;
        }
        let mut i: usize = 0;
        while i < self.shots.len()
            invariant
                0 <= i <= self.shots.len(),
                forall|k: int| 0 <= k < i ==> live(#[trigger] self.shots@[k]),
            decreases self.shots.len() - i,
        {
            if self.shots[i].time_out <= 0 {
                assert(!live(self@.shots[i as int]));
                return false;
            }
            i = i + 1;
        }
        assert forall|k: int| 0 <= k < self@.shots.len() implies live(#[trigger] self@.shots[k]) by {
            assert(live(self.shots@[k]));
        }
        let mut faces: Vec<Hittable> = Vec::new();
        add_shields(&mut faces, &self.mini_map);
        let walls = walls_of(&self.hittables);
        proof {
            let g = grid_of(self.mini_map@);
            assert(faces@ =~= as_walls(wall_faces(g)));
            lemma_faces_are_walls(g);
            crate::sync::lemma_walls_only_holds_walls(faces@);
        }
        same_walls(&walls, &faces)
    }

    /// The grid: a playable, closed grid.
    pub fn mini_map(&self) -> (map: &Vec<Vec<bool>>)
        requires
            self.wf(),
        ensures
            grid_of(map@) == self@.grid,
            valid_grid(self@.grid),
            bordered(self@.grid),
    {
        &self.mini_map
    }

    /// The local player, who has an identity.
    pub fn player(&self) -> (player: &Player)
        requires
            self.wf(),
        ensures
            *player == self@.player,
            player.id@.len() == IDENTITY_LENGTH,
    {
        &self.player
    }

    /// The roster: the active peers of the last datagram, if there were any.
    pub fn enemies(&self) -> (enemies: &Option<Vec<Player>>)
        ensures
            roster_view(*enemies) == self@.enemies,
    {
        &self.enemies
    }

    /// The shot targets. The wall faces among them are the faces of the
    /// grid, in the order in which they were made at load.
    pub fn hittables(&self) -> (targets: &Vec<Hittable>)
        requires
            self.wf(),
        ensures
            targets@ == self@.targets,
            walls_only(targets@) == as_walls(wall_faces(self@.grid)),
    {
        &self.hittables
    }

    /// The tracers, all of them live.
    pub fn shots(&self) -> (shots: &Vec<Shot>)
        requires
            self.wf(),
        ensures
            shots@ == self@.shots,
            forall|i: int| 0 <= i < shots@.len() ==> live(#[trigger] shots@[i]),
    {
        assert forall|i: int| 0 <= i < self.shots@.len() implies live(
            #[trigger] self.shots@[i],
        ) by {
            assert(live(self@.shots[i]));
        }
        &self.shots
    }

    /// Tells whether no tick has been played yet.
    pub fn is_first_run(&self) -> (first: bool)
        ensures
            first == self@.first_run,
    {
        self.first_run
    }

    /// Records where the local player stands and looks, after the caller
    /// has moved the pose.
    pub fn set_pose(&mut self, position: Position, orientation: Scalar)
        requires
            old(self).wf(),
        ensures
            final(self).wf(),
            final(self)@ == (WorldView {
                player: Player { position, orientation, ..old(self)@.player },
                ..old(self)@
            }),
    {
        self.player.position = position;
        self.player.orientation = orientation;
    }

    /// Reads the payload of a datagram as text. A payload that is not UTF-8
    /// clears the roster and takes the players out of the shot targets; one
    /// that is UTF-8 changes nothing and comes back as text.
    pub fn accept_datagram(&mut self, bytes: &[u8]) -> (text: Option<String>)
        requires
            old(self).wf(),
        ensures
            final(self).wf(),
            valid_utf8(bytes@) ==> text is Some && text->0@ == decode_utf8(bytes@) && final(self)@
                == old(self)@,
            !valid_utf8(bytes@) ==> text is None && final(self)@ == (WorldView {
                enemies: None,
                targets: walls_only(old(self)@.targets),
                ..old(self)@
            }) && no_enemy(final(self)@.targets),
    {
        proof {
            crate::sync::lemma_walls_outlast_peers(self.hittables@, Seq::empty());
        }
        accept_datagram(bytes, &mut self.enemies, &mut self.hittables)
    }

    /// Applies one decoded datagram: `inbound` holds its snapshots, or
    /// nothing where its text could not be decoded. The peers are replaced
    /// by those of the datagram, and each word that the local player was
    /// killed makes it start over in an open cell. The result lists those
    /// new starts, each with the envelope that tells the relay of it.
    pub fn reconcile(&mut self, inbound: &Option<Vec<Player>>) -> (respawns: Vec<Respawn>)
        requires
            old(self).wf(),
        ensures
            final(self).wf(),
            final(self)@.player.id == old(self)@.player.id,
            final(self)@.player.score == old(self)@.player.score,
            respawns_of(old(self)@.grid, old(self)@.player, respawns@),
            inbound is None ==> respawns@.len() == 0 && final(self)@ == (WorldView {
                enemies: None,
                targets: walls_only(old(self)@.targets),
                ..old(self)@
            }),
            inbound is Some ==> respawns@.len() == kill_notices(
                old(self)@.player.id@,
                inbound->0@,
            ).len() && final(self)@ == (WorldView {
                player: after_respawns(old(self)@.player, respawns@),
                enemies: roster_of(active_others(old(self)@.player.id@, inbound->0@)),
                targets: walls_only(old(self)@.targets) + as_enemies(
                    others(old(self)@.player.id@, inbound->0@),
                ),
                ..old(self)@
            }),
    {
        let respawns = reconcile(
            &mut self.player,
            &mut self.enemies,
            &mut self.hittables,
            &self.mini_map,
            inbound,
        );
        assert forall|i: int| 0 <= i < self@.shots.len() implies live(#[trigger] self@.shots[i]) by {
            assert(live(old(self)@.shots[i]));
        }
        respawns
    }

    /// Tells whether the tick can be played: a shot that scores needs room
    /// in the score.
    pub open spec fn can_play(self, input: TickInput, hits: Seq<Option<Hit>>) -> bool {
        !input.quit && tick_scores(input, hits) ==> self@.player.score < u32::MAX
    }

    /// Plays one tick, once the caller has moved the pose and worked out
    /// where the view ray meets each shot target. After it the world is no
    /// longer on its first tick.
    pub fn handle_game_run(
        &mut self,
        input: &TickInput,
        hits: &Vec<Option<Hit>>,
        start: Point3,
        range_end: Point3,
    ) -> (outcome: TickOutcome)
        requires
            old(self).wf(),
            old(self).can_play(*input, hits@),
        ensures
            final(self).wf(),
            final(self)@.player.id == old(self)@.player.id,
            final(self)@.player.score >= old(self)@.player.score,
            outcome.quit == input.quit,
            outcome.envelopes@ == envelopes_of_tick(
                old(self)@.player,
                old(self)@.first_run,
                *input,
                hits@,
            ),
            final(self)@ == (WorldView {
                player: player_after_tick(old(self)@.player, *input, hits@),
                targets: targets_after_tick(old(self)@.targets, *input, hits@),
                shots: shots_after_tick(old(self)@.shots, *input, hits@, start, range_end),
                first_run: false,
                ..old(self)@
            }),
    {
        let first_run = self.first_run;
        self.first_run = false;
        let outcome = handle_game_run(
            &mut self.player,
            &mut self.hittables,
            &mut self.shots,
            first_run,
            input,
            hits,
            start,
            range_end,
        );
        assert forall|i: int| 0 <= i < self@.shots.len() implies live(#[trigger] self@.shots[i]) by {
            if i < old(self)@.shots.len() {
                assert(live(old(self)@.shots[i]));
            }
        }
        outcome
    }

    /// Lets a tick pass over the tracers: each is one tick older, and those
    /// whose time is up are dropped.
    pub fn remove_shots(&mut self)
        requires
            old(self).wf(),
        ensures
            final(self).wf(),
            final(self)@ == (WorldView {
                shots: old(self)@.shots.map_values(|s: Shot| crate::fire::aged(s)).filter(
                    |s: Shot| live(s),
                ),
                ..old(self)@
            }),
    {
        crate::fire::remove_shots(&mut self.shots);
    }
}

} // verus!
