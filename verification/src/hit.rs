//! What a ray can strike, what it struck, and which strike is nearest.

use crate::player::Player;
use crate::ray::{face_hit, sphere_hit, FaceCrossing, SphereCrossing};
use crate::scalar::{Point3, Scalar};
use crate::surface::Shield;
use vstd::prelude::*;

verus! {

/// Anything a shot can strike: a wall face or another player.
#[derive(Debug, PartialEq, Eq)]
pub enum Hittable {
    Wall(Shield),
    Enemy(Player),
}

/// Where a ray met a target: the ray parameter `t`, the point `p` and the
/// target itself.
#[derive(Debug, PartialEq, Eq)]
pub struct Hit {
    pub t: Scalar,
    pub p: Point3,
    pub hittable: Hittable,
}

impl Clone for Hittable {
    fn clone(&self) -> (copy: Self)
        ensures
            copy == *self,
    {
        match self {
            Hittable::Wall(shield) => Hittable::Wall(*shield),
            Hittable::Enemy(player) => Hittable::Enemy(player.clone()),
        }
    }
}

impl Clone for Hit {
    fn clone(&self) -> (copy: Self)
        ensures
            copy == *self,
    {
        Hit { t: self.t, p: self.p, hittable: self.hittable.clone() }
    }
}

impl Shield {
    /// The strike of a ray on this face, from the numbers of their crossing
    /// and the point `p` where the ray meets the plane of the face.
    pub open spec fn struck_at(self, crossing: FaceCrossing, p: Point3) -> Option<Hit> {
        if crossing.strikes() {
            Some(Hit { t: crossing.t, p, hittable: Hittable::Wall(self) })
        } else {
            None
        }
    }

    /// Tells where a ray strikes this face, if it does. `crossing` holds the
    /// numbers of the ray and the face, `p` the point where the ray meets the
    /// plane of the face.
    pub fn hit(&self, crossing: &FaceCrossing, p: Point3) -> (hit: Option<Hit>)
        ensures
            hit == self.struck_at(*crossing, p),
    {
        if face_hit(crossing) {
            Some(Hit { t: crossing.t, p, hittable: Hittable::Wall(*self) })
        } else {
            None
        }
    }
}

impl Player {
    /// The strike of a ray on this player, from the numbers of the ray and
    /// the player's sphere and the points at the two roots.
    pub open spec fn struck_at(
        self,
        crossing: SphereCrossing,
        near_point: Point3,
        far_point: Point3,
    ) -> Option<Hit> {
        match crossing.strike() {
            Some(t) => Some(
                Hit {
                    t,
                    p: if t == crossing.near {
                        near_point
                    } else {
                        far_point
                    },
                    hittable: Hittable::Enemy(self),
                },
            ),
            None => None,
        }
    }

    /// Tells where a ray strikes this player, if it does. `crossing` holds
    /// the numbers of the ray and the player's sphere, `near_point` and
    /// `far_point` the points of the ray at the lesser and the greater root.
    pub fn hit(&self, crossing: &SphereCrossing, near_point: Point3, far_point: Point3) -> (hit:
        Option<Hit>)
        ensures
            hit == self.struck_at(*crossing, near_point, far_point),
    {
        match sphere_hit(crossing) {
            Some(t) => {
                let p = if t.bits == crossing.near.bits {
                    near_point
                } else {
                    far_point
                };
                Some(Hit { t, p, hittable: Hittable::Enemy(self.clone()) })
            },
            None => None,
        }
    }
}

/// Entry `i` of `hits` is a strike in front of the ray's origin.
pub open spec fn strikes(hits: Seq<Option<Hit>>, i: int) -> bool {
    0 <= i < hits.len() && hits[i] is Some && hits[i]->0.t.positive()
}

/// Entry `i` of `hits` is the nearest strike: none is nearer, and none
/// before it is as near.
pub open spec fn is_closest(hits: Seq<Option<Hit>>, i: int) -> bool {
    &&& strikes(hits, i)
    &&& forall|j: int| #[trigger] strikes(hits, j) ==> hits[i]->0.t.bits <= hits[j]->0.t.bits
    &&& forall|j: int| #[trigger] strikes(hits, j) && j < i ==> hits[i]->0.t.bits < hits[j]->0.t.bits
}

/// The place of the nearest strike among `hits`, if there is a strike.
pub open spec fn closest(hits: Seq<Option<Hit>>) -> Option<int> {
    if exists|i: int| is_closest(hits, i) {
        Some(choose|i: int| is_closest(hits, i))
    } else {
        None
    }
}

/// At most one entry is the nearest strike.
pub proof fn lemma_closest_unique(hits: Seq<Option<Hit>>, a: int, b: int)
    requires
        is_closest(hits, a),
        is_closest(hits, b),
    ensures
        a == b,
{
    assert(strikes(hits, a));
    assert(strikes(hits, b));
}

/// Of two strikes with the same ray parameter the later one is never the
/// nearest: a tie goes to the entry that comes first.
pub proof fn lemma_tie_goes_to_first(hits: Seq<Option<Hit>>, a: int, b: int)
    requires
        strikes(hits, a),
        strikes(hits, b),
        a < b,
        hits[a]->0.t == hits[b]->0.t,
    ensures
        !is_closest(hits, b),
{
}

/// Finds the nearest strike: the entry with the least positive ray parameter,
/// and of several such entries the first. Entries that hold no strike, or one
/// whose ray parameter is not positive, are passed over.
pub fn closest_hit(hits: &Vec<Option<Hit>>) -> (best: Option<usize>)
    ensures
        match best {
            Some(i) => is_closest(hits@, i as int),
            None => forall|j: int| !strikes(hits@, j),
        },
        best == match closest(hits@) {
            Some(i) => Some(i as usize),
            None => None,
        },
{
    let mut best: Option<usize> = None;
    let mut least: u32 = 0;
    let mut k: usize = 0;
    while k < hits.len()
        invariant
            0 <= k <= hits.len(),
            match best {
                Some(i) => i < k && is_closest(hits@.take(k as int), i as int) && least
                    == hits@[i as int]->0.t.bits,
                None => forall|j: int| !strikes(hits@.take(k as int), j),
            },
        decreases hits.len() - k,
    {
        let ghost before = hits@.take(k as int);
        let ghost now = hits@.take(k + 1);
        assert(forall|j: int| 0 <= j < k ==> now[j] == before[j]);
        assert(forall|j: int| strikes(now, j) && j < k ==> strikes(before, j));
        assert(forall|j: int| strikes(before, j) ==> strikes(now, j));
        match &hits[k] {
            Some(hit) => {
                if hit.t.is_positive() {
                    assert(strikes(now, k as int));
                    match best {
                        Some(i) => {
                            assert(strikes(before, i as int));
                            if hit.t.bits < least {
                                best = Some(k);
                                least = hit.t.bits;
                                assert(is_closest(now, k as int)) by {
                                    assert forall|j: int| #[trigger]
                                        strikes(now, j) implies now[k as int]->0.t.bits
                                        <= now[j]->0.t.bits by {
                                        if j < k {
                                            assert(strikes(before, j));
                                        }
                                    }
                                    assert forall|j: int| #[trigger]
                                        strikes(now, j) && j < k implies now[k as int]->0.t.bits
                                        < now[j]->0.t.bits by {
                                        assert(strikes(before, j));
                                    }
                                }
                            } else {
                                assert(is_closest(now, i as int)) by {
                                    assert forall|j: int| #[trigger]
                                        strikes(now, j) implies now[i as int]->0.t.bits
                                        <= now[j]->0.t.bits by {
                                        if j < k {
                                            assert(strikes(before, j));
                                        }
                                    }
                                    assert forall|j: int| #[trigger]
                                        strikes(now, j) && j < i implies now[i as int]->0.t.bits
                                        < now[j]->0.t.bits by {
                                        assert(strikes(before, j));
                                    }
                                }
                            }
                        },
                        None => {
                            best = Some(k);
                            least = hit.t.bits;
                            assert(is_closest(now, k as int)) by {
                                assert forall|j: int| #[trigger] strikes(now, j) implies j == k by {
                                    if j < k {
                                        assert(strikes(before, j));
                                    }
                                }
                            }
                        },
                    }
                } else {
                    proof {
                        lemma_skip_entry(before, now, best);
                    }
                }
            },
            None => {
                proof {
                    lemma_skip_entry(before, now, best);
                }
            },
        }
        k = k + 1;
    }
    proof {
        assert(hits@.take(k as int) =~= hits@);
        match best {
            Some(i) => {
                if closest(hits@) is Some {
                    lemma_closest_unique(hits@, i as int, closest(hits@)->0);
                }
            },
            None => {
                if exists|i: int| is_closest(hits@, i) {
                    let i = choose|i: int| is_closest(hits@, i);
                    assert(strikes(hits@, i));
                }
            },
        }
    }
    best
}

/// An entry that is no strike changes nothing about which strike is nearest.
proof fn lemma_skip_entry(before: Seq<Option<Hit>>, now: Seq<Option<Hit>>, best: Option<usize>)
    requires
        now.len() == before.len() + 1,
        forall|j: int| 0 <= j < before.len() ==> now[j] == before[j],
        !strikes(now, before.len() as int),
        match best {
            Some(i) => is_closest(before, i as int),
            None => forall|j: int| !strikes(before, j),
        },
    ensures
        match best {
            Some(i) => is_closest(now, i as int),
            None => forall|j: int| !strikes(now, j),
        },
{
    assert forall|j: int| strikes(now, j) implies strikes(before, j) by {}
    match best {
        Some(i) => {
            assert(strikes(before, i as int));
            assert forall|j: int| #[trigger] strikes(now, j) implies now[i as int]->0.t.bits
                <= now[j]->0.t.bits by {
                assert(strikes(before, j));
            }
            assert forall|j: int| #[trigger] strikes(now, j) && j < i implies now[i as int]->0.t.bits
                < now[j]->0.t.bits by {
                assert(strikes(before, j));
            }
        },
        None => {},
    }
}

} // verus!
