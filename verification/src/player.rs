//! Players as the relay reports them, and the envelope that carries one.

use crate::scalar::{Position, Scalar};
use vstd::prelude::*;

verus! {

/// The length of an identity: a hyphenated UUID.
pub const IDENTITY_LENGTH: usize = 36;

/// What the relay knows of a player's state.
#[derive(Clone, Copy, Debug, PartialEq, Eq, Structural)]
pub enum PlayerStatus {
    Active,
    Disconnent,
    Killed,
    Unknown,
}

/// One player at one instant.
#[derive(Debug, PartialEq, Eq)]
pub struct Player {
    pub id: String,
    pub name: String,
    pub position: Position,
    pub score: u32,
    pub player_status: PlayerStatus,
    pub orientation: Scalar,
    pub current_map: String,
}

/// What is sent to the relay: who sends, and the player it is about.
#[derive(Debug, PartialEq, Eq)]
pub struct ServerMessage {
    pub sender_id: String,
    pub player: Player,
}

/// Makes a new identity.
///
/// Calls `uuid::Uuid::new_v4` and writes the result with `to_string`, which
/// gives the hyphenated form: 32 hexadecimal digits and 4 hyphens. The
/// contract claims that length and nothing of the digits, which are drawn by
/// chance.
#[verifier::external_body]
fn fresh_identity() -> (id: String)
    ensures
        id@.len() == IDENTITY_LENGTH,
{
    uuid::Uuid::new_v4().to_string()
}

impl Clone for Player {
    fn clone(&self) -> (copy: Self)
        ensures
            copy == *self,
    {
        Player {
            id: self.id.clone(),
            name: self.name.clone(),
            position: self.position,
            score: self.score,
            player_status: self.player_status,
            orientation: self.orientation,
            current_map: self.current_map.clone(),
        }
    }
}

impl Clone for ServerMessage {
    fn clone(&self) -> (copy: Self)
        ensures
            copy == *self,
    {
        ServerMessage { sender_id: self.sender_id.clone(), player: self.player.clone() }
    }
}

impl Player {
    /// `self` is the player `id@` names.
    pub open spec fn is_identity(self, id: Seq<char>) -> bool {
        self.id@ == id
    }

    /// `self` with another status and nothing else changed.
    pub open spec fn with_status(self, status: PlayerStatus) -> Player {
        Player { player_status: status, ..self }
    }

    /// `self` with another score and nothing else changed.
    pub open spec fn with_score(self, score: u32) -> Player {
        Player { score, ..self }
    }

    /// A player nobody has met yet: a fresh identity, no name, no map, no
    /// score, active, at the origin.
    pub fn new() -> (p: Player)
        ensures
            p.id@.len() == IDENTITY_LENGTH,
            p.name@.len() == 0,
            p.position == (Position { x: Scalar { bits: 0 }, z: Scalar { bits: 0 } }),
            p.score == 0,
            p.player_status == PlayerStatus::Active,
            p.orientation == (Scalar { bits: 0 }),
            p.current_map@.len() == 0,
    {
        Player {
            id: fresh_identity(),
            name: String::new(),
            position: Position::new(),
            score: 0,
            player_status: PlayerStatus::Active,
            orientation: Scalar::zero(),
            current_map: String::new(),
        }
    }

    /// The envelope that tells the relay where this player stands: the
    /// player's own snapshot, sent in its own name.
    pub open spec fn own_envelope(self) -> ServerMessage {
        ServerMessage { sender_id: self.id, player: self }
    }

    /// Writes the envelope that tells the relay where this player stands.
    pub fn envelope(&self) -> (message: ServerMessage)
        ensures
            message == self.own_envelope(),
    {
        ServerMessage { sender_id: self.id.clone(), player: self.clone() }
    }

    /// Tells whether this snapshot is about the player with identity `id`.
    pub fn has_identity(&self, id: &String) -> (same: bool)
        ensures
            same == self.is_identity(id@),
    {
        self.id == *id
    }
}

} // verus!
