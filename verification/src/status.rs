//! What a server answers to a status query, decoded.

use vstd::prelude::*;
use crate::keys::ServerKeys;
use crate::string_utils::{lemma_sanitized_len, sanitized};

verus! {

/// A player on the server.
#[derive(Debug, Clone, PartialEq, Eq)]
pub struct Player {
    /// The name as the server sent it, colour codes included.
    pub name: String,
    /// The name without its colour codes.
    pub clean_name: String,
}

/// The answer of a server: its keys and the players on it, in the order in
/// which the server listed them.
#[derive(Debug)]
pub struct ServerStatus {
    pub keys: ServerKeys,
    pub players: Vec<Player>,
}

/// A player as two texts.
pub struct PlayerView {
    pub name: Seq<char>,
    pub clean_name: Seq<char>,
}

/// A status as a map of keys and a sequence of players.
pub struct StatusView {
    pub keys: Map<Seq<char>, Seq<char>>,
    pub players: Seq<PlayerView>,
}

/// The player that goes by `name`.
pub open spec fn named_player(name: Seq<char>) -> PlayerView {
    PlayerView { name, clean_name: sanitized(name) }
}

impl View for Player {
    type V = PlayerView;

    open spec fn view(&self) -> PlayerView {
        PlayerView { name: self.name@, clean_name: self.clean_name@ }
    }
}

impl Player {
    /// The player has a name, and the clean name is the name without its
    /// colour codes.
    pub open spec fn wf(&self) -> bool {
        self.name@.len() > 0 && self.clean_name@ == sanitized(self.name@)
    }

    /// The clean name of a player is no longer than the name.
    pub proof fn lemma_clean_name_len(&self)
        requires
            self.wf(),
        ensures
            self.clean_name@.len() <= self.name@.len(),
    {
        lemma_sanitized_len(self.name@);
    }
}

impl View for ServerStatus {
    type V = StatusView;

    open spec fn view(&self) -> StatusView {
        StatusView {
            keys: self.keys@,
            players: Seq::new(self.players@.len(), |i: int| self.players@[i]@),
        }
    }
}

impl ServerStatus {
    /// Every player is well formed.
    pub open spec fn wf(&self) -> bool {
        forall|i: int| 0 <= i < self.players@.len() ==> (#[trigger] self.players@[i]).wf()
    }
}

} // verus!
