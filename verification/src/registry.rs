//! The registry of games: the object that callers talk to.

use crate::deck::Card;
use crate::game::{Game, GameError, Identity};
use crate::model::GameView;
use crate::record::GameRecord;
use crate::schedule::GENESIS_TIME;
use vstd::prelude::*;

verus! {

/// All games, each under the number it got when it was created. Games are
/// never removed, so a number names the same game for good.
pub struct Bataille {
    games: Vec<Game>,
}

impl View for Bataille {
    type V = Seq<GameView>;

    closed spec fn view(&self) -> Seq<GameView> {
        Seq::new(self.games@.len(), |i: int| self.games@[i]@)
    }
}

impl Bataille {
    /// Every game of the registry is well formed.
    pub open spec fn wf(&self) -> bool {
        forall|i: int| 0 <= i < self@.len() ==> (#[trigger] self@[i]).wf()
    }

    /// A registry without games.
    pub fn new() -> (registry: Bataille)
        ensures
            registry@.len() == 0,
            registry.wf(),
    {
        Bataille { games: Vec::new() }
    }

    /// The registry that `records` write out, game by game, where each of
    /// them writes out a well-formed game, and nothing where one does not.
    pub fn restore(records: &Vec<GameRecord>) -> (registry: Option<Bataille>)
        ensures
            registry.is_some() == forall|i: int|
                0 <= i < records@.len() ==> (#[trigger] records@[i])@.wf(),
            registry matches Some(r) ==> r.wf() && r@.len() == records@.len() && forall|i: int|
                0 <= i < records@.len() ==> #[trigger] r@[i] == records@[i]@,
    {
        let mut games: Vec<Game> = Vec::new();
        let mut i: usize = 0;
        while i < records.len()
            invariant
                i <= records@.len(),
                games@.len() == i,
                forall|j: int| 0 <= j < i ==> (#[trigger] records@[j])@.wf(),
                forall|j: int| 0 <= j < i ==> (#[trigger] games@[j])@ == records@[j]@,
            decreases records@.len() - i,
        {
            match Game::restore(&records[i]) {
                Some(game) => games.push(game),
                None => {
                    assert(!records@[i as int]@.wf());
                    return None;
                },
            }
            i += 1;
        }
        let registry = Bataille { games };
        assert forall|j: int| 0 <= j < registry@.len() implies (#[trigger] registry@[j]).wf() by {
            assert(registry@[j] == games@[j]@);
            assert(records@[j]@.wf());
        }
        Some(registry)
    }

    /// Every game of the registry, written out in the order of their numbers.
    pub fn records(&self) -> (records: Vec<GameRecord>)
        ensures
            records@.len() == self@.len(),
            forall|i: int| 0 <= i < self@.len() ==> (#[trigger] records@[i])@ == self@[i],
    {
        let mut records: Vec<GameRecord> = Vec::new();
        let mut i: usize = 0;
        while i < self.games.len()
            invariant
                i <= self.games@.len(),
                records@.len() == i,
                forall|j: int| 0 <= j < i ==> (#[trigger] records@[j])@ == self.games@[j]@,
            decreases self.games@.len() - i,
        {
            records.push(self.games[i].record());
            i += 1;
        }
        records
    }

    /// The game with number `game_id`, if there is one.
    pub fn get(&self, game_id: u64) -> (found: Option<&Game>)
        ensures
            game_id < self@.len() ==> found.is_some() && found.unwrap()@ == self@[game_id as int],
            game_id >= self@.len() ==> found.is_none(),
    {
        if game_id < self.games.len() as u64 {
            Some(&self.games[game_id as usize])
        } else {
            None
        }
    }

    /// Opens a new game with `caller` as its first player and returns its
    /// number, which is the count of games opened before.
    #[allow(non_snake_case)]
    pub fn createGame(&mut self, caller: Identity) -> (id: u64)
        requires
            old(self).wf(),
        ensures
            id == old(self)@.len(),
            final(self)@ == old(self)@.push(GameView::opened(caller@)),
            final(self).wf(),
    {
        let id: usize = self.games.len();
        self.games.push(Game::new(caller));
        assert(self@ =~= old(self)@.push(GameView::opened(caller@)));
        id as u64
    }

    /// Seats `caller` in the game `id`, which must not have started.
    #[allow(non_snake_case)]
    pub fn joinGame(&mut self, id: u64, caller: Identity) -> (joined: Result<(), GameError>)
        requires
            old(self).wf(),
        ensures
            final(self).wf(),
            id >= old(self)@.len() ==> joined == Err::<(), GameError>(GameError::NoSuchGame)
                && final(self)@ == old(self)@,
            id < old(self)@.len() && old(self)@[id as int].started ==> joined == Err::<
                (),
                GameError,
            >(GameError::GameAlreadyStarted) && final(self)@ == old(self)@,
            id < old(self)@.len() && !old(self)@[id as int].started ==> joined == Ok::<
                (),
                GameError,
            >(()) && final(self)@ == old(self)@.update(
                id as int,
                old(self)@[id as int].joined(caller@),
            ),
    {
        if id >= self.games.len() as u64 {
            return Err(GameError::NoSuchGame);
        }
        let at: usize = id as usize;
        assert(self@[at as int].wf());
        if self.games[at].started() {
            return Err(GameError::GameAlreadyStarted);
        }
        self.games[at].join(caller);
        assert(self@ =~= old(self)@.update(at as int, old(self)@[at as int].joined(caller@)));
        Ok(())
    }

    /// Starts the game `id` at time `now`.
    #[allow(non_snake_case)]
    pub fn startGame(&mut self, id: u64, now: u64) -> (begun: Result<(), GameError>)
        requires
            old(self).wf(),
            now >= GENESIS_TIME,
        ensures
            final(self).wf(),
            id >= old(self)@.len() ==> begun == Err::<(), GameError>(GameError::NoSuchGame)
                && final(self)@ == old(self)@,
            id < old(self)@.len() ==> begun == Ok::<(), GameError>(()) && final(self)@ == old(
                self,
            )@.update(id as int, old(self)@[id as int].started_at(now)),
    {
        if id >= self.games.len() as u64 {
            return Err(GameError::NoSuchGame);
        }
        let at: usize = id as usize;
        assert(self@[at as int].wf());
        self.games[at].start(now);
        assert(self@ =~= old(self)@.update(at as int, old(self)@[at as int].started_at(now)));
        Ok(())
    }

    /// The round for which the beacon must confirm the signature of the
    /// next draw in game `game_id`, if `caller` may draw now.
    pub fn round_to_verify(&self, game_id: u64, caller: &Identity) -> (round: Result<
        u64,
        GameError,
    >)
        requires
            self.wf(),
        ensures
            game_id >= self@.len() ==> round == Err::<u64, GameError>(GameError::NoSuchGame),
            game_id < self@.len() ==> round == match self@[game_id as int].refusal(caller@, true) {
                Some(GameError::GameNotStarted) => Err::<u64, GameError>(
                    GameError::GameNotStarted,
                ),
                Some(GameError::OutOfTurn) => Err(GameError::OutOfTurn),
                _ => Ok(self@[game_id as int].next_round),
            },
    {
        if game_id >= self.games.len() as u64 {
            return Err(GameError::NoSuchGame);
        }
        let at: usize = game_id as usize;
        assert(self@[at as int].wf());
        self.games[at].round_to_verify(caller)
    }

    /// One draw in game `game_id` by `caller`, seeded by `drand_signature`,
    /// at time `now`. `verified` says whether the beacon confirmed the
    /// signature for the round that the game expects. A refused draw changes
    /// nothing; a draw that succeeds changes that one game and returns the
    /// card.
    pub fn draw(
        &mut self,
        game_id: u64,
        caller: &Identity,
        drand_signature: &[u8],
        verified: bool,
        now: u64,
    ) -> (drawn: Result<Card, GameError>)
        requires
            old(self).wf(),
            now >= GENESIS_TIME,
        ensures
            final(self).wf(),
            game_id >= old(self)@.len() ==> drawn == Err::<Card, GameError>(GameError::NoSuchGame)
                && final(self)@ == old(self)@,
            game_id < old(self)@.len() ==> match old(self)@[game_id as int].refusal(
                caller@,
                verified,
            ) {
                Some(e) => drawn == Err::<Card, GameError>(e) && final(self)@ == old(self)@,
                None => drawn == Ok::<Card, GameError>(
                    old(self)@[game_id as int].drawn_card(drand_signature@),
                ) && final(self)@ == old(self)@.update(
                    game_id as int,
                    old(self)@[game_id as int].after_draw(drand_signature@, now),
                ),
            },
    {
        if game_id >= self.games.len() as u64 {
            return Err(GameError::NoSuchGame);
        }
        let at: usize = game_id as usize;
        assert(self@[at as int].wf());
        let drawn = self.games[at].draw(caller, drand_signature, verified, now);
        assert(self@ =~= old(self)@.update(at as int, self@[at as int]));
        drawn
    }

    /// The owner of the last player left in game `game_id` once it is won;
    /// nobody before that, and nobody where there is no such game.
    pub fn winner(&self, game_id: u64) -> (who: Identity)
        requires
            self.wf(),
        ensures
            who@ == if game_id < self@.len() && self@[game_id as int].finished {
                let g = self@[game_id as int];
                g.players[g.active_players[0] as int].owner
            } else {
                Identity::nobody()
            },
    {
        if game_id >= self.games.len() as u64 {
            return Identity::zero();
        }
        let at: usize = game_id as usize;
        assert(self@[at as int].wf());
        self.games[at].winner()
    }

    /// The round that backs the next draw in game `game_id`.
    #[allow(non_snake_case)]
    pub fn nextDrandRound(&self, game_id: u64) -> (round: u64)
        requires
            game_id < self@.len(),
        ensures
            round == self@[game_id as int].next_round,
    {
        let count: usize = self.games.len();
        let at: usize = game_id as usize;
        assert(self@[at as int] == self.games@[at as int]@);
        self.games[at].next_round()
    }

    /// The place of the turn pointer in game `game_id`.
    pub fn turn(&self, game_id: u64) -> (index: u64)
        requires
            game_id < self@.len(),
        ensures
            index == self@[game_id as int].current_player_index,
    {
        let count: usize = self.games.len();
        let at: usize = game_id as usize;
        assert(self@[at as int] == self.games@[at as int]@);
        self.games[at].turn()
    }
}

} // verus!
