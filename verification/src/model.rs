//! The game as a mathematical object: what a game is, which games are
//! well formed, and what each move makes of a game.

use crate::deck::{value_of, without, Card};
use crate::rng::{keccak256, uniform_index};
use crate::schedule::{round_at, PERIOD};
use vstd::multiset::*;
use vstd::prelude::*;

verus! {

/// A player: who owns the seat, the cards won so far, and the cards that lie
/// face up before the player.
pub struct PlayerView {
    pub owner: Seq<u8>,
    pub heap: Seq<Card>,
    pub revealed: Seq<Card>,
}

/// A game. Players are named by their place in `players`, which never
/// changes. `active_players` lists those still in the game. During a
/// bataille `players_bataille` lists the tied players, who alone take turns;
/// `current_player_index` counts within the players who take turns.
pub struct GameView {
    pub common_heap: Seq<Card>,
    pub players: Seq<PlayerView>,
    pub active_players: Seq<usize>,
    pub current_player_index: int,
    pub started: bool,
    pub finished: bool,
    pub bataille: bool,
    pub next_round: u64,
    pub players_bataille: Seq<usize>,
}

/// Every card once, in rising order.
pub open spec fn full_deck() -> Seq<Card> {
    Seq::new(52, |i: int| i as u8)
}

/// A player who has just taken a seat.
pub open spec fn newcomer(owner: Seq<u8>) -> PlayerView {
    PlayerView { owner, heap: Seq::empty(), revealed: Seq::empty() }
}

/// The cards of one player, face down and face up.
pub open spec fn pile_of(p: PlayerView) -> Multiset<Card> {
    p.heap.to_multiset().add(p.revealed.to_multiset())
}

/// The cards of all players together.
pub open spec fn held(players: Seq<PlayerView>) -> Multiset<Card>
    decreases players.len(),
{
    if players.len() == 0 {
        Multiset::empty()
    } else {
        held(players.drop_last()).add(pile_of(players.last()))
    }
}

/// The number of cards of all players together.
pub open spec fn held_count(players: Seq<PlayerView>) -> nat
    decreases players.len(),
{
    if players.len() == 0 {
        0
    } else {
        held_count(players.drop_last()) + players.last().heap.len() + players.last().revealed.len()
    }
}

/// Whether every card of a pile is a card of the deck.
pub open spec fn pile_in_range(pile: Seq<Card>) -> bool {
    forall|k: int| 0 <= k < pile.len() ==> #[trigger] pile[k] < 52
}

/// Whether every card of every player is a card of the deck.
pub open spec fn seats_in_range(players: Seq<PlayerView>) -> bool {
    forall|p: int|
        0 <= p < players.len() ==> pile_in_range((#[trigger] players[p]).heap) && pile_in_range(
            players[p].revealed,
        )
}

/// The rank of the card that a player revealed last.
pub open spec fn top_value(p: PlayerView) -> int {
    value_of(p.revealed.last())
}

/// Whether no player of `who` shows a higher card than player `i` does.
pub open spec fn leads(players: Seq<PlayerView>, who: Seq<usize>, i: usize) -> bool {
    forall|k: int|
        0 <= k < who.len() ==> top_value(#[trigger] players[who[k] as int]) <= top_value(
            players[i as int],
        )
}

/// The players of `cand`, in order, that lead among `who`.
pub open spec fn leaders_among(players: Seq<PlayerView>, who: Seq<usize>, cand: Seq<usize>) -> Seq<
    usize,
>
    decreases cand.len(),
{
    if cand.len() == 0 {
        Seq::empty()
    } else {
        let rest = leaders_among(players, who, cand.drop_last());
        if leads(players, who, cand.last()) {
            rest.push(cand.last())
        } else {
            rest
        }
    }
}

/// The players of `who` that show the highest card.
pub open spec fn leaders(players: Seq<PlayerView>, who: Seq<usize>) -> Seq<usize> {
    leaders_among(players, who, who)
}

/// All face-up cards, player by player.
pub open spec fn pot(players: Seq<PlayerView>) -> Seq<Card>
    decreases players.len(),
{
    if players.len() == 0 {
        Seq::empty()
    } else {
        pot(players.drop_last()) + players.last().revealed
    }
}

/// The players with no card face up any more.
pub open spec fn cleared(players: Seq<PlayerView>) -> Seq<PlayerView> {
    Seq::new(
        players.len(),
        |i: int| PlayerView { owner: players[i].owner, heap: players[i].heap, revealed: Seq::empty() },
    )
}

/// The players after player `w` has taken the pot under the own heap.
pub open spec fn award(players: Seq<PlayerView>, w: int) -> Seq<PlayerView> {
    cleared(players).update(
        w,
        PlayerView {
            owner: players[w].owner,
            heap: players[w].heap + pot(players),
            revealed: Seq::empty(),
        },
    )
}

/// The players of `roster`, in order, that still own a card.
pub open spec fn survivors(players: Seq<PlayerView>, roster: Seq<usize>) -> Seq<usize>
    decreases roster.len(),
{
    if roster.len() == 0 {
        Seq::empty()
    } else {
        let rest = survivors(players, roster.drop_last());
        if players[roster.last() as int].heap.len() > 0 {
            rest.push(roster.last())
        } else {
            rest
        }
    }
}

/// The place that a draw seeded by `signature` picks in a pile of `len` cards.
pub open spec fn drawn_place(signature: Seq<u8>, len: int) -> int {
    uniform_index(keccak256(signature), 0, len as u32).0 as int
}

impl GameView {
    /// All cards of the game: the common heap and what the players have.
    pub open spec fn cards(self) -> Multiset<Card> {
        self.common_heap.to_multiset().add(held(self.players))
    }

    /// The number of cards in the common heap, in the players' heaps and face up.
    pub open spec fn card_count(self) -> nat {
        self.common_heap.len() + held_count(self.players)
    }

    /// The players who take turns in the current round.
    pub open spec fn contenders(self) -> Seq<usize> {
        if self.bataille {
            self.players_bataille
        } else {
            self.active_players
        }
    }

    /// The player whose turn it is.
    pub open spec fn current_player(self) -> int {
        self.contenders()[self.current_player_index] as int
    }

    /// The pile that the next card comes from: the common heap while it
    /// lasts, then the current player's own heap.
    pub open spec fn source(self) -> Seq<Card> {
        if self.common_heap.len() > 0 {
            self.common_heap
        } else {
            self.players[self.current_player()].heap
        }
    }

    /// Whether draws are being taken: started and not yet won.
    pub open spec fn running(self) -> bool {
        self.started && !self.finished
    }

    /// The cards are the 52 of the deck, and roster and tie list name
    /// players of the game.
    pub open spec fn sound(self) -> bool {
        &&& self.cards() == full_deck().to_multiset()
        &&& self.players.len() >= 1
        &&& self.active_players.len() >= 1
        &&& forall|k: int|
            0 <= k < self.active_players.len() ==> (#[trigger] self.active_players[k])
                < self.players.len()
        &&& forall|k: int|
            0 <= k < self.players_bataille.len() ==> (#[trigger] self.players_bataille[k])
                < self.players.len() && self.active_players.contains(self.players_bataille[k])
        &&& self.bataille ==> 2 <= self.players_bataille.len() <= self.active_players.len()
        &&& !self.bataille ==> self.players_bataille.len() == 0
        &&& self.finished ==> self.started && !self.bataille && self.active_players.len() == 1
        &&& !self.started ==> !self.bataille
    }

    /// Whether the first `n` of the players who take turns have a card face up.
    pub open spec fn shown(self, n: int) -> bool {
        forall|k: int|
            0 <= k < n ==> (#[trigger] self.players[self.contenders()[k] as int]).revealed.len() > 0
    }

    /// A well-formed game: sound, the turn pointer names a player who takes
    /// turns, and those before the pointer have revealed their card.
    pub open spec fn wf(self) -> bool {
        &&& self.sound()
        &&& 0 <= self.current_player_index < self.contenders().len()
        &&& self.shown(self.current_player_index)
    }

    /// A new game, opened by `owner`.
    pub open spec fn opened(owner: Seq<u8>) -> GameView {
        GameView {
            common_heap: full_deck(),
            players: seq![newcomer(owner)],
            active_players: seq![0usize],
            current_player_index: 0,
            started: false,
            finished: false,
            bataille: false,
            next_round: 0,
            players_bataille: Seq::empty(),
        }
    }

    /// The game after `owner` has joined.
    pub open spec fn joined(self, owner: Seq<u8>) -> GameView {
        GameView {
            players: self.players.push(newcomer(owner)),
            active_players: self.active_players.push(self.players.len() as usize),
            ..self
        }
    }

    /// The game after it was started at time `now`.
    pub open spec fn started_at(self, now: u64) -> GameView {
        GameView { started: true, next_round: round_at(now) as u64, ..self }
    }

    /// The game after the card at place `i` of the source pile was laid face
    /// up before the current player.
    pub open spec fn dealt(self, i: int) -> GameView {
        let p = self.current_player();
        let seat = self.players[p];
        if self.common_heap.len() > 0 {
            GameView {
                common_heap: without(self.common_heap, i),
                players: self.players.update(
                    p,
                    PlayerView { revealed: seat.revealed.push(self.common_heap[i]), ..seat },
                ),
                ..self
            }
        } else {
            GameView {
                players: self.players.update(
                    p,
                    PlayerView {
                        heap: without(seat.heap, i),
                        revealed: seat.revealed.push(seat.heap[i]),
                        ..seat
                    },
                ),
                ..self
            }
        }
    }

    /// The game after the cards of a complete round were compared. A single
    /// leader takes the pot; then, once the common heap is used up, players
    /// without a card leave the roster, and the game is won when one player
    /// is left. Several leaders go on in a bataille among themselves.
    pub open spec fn resolved(self) -> GameView {
        let lead = leaders(self.players, self.contenders());
        if lead.len() == 1 {
            let players = award(self.players, lead[0] as int);
            let roster = if self.common_heap.len() == 0 {
                survivors(players, self.active_players)
            } else {
                self.active_players
            };
            GameView {
                players,
                active_players: roster,
                current_player_index: 0,
                bataille: false,
                players_bataille: Seq::empty(),
                finished: roster.len() == 1,
                ..self
            }
        } else {
            GameView { bataille: true, players_bataille: lead, current_player_index: 0, ..self }
        }
    }

    /// The game after the current player's turn: the next player's turn, or
    /// the comparison when the round is complete.
    pub open spec fn settled(self) -> GameView {
        if self.current_player_index + 1 < self.contenders().len() {
            GameView { current_player_index: self.current_player_index + 1, ..self }
        } else {
            self.resolved()
        }
    }

    /// The place in the source pile that a draw seeded by `signature` picks.
    pub open spec fn place(self, signature: Seq<u8>) -> int {
        drawn_place(signature, self.source().len() as int)
    }

    /// The card that a draw seeded by `signature` reveals.
    pub open spec fn drawn_card(self, signature: Seq<u8>) -> Card {
        self.source()[self.place(signature)]
    }

    /// The game after the current player drew the card at place `i` of the
    /// source pile at time `now`: the card lies face up, the turn has passed
    /// on or the round was compared, and the next draw is backed by the
    /// round that is current at `now`.
    pub open spec fn played(self, i: int, now: u64) -> GameView {
        GameView { next_round: round_at(now) as u64, ..self.dealt(i).settled() }
    }

    /// The game after a draw seeded by `signature` at time `now`.
    pub open spec fn after_draw(self, signature: Seq<u8>, now: u64) -> GameView {
        self.played(self.place(signature), now)
    }
}

/// One draw of a run of draws: the place drawn and the time of the draw.
pub struct Move {
    pub place: int,
    pub now: u64,
}

/// Whether the draws of `moves` can be taken one after the other, beginning
/// with the game `g`: each finds the game running and names a place in the
/// source pile.
pub open spec fn playable(g: GameView, moves: Seq<Move>) -> bool
    decreases moves.len(),
{
    if moves.len() == 0 {
        true
    } else {
        &&& g.running()
        &&& 0 <= moves[0].place < g.source().len()
        &&& playable(g.played(moves[0].place, moves[0].now), moves.drop_first())
    }
}

/// The game after the draws of `moves` were taken one after the other.
pub open spec fn after_moves(g: GameView, moves: Seq<Move>) -> GameView
    decreases moves.len(),
{
    if moves.len() == 0 {
        g
    } else {
        after_moves(g.played(moves[0].place, moves[0].now), moves.drop_first())
    }
}

/// Whether the time of each draw of `moves` lies a full period after the
/// time of the draw before it, and the first a full period after `last`.
pub open spec fn spaced(last: u64, moves: Seq<Move>) -> bool
    decreases moves.len(),
{
    if moves.len() == 0 {
        true
    } else {
        last + PERIOD <= moves[0].now && spaced(moves[0].now, moves.drop_first())
    }
}

} // verus!
