//! A game written out in plain values, as it is kept between calls, and the
//! test that tells whether such values are a well-formed game.

use crate::deck::{Card, N_CARDS};
use crate::game::Identity;
use crate::laws::{lemma_absent_card, lemma_cards_in_range, lemma_full_deck_count};
use crate::model::{
    full_deck, held, pile_in_range, pile_of, seats_in_range, GameView, PlayerView,
};
use vstd::multiset::*;
use vstd::prelude::*;
use vstd::seq_lib::*;

verus! {

/// A seat, written out.
pub struct PlayerRecord {
    pub owner: Identity,
    pub heap: Vec<Card>,
    pub revealed: Vec<Card>,
}

impl View for PlayerRecord {
    type V = PlayerView;

    open spec fn view(&self) -> PlayerView {
        PlayerView { owner: self.owner@, heap: self.heap@, revealed: self.revealed@ }
    }
}

/// A game, written out. Nothing is promised of its fields: `well_formed` tells
/// whether they are a well-formed game.
pub struct GameRecord {
    pub common_heap: Vec<Card>,
    pub players: Vec<PlayerRecord>,
    pub active_players: Vec<usize>,
    pub current_player_index: usize,
    pub started: bool,
    pub finished: bool,
    pub bataille: bool,
    pub next_round: u64,
    pub players_bataille: Vec<usize>,
}

/// The seats of a record as the model sees them.
pub open spec fn seats_of(players: Seq<PlayerRecord>) -> Seq<PlayerView> {
    Seq::new(players.len(), |i: int| players[i]@)
}

impl View for GameRecord {
    type V = GameView;

    open spec fn view(&self) -> GameView {
        GameView {
            common_heap: self.common_heap@,
            players: seats_of(self.players@),
            active_players: self.active_players@,
            current_player_index: self.current_player_index as int,
            started: self.started,
            finished: self.finished,
            bataille: self.bataille,
            next_round: self.next_round,
            players_bataille: self.players_bataille@,
        }
    }
}

/// How often a card occurs, counted up to two.
pub open spec fn capped(n: nat) -> int {
    if n < 2 {
        n as int
    } else {
        2
    }
}

/// Whether every card of `pile` is below 52.
fn in_range(pile: &Vec<Card>) -> (ok: bool)
    ensures
        ok == pile_in_range(pile@),
{
    let mut k: usize = 0;
    while k < pile.len()
        invariant
            k <= pile@.len(),
            forall|j: int| 0 <= j < k ==> #[trigger] pile@[j] < 52,
        decreases pile@.len() - k,
    {
        if pile[k] >= N_CARDS {
            return false;
        }
        k += 1;
    }
    true
}

/// Whether every card of every seat is below 52.
fn all_in_range(players: &Vec<PlayerRecord>) -> (ok: bool)
    ensures
        ok == seats_in_range(seats_of(players@)),
{
    let mut p: usize = 0;
    while p < players.len()
        invariant
            p <= players@.len(),
            forall|q: int|
                0 <= q < p ==> pile_in_range((#[trigger] seats_of(players@)[q]).heap)
                    && pile_in_range(seats_of(players@)[q].revealed),
        decreases players@.len() - p,
    {
        if !in_range(&players[p].heap) || !in_range(&players[p].revealed) {
            assert(!(pile_in_range(seats_of(players@)[p as int].heap) && pile_in_range(
                seats_of(players@)[p as int].revealed,
            )));
            return false;
        }
        p += 1;
    }
    true
}

/// How often `c` occurs in `pile`, counted up to two.
fn tally_pile(pile: &Vec<Card>, c: Card) -> (n: u8)
    ensures
        n == capped(pile@.to_multiset().count(c)),
{
    broadcast use {group_multiset_axioms, group_to_multiset_ensures};

    let mut n: u8 = 0;
    let mut k: usize = 0;
    assert(pile@.take(0) =~= Seq::empty());
    assert(pile@.take(0).to_multiset().len() == 0);
    while k < pile.len()
        invariant
            k <= pile@.len(),
            n == capped(pile@.take(k as int).to_multiset().count(c)),
        decreases pile@.len() - k,
    {
        proof {
            let before = pile@.take(k as int);
            assert(pile@.take(k + 1) =~= before.push(pile@[k as int]));
            to_multiset_build(before, pile@[k as int]);
            assert(pile@.take(k + 1).to_multiset().count(c) == before.to_multiset().count(c) + if pile@[k as int]
                == c {
                1nat
            } else {
                0nat
            });
        }
        if pile[k] == c && n < 2 {
            n += 1;
        }
        k += 1;
    }
    assert(pile@.take(pile@.len() as int) =~= pile@);
    n
}

/// The sum of two counts, counted up to two.
fn join_counts(a: u8, b: u8) -> (n: u8)
    requires
        a <= 2,
        b <= 2,
    ensures
        n == if a + b < 2 {
            a + b
        } else {
            2
        },
{
    if a + b < 2 {
        a + b
    } else {
        2
    }
}

/// How often `c` occurs among all cards of the record, counted up to two.
fn tally(record: &GameRecord, c: Card) -> (n: u8)
    ensures
        n == capped(record@.cards().count(c)),
{
    broadcast use group_multiset_axioms;

    let ghost table = seats_of(record.players@);
    let mut n: u8 = tally_pile(&record.common_heap, c);
    let mut p: usize = 0;
    assert(table.take(0) =~= Seq::empty());
    while p < record.players.len()
        invariant
            p <= record.players@.len(),
            table == seats_of(record.players@),
            n == capped(
                record.common_heap@.to_multiset().add(held(table.take(p as int))).count(c),
            ),
        decreases record.players@.len() - p,
    {
        proof {
            assert(table.take(p + 1).drop_last() =~= table.take(p as int));
            assert(table.take(p + 1).last() == table[p as int]);
            assert(held(table.take(p + 1)) == held(table.take(p as int)).add(
                pile_of(table[p as int]),
            ));
        }
        let hidden = tally_pile(&record.players[p].heap, c);
        let shown = tally_pile(&record.players[p].revealed, c);
        n = join_counts(n, join_counts(hidden, shown));
        p += 1;
    }
    assert(table.take(table.len() as int) =~= table);
    n
}

/// Whether the cards of the record are the 52 of the deck, each once.
fn whole_deck(record: &GameRecord) -> (ok: bool)
    ensures
        ok == (record@.cards() == full_deck().to_multiset()),
{
    let ghost g = record@;
    if !in_range(&record.common_heap) || !all_in_range(&record.players) {
        proof {
            if g.cards() == full_deck().to_multiset() {
                lemma_cards_in_range(g);
            }
        }
        return false;
    }
    let mut c: u8 = 0;
    while c < N_CARDS
        invariant
            c <= N_CARDS,
            g == record@,
            forall|d: Card| d < c ==> #[trigger] g.cards().count(d) == 1,
        decreases N_CARDS - c,
    {
        if tally(record, c) != 1 {
            proof {
                lemma_full_deck_count(c);
            }
            return false;
        }
        c += 1;
    }
    proof {
        assert forall|d: Card| g.cards().count(d) == full_deck().to_multiset().count(d) by {
            lemma_full_deck_count(d);
            if d >= 52 {
                lemma_absent_card(g, d);
            }
        }
        assert(g.cards() =~= full_deck().to_multiset());
    }
    true
}

/// Whether every entry of `list` is below `bound`.
fn all_below(list: &Vec<usize>, bound: usize) -> (ok: bool)
    ensures
        ok == forall|k: int| 0 <= k < list@.len() ==> (#[trigger] list@[k]) < bound,
{
    let mut k: usize = 0;
    while k < list.len()
        invariant
            k <= list@.len(),
            forall|j: int| 0 <= j < k ==> (#[trigger] list@[j]) < bound,
        decreases list@.len() - k,
    {
        if list[k] >= bound {
            return false;
        }
        k += 1;
    }
    true
}

/// Whether `x` occurs in `list`.
fn occurs(list: &Vec<usize>, x: usize) -> (found: bool)
    ensures
        found == list@.contains(x),
{
    let mut k: usize = 0;
    while k < list.len()
        invariant
            k <= list@.len(),
            forall|j: int| 0 <= j < k ==> list@[j] != x,
        decreases list@.len() - k,
    {
        if list[k] == x {
            return true;
        }
        k += 1;
    }
    false
}

/// Whether every entry of `list` occurs in `roster`.
fn all_occur(list: &Vec<usize>, roster: &Vec<usize>) -> (ok: bool)
    ensures
        ok == forall|k: int| 0 <= k < list@.len() ==> roster@.contains(#[trigger] list@[k]),
{
    let mut k: usize = 0;
    while k < list.len()
        invariant
            k <= list@.len(),
            forall|j: int| 0 <= j < k ==> roster@.contains(#[trigger] list@[j]),
        decreases list@.len() - k,
    {
        if !occurs(roster, list[k]) {
            return false;
        }
        k += 1;
    }
    true
}

/// Whether the first `n` players of `who` have a card face up.
fn first_shown(players: &Vec<PlayerRecord>, who: &Vec<usize>, n: usize) -> (ok: bool)
    requires
        n <= who@.len(),
        forall|k: int| 0 <= k < who@.len() ==> (#[trigger] who@[k]) < players@.len(),
    ensures
        ok == forall|k: int|
            0 <= k < n ==> (#[trigger] seats_of(players@)[who@[k] as int]).revealed.len() > 0,
{
    let mut k: usize = 0;
    while k < n
        invariant
            k <= n <= who@.len(),
            forall|j: int| 0 <= j < who@.len() ==> (#[trigger] who@[j]) < players@.len(),
            forall|j: int|
                0 <= j < k ==> (#[trigger] seats_of(players@)[who@[j] as int]).revealed.len() > 0,
        decreases n - k,
    {
        if players[who[k]].revealed.len() == 0 {
            assert(seats_of(players@)[who@[k as int] as int].revealed.len() == 0);
            return false;
        }
        k += 1;
    }
    true
}

impl GameRecord {
    /// Whether the record is a well-formed game: the cards are the 52 of the
    /// deck, roster and tie list name players of the game, and the turn
    /// pointer names a player who takes turns.
    pub fn well_formed(&self) -> (ok: bool)
        ensures
            ok == self@.wf(),
    {
        let seated: usize = self.players.len();
        if !whole_deck(self) {
            return false;
        }
        if seated < 1 || self.active_players.len() < 1 {
            return false;
        }
        if !all_below(&self.active_players, seated) {
            return false;
        }
        if !all_below(&self.players_bataille, seated) {
            assert(!self@.sound());
            return false;
        }
        if !all_occur(&self.players_bataille, &self.active_players) {
            assert(!self@.sound());
            return false;
        }
        let tied: usize = self.players_bataille.len();
        if self.bataille && (tied < 2 || tied > self.active_players.len()) {
            return false;
        }
        if !self.bataille && tied != 0 {
            return false;
        }
        if self.finished && (!self.started || self.bataille || self.active_players.len() != 1) {
            return false;
        }
        if !self.started && self.bataille {
            return false;
        }
        assert(self@.sound());
        if self.bataille {
            if self.current_player_index >= tied {
                return false;
            }
            first_shown(&self.players, &self.players_bataille, self.current_player_index)
        } else {
            if self.current_player_index >= self.active_players.len() {
                return false;
            }
            first_shown(&self.players, &self.active_players, self.current_player_index)
        }
    }
}

} // verus!
