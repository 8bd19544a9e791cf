//! One game: its players, its piles and its turns.

use crate::deck::{take_at, value, Card, N_CARDS};
use crate::laws::{
    lemma_conservation, lemma_contenders, lemma_dealt, lemma_joined, lemma_leaders_among,
    lemma_opened, lemma_played, lemma_started,
};
use crate::model::{
    award, cleared, full_deck, leaders, leaders_among, leads, pot, survivors, top_value, GameView,
    PlayerView,
};
use crate::record::{seats_of, GameRecord, PlayerRecord};
use crate::rng::RngKeccak256;
use crate::schedule::{expected_round, GENESIS_TIME};
use vstd::prelude::*;

verus! {

/// Why a call on a game was refused.
#[derive(Clone, Copy, Debug, PartialEq, Eq)]
pub enum GameError {
    NoSuchGame,
    GameAlreadyStarted,
    GameNotStarted,
    OutOfTurn,
    VerificationFailed,
    HeapExhausted,
}

impl GameError {
    /// The words that tell a caller why the call was refused.
    pub open spec fn words(self) -> Seq<char> {
        match self {
            GameError::NoSuchGame => "no such game"@,
            GameError::GameAlreadyStarted => "game started"@,
            GameError::GameNotStarted => "game not started"@,
            GameError::OutOfTurn => "out of turn"@,
            GameError::VerificationFailed => "drand verification failed"@,
            GameError::HeapExhausted => "heap exhausted"@,
        }
    }

    /// The words that tell a caller why the call was refused.
    pub fn reason(&self) -> (reason: &'static str)
        ensures
            reason@ == self.words(),
    {
        match self {
            GameError::NoSuchGame => "no such game",
            GameError::GameAlreadyStarted => "game started",
            GameError::GameNotStarted => "game not started",
            GameError::OutOfTurn => "out of turn",
            GameError::VerificationFailed => "drand verification failed",
            GameError::HeapExhausted => "heap exhausted",
        }
    }
}

/// Who a caller is: twenty bytes.
#[derive(Clone, Copy, Debug, PartialEq, Eq)]
pub struct Identity {
    pub bytes: [u8; 20],
}

impl View for Identity {
    type V = Seq<u8>;

    open spec fn view(&self) -> Seq<u8> {
        self.bytes@
    }
}

impl Identity {
    /// The identity that stands for nobody.
    pub open spec fn nobody() -> Seq<u8> {
        Seq::new(20, |i: int| 0u8)
    }

    /// The identity that stands for nobody: twenty zero bytes.
    pub fn zero() -> (id: Identity)
        ensures
            id@ == Identity::nobody(),
    {
        let id = Identity { bytes: [0u8; 20] };
        assert(id@ =~= Identity::nobody());
        id
    }

    /// Whether two identities are the same.
    pub fn same(&self, other: &Identity) -> (equal: bool)
        ensures
            equal == (self@ == other@),
    {
        let mut i: usize = 0;
        while i < 20
            invariant
                i <= 20,
                forall|j: int| 0 <= j < i ==> self.bytes@[j] == other.bytes@[j],
            decreases 20 - i,
        {
            if self.bytes[i] != other.bytes[i] {
                return false;
            }
            i += 1;
        }
        assert(self@ =~= other@);
        true
    }
}

/// A seat at the table.
pub struct Player {
    owner: Identity,
    heap: Vec<Card>,
    revealed: Vec<Card>,
}

impl View for Player {
    type V = PlayerView;

    closed spec fn view(&self) -> PlayerView {
        PlayerView { owner: self.owner@, heap: self.heap@, revealed: self.revealed@ }
    }
}

impl Player {
    /// Who owns the seat.
    pub fn owner(&self) -> (owner: Identity)
        ensures
            owner@ == self@.owner,
    {
        self.owner
    }

    /// The cards that the player has won.
    pub fn heap(&self) -> (heap: &Vec<Card>)
        ensures
            heap@ == self@.heap,
    {
        &self.heap
    }

    /// The cards that lie face up before the player.
    pub fn revealed(&self) -> (revealed: &Vec<Card>)
        ensures
            revealed@ == self@.revealed,
    {
        &self.revealed
    }
}

/// The players as the model sees them.
pub closed spec fn seats(players: Seq<Player>) -> Seq<PlayerView> {
    Seq::new(players.len(), |i: int| players[i]@)
}

/// One game of the registry.
pub struct Game {
    common_heap: Vec<Card>,
    players: Vec<Player>,
    active_players: Vec<usize>,
    current_player_index: usize,
    started: bool,
    finished: bool,
    bataille: bool,
    next_round: u64,
    players_bataille: Vec<usize>,
}

impl View for Game {
    type V = GameView;

    closed spec fn view(&self) -> GameView {
        GameView {
            common_heap: self.common_heap@,
            players: seats(self.players@),
            active_players: self.active_players@,
            current_player_index: self.current_player_index as int,
            started: self.started,
            finished: self.finished,
            bataille: self.bataille,
            next_round: self.next_round,
            players_bataille: self.players_bataille@,
        }
    }
}

/// The rank of the card that the player at `p` revealed last.
fn top(players: &Vec<Player>, p: usize) -> (v: u8)
    requires
        p < players@.len(),
        players@[p as int]@.revealed.len() > 0,
    ensures
        v == top_value(seats(players@)[p as int]),
{
    let shown = &players[p].revealed;
    value(shown[shown.len() - 1])
}

/// The players of `who` that show the highest card, in the order of `who`.
fn find_leaders(players: &Vec<Player>, who: &Vec<usize>) -> (lead: Vec<usize>)
    requires
        who@.len() > 0,
        forall|k: int|
            0 <= k < who@.len() ==> (#[trigger] who@[k]) < players@.len()
                && players@[who@[k] as int]@.revealed.len() > 0,
    ensures
        lead@ == leaders(seats(players@), who@),
{
    let ghost table = seats(players@);
    let mut best: u8 = top(players, who[0]);
    let mut k: usize = 1;
    while k < who.len()
        invariant
            1 <= k <= who@.len(),
            table == seats(players@),
            forall|j: int|
                0 <= j < who@.len() ==> (#[trigger] who@[j]) < players@.len()
                    && players@[who@[j] as int]@.revealed.len() > 0,
            forall|j: int| 0 <= j < k ==> top_value(#[trigger] table[who@[j] as int]) <= best,
            exists|j: int| 0 <= j < k && top_value(table[who@[j] as int]) == best,
        decreases who@.len() - k,
    {
        let v = top(players, who[k]);
        if v > best {
            best = v;
        }
        k += 1;
    }
    let ghost peak = choose|j: int| 0 <= j < who@.len() && top_value(table[who@[j] as int]) == best;
    let mut lead: Vec<usize> = Vec::new();
    let mut k: usize = 0;
    while k < who.len()
        invariant
            k <= who@.len(),
            table == seats(players@),
            0 <= peak < who@.len(),
            top_value(table[who@[peak] as int]) == best,
            forall|j: int|
                0 <= j < who@.len() ==> (#[trigger] who@[j]) < players@.len()
                    && players@[who@[j] as int]@.revealed.len() > 0,
            forall|j: int|
                0 <= j < who@.len() ==> top_value(#[trigger] table[who@[j] as int]) <= best,
            lead@ == leaders_among(table, who@, who@.take(k as int)),
        decreases who@.len() - k,
    {
        let v = top(players, who[k]);
        proof {
            assert(who@.take(k + 1).drop_last() =~= who@.take(k as int));
            assert(who@.take(k + 1).last() == who@[k as int]);
            if v == best {
                assert(leads(table, who@, who@[k as int]));
            } else {
                assert(top_value(table[who@[peak] as int]) > top_value(table[who@[k as int] as int]));
                assert(!leads(table, who@, who@[k as int]));
            }
        }
        if v == best {
            lead.push(who[k]);
        }
        k += 1;
    }
    proof {
        assert(who@.take(who@.len() as int) =~= who@);
    }
    lead
}

/// Moves every face-up card under the heap of the player at `w`.
fn collect(players: &mut Vec<Player>, w: usize)
    requires
        w < old(players)@.len(),
    ensures
        final(players)@.len() == old(players)@.len(),
        seats(final(players)@) == award(seats(old(players)@), w as int),
{
    let ghost before = seats(players@);
    let n: usize = players.len();
    let mut gathered: Vec<Card> = Vec::new();
    let mut p: usize = 0;
    while p < n
        invariant
            p <= n,
            n == players@.len(),
            n == before.len(),
            gathered@ == pot(before.take(p as int)),
            forall|q: int| 0 <= q < p ==> (#[trigger] seats(players@)[q]) == cleared(before)[q],
            forall|q: int| p <= q < n ==> (#[trigger] seats(players@)[q]) == before[q],
        decreases n - p,
    {
        proof {
            assert(before.take(p + 1).drop_last() =~= before.take(p as int));
            assert(before.take(p + 1).last() == before[p as int]);
            assert(seats(players@)[p as int] == before[p as int]);
        }
        let ghost prior = seats(players@);
        gathered.append(&mut players[p].revealed);
        proof {
            assert forall|q: int| 0 <= q < p + 1 implies (#[trigger] seats(players@)[q]) == cleared(
                before,
            )[q] by {
                if q < p {
                    assert(seats(players@)[q] == prior[q]);
                }
            }
            assert forall|q: int| p + 1 <= q < n implies (#[trigger] seats(players@)[q])
                == before[q] by {
                assert(seats(players@)[q] == prior[q]);
            }
        }
        p += 1;
    }
    proof {
        assert(before.take(n as int) =~= before);
        assert(seats(players@)[w as int] == cleared(before)[w as int]);
    }
    let ghost bare = seats(players@);
    players[w].heap.append(&mut gathered);
    proof {
        assert forall|q: int| 0 <= q < n implies (#[trigger] seats(players@)[q]) == award(
            before,
            w as int,
        )[q] by {
            if q != w {
                assert(seats(players@)[q] == bare[q]);
            }
        }
        assert(seats(players@) =~= award(before, w as int));
    }
}

/// The players of `roster`, in order, that still own a card.
fn find_survivors(players: &Vec<Player>, roster: &Vec<usize>) -> (left: Vec<usize>)
    requires
        forall|k: int| 0 <= k < roster@.len() ==> (#[trigger] roster@[k]) < players@.len(),
    ensures
        left@ == survivors(seats(players@), roster@),
{
    let ghost table = seats(players@);
    let mut left: Vec<usize> = Vec::new();
    let mut k: usize = 0;
    while k < roster.len()
        invariant
            k <= roster@.len(),
            table == seats(players@),
            forall|j: int| 0 <= j < roster@.len() ==> (#[trigger] roster@[j]) < players@.len(),
            left@ == survivors(table, roster@.take(k as int)),
        decreases roster@.len() - k,
    {
        proof {
            assert(roster@.take(k + 1).drop_last() =~= roster@.take(k as int));
            assert(roster@.take(k + 1).last() == roster@[k as int]);
        }
        let p: usize = roster[k];
        if players[p].heap.len() > 0 {
            left.push(p);
        }
        k += 1;
    }
    proof {
        assert(roster@.take(roster@.len() as int) =~= roster@);
    }
    left
}

impl GameView {
    /// Why a draw by `caller` is refused, if it is: the game is not being
    /// played, it is another player's turn, the beacon did not confirm the
    /// signature, or the current player has no pile left to draw from.
    pub open spec fn refusal(self, caller: Seq<u8>, verified: bool) -> Option<GameError> {
        if !self.running() {
            Some(GameError::GameNotStarted)
        } else if self.players[self.current_player()].owner != caller {
            Some(GameError::OutOfTurn)
        } else if !verified {
            Some(GameError::VerificationFailed)
        } else if self.source().len() == 0 {
            Some(GameError::HeapExhausted)
        } else {
            None
        }
    }
}

impl Game {
    /// A new game with the full deck in the common heap and `owner` as its
    /// first player.
    pub fn new(owner: Identity) -> (game: Game)
        ensures
            game@ == GameView::opened(owner@),
            game@.wf(),
    {
        let mut common_heap: Vec<Card> = Vec::new();
        let mut card: u8 = 0;
        while card < N_CARDS
            invariant
                card <= N_CARDS,
                common_heap@ == full_deck().take(card as int),
            decreases N_CARDS - card,
        {
            common_heap.push(card);
            card += 1;
            assert(common_heap@ =~= full_deck().take(card as int));
        }
        assert(full_deck().take(52) =~= full_deck());
        let mut players: Vec<Player> = Vec::new();
        players.push(Player { owner, heap: Vec::new(), revealed: Vec::new() });
        let mut active_players: Vec<usize> = Vec::new();
        active_players.push(0);
        let game = Game {
            common_heap,
            players,
            active_players,
            current_player_index: 0,
            started: false,
            finished: false,
            bataille: false,
            next_round: 0,
            players_bataille: Vec::new(),
        };
        proof {
            assert(game@.players =~= GameView::opened(owner@).players);
            assert(game@.active_players =~= GameView::opened(owner@).active_players);
            assert(game@.players_bataille =~= GameView::opened(owner@).players_bataille);
            lemma_opened(owner@);
        }
        game
    }

    /// Seats `owner` as a new player and puts the seat on the roster.
    pub fn join(&mut self, owner: Identity)
        requires
            old(self)@.wf(),
            !old(self)@.started,
        ensures
            final(self)@ == old(self)@.joined(owner@),
            final(self)@.wf(),
    {
        let seat: usize = self.players.len();
        self.players.push(Player { owner, heap: Vec::new(), revealed: Vec::new() });
        let seated: usize = self.players.len();
        self.active_players.push(seat);
        proof {
            assert(seated == seat + 1);
            assert(self@.players =~= old(self)@.joined(owner@).players);
            lemma_joined(old(self)@, owner@);
        }
    }

    /// Starts the game at time `now`: the first draw is backed by the round
    /// that is current then.
    pub fn start(&mut self, now: u64)
        requires
            old(self)@.wf(),
            now >= GENESIS_TIME,
        ensures
            final(self)@ == old(self)@.started_at(now),
            final(self)@.wf(),
    {
        self.started = true;
        self.next_round = expected_round(now);
        proof {
            lemma_started(old(self)@, now);
        }
    }

    /// The player whose turn it is.
    pub fn current_player(&self) -> (p: usize)
        requires
            self@.wf(),
        ensures
            p == self@.current_player(),
            p < self@.players.len(),
    {
        proof {
            lemma_contenders(self@, self@.current_player_index);
        }
        if self.bataille {
            self.players_bataille[self.current_player_index]
        } else {
            self.active_players[self.current_player_index]
        }
    }

    /// Compares the cards of a complete round.
    fn resolve(&mut self)
        requires
            old(self)@.sound(),
            old(self)@.contenders().len() > 0,
            old(self)@.shown(old(self)@.contenders().len() as int),
        ensures
            final(self)@ == old(self)@.resolved(),
    {
        proof {
            assert forall|k: int| 0 <= k < self@.contenders().len() implies (
            #[trigger] self@.contenders()[k]) < self.players@.len()
                && self.players@[self@.contenders()[k] as int]@.revealed.len() > 0 by {
                lemma_contenders(self@, k);
                assert(self@.players[self@.contenders()[k] as int].revealed.len() > 0);
            }
        }
        let lead = if self.bataille {
            find_leaders(&self.players, &self.players_bataille)
        } else {
            find_leaders(&self.players, &self.active_players)
        };
        if lead.len() == 1 {
            let w: usize = lead[0];
            proof {
                lemma_leaders_among(
                    self@.players,
                    self@.contenders(),
                    self@.contenders(),
                );
                assert(lead@.contains(lead@[0]));
                let j = choose|j: int|
                    0 <= j < self@.contenders().len() && self@.contenders()[j] == lead@[0];
                lemma_contenders(self@, j);
            }
            collect(&mut self.players, w);
            if self.common_heap.len() == 0 {
                self.active_players = find_survivors(&self.players, &self.active_players);
            }
            self.current_player_index = 0;
            self.bataille = false;
            self.players_bataille = Vec::new();
            self.finished = self.active_players.len() == 1;
        } else {
            self.bataille = true;
            self.players_bataille = lead;
            self.current_player_index = 0;
        }
    }

    /// Passes the turn on, or compares when the round is complete.
    fn settle(&mut self)
        requires
            old(self)@.sound(),
            0 <= old(self)@.current_player_index < old(self)@.contenders().len(),
            old(self)@.shown(old(self)@.current_player_index + 1),
        ensures
            final(self)@ == old(self)@.settled(),
    {
        let turns: usize = if self.bataille {
            self.players_bataille.len()
        } else {
            self.active_players.len()
        };
        if self.current_player_index + 1 < turns {
            self.current_player_index = self.current_player_index + 1;
        } else {
            self.resolve();
        }
    }

    /// The current player draws the card at `place` of the source pile at
    /// time `now`: the card goes face up before the player, the turn passes
    /// on or the round is compared, and the game expects the round that is
    /// current at `now`.
    pub fn deal(&mut self, place: usize, now: u64) -> (card: Card)
        requires
            old(self)@.wf(),
            old(self)@.running(),
            place < old(self)@.source().len(),
            now >= GENESIS_TIME,
        ensures
            card == old(self)@.source()[place as int],
            final(self)@ == old(self)@.played(place as int, now),
            final(self)@.wf(),
    {
        let p: usize = self.current_player();
        let card: Card = if self.common_heap.len() > 0 {
            take_at(&mut self.common_heap, place)
        } else {
            take_at(&mut self.players[p].heap, place)
        };
        self.players[p].revealed.push(card);
        proof {
            assert(self@.players =~= old(self)@.dealt(place as int).players);
            assert(self@ == old(self)@.dealt(place as int));
            lemma_dealt(old(self)@, place as int);
            lemma_played(old(self)@, place as int, now);
        }
        self.settle();
        self.next_round = expected_round(now);
        card
    }

    /// One draw by `caller`, seeded by `signature`, at time `now`. `verified`
    /// says whether the beacon confirmed `signature` for the round that the
    /// game expects. A refused draw changes nothing. Otherwise the sampler,
    /// seeded by `signature`, picks a place in the source pile, and the card
    /// there is dealt to the caller.
    pub fn draw(&mut self, caller: &Identity, signature: &[u8], verified: bool, now: u64) -> (drawn:
        Result<Card, GameError>)
        requires
            old(self)@.wf(),
            now >= GENESIS_TIME,
        ensures
            final(self)@.wf(),
            match old(self)@.refusal(caller@, verified) {
                Some(e) => drawn == Err::<Card, GameError>(e) && final(self)@ == old(self)@,
                None => drawn == Ok::<Card, GameError>(old(self)@.drawn_card(signature@))
                    && final(self)@ == old(self)@.after_draw(signature@, now),
            },
    {
        if !self.started || self.finished {
            return Err(GameError::GameNotStarted);
        }
        let p: usize = self.current_player();
        if !self.players[p].owner.same(caller) {
            return Err(GameError::OutOfTurn);
        }
        if !verified {
            return Err(GameError::VerificationFailed);
        }
        let size: usize = if self.common_heap.len() > 0 {
            self.common_heap.len()
        } else {
            self.players[p].heap.len()
        };
        if size == 0 {
            return Err(GameError::HeapExhausted);
        }
        proof {
            lemma_conservation(self@);
            assert(self@.players[p as int].heap.len() <= 52);
        }
        let mut rng = RngKeccak256::seed(signature);
        let place: u32 = rng.index_below(size as u32);
        Ok(self.deal(place as usize, now))
    }

    /// The owner of the last player on the roster once the game is won, and
    /// nobody before.
    pub fn winner(&self) -> (who: Identity)
        requires
            self@.wf(),
        ensures
            who@ == if self@.finished {
                self@.players[self@.active_players[0] as int].owner
            } else {
                Identity::nobody()
            },
    {
        if self.finished {
            self.players[self.active_players[0]].owner
        } else {
            Identity::zero()
        }
    }

    /// Whether the game has been started.
    pub fn started(&self) -> (started: bool)
        ensures
            started == self@.started,
    {
        self.started
    }

    /// Whether the game is won.
    pub fn finished(&self) -> (finished: bool)
        ensures
            finished == self@.finished,
    {
        self.finished
    }

    /// Whether tied players are playing off.
    pub fn bataille(&self) -> (bataille: bool)
        ensures
            bataille == self@.bataille,
    {
        self.bataille
    }

    /// The round that backs the next draw.
    pub fn next_round(&self) -> (round: u64)
        ensures
            round == self@.next_round,
    {
        self.next_round
    }

    /// The place of the turn pointer among the players who take turns.
    pub fn turn(&self) -> (index: u64)
        ensures
            index == self@.current_player_index,
    {
        self.current_player_index as u64
    }

    /// The cards that nobody has drawn yet.
    pub fn common_heap(&self) -> (heap: &Vec<Card>)
        ensures
            heap@ == self@.common_heap,
    {
        &self.common_heap
    }

    /// The players still in the game.
    pub fn active_players(&self) -> (roster: &Vec<usize>)
        ensures
            roster@ == self@.active_players,
    {
        &self.active_players
    }

    /// The tied players of a bataille.
    pub fn players_bataille(&self) -> (tied: &Vec<usize>)
        ensures
            tied@ == self@.players_bataille,
    {
        &self.players_bataille
    }

    /// How many players have joined.
    pub fn player_count(&self) -> (n: usize)
        ensures
            n == self@.players.len(),
    {
        self.players.len()
    }

    /// The player at seat `p`, if there is one.
    pub fn player(&self, p: usize) -> (seat: Option<&Player>)
        ensures
            p < self@.players.len() ==> seat.is_some() && seat.unwrap()@ == self@.players[p as int],
            p >= self@.players.len() ==> seat.is_none(),
    {
        if p < self.players.len() {
            Some(&self.players[p])
        } else {
            None
        }
    }

    /// The round for which the beacon must confirm the signature of the
    /// next draw, if `caller` may draw now.
    pub fn round_to_verify(&self, caller: &Identity) -> (round: Result<u64, GameError>)
        requires
            self@.wf(),
        ensures
            round == match self@.refusal(caller@, true) {
                Some(GameError::GameNotStarted) => Err::<u64, GameError>(
                    GameError::GameNotStarted,
                ),
                Some(GameError::OutOfTurn) => Err(GameError::OutOfTurn),
                _ => Ok(self@.next_round),
            },
    {
        if !self.started || self.finished {
            return Err(GameError::GameNotStarted);
        }
        let p: usize = self.current_player();
        if !self.players[p].owner.same(caller) {
            return Err(GameError::OutOfTurn);
        }
        Ok(self.next_round)
    }
}

/// The seats of a written-out game.
fn seats_from(written: &Vec<PlayerRecord>) -> (players: Vec<Player>)
    ensures
        seats(players@) == seats_of(written@),
{
    let mut players: Vec<Player> = Vec::new();
    let mut p: usize = 0;
    while p < written.len()
        invariant
            p <= written@.len(),
            players@.len() == p,
            forall|q: int| 0 <= q < p ==> (#[trigger] players@[q])@ == written@[q]@,
        decreases written@.len() - p,
    {
        let seat = &written[p];
        players.push(
            Player { owner: seat.owner, heap: seat.heap.clone(), revealed: seat.revealed.clone() },
        );
        p += 1;
    }
    assert(seats(players@) =~= seats_of(written@));
    players
}

/// The seats of a game, written out.
fn seats_to(players: &Vec<Player>) -> (written: Vec<PlayerRecord>)
    ensures
        seats_of(written@) == seats(players@),
{
    let mut written: Vec<PlayerRecord> = Vec::new();
    let mut p: usize = 0;
    while p < players.len()
        invariant
            p <= players@.len(),
            written@.len() == p,
            forall|q: int| 0 <= q < p ==> (#[trigger] written@[q])@ == players@[q]@,
        decreases players@.len() - p,
    {
        let seat = &players[p];
        written.push(
            PlayerRecord {
                owner: seat.owner,
                heap: seat.heap.clone(),
                revealed: seat.revealed.clone(),
            },
        );
        p += 1;
    }
    assert(seats_of(written@) =~= seats(players@));
    written
}

impl Game {
    /// The game that `record` writes out, where it writes out a well-formed
    /// game, and nothing where it does not.
    pub fn restore(record: &GameRecord) -> (game: Option<Game>)
        ensures
            game.is_some() == record@.wf(),
            game matches Some(g) ==> g@ == record@,
    {
        if !record.well_formed() {
            return None;
        }
        Some(
            Game {
                common_heap: record.common_heap.clone(),
                players: seats_from(&record.players),
                active_players: record.active_players.clone(),
                current_player_index: record.current_player_index,
                started: record.started,
                finished: record.finished,
                bataille: record.bataille,
                next_round: record.next_round,
                players_bataille: record.players_bataille.clone(),
            },
        )
    }

    /// The game, written out.
    pub fn record(&self) -> (record: GameRecord)
        ensures
            record@ == self@,
    {
        GameRecord {
            common_heap: self.common_heap.clone(),
            players: seats_to(&self.players),
            active_players: self.active_players.clone(),
            current_player_index: self.current_player_index,
            started: self.started,
            finished: self.finished,
            bataille: self.bataille,
            next_round: self.next_round,
            players_bataille: self.players_bataille.clone(),
        }
    }
}

} // verus!
