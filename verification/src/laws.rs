//! What holds of every well-formed game, and that every move keeps a game
//! well formed.

use crate::deck::{lemma_without, Card};
use crate::game::GameError;
use crate::model::{
    after_moves, award, cleared, full_deck, held, held_count, leaders, leaders_among, leads,
    pile_in_range, pile_of, playable, pot, seats_in_range, spaced, survivors, top_value, GameView,
    Move, PlayerView,
};
use crate::schedule::{round_at, GENESIS_TIME, PERIOD};
use vstd::multiset::*;
use vstd::prelude::*;
use vstd::seq_lib::*;

verus! {

/// The full deck holds 52 cards, each below 52 and none twice.
pub proof fn lemma_full_deck()
    ensures
        full_deck().len() == 52,
        full_deck().to_multiset().len() == 52,
        full_deck().no_duplicates(),
        forall|c: Card| full_deck().contains(c) <==> c < 52,
{
    broadcast use group_to_multiset_ensures;

    assert forall|c: Card| c < 52 implies full_deck().contains(c) by {
        assert(full_deck()[c as int] == c);
    }
}

/// An empty pile holds no card.
pub proof fn lemma_empty_pile()
    ensures
        Seq::<Card>::empty().to_multiset() == Multiset::<Card>::empty(),
{
    broadcast use {group_multiset_axioms, group_to_multiset_ensures};

    assert(Seq::<Card>::empty().to_multiset().len() == 0);
    assert(Seq::<Card>::empty().to_multiset() =~= Multiset::<Card>::empty());
}

/// What is equal after the same cards were added was equal before.
pub proof fn lemma_cancel(a: Multiset<Card>, b: Multiset<Card>, c: Multiset<Card>)
    requires
        a.add(c) == b.add(c),
    ensures
        a == b,
{
    broadcast use group_multiset_axioms;

    assert forall|v: Card| a.count(v) == b.count(v) by {
        axiom_multiset_add(a, c, v);
        axiom_multiset_add(b, c, v);
    }
    assert(a =~= b);
}

/// Replacing one player changes the players' cards by that player's cards.
pub proof fn lemma_held_update(players: Seq<PlayerView>, p: int, seat: PlayerView)
    requires
        0 <= p < players.len(),
    ensures
        held(players.update(p, seat)).add(pile_of(players[p])) == held(players).add(pile_of(seat)),
    decreases players.len(),
{
    broadcast use group_multiset_axioms;

    let after = players.update(p, seat);
    let front = players.drop_last();
    assert(held(after) == held(after.drop_last()).add(pile_of(after.last())));
    assert(held(players) == held(front).add(pile_of(players.last())));
    if p == players.len() - 1 {
        assert(after.drop_last() =~= front);
        assert(after.last() == seat);
    } else {
        assert(after.drop_last() =~= front.update(p, seat));
        assert(after.last() == players.last());
        assert(front[p] == players[p]);
        lemma_held_update(front, p, seat);
        let moved = held(front.update(p, seat)).add(pile_of(players[p]));
        assert(held(after).add(pile_of(players[p])) =~= moved.add(pile_of(players.last())));
        assert(held(front).add(pile_of(seat)).add(pile_of(players.last())) =~= held(players).add(
            pile_of(seat),
        ));
    }
    assert(held(after).add(pile_of(players[p])) =~= held(players).add(pile_of(seat)));
}

/// The players' cards hold each player's cards.
pub proof fn lemma_held_holds(players: Seq<PlayerView>, p: int)
    requires
        0 <= p < players.len(),
    ensures
        pile_of(players[p]).subset_of(held(players)),
        players[p].heap.len() + players[p].revealed.len() <= held(players).len(),
    decreases players.len(),
{
    broadcast use {group_multiset_axioms, group_to_multiset_ensures};

    if p < players.len() - 1 {
        lemma_held_holds(players.drop_last(), p);
        assert(players.drop_last()[p] == players[p]);
    }
}

/// The players' cards are as many as their piles hold together.
pub proof fn lemma_held_count(players: Seq<PlayerView>)
    ensures
        held(players).len() == held_count(players),
    decreases players.len(),
{
    broadcast use {group_multiset_axioms, group_to_multiset_ensures};

    if players.len() > 0 {
        lemma_held_count(players.drop_last());
    }
}

/// Clearing the table moves the face-up cards into the pot, and nowhere else.
pub proof fn lemma_held_cleared(players: Seq<PlayerView>)
    ensures
        held(cleared(players)).add(pot(players).to_multiset()) == held(players),
    decreases players.len(),
{
    broadcast use {group_multiset_axioms, lemma_multiset_commutative};

    lemma_empty_pile();
    let bare = cleared(players);
    if players.len() == 0 {
        assert(bare =~= Seq::empty());
        assert(pot(players) =~= Seq::empty());
    } else {
        lemma_held_cleared(players.drop_last());
        assert(bare.drop_last() =~= cleared(players.drop_last()));
        assert(bare.last().revealed =~= Seq::empty());
        assert(bare.last().heap == players.last().heap);
        assert(held(bare) == held(bare.drop_last()).add(pile_of(bare.last())));
        assert(held(players) == held(players.drop_last()).add(pile_of(players.last())));
        assert(pot(players) == pot(players.drop_last()) + players.last().revealed);
    }
    assert(held(cleared(players)).add(pot(players).to_multiset()) =~= held(players));
}

/// The pot holds what each player has face up.
pub proof fn lemma_pot_len(players: Seq<PlayerView>, p: int)
    requires
        0 <= p < players.len(),
    ensures
        pot(players).len() >= players[p].revealed.len(),
    decreases players.len(),
{
    if p < players.len() - 1 {
        lemma_pot_len(players.drop_last(), p);
        assert(players.drop_last()[p] == players[p]);
    }
}

/// Awarding the pot moves cards among the players and keeps them all.
pub proof fn lemma_award(players: Seq<PlayerView>, w: int)
    requires
        0 <= w < players.len(),
    ensures
        held(award(players, w)) == held(players),
        award(players, w).len() == players.len(),
        forall|p: int|
            0 <= p < players.len() ==> (#[trigger] award(players, w)[p]).revealed.len() == 0
                && award(players, w)[p].owner == players[p].owner,
        forall|p: int|
            0 <= p < players.len() && p != w ==> (#[trigger] award(players, w)[p]).heap
                == players[p].heap,
        award(players, w)[w].heap == players[w].heap + pot(players),
{
    broadcast use {group_multiset_axioms, lemma_multiset_commutative};

    let bare = cleared(players);
    let seat = award(players, w)[w];
    lemma_empty_pile();
    lemma_held_cleared(players);
    lemma_held_update(bare, w, seat);
    assert(bare[w].revealed =~= Seq::empty());
    assert(seat.revealed =~= Seq::empty());
    assert(seat.heap == bare[w].heap + pot(players));
    let gain = pot(players).to_multiset();
    assert(pile_of(seat) =~= pile_of(bare[w]).add(gain));
    assert(held(bare).add(pile_of(seat)) =~= held(bare).add(gain).add(pile_of(bare[w])));
    lemma_cancel(held(award(players, w)), held(players), pile_of(bare[w]));
}

/// The leaders among some candidates are candidates that lead, all of them.
pub proof fn lemma_leaders_among(players: Seq<PlayerView>, who: Seq<usize>, cand: Seq<usize>)
    ensures
        leaders_among(players, who, cand).len() <= cand.len(),
        forall|x: usize|
            #![trigger leaders_among(players, who, cand).contains(x)]
            leaders_among(players, who, cand).contains(x) <==> cand.contains(x) && leads(
                players,
                who,
                x,
            ),
    decreases cand.len(),
{
    let found = leaders_among(players, who, cand);
    if cand.len() > 0 {
        let front = cand.drop_last();
        let rest = leaders_among(players, who, front);
        lemma_leaders_among(players, who, front);
        assert(found == if leads(players, who, cand.last()) {
            rest.push(cand.last())
        } else {
            rest
        });
        assert forall|x: usize| #![trigger found.contains(x)] found.contains(x) <==> cand.contains(
            x,
        ) && leads(players, who, x) by {
            if found.contains(x) {
                let k = choose|k: int| 0 <= k < found.len() && found[k] == x;
                if k < rest.len() {
                    assert(rest[k] == x);
                    assert(rest.contains(x));
                    let j = choose|j: int| 0 <= j < front.len() && front[j] == x;
                    assert(cand[j] == x);
                } else {
                    assert(cand[cand.len() - 1] == x);
                }
            }
            if cand.contains(x) && leads(players, who, x) {
                let j = choose|j: int| 0 <= j < cand.len() && cand[j] == x;
                if j < front.len() {
                    assert(front[j] == x);
                    assert(rest.contains(x));
                    let k = choose|k: int| 0 <= k < rest.len() && rest[k] == x;
                    assert(found[k] == x);
                } else {
                    assert(found[found.len() - 1] == x);
                }
            }
        }
    }
}

/// Among the first `n` of any players one shows a card that none of them beats.
proof fn lemma_highest(players: Seq<PlayerView>, who: Seq<usize>, n: int) -> (best: int)
    requires
        0 < n <= who.len(),
    ensures
        0 <= best < n,
        forall|k: int|
            0 <= k < n ==> top_value(#[trigger] players[who[k] as int]) <= top_value(
                players[who[best] as int],
            ),
    decreases n,
{
    if n == 1 {
        0
    } else {
        let before = lemma_highest(players, who, n - 1);
        if top_value(players[who[n - 1] as int]) > top_value(players[who[before] as int]) {
            n - 1
        } else {
            before
        }
    }
}

/// Where anyone plays, someone leads.
pub proof fn lemma_some_leader(players: Seq<PlayerView>, who: Seq<usize>)
    requires
        who.len() > 0,
    ensures
        leaders(players, who).len() >= 1,
{
    let best = lemma_highest(players, who, who.len() as int);
    assert(leads(players, who, who[best]));
    lemma_leaders_among(players, who, who);
    assert(who.contains(who[best]));
    assert(leaders(players, who).contains(who[best]));
}

/// The survivors of a roster are its players that own a card, all of them.
pub proof fn lemma_survivors(players: Seq<PlayerView>, roster: Seq<usize>)
    ensures
        survivors(players, roster).len() <= roster.len(),
        forall|x: usize|
            #![trigger survivors(players, roster).contains(x)]
            survivors(players, roster).contains(x) <==> roster.contains(x) && players[x as int].heap.len()
                > 0,
    decreases roster.len(),
{
    let found = survivors(players, roster);
    if roster.len() > 0 {
        let front = roster.drop_last();
        let rest = survivors(players, front);
        lemma_survivors(players, front);
        assert(found == if players[roster.last() as int].heap.len() > 0 {
            rest.push(roster.last())
        } else {
            rest
        });
        assert forall|x: usize| #![trigger found.contains(x)] found.contains(x) <==> roster.contains(
            x,
        ) && players[x as int].heap.len() > 0 by {
            if found.contains(x) {
                let k = choose|k: int| 0 <= k < found.len() && found[k] == x;
                if k < rest.len() {
                    assert(rest[k] == x);
                    assert(rest.contains(x));
                    let j = choose|j: int| 0 <= j < front.len() && front[j] == x;
                    assert(roster[j] == x);
                } else {
                    assert(roster[roster.len() - 1] == x);
                }
            }
            if roster.contains(x) && players[x as int].heap.len() > 0 {
                let j = choose|j: int| 0 <= j < roster.len() && roster[j] == x;
                if j < front.len() {
                    assert(front[j] == x);
                    assert(rest.contains(x));
                    let k = choose|k: int| 0 <= k < rest.len() && rest[k] == x;
                    assert(found[k] == x);
                } else {
                    assert(found[found.len() - 1] == x);
                }
            }
        }
    }
}

/// Conservation: a sound game holds 52 cards in all, in the common heap, in
/// the players' heaps and face up; no pile holds more.
pub proof fn lemma_conservation(g: GameView)
    requires
        g.sound(),
    ensures
        g.card_count() == 52,
        g.common_heap.len() <= 52,
        forall|p: int|
            0 <= p < g.players.len() ==> (#[trigger] g.players[p]).heap.len()
                + g.players[p].revealed.len() <= 52,
{
    broadcast use {group_multiset_axioms, group_to_multiset_ensures};

    lemma_full_deck();
    lemma_held_count(g.players);
    assert forall|p: int| 0 <= p < g.players.len() implies (#[trigger] g.players[p]).heap.len()
        + g.players[p].revealed.len() <= 52 by {
        lemma_held_holds(g.players, p);
    }
}

/// The full deck holds each card below 52 once and no other.
pub proof fn lemma_full_deck_count(c: Card)
    ensures
        full_deck().to_multiset().count(c) == if c < 52 {
            1nat
        } else {
            0nat
        },
{
    broadcast use {group_multiset_axioms, group_to_multiset_ensures};

    lemma_full_deck();
    full_deck().lemma_multiset_has_no_duplicates();
}

/// No card lies in two places: each of the 52 occurs exactly once among all
/// piles of a game that holds the cards of the deck, and no other card occurs.
pub proof fn lemma_each_card_once(g: GameView, c: Card)
    requires
        g.cards() == full_deck().to_multiset(),
    ensures
        g.cards().count(c) == if c < 52 {
            1nat
        } else {
            0nat
        },
{
    lemma_full_deck_count(c);
}

/// Every card of a game that holds the cards of the deck is a card of the
/// deck: it is below 52, wherever it lies.
pub proof fn lemma_cards_in_range(g: GameView)
    requires
        g.cards() == full_deck().to_multiset(),
    ensures
        pile_in_range(g.common_heap),
        seats_in_range(g.players),
{
    broadcast use {group_multiset_axioms, group_to_multiset_ensures};

    assert forall|k: int| 0 <= k < g.common_heap.len() implies #[trigger] g.common_heap[k]
        < 52 by {
        let c = g.common_heap[k];
        assert(g.common_heap.contains(c));
        assert(g.common_heap.to_multiset().count(c) > 0);
        lemma_full_deck_count(c);
    }
    assert forall|p: int| 0 <= p < g.players.len() implies pile_in_range(
        (#[trigger] g.players[p]).heap,
    ) && pile_in_range(g.players[p].revealed) by {
        lemma_held_holds(g.players, p);
        assert forall|k: int| 0 <= k < g.players[p].heap.len() implies #[trigger] g.players[p].heap[k]
            < 52 by {
            let c = g.players[p].heap[k];
            assert(g.players[p].heap.contains(c));
            assert(g.players[p].heap.to_multiset().count(c) > 0);
            assert(pile_of(g.players[p]).count(c) <= held(g.players).count(c));
            lemma_full_deck_count(c);
        }
        assert forall|k: int|
            0 <= k < g.players[p].revealed.len() implies #[trigger] g.players[p].revealed[k]
            < 52 by {
            let c = g.players[p].revealed[k];
            assert(g.players[p].revealed.contains(c));
            assert(g.players[p].revealed.to_multiset().count(c) > 0);
            assert(pile_of(g.players[p]).count(c) <= held(g.players).count(c));
            lemma_full_deck_count(c);
        }
    }
}

/// A card that no player holds does not occur among the players' cards.
pub proof fn lemma_held_absent(players: Seq<PlayerView>, c: Card)
    requires
        forall|p: int|
            0 <= p < players.len() ==> !(#[trigger] players[p]).heap.contains(c)
                && !players[p].revealed.contains(c),
    ensures
        held(players).count(c) == 0,
    decreases players.len(),
{
    broadcast use {group_multiset_axioms, group_to_multiset_ensures};

    if players.len() > 0 {
        let front = players.drop_last();
        assert forall|p: int| 0 <= p < front.len() implies !(#[trigger] front[p]).heap.contains(c)
            && !front[p].revealed.contains(c) by {
            assert(front[p] == players[p]);
        }
        lemma_held_absent(front, c);
        assert(!players[players.len() - 1].heap.contains(c));
    }
}

/// Where every card is a card of the deck, no other card occurs.
pub proof fn lemma_absent_card(g: GameView, c: Card)
    requires
        pile_in_range(g.common_heap),
        seats_in_range(g.players),
        c >= 52,
    ensures
        g.cards().count(c) == 0,
{
    broadcast use {group_multiset_axioms, group_to_multiset_ensures};

    assert forall|p: int| 0 <= p < g.players.len() implies !(#[trigger] g.players[p]).heap.contains(
        c,
    ) && !g.players[p].revealed.contains(c) by {
        if g.players[p].heap.contains(c) {
            let k = choose|k: int| 0 <= k < g.players[p].heap.len() && g.players[p].heap[k] == c;
            assert(g.players[p].heap[k] < 52);
        }
        if g.players[p].revealed.contains(c) {
            let k = choose|k: int|
                0 <= k < g.players[p].revealed.len() && g.players[p].revealed[k] == c;
            assert(g.players[p].revealed[k] < 52);
        }
    }
    lemma_held_absent(g.players, c);
    if g.common_heap.contains(c) {
        let k = choose|k: int| 0 <= k < g.common_heap.len() && g.common_heap[k] == c;
        assert(g.common_heap[k] < 52);
    }
}

/// The turn pointer of a well-formed game lies within the roster, and the
/// player it names is a player of the game who is on the roster.
pub proof fn lemma_turn_in_roster(g: GameView)
    requires
        g.wf(),
    ensures
        0 <= g.current_player_index < g.active_players.len(),
        0 <= g.current_player() < g.players.len(),
        g.active_players.contains(g.current_player() as usize),
{
    lemma_contenders(g, g.current_player_index);
}

/// A draw removes no seat and changes no owner, and it brings nobody back
/// onto the roster: who has left the roster stays a player of the game.
pub proof fn lemma_seats_stay(g: GameView, i: int, now: u64)
    requires
        g.wf(),
        g.running(),
        0 <= i < g.source().len(),
    ensures
        g.played(i, now).players.len() == g.players.len(),
        forall|p: int|
            0 <= p < g.players.len() ==> (#[trigger] g.played(i, now).players[p]).owner
                == g.players[p].owner,
        forall|x: usize|
            g.played(i, now).active_players.contains(x) ==> g.active_players.contains(x),
{
    let mid = g.dealt(i);
    lemma_dealt(g, i);
    lemma_contenders(g, g.current_player_index);
    let after = mid.settled();
    if !(mid.current_player_index + 1 < mid.contenders().len()) {
        let who = mid.contenders();
        let lead = leaders(mid.players, who);
        lemma_some_leader(mid.players, who);
        lemma_leaders_among(mid.players, who, who);
        if lead.len() == 1 {
            assert(lead.contains(lead[0]));
            let j = choose|j: int| 0 <= j < who.len() && who[j] == lead[0];
            lemma_contenders(mid, j);
            lemma_award(mid.players, lead[0] as int);
            lemma_survivors(after.players, mid.active_players);
        }
    }
}

/// A newly opened game is well formed.
pub proof fn lemma_opened(owner: Seq<u8>)
    ensures
        GameView::opened(owner).wf(),
{
    broadcast use {group_multiset_axioms, group_to_multiset_ensures};

    let g = GameView::opened(owner);
    lemma_empty_pile();
    assert(g.players.drop_last() =~= Seq::empty());
    assert(held(g.players) == held(g.players.drop_last()).add(pile_of(g.players.last())));
    assert(held(g.players.drop_last()) == Multiset::<Card>::empty());
    assert(held(g.players) =~= Multiset::empty());
    assert(g.cards() =~= full_deck().to_multiset());
}

/// Joining keeps a game well formed.
pub proof fn lemma_joined(g: GameView, owner: Seq<u8>)
    requires
        g.wf(),
        !g.started,
        g.players.len() < usize::MAX,
    ensures
        g.joined(owner).wf(),
{
    broadcast use {group_multiset_axioms, group_to_multiset_ensures};

    let after = g.joined(owner);
    lemma_empty_pile();
    assert(after.players.drop_last() =~= g.players);
    assert(held(after.players) == held(after.players.drop_last()).add(
        pile_of(after.players.last()),
    ));
    assert(held(after.players) =~= held(g.players));
    assert forall|k: int| 0 <= k < after.players_bataille.len() implies (
    #[trigger] after.players_bataille[k]) < after.players.len() && after.active_players.contains(
        after.players_bataille[k],
    ) by {
        let x = g.players_bataille[k];
        let j = choose|j: int| 0 <= j < g.active_players.len() && g.active_players[j] == x;
        assert(after.active_players[j] == x);
    }
    assert forall|k: int| 0 <= k < after.current_player_index implies (
    #[trigger] after.players[after.contenders()[k] as int]).revealed.len() > 0 by {
        assert(after.contenders()[k] == g.contenders()[k]);
        assert(after.players[g.contenders()[k] as int] == g.players[g.contenders()[k] as int]);
    }
}

/// Starting keeps a game well formed.
pub proof fn lemma_started(g: GameView, now: u64)
    requires
        g.wf(),
    ensures
        g.started_at(now).wf(),
{
    let after = g.started_at(now);
    assert forall|k: int| 0 <= k < after.current_player_index implies (
    #[trigger] after.players[after.contenders()[k] as int]).revealed.len() > 0 by {
        assert(g.players[g.contenders()[k] as int].revealed.len() > 0);
    }
}

/// The players who take turns are players of the game and on the roster.
pub proof fn lemma_contenders(g: GameView, k: int)
    requires
        g.sound(),
        0 <= k < g.contenders().len(),
    ensures
        g.contenders()[k] < g.players.len(),
        g.active_players.contains(g.contenders()[k]),
        g.contenders().len() <= g.active_players.len(),
{
    if g.bataille {
        assert(g.players_bataille[k] < g.players.len());
    } else {
        assert(g.active_players[k] < g.players.len());
    }
}

/// Laying a card face up keeps the game sound, and the current player then
/// has a card face up.
pub proof fn lemma_dealt(g: GameView, i: int)
    requires
        g.wf(),
        0 <= i < g.source().len(),
    ensures
        g.dealt(i).sound(),
        g.dealt(i).contenders() == g.contenders(),
        g.dealt(i).current_player_index == g.current_player_index,
        g.dealt(i).shown(g.current_player_index + 1),
        g.dealt(i).started == g.started,
        g.dealt(i).finished == g.finished,
{
    broadcast use {group_multiset_axioms, group_to_multiset_ensures};

    let after = g.dealt(i);
    let p = g.current_player();
    lemma_contenders(g, g.current_player_index);
    let seat = g.players[p];
    let new_seat = after.players[p];
    lemma_held_update(g.players, p, new_seat);
    let moved = held(after.players).add(pile_of(seat));
    let rest = after.common_heap.to_multiset();
    if g.common_heap.len() > 0 {
        lemma_without(g.common_heap, i);
        assert(g.common_heap.contains(g.common_heap[i]));
        assert(g.common_heap.to_multiset().count(g.common_heap[i]) > 0);
        assert(pile_of(new_seat) =~= pile_of(seat).insert(g.common_heap[i]));
    } else {
        lemma_without(seat.heap, i);
        assert(seat.heap.contains(seat.heap[i]));
        assert(seat.heap.to_multiset().count(seat.heap[i]) > 0);
        assert(pile_of(new_seat) =~= pile_of(seat));
    }
    assert(after.cards().add(pile_of(seat)) =~= rest.add(moved));
    assert(rest.add(held(g.players).add(pile_of(new_seat))) =~= g.cards().add(pile_of(seat)));
    lemma_cancel(after.cards(), g.cards(), pile_of(seat));
    assert forall|k: int| 0 <= k < g.current_player_index + 1 implies (
    #[trigger] after.players[after.contenders()[k] as int]).revealed.len() > 0 by {
        lemma_contenders(g, k);
        let q = g.contenders()[k] as int;
        if q != p {
            assert(g.players[q].revealed.len() > 0);
        }
    }
}

/// Comparing a complete round leaves a well-formed game, with the same
/// cards in it.
pub proof fn lemma_resolved(g: GameView)
    requires
        g.sound(),
        g.started,
        g.contenders().len() > 0,
        g.shown(g.contenders().len() as int),
    ensures
        g.resolved().wf(),
{
    let who = g.contenders();
    let lead = leaders(g.players, who);
    let after = g.resolved();
    lemma_some_leader(g.players, who);
    lemma_leaders_among(g.players, who, who);
    assert forall|k: int| 0 <= k < lead.len() implies (#[trigger] lead[k]) < g.players.len()
        && g.active_players.contains(lead[k]) by {
        assert(lead.contains(lead[k]));
        let j = choose|j: int| 0 <= j < who.len() && who[j] == lead[k];
        lemma_contenders(g, j);
    }
    lemma_contenders(g, 0);
    if lead.len() == 1 {
        let w = lead[0] as int;
        assert(lead.contains(lead[0]));
        let j = choose|j: int| 0 <= j < who.len() && who[j] == lead[0];
        assert(g.players[who[j] as int].revealed.len() > 0);
        lemma_award(g.players, w);
        lemma_pot_len(g.players, w);
        lemma_survivors(after.players, g.active_players);
        if g.common_heap.len() == 0 {
            assert(after.active_players.contains(lead[0]));
            assert forall|k: int| 0 <= k < after.active_players.len() implies (
            #[trigger] after.active_players[k]) < after.players.len() by {
                assert(after.active_players.contains(after.active_players[k]));
                let x = after.active_players[k];
                let m = choose|m: int| 0 <= m < g.active_players.len() && g.active_players[m] == x;
            }
        }
        assert(after.cards() == g.cards());
    }
}

/// Passing the turn on, or comparing when the round is complete, leaves a
/// well-formed game.
pub proof fn lemma_settled(g: GameView)
    requires
        g.sound(),
        g.started,
        0 <= g.current_player_index < g.contenders().len(),
        g.shown(g.current_player_index + 1),
    ensures
        g.settled().wf(),
{
    if g.current_player_index + 1 < g.contenders().len() {
        let after = g.settled();
        assert forall|k: int| 0 <= k < after.current_player_index implies (
        #[trigger] after.players[after.contenders()[k] as int]).revealed.len() > 0 by {
            assert(g.players[g.contenders()[k] as int].revealed.len() > 0);
        }
    } else {
        lemma_resolved(g);
    }
}

/// A draw leaves a well-formed game: the 52 cards are still there, and the
/// turn pointer names a player on the roster.
pub proof fn lemma_played(g: GameView, i: int, now: u64)
    requires
        g.wf(),
        g.running(),
        0 <= i < g.source().len(),
    ensures
        g.played(i, now).wf(),
        g.played(i, now).card_count() == 52,
        g.played(i, now).current_player_index < g.played(i, now).active_players.len(),
{
    let mid = g.dealt(i);
    lemma_dealt(g, i);
    lemma_settled(mid);
    let last = mid.settled();
    let after = g.played(i, now);
    assert forall|k: int| 0 <= k < after.current_player_index implies (
    #[trigger] after.players[after.contenders()[k] as int]).revealed.len() > 0 by {
        assert(last.players[last.contenders()[k] as int].revealed.len() > 0);
    }
    lemma_conservation(after);
    lemma_contenders(after, 0);
}

/// Round monotonicity: a game that expects the round of time `last` and
/// sees a draw at a time `now` not before `last` expects no earlier round
/// afterwards, and a later one where a full period lies between.
pub proof fn lemma_round_moves_on(g: GameView, i: int, last: u64, now: u64)
    requires
        GENESIS_TIME <= last <= now,
        g.next_round == round_at(last),
    ensures
        g.played(i, now).next_round >= g.next_round,
        last + PERIOD <= now ==> g.played(i, now).next_round > g.next_round,
{
}

/// Verification gate: a draw that the beacon did not confirm is refused,
/// whoever makes it.
pub proof fn lemma_unverified_refused(g: GameView, caller: Seq<u8>)
    ensures
        g.refusal(caller, false).is_some(),
        g.running() && g.players[g.current_player()].owner == caller ==> g.refusal(caller, false)
            == Some(GameError::VerificationFailed),
{
}

/// Turn enforcement: in a running game a draw by anyone but the owner of
/// the current player is refused as out of turn, verified or not.
pub proof fn lemma_out_of_turn_refused(g: GameView, caller: Seq<u8>, verified: bool)
    requires
        g.running(),
        g.players[g.current_player()].owner != caller,
    ensures
        g.refusal(caller, verified) == Some(GameError::OutOfTurn),
{
}

/// Conservation at every point: whatever draws are taken from a well-formed
/// game, one after the other, the game stays well formed and holds its 52
/// cards.
pub proof fn lemma_every_point(g: GameView, moves: Seq<Move>)
    requires
        g.wf(),
        playable(g, moves),
    ensures
        after_moves(g, moves).wf(),
        after_moves(g, moves).card_count() == 52,
    decreases moves.len(),
{
    if moves.len() == 0 {
        lemma_conservation(g);
    } else {
        lemma_played(g, moves[0].place, moves[0].now);
        lemma_every_point(g.played(moves[0].place, moves[0].now), moves.drop_first());
    }
}

/// Round monotonicity over a run of draws: where each draw comes a full
/// period after the one before, the game expects a later round after the
/// run than before it.
pub proof fn lemma_rounds_along(g: GameView, last: u64, moves: Seq<Move>)
    requires
        GENESIS_TIME <= last,
        g.next_round == round_at(last),
        moves.len() > 0,
        spaced(last, moves),
    ensures
        after_moves(g, moves).next_round > g.next_round,
    decreases moves.len(),
{
    let next = g.played(moves[0].place, moves[0].now);
    lemma_round_moves_on(g, moves[0].place, last, moves[0].now);
    if moves.len() > 1 {
        lemma_rounds_along(next, moves[0].now, moves.drop_first());
    } else {
        assert(after_moves(next, moves.drop_first()) == next);
    }
}

} // verus!
