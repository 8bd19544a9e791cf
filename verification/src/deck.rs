//! Cards, and drawing from a pile without replacement.

use crate::rng::{uniform_index, RngKeccak256, RngState};
use vstd::prelude::*;

verus! {

/// A card is a number below `N_CARDS`.
pub type Card = u8;

pub const N_CARDS: u8 = 52;

pub const N_FAMILIES: u8 = 4;

pub const N_VALUES: u8 = 13;

/// Drawing from a pile that holds no card.
#[derive(Clone, Copy, Debug, PartialEq, Eq)]
pub struct EmptyDeck;

/// The family of a card: one of `N_FAMILIES`.
pub open spec fn family_of(card: Card) -> int {
    card as int / 13
}

/// The rank of a card within its family; the highest rank wins a round.
pub open spec fn value_of(card: Card) -> int {
    card as int % 13
}

/// The pile that is left when the card at `i` is replaced by the last card
/// and the last place is dropped.
pub open spec fn without(pile: Seq<Card>, i: int) -> Seq<Card> {
    pile.update(i, pile.last()).drop_last()
}

/// The place that the sampler picks in a pile of `len` cards, for a
/// generator in the state `rng`.
pub open spec fn picked(rng: RngState, len: int) -> int {
    uniform_index(rng.state, rng.counter, len as u32).0 as int
}

/// The generator after it has picked a place in a pile of `len` cards.
pub open spec fn after_pick(rng: RngState, len: int) -> RngState {
    RngState { state: rng.state, counter: uniform_index(rng.state, rng.counter, len as u32).1 }
}

/// The family of `card`.
pub fn family(card: Card) -> (f: u8)
    ensures
        f == family_of(card),
{
    card / N_VALUES
}

/// The rank of `card`.
pub fn value(card: Card) -> (v: u8)
    ensures
        v == value_of(card),
        v < N_VALUES,
{
    card % N_VALUES
}

/// Removes and returns the card at place `i`; the last card takes its place.
pub fn take_at(heap: &mut Vec<Card>, i: usize) -> (card: Card)
    requires
        i < old(heap)@.len(),
    ensures
        card == old(heap)@[i as int],
        final(heap)@ == without(old(heap)@, i as int),
{
    heap.swap_remove(i)
}

/// Draws one card: the sampler picks a place in the pile, and the card
/// there leaves the pile. An empty pile gives `EmptyDeck` and nothing moves.
pub fn draw(rng: &mut RngKeccak256, heap: &mut Vec<Card>) -> (drawn: Result<Card, EmptyDeck>)
    requires
        old(heap)@.len() <= u32::MAX,
    ensures
        old(heap)@.len() == 0 ==> drawn is Err && final(heap)@ == old(heap)@ && final(rng)@ == old(
            rng,
        )@,
        old(heap)@.len() > 0 ==> {
            let i = picked(old(rng)@, old(heap)@.len() as int);
            &&& 0 <= i < old(heap)@.len()
            &&& drawn == Ok::<Card, EmptyDeck>(old(heap)@[i])
            &&& final(heap)@ == without(old(heap)@, i)
            &&& final(rng)@ == after_pick(old(rng)@, old(heap)@.len() as int)
        },
        drawn matches Ok(card) ==> {
            &&& final(heap)@.len() == old(heap)@.len() - 1
            &&& final(heap)@.to_multiset() == old(heap)@.to_multiset().remove(card)
            &&& forall|c: Card|
                c != card && old(heap)@.contains(c) ==> #[trigger] final(heap)@.contains(c)
            &&& old(heap)@.no_duplicates() ==> !final(heap)@.contains(card)
        },
{
    let n: usize = heap.len();
    if n == 0 {
        return Err(EmptyDeck);
    }
    let i: u32 = rng.index_below(n as u32);
    proof {
        lemma_without(heap@, i as int);
    }
    Ok(take_at(heap, i as usize))
}

/// Drawing without replacement: taking the card at `i` out of a pile leaves
/// one card fewer, takes exactly that card away, and keeps every other card.
/// From a pile without duplicates the drawn card is gone for good.
pub proof fn lemma_without(pile: Seq<Card>, i: int)
    requires
        0 <= i < pile.len(),
    ensures
        without(pile, i).len() == pile.len() - 1,
        without(pile, i).to_multiset() == pile.to_multiset().remove(pile[i]),
        forall|c: Card| c != pile[i] && pile.contains(c) ==> without(pile, i).contains(c),
        forall|c: Card| without(pile, i).contains(c) ==> pile.contains(c),
        pile.no_duplicates() ==> without(pile, i).no_duplicates() && !without(pile, i).contains(
            pile[i],
        ),
{
    broadcast use vstd::seq_lib::group_to_multiset_ensures;

    let last = pile.len() - 1;
    let rest = without(pile, i);
    assert(rest.len() == last);
    assert forall|c: Card| c != pile[i] && pile.contains(c) implies rest.contains(c) by {
        let k = choose|k: int| 0 <= k < pile.len() && pile[k] == c;
        if k == last {
            assert(rest[i] == c);
        } else {
            assert(rest[k] == c);
        }
    }
    assert forall|c: Card| rest.contains(c) implies pile.contains(c) by {
        let k = choose|k: int| 0 <= k < rest.len() && rest[k] == c;
        if k == i {
            assert(pile[last] == c);
        } else {
            assert(pile[k] == c);
        }
    }
    if pile.no_duplicates() {
        assert forall|a: int, b: int| 0 <= a < rest.len() && 0 <= b < rest.len() && a != b implies rest[a] != rest[b] by {
            let pa = if a == i { last } else { a };
            let pb = if b == i { last } else { b };
            assert(rest[a] == pile[pa] && rest[b] == pile[pb] && pa != pb);
        }
        if rest.contains(pile[i]) {
            let k = choose|k: int| 0 <= k < rest.len() && rest[k] == pile[i];
            let pk = if k == i { last } else { k };
            assert(pile[pk] == pile[i] && pk != i);
        }
    }
    assert(pile.update(i, pile.last()).drop_last() =~= pile.update(i, pile.last()).remove(last));
    assert(rest.to_multiset() =~= pile.to_multiset().remove(pile[i]));
}

} // verus!
