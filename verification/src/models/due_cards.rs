//! Which cards are due, and in which order they are reviewed.
//!
//! A card is due on a date if its next review date is on or before that date.
//! The due list of a deck holds its due cards, the one that has been due for
//! the longest time first. Cards that became due at the same time stay in the
//! order in which they stand in the deck.

use vstd::prelude::*;
use crate::filters::lemma_kept_item_is_an_item;
use crate::models::flashcard::Flashcard;
use crate::models::review_data::ReviewData;

verus! {

/// A card as the store hands it over: its id, the card, its review state.
pub type StoredCard = (i64, Flashcard, ReviewData);

/// The date on which a stored card is next due.
pub open spec fn due_date(card: StoredCard) -> u64 {
    card.2.next_review_date
}

/// `due_on` as a test of stored cards.
pub open spec fn is_due_on(date: u64) -> spec_fn(StoredCard) -> bool {
    |card: StoredCard| card.2.due_on(date)
}

/// Whether no card of the list is due later than a card behind it.
pub open spec fn ordered_by_due_date(cards: Seq<StoredCard>) -> bool {
    forall|i: int, j: int|
        0 <= i <= j < cards.len() ==> due_date(#[trigger] cards[i]) <= due_date(
            #[trigger] cards[j],
        )
}

/// A list with one more card: the card stands behind every card of the list
/// that is due no later than it, and before the others.
pub open spec fn with_card(list: Seq<StoredCard>, card: StoredCard) -> Seq<StoredCard>
    decreases list.len(),
{
    if list.len() > 0 && due_date(list.last()) > due_date(card) {
        with_card(list.drop_last(), card).push(list.last())
    } else {
        list.push(card)
    }
}

/// The due list: the cards that are due on `date`, taken one by one in the
/// order of `cards` and put in their place by due date.
pub open spec fn due_list(cards: Seq<StoredCard>, date: u64) -> Seq<StoredCard>
    decreases cards.len(),
{
    if cards.len() == 0 {
        Seq::empty()
    } else if cards.last().2.due_on(date) {
        with_card(due_list(cards.drop_last(), date), cards.last())
    } else {
        due_list(cards.drop_last(), date)
    }
}

/// The place that `with_card` gives a card: behind the last card that is due
/// no later.
pub proof fn lemma_with_card_at(list: Seq<StoredCard>, card: StoredCard, at: int)
    requires
        0 <= at <= list.len(),
        forall|k: int| at <= k < list.len() ==> due_date(#[trigger] list[k]) > due_date(card),
        at > 0 ==> due_date(list[at - 1]) <= due_date(card),
    ensures
        with_card(list, card) == list.insert(at, card),
    decreases list.len(),
{
    if at == list.len() {
        assert(list.push(card) =~= list.insert(at, card));
    } else {
        let front = list.drop_last();
        assert(due_date(list[list.len() - 1]) > due_date(card));
        assert forall|k: int| at <= k < front.len() implies due_date(#[trigger] front[k])
            > due_date(card) by {
            assert(front[k] == list[k]);
        }
        lemma_with_card_at(front, card, at);
        assert(front.insert(at, card).push(list.last()) =~= list.insert(at, card));
    }
}

/// One more card keeps a list in the order of the due dates, and adds just
/// that card.
pub proof fn lemma_with_card(list: Seq<StoredCard>, card: StoredCard)
    requires
        ordered_by_due_date(list),
    ensures
        ordered_by_due_date(with_card(list, card)),
        with_card(list, card).to_multiset() == list.to_multiset().insert(card),
        with_card(list, card).len() == list.len() + 1,
    decreases list.len(),
{
    broadcast use vstd::seq_lib::group_to_multiset_ensures;

    if list.len() > 0 && due_date(list.last()) > due_date(card) {
        let front = list.drop_last();
        let last = list.last();
        assert forall|i: int, j: int| 0 <= i <= j < front.len() implies due_date(
            #[trigger] front[i],
        ) <= due_date(#[trigger] front[j]) by {
            assert(front[i] == list[i] && front[j] == list[j]);
        }
        lemma_with_card(front, card);
        let grown = with_card(front, card);
        let whole = grown.push(last);
        assert forall|i: int, j: int| 0 <= i <= j < whole.len() implies due_date(
            #[trigger] whole[i],
        ) <= due_date(#[trigger] whole[j]) by {
            if j == grown.len() && i < j {
                // every card of `grown` is `card` or a card of `front`
                assert(grown.to_multiset().count(grown[i]) > 0);
                if grown[i] != card {
                    assert(front.to_multiset().count(grown[i]) > 0);
                    assert(front.contains(grown[i]));
                    let k = choose|k: int| 0 <= k < front.len() && front[k] == grown[i];
                    assert(due_date(list[k]) <= due_date(list[list.len() - 1]));
                }
            }
        }
        assert(front.push(last) =~= list);
        assert(whole.to_multiset() =~= list.to_multiset().insert(card));
    } else {
        let whole = list.push(card);
        assert forall|i: int, j: int| 0 <= i <= j < whole.len() implies due_date(
            #[trigger] whole[i],
        ) <= due_date(#[trigger] whole[j]) by {
            if j == list.len() && i < j {
                assert(due_date(list[i]) <= due_date(list[list.len() - 1]));
            }
        }
    }
}

/// The due list is in the order of the due dates, oldest first, and holds
/// exactly the cards that are due, each as often as the deck holds it.
pub proof fn lemma_due_list(cards: Seq<StoredCard>, date: u64)
    ensures
        ordered_by_due_date(due_list(cards, date)),
        due_list(cards, date).to_multiset() == cards.filter(is_due_on(date)).to_multiset(),
        due_list(cards, date).len() == cards.filter(is_due_on(date)).len(),
        forall|i: int|
            0 <= i < due_list(cards, date).len() ==> (#[trigger] due_list(cards, date)[i]).2.due_on(
                date,
            ),
    decreases cards.len(),
{
    broadcast use vstd::seq_lib::group_to_multiset_ensures;

    reveal(Seq::filter);
    let due = due_list(cards, date);
    if cards.len() > 0 {
        lemma_due_list(cards.drop_last(), date);
        let earlier = due_list(cards.drop_last(), date);
        if cards.last().2.due_on(date) {
            lemma_with_card(earlier, cards.last());
        }
        assert forall|i: int| 0 <= i < due.len() implies (#[trigger] due[i]).2.due_on(date) by {
            let kept = cards.filter(is_due_on(date));
            vstd::seq_lib::to_multiset_contains(due, due[i]);
            vstd::seq_lib::to_multiset_contains(kept, due[i]);
            assert(kept.contains(due[i]));
            let k = choose|k: int| 0 <= k < kept.len() && kept[k] == due[i];
            cards.lemma_filter_pred(is_due_on(date), k);
        }
    }
}

/// Of a deck that stands in the order of the due dates already, the due list
/// is the deck without the cards that are not due: no card changes its place.
pub proof fn lemma_due_list_of_ordered_cards(cards: Seq<StoredCard>, date: u64)
    requires
        ordered_by_due_date(cards),
    ensures
        due_list(cards, date) == cards.filter(is_due_on(date)),
    decreases cards.len(),
{
    reveal(Seq::filter);
    if cards.len() > 0 {
        let front = cards.drop_last();
        assert forall|i: int, j: int| 0 <= i <= j < front.len() implies due_date(
            #[trigger] front[i],
        ) <= due_date(#[trigger] front[j]) by {
            assert(front[i] == cards[i] && front[j] == cards[j]);
        }
        lemma_due_list_of_ordered_cards(front, date);
        let earlier = front.filter(is_due_on(date));
        if cards.last().2.due_on(date) && earlier.len() > 0 {
            // the last card kept so far is a card of `front`, so it is due no
            // later than the last card of `cards`
            front.lemma_filter_pred(is_due_on(date), earlier.len() - 1);
            lemma_kept_item_is_an_item(front, is_due_on(date), earlier.len() - 1);
            let k = choose|k: int| 0 <= k < front.len() && front[k] == earlier.last();
            assert(due_date(cards[k]) <= due_date(cards[cards.len() - 1]));
        }
    }
}

/// Selects the cards that are due on `date` and puts them in the order in
/// which they are reviewed: by due date, oldest first.
pub fn due_for_review(cards: Vec<StoredCard>, date: u64) -> (due: Vec<StoredCard>)
    ensures
        due@ == due_list(cards@, date),
        ordered_by_due_date(due@),
        due@.to_multiset() == cards@.filter(is_due_on(date)).to_multiset(),
{
    let ghost all = cards@;
    let mut due: Vec<StoredCard> = Vec::new();
    for card in it: cards
        invariant
            it.seq() == all,
            due@ == due_list(all.take(it.index() as int), date),
    {
        proof {
            let seen = all.take(it.index() + 1);
            assert(seen.drop_last() =~= all.take(it.index() as int));
            assert(seen.last() == card);
        }
        if card.2.is_due(date) {
            let mut at: usize = due.len();
            while at > 0 && due[at - 1].2.next_review_date > card.2.next_review_date
                invariant
                    at <= due@.len(),
                    forall|k: int|
                        at <= k < due@.len() ==> due_date(#[trigger] due@[k]) > due_date(card),
                decreases at,
            {
                at -= 1;
            }
            proof {
                lemma_with_card_at(due@, card, at as int);
            }
            due.insert(at, card);
        }
    }
    proof {
        assert(all.take(all.len() as int) =~= all);
        lemma_due_list(all, date);
    }
    due
}

} // verus!
