//! What holds of whole sittings.
//!
//! A sitting is modelled as a sequence of grades, each given to the card
//! under the cursor and followed by a move to the next card. The lemmas here
//! say where such a sitting ends.

use vstd::prelude::*;
use crate::filters::{
    lemma_filter_by_equal_tests, lemma_filter_keeps_all, lemma_filter_keeps_none,
    lemma_filter_keeps_one, lemma_filter_keeps_rising,
};
use crate::models::flashcard::Flashcard;
use crate::models::learning_session::SessionView;
use crate::models::review_data::ReviewData;

verus! {

/// The positions `0, 1, .., count - 1`.
pub open spec fn positions(count: nat) -> Seq<usize> {
    Seq::new(count, |position: int| position as usize)
}

/// The positions of the grades that are no pass, in rising order.
pub open spec fn positions_below_pass(grades: Seq<(u8, u64)>) -> Seq<usize> {
    positions(grades.len()).filter(|position: usize| grades[position as int].0 < 3)
}

impl SessionView {
    /// One step of a sitting: the card under the cursor gets a grade on a
    /// date, and the session moves to the next card.
    pub open spec fn step(self, grade: (u8, u64)) -> SessionView {
        self.grade_current_card(grade.0, grade.1).next_card()
    }

    /// A sitting: one step for each grade, in turn.
    pub open spec fn play(self, grades: Seq<(u8, u64)>) -> SessionView
        decreases grades.len(),
    {
        if grades.len() == 0 {
            self
        } else {
            self.play(grades.drop_last()).step(grades.last())
        }
    }

    /// Whether a round is at its start: the cursor stands on its first card,
    /// and none of its cards is learned.
    pub open spec fn at_start_of_round(self) -> bool {
        &&& self.current_index == 0
        &&& forall|k: int|
            0 <= k < self.current_round_cards.len() ==> !self.card_is_learned(
                #[trigger] self.current_round_cards[k],
            )
    }

    /// The state of the round of `start` in which the cards before the cursor
    /// have the given grades and the other cards of the round are untouched.
    pub open spec fn in_round(self, start: SessionView, grades: Seq<(u8, u64)>) -> bool {
        &&& self.deck_name == start.deck_name
        &&& self.current_round_cards == start.current_round_cards
        &&& self.round_number == start.round_number
        &&& self.current_index == grades.len()
        &&& self.all_cards.len() == start.all_cards.len()
        &&& forall|k: int|
            0 <= k < grades.len() ==> self.card_is_learned(
                #[trigger] self.current_round_cards[k],
            ) == (grades[k].0 >= 3)
        &&& forall|k: int|
            grades.len() <= k < self.current_round_cards.len() ==> !self.card_is_learned(
                #[trigger] self.current_round_cards[k],
            )
    }
}

/// Every transition keeps the session's invariant.
pub proof fn lemma_transitions_keep_invariant(session: SessionView, quality: u8, current_date: u64)
    requires
        session.wf(),
    ensures
        session.toggle_definition().wf(),
        session.grade_current_card(quality, current_date).wf(),
        session.start_next_round().wf(),
        session.next_card().wf(),
{
    let round = session.current_round_cards;
    assert forall|k: int| 0 <= k < session.failed_cards().len() implies (
    #[trigger] session.failed_cards()[k]) < session.all_cards.len() by {
        round.lemma_filter_pred(session.failed(), k);
    }
    lemma_filter_keeps_rising(round, session.failed());
}

/// In a session that satisfies the invariant, every card of the round is
/// either learned or failed: the cards that remain to be learned are the ones
/// that the next round would hold, and the session is completed exactly if
/// there are none.
pub proof fn lemma_remaining_cards_are_the_failed(session: SessionView)
    requires
        session.wf(),
    ensures
        session.remaining_count() == session.failed_cards().len(),
        session.is_completed() == (session.failed_cards().len() == 0),
        session.is_completed() ==> session.start_next_round() == session,
    decreases session.current_round_cards.len(),
{
    let round = session.current_round_cards;
    reveal(Seq::filter);
    if round.len() > 0 {
        let shorter = SessionView {
            current_round_cards: round.drop_last(),
            current_index: 0,
            ..session
        };
        assert(shorter.learned() == session.learned());
        assert(shorter.failed() == session.failed());
        assert forall|k: int| 0 <= k < shorter.current_round_cards.len() implies (
        #[trigger] shorter.current_round_cards[k]) < shorter.all_cards.len() by {
            assert(round[k] < session.all_cards.len());
        }
        lemma_remaining_cards_are_the_failed(shorter);
        assert(round[round.len() - 1] < session.all_cards.len());
    }
}

/// A session that starts without cards is completed at once.
pub proof fn lemma_empty_session_is_completed(deck_name: Seq<char>)
    ensures
        SessionView::new_from_due_cards(deck_name, Seq::empty()).is_completed(),
        SessionView::new_from_due_cards(deck_name, Seq::empty()).wf(),
{
}

/// A new session satisfies the invariant, with all its cards in the first
/// round in the order in which they were handed over.
pub proof fn lemma_new_session(deck_name: Seq<char>, cards: Seq<(i64, Flashcard, ReviewData)>)
    requires
        cards.len() <= usize::MAX,
    ensures
        SessionView::new_from_due_cards(deck_name, cards).wf(),
        SessionView::new_from_due_cards(deck_name, cards).current_round_cards == positions(
            cards.len(),
        ),
        SessionView::new_from_due_cards(deck_name, cards).round_number == 1,
{
}

/// While a round lasts, each grade goes to the next card of the round in
/// turn, and nothing else changes.
pub proof fn lemma_round_in_progress(start: SessionView, grades: Seq<(u8, u64)>)
    requires
        start.wf(),
        start.at_start_of_round(),
        grades.len() < start.current_round_cards.len(),
    ensures
        start.play(grades).in_round(start, grades),
        start.play(grades).wf(),
    decreases grades.len(),
{
    let round = start.current_round_cards;
    if grades.len() > 0 {
        let earlier = grades.drop_last();
        lemma_round_in_progress(start, earlier);
        let before = start.play(earlier);
        let last = earlier.len() as int;
        let position = round[last];
        assert(before.current_position() == Some(position));
        let graded = before.grade_current_card(grades.last().0, grades.last().1);
        assert(!graded.at_end_of_round());
        let after = graded.next_card();
        assert(after == start.play(grades));
        lemma_transitions_keep_invariant(before, grades.last().0, grades.last().1);
        lemma_transitions_keep_invariant(graded, 0, 0);
        assert forall|k: int| 0 <= k < round.len() && k != last implies after.card_is_learned(
            #[trigger] round[k],
        ) == before.card_is_learned(round[k]) by {
            assert(round[k] != round[last]);
        }
        assert forall|k: int| 0 <= k < grades.len() implies after.card_is_learned(
            #[trigger] after.current_round_cards[k],
        ) == (grades[k].0 >= 3) by {
            if k < last {
                assert(before.card_is_learned(before.current_round_cards[k]) == (earlier[k].0
                    >= 3));
            }
        }
        assert forall|k: int|
            grades.len() <= k < after.current_round_cards.len() implies !after.card_is_learned(
            #[trigger] after.current_round_cards[k],
        ) by {
            assert(!before.card_is_learned(before.current_round_cards[k]));
        }
    }
}

/// Where a round ends: once every card of the round has its grade, the cards
/// graded below 3 make up the next round, in their order, and that round is
/// at its start; if no card was graded below 3, no round is opened and the
/// session is completed.
pub proof fn lemma_round_played(start: SessionView, grades: Seq<(u8, u64)>)
    requires
        start.wf(),
        start.at_start_of_round(),
        grades.len() == start.current_round_cards.len(),
    ensures
        ({
            let round = start.current_round_cards;
            let end = start.play(grades);
            let failures = round.filter(end.failed());
            &&& end.wf()
            &&& end.deck_name == start.deck_name
            &&& end.all_cards.len() == start.all_cards.len()
            &&& forall|k: int|
                0 <= k < round.len() ==> end.card_is_learned(#[trigger] round[k]) == (grades[k].0
                    >= 3)
            &&& (failures.len() == 0) == (forall|k: int|
                0 <= k < grades.len() ==> (#[trigger] grades[k]).0 >= 3)
            &&& if failures.len() == 0 {
                &&& end.round_number == start.round_number
                &&& end.current_round_cards == round
                &&& end.is_completed()
            } else {
                &&& end.round_number == start.round_number + 1
                &&& end.current_round_cards == failures
                &&& end.at_start_of_round()
                &&& !end.is_completed()
            }
        }),
{
    let round = start.current_round_cards;
    if grades.len() > 0 {
        let earlier = grades.drop_last();
        lemma_round_in_progress(start, earlier);
        let before = start.play(earlier);
        let last = earlier.len() as int;
        let position = round[last];
        assert(before.current_position() == Some(position));
        let graded = before.grade_current_card(grades.last().0, grades.last().1);
        assert(graded.at_end_of_round());
        let end = graded.next_card();
        assert(end == start.play(grades));
        assert(end.all_cards == graded.all_cards);
        lemma_transitions_keep_invariant(before, grades.last().0, grades.last().1);
        lemma_transitions_keep_invariant(graded, 0, 0);
        assert forall|k: int| 0 <= k < round.len() implies graded.card_is_learned(
            #[trigger] round[k],
        ) == (grades[k].0 >= 3) by {
            if k != last {
                assert(round[k] != round[last]);
                assert(graded.card_is_learned(round[k]) == before.card_is_learned(
                    before.current_round_cards[k],
                ));
                assert(earlier[k] == grades[k]);
            }
        }
        assert(end.failed() == graded.failed());
        let failures = round.filter(graded.failed());
        assert(graded.failed_cards() == failures);
        if forall|k: int| 0 <= k < grades.len() ==> (#[trigger] grades[k]).0 >= 3 {
            assert forall|k: int| 0 <= k < round.len() implies !(graded.failed())(
                #[trigger] round[k],
            ) by {
                assert(graded.card_is_learned(round[k]) == (grades[k].0 >= 3));
            }
            lemma_filter_keeps_none(round, graded.failed());
            assert forall|k: int| 0 <= k < round.len() implies (graded.learned())(
                #[trigger] round[k],
            ) by {
                assert(graded.card_is_learned(round[k]) == (grades[k].0 >= 3));
            }
            lemma_filter_keeps_all(round, graded.learned());
        } else {
            let k = choose|k: int| 0 <= k < grades.len() && !((#[trigger] grades[k]).0 >= 3);
            assert(graded.card_is_learned(round[k]) == (grades[k].0 >= 3));
            assert((graded.failed())(round[k]));
            round.lemma_filter_contains(graded.failed(), k);
            assert(failures.len() > 0);
            assert forall|j: int| 0 <= j < failures.len() implies !end.card_is_learned(
                #[trigger] failures[j],
            ) by {
                round.lemma_filter_pred(graded.failed(), j);
            }
            lemma_learned_count_below_total(end, 0);
        }
    } else {
        lemma_filter_keeps_none(round, start.failed());
    }
}

/// Where the first round ends: once every card of a new session has its
/// grade, the cards graded below 3 make up round 2, in the order in which
/// they were handed over; if there are none, the session is completed in
/// round 1.
pub proof fn lemma_first_round_played(
    deck_name: Seq<char>,
    cards: Seq<(i64, Flashcard, ReviewData)>,
    grades: Seq<(u8, u64)>,
)
    requires
        cards.len() <= usize::MAX,
        grades.len() == cards.len(),
    ensures
        ({
            let end = SessionView::new_from_due_cards(deck_name, cards).play(grades);
            let failures = positions_below_pass(grades);
            &&& end.wf()
            &&& end.all_cards.len() == cards.len()
            &&& forall|i: int|
                0 <= i < cards.len() ==> (#[trigger] end.all_cards[i]).is_learned == (grades[i].0
                    >= 3)
            &&& if failures.len() == 0 {
                &&& end.round_number == 1
                &&& end.current_round_cards == positions(cards.len())
                &&& end.is_completed()
            } else {
                &&& end.round_number == 2
                &&& end.current_round_cards == failures
                &&& end.current_index == 0
                &&& !end.is_completed()
            }
        }),
{
    let start = SessionView::new_from_due_cards(deck_name, cards);
    let round = positions(cards.len());
    let end = start.play(grades);
    assert(start.current_round_cards == round);
    lemma_round_played(start, grades);
    let below_pass = |position: usize| grades[position as int].0 < 3;
    assert forall|i: int| 0 <= i < cards.len() implies (#[trigger] end.all_cards[i]).is_learned
        == (grades[i].0 >= 3) by {
        assert(end.card_is_learned(round[i]) == (grades[i].0 >= 3));
    }
    assert forall|i: int| 0 <= i < round.len() implies (end.failed())(#[trigger] round[i])
        == below_pass(round[i]) by {
        assert(end.card_is_learned(round[i]) == (grades[i].0 >= 3));
    }
    lemma_filter_by_equal_tests(round, end.failed(), below_pass);
}

/// A round with a card that is not learned has fewer learned cards than
/// cards.
pub proof fn lemma_learned_count_below_total(session: SessionView, unlearned: int)
    requires
        0 <= unlearned < session.current_round_cards.len(),
        !session.card_is_learned(session.current_round_cards[unlearned]),
    ensures
        session.learned_count() < session.total_count(),
        !session.is_completed(),
    decreases session.current_round_cards.len(),
{
    let round = session.current_round_cards;
    let keep = session.learned();
    reveal(Seq::filter);
    round.drop_last().lemma_filter_len(keep);
    if unlearned < round.len() - 1 {
        let shorter = SessionView { current_round_cards: round.drop_last(), ..session };
        assert(shorter.learned() == keep);
        lemma_learned_count_below_total(shorter, unlearned);
    }
}

/// A first round in which every card is passed completes the session, and no
/// second round is opened.
pub proof fn lemma_all_passed_completes_first_round(
    deck_name: Seq<char>,
    cards: Seq<(i64, Flashcard, ReviewData)>,
    grades: Seq<(u8, u64)>,
)
    requires
        cards.len() <= usize::MAX,
        grades.len() == cards.len(),
        forall|i: int| 0 <= i < grades.len() ==> (#[trigger] grades[i]).0 >= 3,
    ensures
        SessionView::new_from_due_cards(deck_name, cards).play(grades).is_completed(),
        SessionView::new_from_due_cards(deck_name, cards).play(grades).round_number == 1,
{
    lemma_first_round_played(deck_name, cards, grades);
    lemma_filter_keeps_none(
        positions(grades.len()),
        |position: usize| grades[position as int].0 < 3,
    );
}

/// A first round in which one card is failed and all others are passed leads
/// to a second round that holds exactly the failed card; passing that card
/// there completes the session.
pub proof fn lemma_single_failure_is_retried(
    deck_name: Seq<char>,
    cards: Seq<(i64, Flashcard, ReviewData)>,
    grades: Seq<(u8, u64)>,
    failed: int,
    retry: (u8, u64),
)
    requires
        cards.len() <= usize::MAX,
        grades.len() == cards.len(),
        0 <= failed < grades.len(),
        forall|i: int| 0 <= i < grades.len() ==> ((#[trigger] grades[i]).0 < 3) == (i == failed),
        retry.0 >= 3,
    ensures
        ({
            let second = SessionView::new_from_due_cards(deck_name, cards).play(grades);
            let end = second.step(retry);
            &&& second.round_number == 2
            &&& second.current_round_cards == seq![failed as usize]
            &&& !second.is_completed()
            &&& end.is_completed()
            &&& end.round_number == 2
        }),
{
    let round = positions(grades.len());
    let below_pass = |position: usize| grades[position as int].0 < 3;
    lemma_first_round_played(deck_name, cards, grades);
    assert forall|i: int| 0 <= i < round.len() implies below_pass(#[trigger] round[i]) == (i
        == failed) by {
        assert((grades[i].0 < 3) == (i == failed));
    }
    lemma_filter_keeps_one(round, below_pass, failed);
    let second = SessionView::new_from_due_cards(deck_name, cards).play(grades);
    assert(second.current_round_cards =~= seq![failed as usize]);
    assert(second.current_position() == Some(failed as usize));
    let graded = second.grade_current_card(retry.0, retry.1);
    assert(graded.all_cards[failed].is_learned);
    assert forall|i: int| 0 <= i < graded.current_round_cards.len() implies (graded.learned())(
        #[trigger] graded.current_round_cards[i],
    ) by {}
    lemma_filter_keeps_all(graded.current_round_cards, graded.learned());
    assert forall|i: int| 0 <= i < graded.current_round_cards.len() implies !(graded.failed())(
        #[trigger] graded.current_round_cards[i],
    ) by {}
    lemma_filter_keeps_none(graded.current_round_cards, graded.failed());
    assert(graded.next_card() == graded);
}

/// At the end of a round whose cards are all learned, moving on changes
/// nothing: the session stays completed in the same round.
pub proof fn lemma_completed_round_stays(session: SessionView)
    requires
        session.wf(),
        session.at_end_of_round(),
        forall|k: int|
            0 <= k < session.current_round_cards.len() ==> session.card_is_learned(
                #[trigger] session.current_round_cards[k],
            ),
    ensures
        session.next_card() == session,
        session.is_completed(),
{
    lemma_filter_keeps_none(session.current_round_cards, session.failed());
    lemma_filter_keeps_all(session.current_round_cards, session.learned());
}

} // verus!
