//! The learning session: one sitting over the cards that are due.
//!
//! A session walks through its cards in rounds. Every card of a round is shown
//! and graded; the cards that were not passed make up the next round, in the
//! order in which they were met. The session is completed when a round ends
//! with every card passed.
//!
//! The session itself performs no storage access. Its caller reads the current
//! date, asks [`LearningSession::scheduled_review`] what has to be written,
//! writes it, and reports how that went to
//! [`LearningSession::grade_current_card`].

use vstd::prelude::*;
use vstd::string::*;
use std::time::SystemTime;
use crate::decimal::{decimal, to_decimal};
use crate::filters::{lemma_filter_keeps_rising, rising};
use crate::models::flashcard::Flashcard;
use crate::models::learning_card::LearningCard;
use crate::models::review_data::ReviewData;
use crate::models::sm2::{calculate_next_review, can_schedule, schedule_fits, scheduled};

verus! {

/// What the session's rules read of one card of the working set.
pub struct CardView {
    pub id: i64,
    pub flashcard: Flashcard,
    pub is_learned: bool,
    pub review: ReviewData,
}

/// The mathematical model of a session.
pub struct SessionView {
    pub deck_name: Seq<char>,
    /// The working set of the sitting.
    pub all_cards: Seq<CardView>,
    /// The members of the present round, as positions in `all_cards`.
    pub current_round_cards: Seq<usize>,
    /// The cursor into `current_round_cards`.
    pub current_index: nat,
    pub show_definition: bool,
    pub round_number: nat,
}

impl SessionView {
    /// The session as it starts: every card unlearned, all of them in round 1.
    pub open spec fn new_from_due_cards(
        deck_name: Seq<char>,
        cards: Seq<(i64, Flashcard, ReviewData)>,
    ) -> SessionView {
        SessionView {
            deck_name,
            all_cards: cards.map_values(
                |due: (i64, Flashcard, ReviewData)|
                    CardView { id: due.0, flashcard: due.1, is_learned: false, review: due.2 },
            ),
            current_round_cards: Seq::new(cards.len(), |position: int| position as usize),
            current_index: 0,
            show_definition: false,
            round_number: 1,
        }
    }

    /// The invariant of a session: the round holds positions of the working
    /// set, in rising order, so that no card is in a round twice; the cursor
    /// points into the round unless the round is empty; and rounds are counted
    /// from 1.
    pub open spec fn wf(self) -> bool {
        &&& self.round_number >= 1
        &&& forall|k: int|
            0 <= k < self.current_round_cards.len() ==> (#[trigger] self.current_round_cards[k])
                < self.all_cards.len()
        &&& rising(self.current_round_cards)
        &&& if self.current_round_cards.len() == 0 {
            self.current_index == 0
        } else {
            self.current_index < self.current_round_cards.len()
        }
    }

    /// Whether `card` is a position of the working set whose card is learned.
    pub open spec fn card_is_learned(self, card: usize) -> bool {
        card < self.all_cards.len() && self.all_cards[card as int].is_learned
    }

    /// Whether `card` is a position of the working set whose card is not
    /// learned.
    pub open spec fn card_has_failed(self, card: usize) -> bool {
        card < self.all_cards.len() && !self.all_cards[card as int].is_learned
    }

    /// `card_is_learned` as a predicate on positions.
    pub open spec fn learned(self) -> spec_fn(usize) -> bool {
        |card: usize| self.card_is_learned(card)
    }

    /// `card_has_failed` as a predicate on positions.
    pub open spec fn failed(self) -> spec_fn(usize) -> bool {
        |card: usize| self.card_has_failed(card)
    }

    /// The members of the round that are not learned, in the round's order.
    pub open spec fn failed_cards(self) -> Seq<usize> {
        self.current_round_cards.filter(self.failed())
    }

    pub open spec fn total_count(self) -> nat {
        self.current_round_cards.len()
    }

    pub open spec fn learned_count(self) -> nat {
        self.current_round_cards.filter(self.learned()).len()
    }

    pub open spec fn remaining_count(self) -> int {
        self.total_count() - self.learned_count()
    }

    /// A session is completed when its round is empty or wholly learned.
    pub open spec fn is_completed(self) -> bool {
        self.current_round_cards.len() == 0 || self.learned_count() == self.total_count()
    }

    /// The position in the working set of the card under the cursor.
    pub open spec fn current_position(self) -> Option<usize> {
        if self.current_index < self.current_round_cards.len()
            && self.current_round_cards[self.current_index as int] < self.all_cards.len() {
            Some(self.current_round_cards[self.current_index as int])
        } else {
            None
        }
    }

    pub open spec fn toggle_definition(self) -> SessionView {
        SessionView { show_definition: !self.show_definition, ..self }
    }

    /// Whether the cursor stands on the last card of the round, or the round
    /// is empty.
    pub open spec fn at_end_of_round(self) -> bool {
        self.current_index + 1 >= self.current_round_cards.len()
    }

    /// The round advance: the failed cards become the next round. Without
    /// failed cards nothing changes.
    pub open spec fn start_next_round(self) -> SessionView {
        if self.failed_cards().len() > 0 {
            SessionView {
                current_round_cards: self.failed_cards(),
                current_index: 0,
                show_definition: false,
                round_number: self.round_number + 1,
                ..self
            }
        } else {
            self
        }
    }

    pub open spec fn next_card(self) -> SessionView {
        if self.at_end_of_round() {
            self.start_next_round()
        } else {
            SessionView { current_index: self.current_index + 1, show_definition: false, ..self }
        }
    }

    /// Whether `next_card` opens a new round.
    pub open spec fn opens_new_round(self) -> bool {
        self.at_end_of_round() && self.failed_cards().len() > 0
    }

    /// The line that tells the learner where the sitting stands: the first
    /// round with its number of cards, or a later round with its number and
    /// the number of cards that are tried again.
    pub open spec fn phase_message(self) -> Seq<char> {
        if self.round_number == 1 {
            "first round, "@ + decimal(self.total_count()) + " cards"@
        } else {
            "review round "@ + decimal(self.round_number) + ", "@ + decimal(self.total_count())
                + " cards to retry"@
        }
    }

    /// The review state that a grade gives the card under the cursor.
    pub open spec fn scheduled_review(self, quality: u8, current_date: u64) -> Option<ReviewData> {
        match self.current_position() {
            Some(card) => Some(scheduled(self.all_cards[card as int].review, quality, current_date)),
            None => None,
        }
    }

    /// Whether the review state that a grade gives the card under the cursor
    /// fits its integer types.
    pub open spec fn can_grade(self, quality: u8, current_date: u64) -> bool {
        match self.current_position() {
            Some(card) => schedule_fits(self.all_cards[card as int].review, quality, current_date),
            None => true,
        }
    }

    /// Grading: the card under the cursor is learned exactly if the grade is
    /// a pass, and its review state moves on. Without a card under the cursor
    /// nothing changes.
    pub open spec fn grade_current_card(self, quality: u8, current_date: u64) -> SessionView {
        match self.current_position() {
            Some(card) => {
                let before = self.all_cards[card as int];
                let after = CardView {
                    is_learned: quality >= 3,
                    review: scheduled(before.review, quality, current_date),
                    ..before
                };
                SessionView { all_cards: self.all_cards.update(card as int, after), ..self }
            },
            None => self,
        }
    }
}

/// Manages one sitting with several review rounds. Cards that are not passed
/// (grade below 3) come back in the next round.
pub struct LearningSession {
    pub deck_name: String,
    /// The working set: card id, card, review state.
    pub all_cards: Vec<(i64, LearningCard, ReviewData)>,
    /// The present round, as positions in `all_cards`.
    pub current_round_cards: Vec<usize>,
    pub current_index: usize,
    pub show_definition: bool,
    pub round_number: usize,
}

impl View for LearningSession {
    type V = SessionView;

    open spec fn view(&self) -> SessionView {
        SessionView {
            deck_name: self.deck_name@,
            all_cards: self.all_cards@.map_values(
                |entry: (i64, LearningCard, ReviewData)|
                    CardView {
                        id: entry.0,
                        flashcard: entry.1.flashcard,
                        is_learned: entry.1.is_learned,
                        review: entry.2,
                    },
            ),
            current_round_cards: self.current_round_cards@,
            current_index: self.current_index as nat,
            show_definition: self.show_definition,
            round_number: self.round_number as nat,
        }
    }
}

impl LearningSession {
    /// When the card at `position` was last marked as learned.
    pub open spec fn last_learned_at(self, position: int) -> Option<SystemTime> {
        self.all_cards@[position].1.last_learned_at
    }

    /// Creates a session from the cards that are due for review.
    pub fn new_from_due_cards(deck_name: String, cards: Vec<(i64, Flashcard, ReviewData)>) -> (session:
        Self)
        ensures
            session@ == SessionView::new_from_due_cards(deck_name@, cards@),
            session@.wf(),
            cards@.len() == 0 ==> session@.is_completed(),
            forall|position: int|
                0 <= position < cards@.len() ==> session.last_learned_at(position) is None,
    {
        let ghost due = cards@;
        let mut all_cards: Vec<(i64, LearningCard, ReviewData)> = Vec::new();
        let mut round: Vec<usize> = Vec::new();
        for entry in it: cards
            invariant
                it.seq() == due,
                all_cards@.len() == it.index(),
                round@.len() == it.index(),
                forall|j: int|
                    0 <= j < it.index() ==> all_cards@[j] == (
                        due[j].0,
                        (LearningCard { flashcard: due[j].1, is_learned: false, last_learned_at: None }),
                        due[j].2,
                    ),
                forall|j: int| 0 <= j < it.index() ==> round@[j] == j,
        {
            let (id, flashcard, review) = entry;
            round.push(all_cards.len());
            all_cards.push((id, LearningCard::new(flashcard), review));
        }
        let session = LearningSession {
            deck_name,
            all_cards,
            current_round_cards: round,
            current_index: 0,
            show_definition: false,
            round_number: 1,
        };
        proof {
            let model = SessionView::new_from_due_cards(deck_name@, due);
            assert(session@.all_cards =~= model.all_cards);
            assert(session@.current_round_cards =~= model.current_round_cards);
        }
        session
    }

    /// The card under the cursor, if there is one.
    pub fn current_card(&self) -> (current: Option<&LearningCard>)
        ensures
            match current {
                Some(card) => self@.current_position() matches Some(position) && *card
                    == self.all_cards@[position as int].1,
                None => self@.current_position() is None,
            },
    {
        if self.current_index < self.current_round_cards.len() {
            let position = self.current_round_cards[self.current_index];
            if position < self.all_cards.len() {
                return Some(&self.all_cards[position].1);
            }
        }
        None
    }

    /// Shows the definition if it is hidden, hides it if it is shown.
    pub fn toggle_definition(&mut self)
        ensures
            final(self)@ == old(self)@.toggle_definition(),
            final(self).all_cards@ == old(self).all_cards@,
            old(self)@.wf() ==> final(self)@.wf(),
    {
        self.show_definition = !self.show_definition;
    }

    /// Moves to the next card of the round. At the end of a round, the cards
    /// that were not passed become the next round; if there are none, nothing
    /// changes and the session is completed.
    pub fn next_card(&mut self)
        requires
            old(self)@.opens_new_round() ==> old(self).round_number < usize::MAX,
        ensures
            final(self)@ == old(self)@.next_card(),
            final(self).all_cards@ == old(self).all_cards@,
            old(self)@.wf() ==> final(self)@.wf(),
    {
        let total = self.current_round_cards.len();
        if total > 0 && self.current_index < total - 1 {
            self.current_index += 1;
            self.show_definition = false;
        } else {
            self.start_next_round();
        }
    }

    /// Starts a new round with the cards of the present round that are not
    /// learned. Without such cards nothing changes.
    fn start_next_round(&mut self)
        requires
            old(self)@.failed_cards().len() > 0 ==> old(self).round_number < usize::MAX,
        ensures
            final(self)@ == old(self)@.start_next_round(),
            final(self).all_cards@ == old(self).all_cards@,
            old(self)@.wf() ==> final(self)@.wf(),
    {
        let ghost model = self@;
        let ghost round = self.current_round_cards@;
        let ghost cards = self.all_cards@;
        let mut failed: Vec<usize> = Vec::new();
        let mut k: usize = 0;
        while k < self.current_round_cards.len()
            invariant
                self@ == model,
                self.current_round_cards@ == round,
                self.all_cards@ == cards,
                k <= round.len(),
                failed@ == round.take(k as int).filter(model.failed()),
            decreases round.len() - k,
        {
            let position = self.current_round_cards[k];
            proof {
                assert(round.take(k + 1) =~= round.take(k as int).push(round[k as int]));
                round.take(k as int).lemma_filter_push(round[k as int], model.failed());
            }
            if position < self.all_cards.len() && !self.all_cards[position].1.is_learned {
                failed.push(position);
            }
            k += 1;
        }
        proof {
            assert(round.take(round.len() as int) =~= round);
            assert forall|j: int| 0 <= j < failed@.len() implies model.card_has_failed(
                #[trigger] failed@[j],
            ) && !cards[failed@[j] as int].1.is_learned by {
                round.lemma_filter_pred(model.failed(), j);
            }
            if model.wf() {
                lemma_filter_keeps_rising(round, model.failed());
            }
        }
        if failed.len() > 0 {
            self.current_round_cards = failed;
            self.current_index = 0;
            self.show_definition = false;
            self.round_number += 1;
            // The members of the new round are unlearned already; the flag is
            // cleared all the same.
            let ghost next = self@;
            let mut j: usize = 0;
            while j < self.current_round_cards.len()
                invariant
                    self@ == next,
                    self.all_cards@ == cards,
                    self.current_round_cards@ == model.failed_cards(),
                    forall|i: int|
                        0 <= i < self.current_round_cards@.len() ==> !cards[(
                            #[trigger] self.current_round_cards@[i]) as int].1.is_learned,
                decreases self.current_round_cards@.len() - j,
            {
                let position = self.current_round_cards[j];
                if position < self.all_cards.len() {
                    self.all_cards[position].1.is_learned = false;
                    assert(self.all_cards@ =~= cards);
                    assert(self@.all_cards =~= next.all_cards);
                }
                j += 1;
            }
        }
    }

    /// The review state that grading the card under the cursor would give
    /// it: what has to be stored before the grade is committed with
    /// `grade_current_card`. `None` without a card under the cursor.
    pub fn scheduled_review(&self, quality: u8, current_date: u64) -> (review: Option<ReviewData>)
        requires
            self@.can_grade(quality, current_date),
        ensures
            review == self@.scheduled_review(quality, current_date),
    {
        if self.current_index < self.current_round_cards.len() {
            let position = self.current_round_cards[self.current_index];
            if position < self.all_cards.len() {
                return Some(
                    calculate_next_review(&self.all_cards[position].2, quality, current_date),
                );
            }
        }
        None
    }

    /// Tests whether the card under the cursor can be graded: whether the
    /// review state that the grade gives it fits its integer types.
    pub fn can_grade(&self, quality: u8, current_date: u64) -> (fits: bool)
        ensures
            fits == self@.can_grade(quality, current_date),
    {
        if self.current_index < self.current_round_cards.len() {
            let position = self.current_round_cards[self.current_index];
            if position < self.all_cards.len() {
                return can_schedule(&self.all_cards[position].2, quality, current_date);
            }
        }
        true
    }

    /// Grades the card under the cursor, once the caller has tried to store
    /// `scheduled_review(quality, current_date)`; `stored` is how that went.
    ///
    /// After a successful write the card is learned exactly if the grade is
    /// 3 or more, and its review state is the stored one, which is returned.
    /// After a failed write the session is left as it was and the failure is
    /// handed back. Grading does not move the cursor.
    pub fn grade_current_card<E>(
        &mut self,
        quality: u8,
        current_date: u64,
        stored: Result<(), E>,
    ) -> (graded: Result<Option<ReviewData>, E>)
        requires
            stored is Ok ==> old(self)@.can_grade(quality, current_date),
        ensures
            match stored {
                Ok(_) => {
                    &&& graded == Ok::<Option<ReviewData>, E>(
                        old(self)@.scheduled_review(quality, current_date),
                    )
                    &&& final(self)@ == old(self)@.grade_current_card(quality, current_date)
                    &&& final(self).all_cards@.len() == old(self).all_cards@.len()
                    &&& forall|position: int|
                        0 <= position < old(self).all_cards@.len() && old(self)@.current_position()
                            != Some(position as usize) ==> final(self).all_cards@[position] == old(
                            self,
                        ).all_cards@[position]
                    &&& old(self)@.current_position() matches Some(position) ==> {
                        if quality >= 3 {
                            final(self).last_learned_at(position as int) is Some
                        } else {
                            final(self).last_learned_at(position as int) == old(
                                self,
                            ).last_learned_at(position as int)
                        }
                    }
                },
                Err(failure) => graded == Err::<Option<ReviewData>, E>(failure) && *final(self)
                    == *old(self),
            },
            old(self)@.wf() ==> final(self)@.wf(),
    {
        match stored {
            Err(failure) => Err(failure),
            Ok(_) => {
                let ghost model = self@;
                if self.current_index < self.current_round_cards.len() {
                    let position = self.current_round_cards[self.current_index];
                    if position < self.all_cards.len() {
                        if quality >= 3 {
                            self.all_cards[position].1.mark_as_learned();
                        } else {
                            self.all_cards[position].1.is_learned = false;
                        }
                        let review = calculate_next_review(
                            &self.all_cards[position].2,
                            quality,
                            current_date,
                        );
                        self.all_cards[position].2 = review;
                        assert(self@.all_cards =~= model.grade_current_card(
                            quality,
                            current_date,
                        ).all_cards);
                        return Ok(Some(review));
                    }
                }
                Ok(None)
            },
        }
    }

    /// The number of learned cards in the present round.
    pub fn learned_count(&self) -> (count: usize)
        ensures
            count == self@.learned_count(),
            count <= self@.total_count(),
    {
        let ghost model = self@;
        let ghost round = self.current_round_cards@;
        let mut count: usize = 0;
        let mut k: usize = 0;
        while k < self.current_round_cards.len()
            invariant
                k <= round.len(),
                round == self.current_round_cards@,
                model == self@,
                count == round.take(k as int).filter(model.learned()).len(),
                count <= k,
            decreases round.len() - k,
        {
            let position = self.current_round_cards[k];
            proof {
                assert(round.take(k + 1) =~= round.take(k as int).push(round[k as int]));
                round.take(k as int).lemma_filter_push(round[k as int], model.learned());
            }
            if position < self.all_cards.len() && self.all_cards[position].1.is_learned {
                count += 1;
            }
            k += 1;
        }
        proof {
            assert(round.take(round.len() as int) =~= round);
        }
        count
    }

    /// The number of cards in the present round.
    pub fn total_count(&self) -> (count: usize)
        ensures
            count == self@.total_count(),
    {
        self.current_round_cards.len()
    }

    /// The number of cards in the present round that are not learned yet.
    pub fn remaining_count(&self) -> (count: usize)
        ensures
            count == self@.remaining_count(),
    {
        self.total_count() - self.learned_count()
    }

    /// Whether the present round is empty or all of its cards are learned.
    pub fn is_completed(&self) -> (completed: bool)
        ensures
            completed == self@.is_completed(),
    {
        self.current_round_cards.is_empty() || self.learned_count() == self.total_count()
    }

    /// The line that tells the learner where the sitting stands.
    pub fn phase_message(&self) -> (message: String)
        ensures
            message@ == self@.phase_message(),
    {
        let cards = to_decimal(self.total_count() as u64);
        if self.round_number == 1 {
            let mut message = String::from_str("first round, ");
            message.append(cards.as_str());
            message.append(" cards");
            message
        } else {
            let round = to_decimal(self.round_number as u64);
            let mut message = String::from_str("review round ");
            message.append(round.as_str());
            message.append(", ");
            message.append(cards.as_str());
            message.append(" cards to retry");
            message
        }
    }
}

} // verus!
