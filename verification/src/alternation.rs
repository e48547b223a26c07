//! The relation engine: one alternation between two named events.
//!
//! An alternation keeps a single piece of state, what it expects next, and
//! judges every occurrence against it in constant time. Nothing of the past
//! is stored beyond that expectation.

use vstd::prelude::*;

verus! {

/// The role an occurrence plays in a relation.
#[derive(Clone, Copy, Debug, PartialEq, Eq, Structural)]
pub enum Side {
    Left,
    Right,
}

/// What an alternation is waiting for.
#[derive(Clone, Copy, Debug, PartialEq, Eq, Structural)]
pub enum Expectation {
    /// Nothing was seen yet: either side may lead.
    ExpectEither,
    /// The right side was the last legal one.
    ExpectLeft,
    /// The left side was the last legal one.
    ExpectRight,
}

/// Why a relation could not be declared.
#[derive(Clone, Copy, Debug, PartialEq, Eq, Structural)]
pub enum DeclarationError {
    /// The left participant has no name.
    EmptyLeftName,
    /// The right participant has no name.
    EmptyRightName,
}

/// Whether an occurrence of `side` is legal when the automaton is in `state`.
pub open spec fn is_legal(state: Expectation, side: Side) -> bool {
    match (state, side) {
        (Expectation::ExpectEither, _) => true,
        (Expectation::ExpectLeft, Side::Left) => true,
        (Expectation::ExpectRight, Side::Right) => true,
        _ => false,
    }
}

/// The state after an occurrence of `side`: a legal occurrence makes the
/// automaton wait for the other side, an illegal one leaves it as it was.
pub open spec fn advance(state: Expectation, side: Side) -> Expectation {
    if is_legal(state, side) {
        match side {
            Side::Left => Expectation::ExpectRight,
            Side::Right => Expectation::ExpectLeft,
        }
    } else {
        state
    }
}

/// The side that a pair of flags names. Exactly one flag is meant to be set.
pub open spec fn flagged_side(is_left_side: bool, is_right_side: bool) -> Side
    recommends
        is_left_side != is_right_side,
{
    if is_left_side {
        Side::Left
    } else {
        Side::Right
    }
}

/// An alternation as a mathematical value: its two names and its state.
pub struct Relation {
    pub left: Seq<char>,
    pub right: Seq<char>,
    pub state: Expectation,
}

impl Relation {
    /// A relation that has seen nothing yet.
    pub open spec fn fresh(left: Seq<char>, right: Seq<char>) -> Relation {
        Relation { left, right, state: Expectation::ExpectEither }
    }

    /// Both participants are named.
    pub open spec fn well_declared(self) -> bool {
        self.left.len() > 0 && self.right.len() > 0
    }

    /// The relation after one evaluation of `side`.
    pub open spec fn evaluated(self, side: Side) -> Relation {
        Relation { state: advance(self.state, side), ..self }
    }

    /// An occurrence called `name` plays a part in this relation.
    pub open spec fn concerns(self, name: Seq<char>) -> bool {
        name == self.left || name == self.right
    }

    /// The relation as the left-hand evaluation of an occurrence called
    /// `name` leaves it: evaluated as left if the name is the left one.
    pub open spec fn after_left(self, name: Seq<char>) -> Relation {
        if name == self.left {
            self.evaluated(Side::Left)
        } else {
            self
        }
    }

    /// The relation after an occurrence called `name` was delivered to it:
    /// evaluated as left if the name is the left one, and then as right if
    /// the name is the right one. Where the two names are equal, an
    /// occurrence of that name is therefore evaluated twice.
    pub open spec fn delivered(self, name: Seq<char>) -> Relation {
        if name == self.right {
            self.after_left(name).evaluated(Side::Right)
        } else {
            self.after_left(name)
        }
    }

    /// The sides on which an occurrence called `name` breaks this relation,
    /// in the order in which they are evaluated.
    pub open spec fn breaches(self, name: Seq<char>) -> Seq<Side> {
        let as_left = if name == self.left && !is_legal(self.state, Side::Left) {
            seq![Side::Left]
        } else {
            Seq::<Side>::empty()
        };
        let as_right = if name == self.right && !is_legal(
            self.after_left(name).state,
            Side::Right,
        ) {
            seq![Side::Right]
        } else {
            Seq::<Side>::empty()
        };
        as_left + as_right
    }
}

/// Two named events that must take turns.
///
/// The names are fixed when the relation is declared and are never empty.
/// Only `evaluate` changes the state.
#[derive(Debug)]
pub struct Alternates {
    left: String,
    right: String,
    state: Expectation,
}

impl View for Alternates {
    type V = Relation;

    closed spec fn view(&self) -> Relation {
        Relation { left: self.left@, right: self.right@, state: self.state }
    }
}

impl Alternates {
    #[verifier::type_invariant]
    spec fn named(self) -> bool {
        self.left@.len() > 0 && self.right@.len() > 0
    }

    /// Declares that events `left` and `right` alternate. A participant
    /// without a name is refused, the left one first.
    pub fn new(left: &str, right: &str) -> (declared: Result<Alternates, DeclarationError>)
        ensures
            declared is Ok <==> left@.len() > 0 && right@.len() > 0,
            declared matches Ok(relation) ==> relation@ == Relation::fresh(left@, right@),
            declared matches Err(error) ==> error == if left@.len() == 0 {
                DeclarationError::EmptyLeftName
            } else {
                DeclarationError::EmptyRightName
            },
    {
        if left.is_empty() {
            Err(DeclarationError::EmptyLeftName)
        } else if right.is_empty() {
            Err(DeclarationError::EmptyRightName)
        } else {
            Ok(
                Alternates {
                    left: left.to_owned(),
                    right: right.to_owned(),
                    state: Expectation::ExpectEither,
                },
            )
        }
    }

    /// The name of the left participant. It is never empty.
    pub fn left_name(&self) -> (name: &str)
        ensures
            name@ == self@.left,
            self@.well_declared(),
    {
        proof {
            use_type_invariant(self);
        }
        self.left.as_str()
    }

    /// The name of the right participant. It is never empty.
    pub fn right_name(&self) -> (name: &str)
        ensures
            name@ == self@.right,
            self@.well_declared(),
    {
        proof {
            use_type_invariant(self);
        }
        self.right.as_str()
    }

    /// What the relation waits for.
    pub fn expectation(&self) -> (state: Expectation)
        ensures
            state == self@.state,
    {
        self.state
    }

    /// Judges one occurrence, which plays the side that the flags name, and
    /// returns whether it is legal. A legal occurrence makes the relation
    /// wait for the other side. An illegal one changes nothing, so the same
    /// violation comes back until the missing side appears.
    pub fn evaluate(&mut self, is_left_side: bool, is_right_side: bool) -> (legal: bool)
        requires
            is_left_side != is_right_side,
        ensures
            legal == is_legal(old(self)@.state, flagged_side(is_left_side, is_right_side)),
            final(self)@ == old(self)@.evaluated(flagged_side(is_left_side, is_right_side)),
    {
        proof {
            use_type_invariant(&*self);
        }
        let legal = match self.state {
            Expectation::ExpectEither => true,
            Expectation::ExpectLeft => is_left_side,
            Expectation::ExpectRight => is_right_side,
        };
        if legal {
            self.state = if is_left_side {
                Expectation::ExpectRight
            } else {
                Expectation::ExpectLeft
            };
        }
        legal
    }
}

/// An occurrence whose name is neither the left nor the right name of a
/// relation does not change the relation and breaks nothing in it.
pub proof fn lemma_unrelated_occurrence_is_ignored(relation: Relation, name: Seq<char>)
    requires
        !relation.concerns(name),
    ensures
        relation.delivered(name) == relation,
        relation.breaches(name) == Seq::<Side>::empty(),
{
    assert(relation.breaches(name) =~= Seq::<Side>::empty());
}

/// A relation whose two names are equal evaluates every occurrence of that
/// name twice, as left and then as right. It then always waits for the left
/// side, and the occurrence is a violation, as left, exactly when the
/// relation was waiting for the right side.
pub proof fn lemma_self_paired_is_evaluated_twice(relation: Relation, name: Seq<char>)
    requires
        relation.left == relation.right,
        name == relation.left,
    ensures
        relation.delivered(name) == relation.evaluated(Side::Left).evaluated(Side::Right),
        relation.delivered(name).state == Expectation::ExpectLeft,
        relation.state == Expectation::ExpectRight ==> relation.breaches(name) == seq![Side::Left],
        relation.state != Expectation::ExpectRight ==> relation.breaches(name) == Seq::<
            Side,
        >::empty(),
{
    assert(relation.state == Expectation::ExpectRight ==> relation.breaches(name) =~= seq![
        Side::Left,
    ]);
    assert(relation.state != Expectation::ExpectRight ==> relation.breaches(name) =~= Seq::<
        Side,
    >::empty());
}

} // verus!
