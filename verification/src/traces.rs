//! Traces: what relations make of whole sequences of occurrences.
//!
//! A trace is the sequence of event names in the order in which the
//! occurrences were delivered. The theorems here are stated over the same
//! functions as the contracts of the monitor and of the relation engine.

use crate::alternation::{lemma_unrelated_occurrence_is_ignored, Expectation, Relation, Side};
use crate::monitor::{breaches_in_all, delivered_to_all};
use vstd::prelude::*;

verus! {

impl Relation {
    /// The relation after the occurrences of `names` were delivered one by
    /// one.
    pub open spec fn after_trace(self, names: Seq<Seq<char>>) -> Relation
        decreases names.len(),
    {
        if names.len() == 0 {
            self
        } else {
            self.after_trace(names.drop_last()).delivered(names.last())
        }
    }

    /// The number of violations that delivering `names` one by one causes.
    pub open spec fn violations_in_trace(self, names: Seq<Seq<char>>) -> nat
        decreases names.len(),
    {
        if names.len() == 0 {
            0
        } else {
            self.violations_in_trace(names.drop_last()) + self.after_trace(
                names.drop_last(),
            ).breaches(names.last()).len()
        }
    }
}

/// A relation set after the occurrences of `names` were delivered one by one.
pub open spec fn all_after_trace(relations: Seq<Relation>, names: Seq<Seq<char>>) -> Seq<Relation>
    decreases names.len(),
{
    if names.len() == 0 {
        relations
    } else {
        delivered_to_all(all_after_trace(relations, names.drop_last()), names.last())
    }
}

/// The number of violations that a relation set reports while `names` are
/// delivered one by one.
pub open spec fn violations_in_all(relations: Seq<Relation>, names: Seq<Seq<char>>) -> nat
    decreases names.len(),
{
    if names.len() == 0 {
        0
    } else {
        violations_in_all(relations, names.drop_last()) + breaches_in_all(
            all_after_trace(relations, names.drop_last()),
            names.last(),
        ).len()
    }
}

/// The violations that each relation of a set finds on its own in `names`,
/// added up.
pub open spec fn violations_one_by_one(relations: Seq<Relation>, names: Seq<Seq<char>>) -> nat
    decreases relations.len(),
{
    if relations.len() == 0 {
        0
    } else {
        violations_one_by_one(relations.drop_last(), names) + relations.last().violations_in_trace(
            names,
        )
    }
}

/// Every name of the trace is `a` or `b`, and no name comes twice in a row.
pub open spec fn takes_turns(names: Seq<Seq<char>>, a: Seq<char>, b: Seq<char>) -> bool {
    &&& forall|i: int| 0 <= i < names.len() ==> #[trigger] names[i] == a || names[i] == b
    &&& forall|i: int, j: int|
        0 <= i && j == i + 1 && j < names.len() ==> #[trigger] names[i] != #[trigger] names[j]
}

/// The number of places in a trace at which a name repeats the name right
/// before it.
pub open spec fn repetitions(names: Seq<Seq<char>>) -> nat
    decreases names.len(),
{
    if names.len() <= 1 {
        0
    } else if names[names.len() - 2] == names.last() {
        repetitions(names.drop_last()) + 1
    } else {
        repetitions(names.drop_last())
    }
}

/// The part of a trace that concerns `relation`, in order.
pub open spec fn own_part(relation: Relation, names: Seq<Seq<char>>) -> Seq<Seq<char>> {
    names.filter(|name: Seq<char>| relation.concerns(name))
}

/// Delivering occurrences never changes the names of a relation.
pub proof fn lemma_names_are_fixed(relation: Relation, names: Seq<Seq<char>>)
    ensures
        relation.after_trace(names).left == relation.left,
        relation.after_trace(names).right == relation.right,
    decreases names.len(),
{
    if names.len() > 0 {
        lemma_names_are_fixed(relation, names.drop_last());
    }
}

/// One step of a trace, spelled out.
proof fn lemma_trace_step(relation: Relation, names: Seq<Seq<char>>, name: Seq<char>)
    ensures
        relation.after_trace(names.push(name)) == relation.after_trace(names).delivered(name),
        relation.violations_in_trace(names.push(name)) == relation.violations_in_trace(names)
            + relation.after_trace(names).breaches(name).len(),
{
    assert(names.push(name).drop_last() =~= names);
    assert(names.push(name).last() == name);
}

/// The trace left, right, left, right breaks no relation, whatever its two
/// names are.
pub proof fn lemma_two_rounds_are_clean(a: Seq<char>, b: Seq<char>)
    ensures
        Relation::fresh(a, b).violations_in_trace(seq![a, b, a, b]) == 0,
{
    let r = Relation::fresh(a, b);
    let none = Seq::<Seq<char>>::empty();
    lemma_trace_step(r, none, a);
    lemma_trace_step(r, none.push(a), b);
    lemma_trace_step(r, none.push(a).push(b), a);
    lemma_trace_step(r, none.push(a).push(b).push(a), b);
    assert(seq![a, b, a, b] =~= none.push(a).push(b).push(a).push(b));
    let r1 = r.after_trace(none.push(a));
    let r2 = r.after_trace(none.push(a).push(b));
    let r3 = r.after_trace(none.push(a).push(b).push(a));
    assert(r.breaches(a) =~= Seq::<Side>::empty());
    assert(r1.breaches(b) =~= Seq::<Side>::empty());
    assert(r2.breaches(a) =~= Seq::<Side>::empty());
    assert(r3.breaches(b) =~= Seq::<Side>::empty());
}

/// When the left event comes twice in a row, the second occurrence is the
/// one violation, and the relation goes on waiting for the right event: a
/// right event that follows is legal.
pub proof fn lemma_repeated_left_is_one_violation(a: Seq<char>, b: Seq<char>)
    requires
        a != b,
    ensures
        Relation::fresh(a, b).breaches(a) == Seq::<Side>::empty(),
        Relation::fresh(a, b).after_trace(seq![a]).breaches(a) == seq![Side::Left],
        Relation::fresh(a, b).violations_in_trace(seq![a, a]) == 1,
        Relation::fresh(a, b).after_trace(seq![a, a]).state == Expectation::ExpectRight,
        Relation::fresh(a, b).violations_in_trace(seq![a, a, b]) == 1,
{
    let r = Relation::fresh(a, b);
    let none = Seq::<Seq<char>>::empty();
    lemma_trace_step(r, none, a);
    lemma_trace_step(r, none.push(a), a);
    lemma_trace_step(r, none.push(a).push(a), b);
    assert(seq![a] =~= none.push(a));
    assert(seq![a, a] =~= none.push(a).push(a));
    assert(seq![a, a, b] =~= none.push(a).push(a).push(b));
    let r1 = r.after_trace(none.push(a));
    let r2 = r.after_trace(none.push(a).push(a));
    assert(r.breaches(a) =~= Seq::<Side>::empty());
    assert(r1.breaches(a) =~= seq![Side::Left]);
    assert(r2.breaches(b) =~= Seq::<Side>::empty());
}

/// The right event may lead: right, left breaks nothing. When the right
/// event comes twice in a row, the second occurrence is the one violation.
pub proof fn lemma_right_may_lead(a: Seq<char>, b: Seq<char>)
    requires
        a != b,
    ensures
        Relation::fresh(a, b).violations_in_trace(seq![b, a]) == 0,
        Relation::fresh(a, b).breaches(b) == Seq::<Side>::empty(),
        Relation::fresh(a, b).after_trace(seq![b]).breaches(b) == seq![Side::Right],
        Relation::fresh(a, b).violations_in_trace(seq![b, b]) == 1,
{
    let r = Relation::fresh(a, b);
    let none = Seq::<Seq<char>>::empty();
    lemma_trace_step(r, none, b);
    lemma_trace_step(r, none.push(b), a);
    lemma_trace_step(r, none.push(b), b);
    assert(seq![b] =~= none.push(b));
    assert(seq![b, a] =~= none.push(b).push(a));
    assert(seq![b, b] =~= none.push(b).push(b));
    let r1 = r.after_trace(none.push(b));
    assert(r.breaches(b) =~= Seq::<Side>::empty());
    assert(r1.breaches(a) =~= Seq::<Side>::empty());
    assert(r1.breaches(b) =~= seq![Side::Right]);
}

/// On a trace of its two names, which are different, a fresh relation
/// flags exactly the repetitions: the first occurrence is legal, and every
/// later one is a violation if and only if it bears the same name as the
/// occurrence right before it. The relation always waits for the name that
/// did not come last.
pub proof fn lemma_repetitions_are_flagged(a: Seq<char>, b: Seq<char>, names: Seq<Seq<char>>)
    requires
        a != b,
        forall|i: int| 0 <= i < names.len() ==> #[trigger] names[i] == a || names[i] == b,
    ensures
        Relation::fresh(a, b).violations_in_trace(names) == repetitions(names),
        names.len() == 0 ==> Relation::fresh(a, b).after_trace(names).state
            == Expectation::ExpectEither,
        names.len() > 0 && names.last() == a ==> Relation::fresh(a, b).after_trace(names).state
            == Expectation::ExpectRight,
        names.len() > 0 && names.last() == b ==> Relation::fresh(a, b).after_trace(names).state
            == Expectation::ExpectLeft,
        names.len() == 1 ==> Relation::fresh(a, b).breaches(names[0]).len() == 0,
        names.len() > 1 ==> Relation::fresh(a, b).after_trace(names.drop_last()).breaches(
            names.last(),
        ).len() == if names[names.len() - 2] == names.last() {
            1nat
        } else {
            0nat
        },
    decreases names.len(),
{
    if names.len() > 0 {
        let earlier = names.drop_last();
        assert forall|i: int| 0 <= i < earlier.len() implies #[trigger] earlier[i] == a
            || earlier[i] == b by {
            assert(earlier[i] == names[i]);
        }
        lemma_repetitions_are_flagged(a, b, earlier);
        lemma_names_are_fixed(Relation::fresh(a, b), earlier);
        assert(names.last() == names[names.len() - 1]);
        if earlier.len() > 0 {
            assert(earlier.last() == names[names.len() - 2]);
        }
    }
}

/// A trace in which names take turns has no repetition.
proof fn lemma_turns_do_not_repeat(names: Seq<Seq<char>>, a: Seq<char>, b: Seq<char>)
    requires
        takes_turns(names, a, b),
    ensures
        repetitions(names) == 0,
    decreases names.len(),
{
    if names.len() > 1 {
        let earlier = names.drop_last();
        assert forall|i: int| 0 <= i < earlier.len() implies #[trigger] earlier[i] == a
            || earlier[i] == b by {
            assert(earlier[i] == names[i]);
        }
        assert forall|i: int, j: int|
            0 <= i && j == i + 1 && j < earlier.len() implies #[trigger] earlier[i]
            != #[trigger] earlier[j] by {
            assert(earlier[i] == names[i]);
            assert(earlier[j] == names[j]);
        }
        lemma_turns_do_not_repeat(earlier, a, b);
        assert(names[names.len() - 2] != names[names.len() - 1]);
    }
}

/// A trace in which two different names take turns never breaks the
/// relation declared over them, whichever of the two leads. Afterwards the
/// relation waits for the name that did not come last.
pub proof fn lemma_taking_turns_is_clean(a: Seq<char>, b: Seq<char>, names: Seq<Seq<char>>)
    requires
        a != b,
        takes_turns(names, a, b),
    ensures
        Relation::fresh(a, b).violations_in_trace(names) == 0,
        names.len() == 0 ==> Relation::fresh(a, b).after_trace(names).state
            == Expectation::ExpectEither,
        names.len() > 0 && names.last() == a ==> Relation::fresh(a, b).after_trace(names).state
            == Expectation::ExpectRight,
        names.len() > 0 && names.last() == b ==> Relation::fresh(a, b).after_trace(names).state
            == Expectation::ExpectLeft,
{
    lemma_repetitions_are_flagged(a, b, names);
    lemma_turns_do_not_repeat(names, a, b);
}

/// Only the part of a trace that concerns a relation matters to it: the
/// relation ends in the same state and counts the same violations as if the
/// other occurrences had never been delivered.
pub proof fn lemma_own_part_decides(relation: Relation, names: Seq<Seq<char>>)
    ensures
        relation.after_trace(names) == relation.after_trace(own_part(relation, names)),
        relation.violations_in_trace(names) == relation.violations_in_trace(
            own_part(relation, names),
        ),
    decreases names.len(),
{
    reveal(Seq::filter);
    if names.len() > 0 {
        let earlier = names.drop_last();
        let name = names.last();
        lemma_own_part_decides(relation, earlier);
        lemma_names_are_fixed(relation, earlier);
        let reached = relation.after_trace(earlier);
        if relation.concerns(name) {
            assert(own_part(relation, names) == own_part(relation, earlier).push(name));
            lemma_trace_step(relation, own_part(relation, earlier), name);
        } else {
            assert(own_part(relation, names) == own_part(relation, earlier));
            lemma_unrelated_occurrence_is_ignored(reached, name);
        }
    }
}

/// On any trace, a fresh relation with two different names counts as
/// violations exactly the repetitions in the part of the trace that
/// concerns it.
pub proof fn lemma_violations_are_the_repetitions(
    a: Seq<char>,
    b: Seq<char>,
    names: Seq<Seq<char>>,
)
    requires
        a != b,
    ensures
        Relation::fresh(a, b).violations_in_trace(names) == repetitions(
            own_part(Relation::fresh(a, b), names),
        ),
{
    let relation = Relation::fresh(a, b);
    let own = own_part(relation, names);
    lemma_own_part_decides(relation, names);
    assert forall|i: int| 0 <= i < own.len() implies #[trigger] own[i] == a || own[i] == b by {
        names.lemma_filter_pred(|name: Seq<char>| relation.concerns(name), i);
    }
    lemma_repetitions_are_flagged(a, b, own);
}

/// The relations of a set do not interfere: each ends in the state that
/// the trace leads it to on its own.
pub proof fn lemma_relations_do_not_interfere(relations: Seq<Relation>, names: Seq<Seq<char>>)
    ensures
        all_after_trace(relations, names).len() == relations.len(),
        forall|i: int|
            0 <= i < relations.len() ==> #[trigger] all_after_trace(relations, names)[i]
                == relations[i].after_trace(names),
    decreases names.len(),
{
    if names.len() > 0 {
        lemma_relations_do_not_interfere(relations, names.drop_last());
    }
}

/// A relation set that is one relation longer is, after any trace, one
/// relation longer.
proof fn lemma_all_after_trace_drop_last(relations: Seq<Relation>, names: Seq<Seq<char>>)
    requires
        relations.len() > 0,
    ensures
        all_after_trace(relations, names).len() > 0,
        all_after_trace(relations, names).drop_last() == all_after_trace(
            relations.drop_last(),
            names,
        ),
        all_after_trace(relations, names).last() == relations.last().after_trace(names),
{
    lemma_relations_do_not_interfere(relations, names);
    lemma_relations_do_not_interfere(relations.drop_last(), names);
    assert(all_after_trace(relations, names).drop_last() =~= all_after_trace(
        relations.drop_last(),
        names,
    ));
}

/// One more occurrence adds to the separate counts what the set reports for
/// it.
proof fn lemma_one_by_one_step(relations: Seq<Relation>, names: Seq<Seq<char>>, name: Seq<char>)
    ensures
        violations_one_by_one(relations, names.push(name)) == violations_one_by_one(
            relations,
            names,
        ) + breaches_in_all(all_after_trace(relations, names), name).len(),
    decreases relations.len(),
{
    lemma_relations_do_not_interfere(relations, names);
    if relations.len() > 0 {
        lemma_one_by_one_step(relations.drop_last(), names, name);
        lemma_trace_step(relations.last(), names, name);
        lemma_all_after_trace_drop_last(relations, names);
    }
}

/// No trace, no violation.
proof fn lemma_one_by_one_of_nothing(relations: Seq<Relation>)
    ensures
        violations_one_by_one(relations, Seq::<Seq<char>>::empty()) == 0,
    decreases relations.len(),
{
    if relations.len() > 0 {
        lemma_one_by_one_of_nothing(relations.drop_last());
    }
}

/// A relation set reports exactly the violations that its relations find
/// each on its own: none is lost and none is added by their standing in one
/// set.
pub proof fn lemma_set_reports_what_each_finds(relations: Seq<Relation>, names: Seq<Seq<char>>)
    ensures
        violations_in_all(relations, names) == violations_one_by_one(relations, names),
    decreases names.len(),
{
    if names.len() == 0 {
        assert(names =~= Seq::<Seq<char>>::empty());
        lemma_one_by_one_of_nothing(relations);
    } else {
        lemma_set_reports_what_each_finds(relations, names.drop_last());
        lemma_one_by_one_step(relations, names.drop_last(), names.last());
        assert(names.drop_last().push(names.last()) =~= names);
    }
}

/// The relations of the set are fresh, each has two different names, and
/// the part of the trace that concerns each of them takes turns.
pub open spec fn each_takes_turns(relations: Seq<Relation>, names: Seq<Seq<char>>) -> bool {
    forall|i: int|
        0 <= i < relations.len() ==> {
            &&& (#[trigger] relations[i]).state == Expectation::ExpectEither
            &&& relations[i].left != relations[i].right
            &&& takes_turns(own_part(relations[i], names), relations[i].left, relations[i].right)
        }
}

/// The separate counts of relations whose own parts take turns are zero.
proof fn lemma_one_by_one_is_clean(relations: Seq<Relation>, names: Seq<Seq<char>>)
    requires
        each_takes_turns(relations, names),
    ensures
        violations_one_by_one(relations, names) == 0,
    decreases relations.len(),
{
    if relations.len() > 0 {
        let shorter = relations.drop_last();
        assert(each_takes_turns(shorter, names)) by {
            assert forall|i: int| 0 <= i < shorter.len() implies {
                &&& (#[trigger] shorter[i]).state == Expectation::ExpectEither
                &&& shorter[i].left != shorter[i].right
                &&& takes_turns(own_part(shorter[i], names), shorter[i].left, shorter[i].right)
            } by {
                assert(shorter[i] == relations[i]);
            }
        }
        lemma_one_by_one_is_clean(shorter, names);
        let last = relations.last();
        assert(last == relations[relations.len() - 1]);
        assert(last == Relation::fresh(last.left, last.right));
        lemma_own_part_decides(last, names);
        lemma_taking_turns_is_clean(last.left, last.right, own_part(last, names));
    }
}

/// However the occurrences of different relations are interleaved, a set
/// of fresh relations reports nothing as long as the part of the trace that
/// concerns each relation takes turns, and each relation ends in the state
/// that its own part of the trace leads to.
pub proof fn lemma_interleaving_is_clean(relations: Seq<Relation>, names: Seq<Seq<char>>)
    requires
        each_takes_turns(relations, names),
    ensures
        violations_in_all(relations, names) == 0,
        all_after_trace(relations, names).len() == relations.len(),
        forall|i: int|
            0 <= i < relations.len() ==> #[trigger] all_after_trace(relations, names)[i]
                == relations[i].after_trace(own_part(relations[i], names)),
{
    lemma_set_reports_what_each_finds(relations, names);
    lemma_one_by_one_is_clean(relations, names);
    lemma_relations_do_not_interfere(relations, names);
    assert forall|i: int| 0 <= i < relations.len() implies #[trigger] all_after_trace(
        relations,
        names,
    )[i] == relations[i].after_trace(own_part(relations[i], names)) by {
        lemma_own_part_decides(relations[i], names);
    }
}

} // verus!
