//! The dispatcher: routes every occurrence to every declared relation and
//! collects the violations.

use crate::alternation::{Alternates, Relation, Side};
use crate::text::same_text;
use vstd::prelude::*;

verus! {

/// One firing of an instrumented event.
#[derive(Clone, Debug, PartialEq, Eq)]
pub struct Occurrence {
    /// The logical name of the event. Relations are declared over these.
    pub name: String,
    /// The function that fired the event.
    pub function: String,
    /// The file in which that function is defined.
    pub file: String,
    /// The line at which that function is defined.
    pub line: u32,
    /// The call site, as a printable token whose content is not looked at.
    pub callsite: String,
}

/// An occurrence that broke a relation.
#[derive(Clone, Debug, PartialEq, Eq)]
pub struct Violation {
    /// The function that fired the offending event.
    pub function: String,
    /// The file in which that function is defined.
    pub file: String,
    /// The line at which that function is defined.
    pub line: u32,
    /// The call site of the offending occurrence.
    pub callsite: String,
    /// The position of the broken relation in the monitor's relation set.
    pub relation: usize,
    /// The side as which the occurrence was illegal.
    pub side: Side,
}

impl Violation {
    /// This violation blames `occurrence` for breaking the relation at
    /// position `relation` on `side`.
    pub open spec fn blames(&self, occurrence: &Occurrence, relation: int, side: Side) -> bool {
        &&& self.function@ == occurrence.function@
        &&& self.file@ == occurrence.file@
        &&& self.line == occurrence.line
        &&& self.callsite@ == occurrence.callsite@
        &&& self.relation == relation
        &&& self.side == side
    }
}

/// `violations` blame `occurrence` for exactly `breaches`, one violation for
/// each breach and in the same order.
pub open spec fn blame_each(
    violations: Seq<Violation>,
    occurrence: &Occurrence,
    breaches: Seq<(int, Side)>,
) -> bool {
    &&& violations.len() == breaches.len()
    &&& forall|k: int|
        0 <= k < violations.len() ==> (#[trigger] violations[k]).blames(
            occurrence,
            breaches[k].0,
            breaches[k].1,
        )
}

/// Every relation of `relations` after an occurrence called `name`.
pub open spec fn delivered_to_all(relations: Seq<Relation>, name: Seq<char>) -> Seq<Relation> {
    relations.map_values(|r: Relation| r.delivered(name))
}

/// The breaches that an occurrence called `name` causes in `relations`, each
/// as the position of the relation and the side. Relations come in their
/// order, and within one relation the left side comes before the right.
pub open spec fn breaches_in_all(relations: Seq<Relation>, name: Seq<char>) -> Seq<(int, Side)>
    decreases relations.len(),
{
    if relations.len() == 0 {
        Seq::<(int, Side)>::empty()
    } else {
        breaches_in_all(relations.drop_last(), name) + relations.last().breaches(name).map_values(
            |side: Side| (relations.len() - 1, side),
        )
    }
}

/// The monitor: the set of declared relations, in the order in which they
/// were declared.
#[derive(Debug)]
pub struct TracingFormal {
    pub relations: Vec<Alternates>,
}

impl View for TracingFormal {
    type V = Seq<Relation>;

    open spec fn view(&self) -> Seq<Relation> {
        self.relations@.map_values(|r: Alternates| r@)
    }
}

impl TracingFormal {
    /// A monitor over `relations`.
    pub fn new(relations: Vec<Alternates>) -> (monitor: TracingFormal)
        ensures
            monitor.relations == relations,
    {
        TracingFormal { relations }
    }

    /// Delivers one occurrence to every relation, in order. A relation whose
    /// left name is the occurrence's name evaluates it as left; one whose
    /// right name is the occurrence's name evaluates it as right, after the
    /// left evaluation if both names match. A relation with neither name is
    /// left untouched. Returns the violations, in the order of evaluation.
    pub fn on_occurrence(&mut self, occurrence: &Occurrence) -> (violations: Vec<Violation>)
        ensures
            final(self)@ == delivered_to_all(old(self)@, occurrence.name@),
            blame_each(violations@, occurrence, breaches_in_all(old(self)@, occurrence.name@)),
    {
        let mut violations: Vec<Violation> = Vec::new();
        let ghost name = occurrence.name@;
        let ghost before = self@;
        let n = self.relations.len();
        let mut i: usize = 0;
        while i < n
            invariant
                i <= n,
                n == self.relations@.len(),
                before == old(self)@,
                before.len() == n,
                name == occurrence.name@,
                forall|j: int|
                    0 <= j < i ==> (#[trigger] self.relations@[j])@ == before[j].delivered(name),
                forall|j: int| i <= j < n ==> (#[trigger] self.relations@[j])@ == before[j],
                blame_each(violations@, occurrence, breaches_in_all(before.take(i as int), name)),
            decreases n - i,
        {
            let ghost relation = before[i as int];
            let ghost earlier = breaches_in_all(before.take(i as int), name);
            proof {
                assert(before.take(i + 1).drop_last() =~= before.take(i as int));
                assert(before.take(i + 1).last() == relation);
            }
            if same_text(self.relations[i].left_name(), occurrence.name.as_str()) {
                let legal = self.relations[i].evaluate(true, false);
                if !legal {
                    violations.push(blame(occurrence, i, Side::Left));
                }
            }
            if same_text(self.relations[i].right_name(), occurrence.name.as_str()) {
                let legal = self.relations[i].evaluate(false, true);
                if !legal {
                    violations.push(blame(occurrence, i, Side::Right));
                }
            }
            proof {
                let tagged = relation.breaches(name).map_values(|side: Side| (i as int, side));
                assert(breaches_in_all(before.take(i + 1), name) == earlier + tagged);
                assert(violations@.len() == earlier.len() + tagged.len());
            }
            i += 1;
        }
        proof {
            assert(before.take(n as int) =~= before);
            assert(self@ =~= delivered_to_all(before, name));
        }
        violations
    }
}

/// The violation that blames `occurrence` for a breach.
fn blame(occurrence: &Occurrence, relation: usize, side: Side) -> (violation: Violation)
    ensures
        violation.blames(occurrence, relation as int, side),
{
    Violation {
        function: occurrence.function.clone(),
        file: occurrence.file.clone(),
        line: occurrence.line,
        callsite: occurrence.callsite.clone(),
        relation,
        side,
    }
}

/// Every breach that a relation set reports for an occurrence is a breach
/// of the relation that it names: the position is one of the set, the
/// occurrence plays a part in the relation there, and it breaks that
/// relation on the side reported. A relation is never blamed for what
/// another one found.
pub proof fn lemma_reported_breaches_are_genuine(
    relations: Seq<Relation>,
    name: Seq<char>,
    k: int,
)
    requires
        0 <= k < breaches_in_all(relations, name).len(),
    ensures
        0 <= breaches_in_all(relations, name)[k].0 < relations.len(),
        relations[breaches_in_all(relations, name)[k].0].concerns(name),
        relations[breaches_in_all(relations, name)[k].0].breaches(name).contains(
            breaches_in_all(relations, name)[k].1,
        ),
    decreases relations.len(),
{
    let earlier = breaches_in_all(relations.drop_last(), name);
    if k < earlier.len() {
        lemma_reported_breaches_are_genuine(relations.drop_last(), name, k);
    } else {
        let found = relations.last().breaches(name);
        assert(breaches_in_all(relations, name)[k] == (relations.len() - 1, found[k - earlier.len()]));
        assert(found.len() > 0);
    }
}

/// An occurrence whose name no relation of the set bears changes no
/// relation and is not reported.
pub proof fn lemma_unrelated_occurrence_is_ignored_by_all(relations: Seq<Relation>, name: Seq<char>)
    requires
        forall|i: int| 0 <= i < relations.len() ==> !(#[trigger] relations[i]).concerns(name),
    ensures
        delivered_to_all(relations, name) == relations,
        breaches_in_all(relations, name) == Seq::<(int, Side)>::empty(),
    decreases relations.len(),
{
    assert(delivered_to_all(relations, name) =~= relations);
    if relations.len() > 0 {
        let shorter = relations.drop_last();
        assert forall|i: int| 0 <= i < shorter.len() implies !(#[trigger] shorter[i]).concerns(
            name,
        ) by {
            assert(shorter[i] == relations[i]);
        }
        lemma_unrelated_occurrence_is_ignored_by_all(shorter, name);
        assert(!relations[relations.len() - 1].concerns(name));
        assert(relations.last().breaches(name) =~= Seq::<Side>::empty());
        assert(breaches_in_all(relations, name) =~= Seq::<(int, Side)>::empty());
    }
}

} // verus!
