//! The visitor that watches the fields of one instrumentation point.

use crate::monitor::{breaches_in_all, delivered_to_all, Occurrence, TracingFormal};
use crate::report::violation_line;
use crate::text::same_text;
use vstd::prelude::*;

verus! {

/// The name of the field that carries an event's logical name.
pub open spec fn event_field() -> Seq<char> {
    "event"@
}

/// The provenance of one instrumentation point. It turns the fields that
/// the point records into occurrences for the monitor.
#[derive(Clone, Debug, PartialEq, Eq)]
pub struct FieldLogger {
    /// The instrumented function.
    pub function: String,
    /// The file in which that function is defined.
    pub file: String,
    /// The line at which that function is defined.
    pub line: u32,
    /// The call site, as a printable token.
    pub callsite: String,
}

impl FieldLogger {
    /// A logger for the instrumentation point with this provenance.
    pub fn new(function: String, file: String, line: u32, callsite: String) -> (logger: FieldLogger)
        ensures
            logger.function == function,
            logger.file == file,
            logger.line == line,
            logger.callsite == callsite,
    {
        FieldLogger { function, file, line, callsite }
    }

    /// The occurrence of the event called `name` at this instrumentation
    /// point.
    pub fn occurrence(&self, name: &str) -> (occurrence: Occurrence)
        ensures
            occurrence.name@ == name@,
            occurrence.function@ == self.function@,
            occurrence.file@ == self.file@,
            occurrence.line == self.line,
            occurrence.callsite@ == self.callsite@,
    {
        Occurrence {
            name: name.to_owned(),
            function: self.function.clone(),
            file: self.file.clone(),
            line: self.line,
            callsite: self.callsite.clone(),
        }
    }

    /// Takes one text field of the instrumentation point. A field called
    /// `event` names an occurrence: it is delivered to `subscriber`, and the
    /// report lines of the violations it causes are returned, in order. Any
    /// other field is ignored.
    pub fn record_str(&self, subscriber: &mut TracingFormal, field: &str, value: &str) -> (reports:
        Vec<String>)
        ensures
            final(subscriber)@ == if field@ == event_field() {
                delivered_to_all(old(subscriber)@, value@)
            } else {
                old(subscriber)@
            },
            reports@.len() == if field@ == event_field() {
                breaches_in_all(old(subscriber)@, value@).len()
            } else {
                0
            },
            forall|k: int|
                0 <= k < reports@.len() ==> (#[trigger] reports@[k])@ == violation_line(
                    self.function@,
                    self.file@,
                    self.line,
                    self.callsite@,
                ),
    {
        let mut reports: Vec<String> = Vec::new();
        if same_text(field, "event") {
            let occurrence = self.occurrence(value);
            let violations = subscriber.on_occurrence(&occurrence);
            let n = violations.len();
            let mut k: usize = 0;
            while k < n
                invariant
                    k <= n,
                    n == violations@.len(),
                    reports@.len() == k,
                    forall|j: int|
                        0 <= j < n ==> (#[trigger] violations@[j]).function@ == self.function@
                            && violations@[j].file@ == self.file@ && violations@[j].line
                            == self.line && violations@[j].callsite@ == self.callsite@,
                    forall|j: int|
                        0 <= j < k ==> (#[trigger] reports@[j])@ == violation_line(
                            self.function@,
                            self.file@,
                            self.line,
                            self.callsite@,
                        ),
                decreases n - k,
            {
                reports.push(violations[k].report_line());
                k += 1;
            }
        }
        reports
    }
}

} // verus!
