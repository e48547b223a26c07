//! The text of a violation report.

use crate::monitor::Violation;
use crate::text::{decimal, push_decimal};
use vstd::prelude::*;
use vstd::string::*;

verus! {

/// The line that reports a violation: the function that fired the event,
/// where it is defined, and the call site.
pub open spec fn violation_line(
    function: Seq<char>,
    file: Seq<char>,
    line: u32,
    callsite: Seq<char>,
) -> Seq<char> {
    "violation: function \""@ + function + "()\" defined at "@ + file + ":"@ + decimal(line as nat)
        + ", call it at "@ + callsite
}

impl Violation {
    /// The line that reports this violation.
    pub fn report_line(&self) -> (text: String)
        ensures
            text@ == violation_line(self.function@, self.file@, self.line, self.callsite@),
    {
        let mut text = String::from_str("violation: function \"");
        text.append(self.function.as_str());
        text.append("()\" defined at ");
        text.append(self.file.as_str());
        text.append(":");
        push_decimal(&mut text, self.line);
        text.append(", call it at ");
        text.append(self.callsite.as_str());
        text
    }
}

} // verus!
