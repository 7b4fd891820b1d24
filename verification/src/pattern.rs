//! The rule by which the point moves.

use vstd::prelude::*;
use vstd::string::*;

verus! {

/// How the point moves from one step to the next.
#[derive(Copy, Clone, Debug, PartialEq, Eq, Structural)]
pub enum Pattern {
    /// Straight ahead, every step as long as the last.
    Line,
    /// Turning before every step, each step longer than the last.
    Spirale,
}

impl Pattern {
    /// The pattern that a numeric code names, if it names one: 0 is the line,
    /// 1 the spiral.
    pub open spec fn of_code(code: int) -> Option<Pattern> {
        if code == 0 {
            Some(Pattern::Line)
        } else if code == 1 {
            Some(Pattern::Spirale)
        } else {
            None
        }
    }

    /// The name under which a pattern is shown.
    pub open spec fn label(self) -> Seq<char> {
        match self {
            Pattern::Line => "Line"@,
            Pattern::Spirale => "Spirale"@,
        }
    }

    /// The name of `pattern`, as an owned string.
    pub fn to_str(pattern: Pattern) -> (name: String)
        ensures
            name@ == pattern.label(),
    {
        match pattern {
            Pattern::Line => String::from_str("Line"),
            Pattern::Spirale => String::from_str("Spirale"),
        }
    }

    /// The pattern that `pattern` names, or `None` for a code that names none.
    pub fn from_code(pattern: i32) -> (found: Option<Pattern>)
        ensures
            found == Pattern::of_code(pattern as int),
    {
        if pattern == 0 {
            Some(Pattern::Line)
        } else if pattern == 1 {
            Some(Pattern::Spirale)
        } else {
            None
        }
    }

    /// The pattern that `pattern` names; a code that names none selects the
    /// line.
    pub fn to_pattern(pattern: i32) -> (chosen: Pattern)
        ensures
            chosen == match Pattern::of_code(pattern as int) {
                Some(p) => p,
                None => Pattern::Line,
            },
    {
        match Pattern::from_code(pattern) {
            Some(p) => p,
            None => Pattern::Line,
        }
    }
}

} // verus!
