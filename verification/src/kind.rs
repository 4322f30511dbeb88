use vstd::prelude::*;

verus! {

/// Severity of an error variant: either a hard error or a warning.
#[derive(Clone, Copy, Debug, PartialEq, Eq, Structural)]
pub enum Kind {
    Error,
    Warn,
}

impl Kind {
    /// The single-letter marker used as the prefix of a display code.
    pub fn short_str(&self) -> (r: &'static str)
        ensures
            r@ == self.spec_short_str(),
    {
        proof {
            reveal_strlit("E");
            reveal_strlit("W");
        }
        match self {
            Kind::Error => "E",
            Kind::Warn => "W",
        }
    }

    /// The marker as a one-character sequence.
    pub open spec fn spec_short_str(self) -> Seq<char> {
        match self {
            Kind::Error => seq!['E'],
            Kind::Warn => seq!['W'],
        }
    }

    /// Which severity a literal names: `"error"` and `"Error"` name
    /// [`Kind::Error`], `"warn"` and `"Warn"` name [`Kind::Warn`], and
    /// every other literal is malformed.
    pub open spec fn spec_of_literal(s: Seq<char>) -> Option<Kind> {
        if s == "error"@ || s == "Error"@ {
            Some(Kind::Error)
        } else if s == "warn"@ || s == "Warn"@ {
            Some(Kind::Warn)
        } else {
            None
        }
    }

    /// Parse a severity literal.
    pub fn try_from_str(s: &str) -> (r: Option<Kind>)
        ensures
            r == Kind::spec_of_literal(s@),
    {
        if crate::tree::str_eq(s, "error") || crate::tree::str_eq(s, "Error") {
            Some(Kind::Error)
        } else if crate::tree::str_eq(s, "warn") || crate::tree::str_eq(s, "Warn") {
            Some(Kind::Warn)
        } else {
            None
        }
    }
}

} // verus!
