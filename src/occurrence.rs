//! How many times a keyword may appear in a whole file.
use vstd::prelude::*;
use crate::text::{decimal, decimal_of};

verus! {

/// The accepted number of lines for one keyword across a file.
#[derive(Debug, Clone, Copy, PartialEq, Eq, Structural)]
pub enum Occurrence {
    /// Exactly one line.
    Once,
    /// At most one line.
    Optional,
    /// Any number of lines.
    ZeroOrMore,
    /// At least one line.
    OneOrMore,
    /// Exactly this many lines.
    Exactly(usize),
    /// Between the two bounds, both included.
    Range(usize, usize),
}

/// The same requirement under its earlier spelling.
pub type Occurence = Occurrence;

impl Default for Occurrence {
    fn default() -> (r: Self)
        ensures
            r == Occurrence::Once,
    {
        Occurrence::Once
    }
}

/// Whether `n` lines satisfy `o`.
pub open spec fn occurrence_accepts(o: Occurrence, n: nat) -> bool {
    match o {
        Occurrence::Once => n == 1,
        Occurrence::Optional => n <= 1,
        Occurrence::ZeroOrMore => true,
        Occurrence::OneOrMore => n >= 1,
        Occurrence::Exactly(x) => n == x,
        Occurrence::Range(lo, hi) => lo <= n <= hi,
    }
}

/// The requirement in words.
pub open spec fn occurrence_prose(o: Occurrence) -> Seq<char> {
    match o {
        Occurrence::Once => "once"@,
        Occurrence::Optional => "optional"@,
        Occurrence::ZeroOrMore => "zero or more"@,
        Occurrence::OneOrMore => "one or more"@,
        Occurrence::Exactly(x) => "exactly "@ + decimal_of(x as nat),
        Occurrence::Range(lo, hi) => "between "@ + decimal_of(lo as nat) + " and "@ + decimal_of(
            hi as nat,
        ),
    }
}

/// The requirement as a condition on the count `n`.
pub open spec fn occurrence_condition(o: Occurrence) -> Seq<char> {
    match o {
        Occurrence::Once => "n == 1"@,
        Occurrence::Optional => "n <= 1"@,
        Occurrence::ZeroOrMore => "n >= 0"@,
        Occurrence::OneOrMore => "n >= 1"@,
        Occurrence::Exactly(x) => "n == "@ + decimal_of(x as nat),
        Occurrence::Range(lo, hi) => "n >= "@ + decimal_of(lo as nat) + " && n <= "@ + decimal_of(
            hi as nat,
        ),
    }
}

/// The message for a keyword that appeared `n` times against `o`.
pub open spec fn occurrence_message(o: Occurrence, n: nat) -> Seq<char> {
    "expected to be "@ + occurrence_prose(o) + " ("@ + occurrence_condition(o)
        + "), but it occurred "@ + decimal_of(n) + " times"@
}

impl Occurrence {
    /// Whether `n` lines satisfy this requirement.
    pub fn in_range(&self, n: usize) -> (r: bool)
        ensures
            r == occurrence_accepts(*self, n as nat),
    {
        match self {
            Occurrence::Once => n == 1,
            Occurrence::Optional => n <= 1,
            Occurrence::ZeroOrMore => true,
            Occurrence::OneOrMore => n >= 1,
            Occurrence::Exactly(x) => n == *x,
            Occurrence::Range(start, end) => n >= *start && n <= *end,
        }
    }

    /// The requirement in words: `once`, `one or more`, `between 1 and 3`.
    pub fn prose(&self) -> (r: String)
        ensures
            r@ == occurrence_prose(*self),
    {
        match self {
            Occurrence::Once => "once".to_owned(),
            Occurrence::Optional => "optional".to_owned(),
            Occurrence::ZeroOrMore => "zero or more".to_owned(),
            Occurrence::OneOrMore => "one or more".to_owned(),
            Occurrence::Exactly(x) => "exactly ".to_owned().concat(decimal(*x).as_str()),
            Occurrence::Range(start, end) => "between ".to_owned().concat(
                decimal(*start).as_str(),
            ).concat(" and ").concat(decimal(*end).as_str()),
        }
    }

    /// The requirement as a condition: `n == 1`, `n >= 1 && n <= 3`.
    pub fn condition(&self) -> (r: String)
        ensures
            r@ == occurrence_condition(*self),
    {
        match self {
            Occurrence::Once => "n == 1".to_owned(),
            Occurrence::Optional => "n <= 1".to_owned(),
            Occurrence::ZeroOrMore => "n >= 0".to_owned(),
            Occurrence::OneOrMore => "n >= 1".to_owned(),
            Occurrence::Exactly(x) => "n == ".to_owned().concat(decimal(*x).as_str()),
            Occurrence::Range(start, end) => "n >= ".to_owned().concat(
                decimal(*start).as_str(),
            ).concat(" && n <= ").concat(decimal(*end).as_str()),
        }
    }

    /// Accepts `n` lines, or explains the requirement that they miss.
    pub fn check(&self, n: usize) -> (r: Result<(), String>)
        ensures
            r is Ok <==> occurrence_accepts(*self, n as nat),
            r matches Err(m) ==> m@ == occurrence_message(*self, n as nat),
    {
        if self.in_range(n) {
            Ok(())
        } else {
            let m = "expected to be ".to_owned().concat(self.prose().as_str()).concat(
                " (",
            ).concat(self.condition().as_str()).concat("), but it occurred ").concat(
                decimal(n).as_str(),
            ).concat(" times");
            Err(m)
        }
    }
}

} // verus!
