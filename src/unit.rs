use vstd::prelude::*;

verus! {

/// The unit in which a scalar duration is written.
#[derive(Debug, Clone, Copy, PartialEq, Eq, Structural)]
pub enum Unit {
    Hours,
    Minutes,
    Seconds,
}

impl Unit {
    /// The unit that the one-letter code `c` selects: `s` for seconds, `m`
    /// for minutes. Any other code, `h` among them, selects hours.
    pub open spec fn from_code_spec(c: char) -> Unit {
        if c == 's' {
            Unit::Seconds
        } else if c == 'm' {
            Unit::Minutes
        } else {
            Unit::Hours
        }
    }

    /// Reads a one-letter unit code; unknown codes fall back to hours.
    pub fn from_code(c: char) -> (r: Unit)
        ensures
            r == Unit::from_code_spec(c),
    {
        if c == 's' {
            Unit::Seconds
        } else if c == 'm' {
            Unit::Minutes
        } else {
            Unit::Hours
        }
    }
}

impl Default for Unit {
    /// Hours, the unit used when none is given.
    fn default() -> (r: Unit)
        ensures
            r == Unit::Hours,
    {
        Unit::Hours
    }
}

} // verus!
