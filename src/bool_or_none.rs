//! A boolean that may be unknown.
use vstd::prelude::*;

verus! {

/// `Some(b)` when the answer is known, `None` when it is not.
#[derive(Clone, Copy, Debug, PartialEq, Eq)]
pub struct BoolOrNone(pub Option<bool>);

impl View for BoolOrNone {
    type V = Option<bool>;

    open spec fn view(&self) -> Option<bool> {
        self.0
    }
}

/// How a tri-state value is displayed: `yes`, `no` or `?`.
pub open spec fn tri_text(b: Option<bool>) -> Seq<char> {
    match b {
        Some(true) => "yes"@,
        Some(false) => "no"@,
        None => "?"@,
    }
}

impl BoolOrNone {
    /// The displayed form of the value.
    pub fn to_string(&self) -> (r: String)
        ensures
            r@ == tri_text(self@),
    {
        let t = match self.0 {
            Some(true) => "yes",
            Some(false) => "no",
            None => "?",
        };
        String::from_str(t)
    }
}

} // verus!
