//! Symbols named across a workspace.
use vstd::prelude::*;
use vstd::string::*;

verus! {

/// A symbol: the label of the file that defines it, and its name there.
#[derive(Debug, Clone, PartialEq, Eq)]
pub struct Symbol(pub String, pub String);

impl Symbol {
    /// `{root}#{name}`, unique for a symbol across one workspace.
    pub fn fully_qualified_name(&self) -> (r: String)
        ensures
            r@ == self.0@ + seq!['#'] + self.1@,
    {
        proof {
            reveal_strlit("#");
        }
        let mut r = self.0.clone();
        r.append("#");
        r.append(self.1.as_str());
        r
    }
}

} // verus!
