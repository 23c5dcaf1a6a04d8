//! Comparison of names.
use vstd::prelude::*;
use vstd::string::*;

verus! {

/// Whether `name` is the text `literal`.
pub fn is_text(name: &String, literal: &str) -> (r: bool)
    ensures
        r == (name@ == literal@),
{
    *name == literal.to_owned()
}

} // verus!
