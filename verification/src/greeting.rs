//! A greeting for a visitor of the site.

use vstd::prelude::*;
use crate::text::{chars_of, string_of};

verus! {

/// A greeting for a visitor: the greeting word, the visitor and the visit count.
pub struct Greeting {
    pub greeting: String,
    pub visitor: String,
    pub visits: u16,
}

impl Greeting {
    /// The greeting `greeting` for `visitor` on visit number `visits`.
    pub fn new(greeting: &str, visitor: String, visits: u16) -> (g: Greeting)
        ensures
            g.greeting@ == greeting@,
            g.visitor == visitor,
            g.visits == visits,
    {
        Greeting { greeting: string_of(&chars_of(greeting)), visitor, visits }
    }
}

} // verus!
