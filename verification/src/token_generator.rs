//! Token generator: unique tokens made of a fixed prefix and a
//! counter.

use vstd::prelude::*;

use crate::num_text::{dec_digits, push_u32_text};

verus! {

/// Generates `prefix0`, `prefix1`, ... in order.
pub struct TokenGenerator {
    pub prefix: String,
    pub counter: u32,
}

impl TokenGenerator {
    /// Creates a generator with the given prefix, counting from zero.
    pub fn new(prefix: &str) -> (t: Self)
        ensures
            t.prefix@ == prefix@,
            t.counter == 0,
    {
        TokenGenerator { prefix: String::from_str(prefix), counter: 0 }
    }

    /// Resets the counter.
    pub fn reset(&mut self)
        ensures
            final(self).prefix == old(self).prefix,
            final(self).counter == 0,
    {
        self.counter = 0;
    }

    /// Returns the next token and advances the counter.
    pub fn generate(&mut self) -> (token: String)
        requires
            old(self).counter < u32::MAX,
        ensures
            token@ == old(self).prefix@ + dec_digits(old(self).counter as nat),
            final(self).prefix == old(self).prefix,
            final(self).counter == old(self).counter + 1,
    {
        let token = self.peek();
        self.counter = self.counter + 1;
        token
    }

    /// The token `generate` would return, without advancing.
    pub fn peek(&self) -> (token: String)
        ensures
            token@ == self.prefix@ + dec_digits(self.counter as nat),
    {
        let mut token = self.prefix.clone();
        push_u32_text(self.counter, &mut token);
        token
    }
}

} // verus!
