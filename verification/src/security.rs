//! The parameters of a hash chain and how fresh ones are drawn.

use vstd::prelude::*;
use vstd::string::*;
use rand::Rng;
use crate::text::{decimal, push_decimal};

verus! {

/// Draws a number between `low` and `high`, both included, from the thread's
/// random generator (`rand::thread_rng().gen_range(low..=high)`). Nothing is
/// claimed of the number but that it lies in the range; the call panics on an
/// empty range, which `requires` leaves out.
#[verifier::external_body]
fn random_between(low: u32, high: u32) -> (n: u32)
    requires
        low <= high,
    ensures
        low <= n <= high,
{
    rand::thread_rng().gen_range(low..=high)
}

/// The three parameters of a hash chain.
#[derive(Debug)]
pub struct HashBuilder {
    pub init: u32,
    pub step: u32,
    pub limit: u32,
}

impl HashBuilder {
    /// Whether the parameters lie in the ranges that fresh ones are drawn from.
    pub open spec fn in_range(&self) -> bool {
        &&& 1 <= self.init <= 1000
        &&& 1 <= self.step <= 25
        &&& 4000 <= self.limit <= 9000
    }

    /// The text `init:step:limit`, each number in decimal.
    pub open spec fn text(&self) -> Seq<char> {
        decimal(self.init as nat) + seq![':'] + decimal(self.step as nat) + seq![':'] + decimal(
            self.limit as nat,
        )
    }

    /// Whether the parameters lie in the ranges that fresh ones are drawn from.
    pub fn is_in_range(&self) -> (b: bool)
        ensures
            b == self.in_range(),
    {
        1 <= self.init && self.init <= 1000 && 1 <= self.step && self.step <= 25 && 4000
            <= self.limit && self.limit <= 9000
    }

    /// Fresh parameters, drawn at random from their ranges.
    pub fn new() -> (hb: Self)
        ensures
            hb.in_range(),
    {
        let init: u32 = random_between(1, 1000);
        let step: u32 = random_between(1, 25);
        let limit: u32 = random_between(4000, 9000);
        HashBuilder { init, step, limit }
    }

    /// The parameters as they are sent in a handshake: `init:step:limit`.
    pub fn to_string(&self) -> (s: String)
        ensures
            s@ == self.text(),
    {
        let mut s = String::new();
        push_decimal(&mut s, self.init);
        s.push(':');
        push_decimal(&mut s, self.step);
        s.push(':');
        push_decimal(&mut s, self.limit);
        assert(s@ =~= self.text());
        s
    }
}

} // verus!
