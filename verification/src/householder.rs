//! Householders: the scripted citizens, and how the society they live in trades.
use crate::constitution::Pricing;
use crate::world::{OrderSource, World};
use vstd::prelude::*;

verus! {

impl World {
    /// Whether this society trades on order books: prices are set by the market.
    pub fn rules_order_books(&self) -> (b: bool)
        ensures
            b == (self.constitution.pricing == Pricing::Market),
    {
        self.constitution.pricing == Pricing::Market
    }
}

/// The source of an order placed by hand.
pub fn manual() -> (s: OrderSource)
    ensures
        s == OrderSource::Manual,
{
    OrderSource::Manual
}

} // verus!
