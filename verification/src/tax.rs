//! Tax and transfer: the need floor, priced in money.
use crate::kinds::Good;
use crate::market::{last_price, spec_last_price};
use crate::money::Money;
use crate::state_store::{list_price, spec_list_price};
use crate::world::{Instrument, World};
use vstd::prelude::*;

verus! {

/// The Food price the floor is priced at: the last trade or start price,
/// else the state's list price, else nothing.
pub open spec fn food_price(w: World) -> int {
    match spec_last_price(w, Instrument::Good(Good::Food)) {
        Some(p) => p.0 as int,
        None => match spec_list_price(w, Good::Food) {
            Some(p) => p.0 as int,
            None => 0,
        },
    }
}

/// The need floor in money: the floor's Food units at the Food price.
pub open spec fn spec_floor_money(w: World, floor_food: u32) -> int {
    food_price(w) * floor_food
}

/// The need floor in money.
pub fn floor_money(world: &World, floor_food: u32) -> (m: Money)
    requires
        i64::MIN <= spec_floor_money(*world, floor_food) <= i64::MAX,
    ensures
        m.0 == spec_floor_money(*world, floor_food),
{
    let price = match last_price(world, Instrument::Good(Good::Food)) {
        Some(p) => p,
        None => match list_price(world, Good::Food) {
            Some(p) => p,
            None => Money(0),
        },
    };
    Money(price.0 * floor_food as i64)
}

} // verus!
