//! The running level's state: the player's gold.

use vstd::prelude::*;

verus! {

/// Run-time data of the current level.
#[derive(Clone, Copy, Debug, PartialEq, Eq, Structural)]
pub struct LevelState {
    /// Gold the player holds.
    pub money: u32,
}

/// Whether a purchase of `price` goes through with `money` gold, and the
/// gold left after it.
pub open spec fn purchase_outcome(money: u32, price: u32) -> (bool, u32) {
    if money >= price {
        (true, (money - price) as u32)
    } else {
        (false, money)
    }
}

impl Default for LevelState {
    /// A level starts with 100 gold.
    fn default() -> (s: Self)
        ensures
            s.money == 100,
    {
        LevelState { money: 100 }
    }
}

impl LevelState {
    /// Adds picked-up gold.
    pub fn collect_gold(&mut self, amount: u32)
        requires
            old(self).money + amount <= u32::MAX,
        ensures
            final(self).money == old(self).money + amount,
    {
        self.money = self.money + amount;
    }

    /// Pays `price` if the player holds that much gold, and says whether the
    /// purchase went through; a refused purchase leaves the gold as it was.
    pub fn purchase(&mut self, price: u32) -> (bought: bool)
        ensures
            (bought, final(self).money) == purchase_outcome(old(self).money, price),
    {
        if self.money < price {
            return false;
        }
        self.money = self.money - price;
        true
    }
}

/// A purchase never adds gold; one that goes through takes exactly the
/// price, and one that is refused takes nothing and happens only when the
/// gold is short.
pub proof fn law_purchase_takes_price(money: u32, price: u32)
    ensures
        purchase_outcome(money, price).1 <= money,
        purchase_outcome(money, price).0 ==> purchase_outcome(money, price).1 + price == money,
        !purchase_outcome(money, price).0 ==> purchase_outcome(money, price).1 == money && money < price,
{
}

/// Collecting gold and then buying something that costs exactly that much
/// goes through and leaves the gold where it was.
pub proof fn law_collect_then_spend(money: u32, amount: u32)
    requires
        money + amount <= u32::MAX,
    ensures
        purchase_outcome((money + amount) as u32, amount) == (true, money),
{
}

} // verus!
