//! The in-game shop: its items and whether its panel is open.

use vstd::prelude::*;

verus! {

/// Whether the shop panel is open.
#[derive(Clone, Copy, Debug, PartialEq, Eq, Structural)]
pub struct Shop(pub bool);

impl Shop {
    /// The state that the shop button leads to: open when closed, closed
    /// when open.
    pub fn toggled(self) -> (s: Shop)
        ensures
            s.0 == !self.0,
    {
        Shop(!self.0)
    }
}

/// A purchasable item.
pub struct ShopItem {
    /// Identifier.
    pub id: String,
    /// Display name.
    pub name: String,
    /// Description.
    pub description: String,
    /// Price in gold.
    pub price: u32,
    /// Item type, which decides what buying it does (`"role"`, ...).
    pub item_type: String,
    /// Payload whose meaning depends on the type (a role builder name, ...).
    pub value: String,
}

/// The items that the shop offers: one role to recruit.
pub struct ShopItems {
    /// The role item.
    pub role: ShopItem,
}

impl ShopItems {
    /// The shop's stock: recruiting an archer for 50 gold.
    pub fn new() -> (s: Self)
        ensures
            s.role.id@ == "recruit_archer"@,
            s.role.name@ == "招募弓箭手"@,
            s.role.description@ == "在场上增加一名弓箭手"@,
            s.role.price == 50,
            s.role.item_type@ == "role"@,
            s.role.value@ == "archer"@,
    {
        ShopItems {
            role: ShopItem {
                id: "recruit_archer".to_owned(),
                name: "招募弓箭手".to_owned(),
                description: "在场上增加一名弓箭手".to_owned(),
                price: 50,
                item_type: "role".to_owned(),
                value: "archer".to_owned(),
            },
        }
    }
}

impl Default for ShopItems {
    fn default() -> (s: Self)
        ensures
            s.role.id@ == "recruit_archer"@,
            s.role.price == 50,
            s.role.value@ == "archer"@,
    {
        Self::new()
    }
}

/// Toggling the shop twice leaves it as it was.
pub proof fn law_toggle_twice(s: Shop)
    ensures
        Shop(!!s.0) == s,
{
}

} // verus!
