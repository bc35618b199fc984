//! The plain data types of the map: territory classifications and node
//! handles.

use vstd::prelude::*;

verus! {

/// Ownership status of a supply-center territory: a home center of a named
/// power, or unowned.
pub enum SupplyType {
    Core(String),
    Neutral,
}

/// Classification of a land territory.
pub enum LandType {
    Normal,
    SupplyCenter(SupplyType),
}

/// Classification of a territory: open sea or land.
pub enum TerritoryType {
    Sea,
    Land(LandType),
}

/// An opaque, comparable handle identifying one node of a graph across calls.
///
/// A handle held across a node's removal becomes stale: it stops matching any
/// node, and every graph operation tolerates it gracefully.
#[derive(Clone, Copy, Debug, PartialEq, Eq, Structural)]
pub struct NodeHandle {
    pub id: u64,
}

/// True of a land territory that is a supply center held by the power `owner`.
pub open spec fn is_core_supply(t: TerritoryType, owner: Seq<char>) -> bool {
    match t {
        TerritoryType::Land(LandType::SupplyCenter(SupplyType::Core(p))) => p@ == owner,
        _ => false,
    }
}

/// True of a sea territory.
pub open spec fn is_sea(t: TerritoryType) -> bool {
    t matches TerritoryType::Sea
}

/// True of an ordinary land territory that is no supply center.
pub open spec fn is_normal_land(t: TerritoryType) -> bool {
    t matches TerritoryType::Land(LandType::Normal)
}

} // verus!
