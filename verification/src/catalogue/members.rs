//! A ready-made member implementation for battles that need no more than a
//! name, health and attack.

use vstd::prelude::*;

use crate::equipment::Equipment;
use crate::member::{sat_add, Member, Properties, Statistics};

verus! {

/// Immutable statistics of a [`Player`]: its maximum health and its base
/// attack.
#[derive(Debug, Clone, Copy, PartialEq, Eq, Structural)]
pub struct Stats {
    pub max_health: u64,
    pub base_attack: u64,
}

impl Stats {
    pub fn new(max_health: u64, base_attack: u64) -> (s: Self)
        ensures
            s == (Stats { max_health, base_attack }),
    {
        Self { max_health, base_attack }
    }
}

impl Statistics for Stats {
    open spec fn spec_reference_health(&self) -> u64 {
        self.max_health
    }

    open spec fn spec_base_attack(&self) -> u64 {
        self.base_attack
    }

    fn reference_health(&self) -> u64 {
        self.max_health
    }

    fn base_attack(&self) -> u64 {
        self.base_attack
    }
}

/// Mutable properties of a [`Player`]: its current health and its current
/// attack.
#[derive(Debug, Clone, Copy, PartialEq, Eq, Structural)]
pub struct Props {
    pub health: u64,
    pub attack: u64,
}

impl Props {
    pub fn new(health: u64, attack: u64) -> (p: Self)
        ensures
            p == (Props { health, attack }),
    {
        Self { health, attack }
    }

    /// The properties a member starts a battle with: full health and the
    /// base attack.
    pub fn from_stats(statistics: &Stats) -> (p: Self)
        ensures
            p == (Props { health: statistics.max_health, attack: statistics.base_attack }),
    {
        Self { health: statistics.max_health, attack: statistics.base_attack }
    }
}

impl Properties for Props {
    open spec fn spec_health(&self) -> u64 {
        self.health
    }

    open spec fn spec_attack(&self) -> u64 {
        self.attack
    }

    open spec fn spec_sum(&self, rhs: Props) -> Props {
        Props { health: sat_add(self.health, rhs.health), attack: sat_add(self.attack, rhs.attack) }
    }

    fn health(&self) -> u64 {
        self.health
    }

    fn attack(&self) -> u64 {
        self.attack
    }

    fn health_mut(&mut self) -> &mut u64 {
        &mut self.health
    }

    fn sum_properties(&self, rhs: &Self) -> Self {
        Props {
            health: self.health.saturating_add(rhs.health),
            attack: self.attack.saturating_add(rhs.attack),
        }
    }
}

/// Equipment that provides no bonus at all.
#[derive(Debug, Clone, Copy, PartialEq, Eq, Structural)]
pub struct Gear;

impl Equipment for Gear {
    type Properties = Props;

    open spec fn spec_associated_properties(&self) -> Props {
        Props { health: 0, attack: 0 }
    }

    fn associated_properties(&self) -> Props {
        Props { health: 0, attack: 0 }
    }
}

/// A basic battling member: a name, fixed statistics, current properties
/// and no equipment worth mentioning.
#[derive(Debug, Clone, PartialEq, Eq)]
pub struct Player {
    name: String,
    statistics: Stats,
    properties: Props,
    equipment: Gear,
}

impl Player {
    pub fn new(name: String, statistics: Stats, properties: Props) -> (p: Self)
        ensures
            p.spec_name() == name@,
            p.spec_statistics() == statistics,
            p.spec_properties() == properties,
    {
        Self { name, statistics, properties, equipment: Gear }
    }
}

impl Member for Player {
    type Statistics = Stats;

    type Properties = Props;

    type Equipment = Gear;

    closed spec fn spec_name(&self) -> Seq<char> {
        self.name@
    }

    closed spec fn spec_statistics(&self) -> Stats {
        self.statistics
    }

    closed spec fn spec_properties(&self) -> Props {
        self.properties
    }

    closed spec fn spec_equipment(&self) -> Gear {
        self.equipment
    }

    fn name(&self) -> &str {
        self.name.as_str()
    }

    fn statistics(&self) -> &Stats {
        &self.statistics
    }

    fn member_properties(&self) -> &Props {
        &self.properties
    }

    fn member_properties_mut(&mut self) -> &mut Props {
        &mut self.properties
    }

    fn equipment(&self) -> &Gear {
        &self.equipment
    }
}

} // verus!
