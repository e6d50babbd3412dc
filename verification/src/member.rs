//! Members, the fighting entities of a battle, and the capability traits
//! that expose their statistics and mutable properties to the engine.

use vstd::prelude::*;

use crate::equipment::Equipment;

verus! {

/// Sum of two health or attack values, saturating at the largest
/// representable value.
pub open spec fn sat_add(a: u64, b: u64) -> u64 {
    if a + b > u64::MAX {
        u64::MAX
    } else {
        (a + b) as u64
    }
}

/// Health left after `damage` points are subtracted, saturating at zero.
pub open spec fn saturated_damage(health: u64, damage: u64) -> u64 {
    if health >= damage {
        (health - damage) as u64
    } else {
        0u64
    }
}

/// Health after healing by `amount`, saturating on overflow and capped by
/// the member's reference (maximum) health.
pub open spec fn healed_health(health: u64, amount: u64, reference_health: u64) -> u64 {
    let raw = if health + amount > u64::MAX {
        u64::MAX
    } else {
        (health + amount) as u64
    };
    if raw <= reference_health {
        raw
    } else {
        reference_health
    }
}

/// Healing never raises health beyond the reference health, whatever the
/// amount.
pub proof fn lemma_healed_health_capped(health: u64, amount: u64, reference_health: u64)
    ensures
        healed_health(health, amount, reference_health) <= reference_health,
{
}

/// Immutable statistics associated with a specific [`Member`].
///
/// A member's intrinsic characteristics are defined here and never modified.
/// Use [`Properties`] to track modifiers and current values based on these
/// statistics.
pub trait Statistics: Sized {
    /// The reference health value (typically maximum health) at spec level.
    spec fn spec_reference_health(&self) -> u64;

    /// The base attack value at spec level.
    spec fn spec_base_attack(&self) -> u64;

    /// Returns the reference health value (typically maximum health).
    fn reference_health(&self) -> (h: u64)
        ensures
            h == self.spec_reference_health(),
    ;

    /// Returns the base attack value associated with this member.
    fn base_attack(&self) -> (a: u64)
        ensures
            a == self.spec_base_attack(),
    ;
}

/// Properties of a [`Member`] that can change during a match.
///
/// Most commonly tracks current health and the attack value used for damage
/// calculations.
pub trait Properties: Sized {
    /// The current health value at spec level.
    spec fn spec_health(&self) -> u64;

    /// The current attack value at spec level.
    spec fn spec_attack(&self) -> u64;

    /// The "sum" of property values with another property object, at spec
    /// level. How the sum is calculated depends on the implementation.
    spec fn spec_sum(&self, rhs: Self) -> Self;

    /// Returns the current health value.
    fn health(&self) -> (h: u64)
        ensures
            h == self.spec_health(),
    ;

    /// Returns the current attack value after all modifiers.
    fn attack(&self) -> (a: u64)
        ensures
            a == self.spec_attack(),
    ;

    /// Returns a mutable reference to the current health value.
    ///
    /// Writing through the reference changes only the health; every other
    /// property value is left as it was.
    fn health_mut(&mut self) -> (h: &mut u64)
        ensures
            *h == old(self).spec_health(),
            final(self).spec_health() == *final(h),
            final(self).spec_attack() == old(self).spec_attack(),
    ;

    /// Returns the "sum" of property values with another property object.
    fn sum_properties(&self, rhs: &Self) -> (r: Self)
        ensures
            r == self.spec_sum(*rhs),
    ;

    /// Applies changes from another property object to this one.
    fn apply_properties(&mut self, rhs: &Self)
        ensures
            *final(self) == old(self).spec_sum(*rhs),
    {
        *self = self.sum_properties(rhs);
    }

    /// Subtracts damage from current health, saturating at 0.
    fn damage(&mut self, damage: u64)
        ensures
            final(self).spec_health() == saturated_damage(old(self).spec_health(), damage),
            final(self).spec_attack() == old(self).spec_attack(),
    {
        let current = self.health();
        let h = self.health_mut();
        *h = current.saturating_sub(damage);
    }
}

/// A member's current health: the health of its current properties.
///
/// A member is "alive" exactly when this value is greater than zero.
pub open spec fn member_health<M: Member>(m: M) -> u64 {
    m.spec_properties().spec_health()
}

/// A member's final properties: its base properties summed with the bonus
/// its equipment provides.
pub open spec fn member_final_properties<M: Member>(m: M) -> M::Properties {
    m.spec_properties().spec_sum(m.spec_equipment().spec_associated_properties())
}

/// A member's final attack value, the one used for damage calculations.
pub open spec fn member_attack<M: Member>(m: M) -> u64 {
    member_final_properties(m).spec_attack()
}

/// Fighting entity of a [`Team`](crate::team::Team).
pub trait Member: Sized {
    type Statistics: Statistics;

    type Properties: Properties;

    type Equipment: Equipment<Properties = Self::Properties>;

    /// This member's name at spec level.
    spec fn spec_name(&self) -> Seq<char>;

    /// This member's statistics at spec level.
    spec fn spec_statistics(&self) -> Self::Statistics;

    /// This member's current properties at spec level.
    spec fn spec_properties(&self) -> Self::Properties;

    /// This member's equipment at spec level.
    spec fn spec_equipment(&self) -> Self::Equipment;

    /// Returns this member's name.
    fn name(&self) -> (n: &str)
        ensures
            n@ == self.spec_name(),
    ;

    /// Returns a reference to this member's statistics.
    fn statistics(&self) -> (s: &Self::Statistics)
        ensures
            *s == self.spec_statistics(),
    ;

    /// Returns a reference to this member's current properties.
    fn member_properties(&self) -> (p: &Self::Properties)
        ensures
            *p == self.spec_properties(),
    ;

    /// Returns a mutable reference to this member's current properties.
    ///
    /// Writing through the reference changes only the properties; the name,
    /// the statistics and the equipment are left as they were.
    fn member_properties_mut(&mut self) -> (p: &mut Self::Properties)
        ensures
            *p == old(self).spec_properties(),
            final(self).spec_properties() == *final(p),
            final(self).spec_name() == old(self).spec_name(),
            final(self).spec_statistics() == old(self).spec_statistics(),
            final(self).spec_equipment() == old(self).spec_equipment(),
    ;

    /// Returns a reference to this member's equipment.
    fn equipment(&self) -> (e: &Self::Equipment)
        ensures
            *e == self.spec_equipment(),
    ;

    /// Returns the final properties after applying equipment bonuses.
    ///
    /// This is the sum of base properties and equipment-provided bonuses.
    fn final_properties(&self) -> (p: Self::Properties)
        ensures
            p == self.spec_properties().spec_sum(self.spec_equipment().spec_associated_properties()),
    {
        self.member_properties().sum_properties(&self.equipment().associated_properties())
    }

    /// Returns this member's current health.
    fn health(&self) -> (h: u64)
        ensures
            h == self.spec_properties().spec_health(),
    {
        self.member_properties().health()
    }

    /// Inflicts direct damage to this member's health, saturating at 0.
    fn damage(&mut self, damage: u64)
        ensures
            final(self).spec_properties().spec_health() == saturated_damage(
                old(self).spec_properties().spec_health(),
                damage,
            ),
            final(self).spec_properties().spec_attack() == old(
                self,
            ).spec_properties().spec_attack(),
            final(self).spec_name() == old(self).spec_name(),
            final(self).spec_statistics() == old(self).spec_statistics(),
            final(self).spec_equipment() == old(self).spec_equipment(),
    {
        self.member_properties_mut().damage(damage);
    }
}

/// Identifier of a member using team index and member index within that team.
#[derive(Debug, Clone, Copy, PartialEq, Eq, Structural, PartialOrd, Ord, Hash)]
pub struct MemberIdentifier {
    /// Index of the team this member belongs to.
    pub team_id: usize,
    /// Index of the member within their team.
    pub member_id: usize,
}

impl Default for MemberIdentifier {
    /// Defaults to the identifier of the first member of the first team.
    fn default() -> (r: Self)
        ensures
            r == (MemberIdentifier { team_id: 0, member_id: 0 }),
    {
        MemberIdentifier { team_id: 0, member_id: 0 }
    }
}

impl MemberIdentifier {
    /// Creates a new member identifier.
    pub fn new(team_id: usize, member_id: usize) -> (r: Self)
        ensures
            r == (MemberIdentifier { team_id, member_id }),
    {
        Self { team_id, member_id }
    }

    /// Creates a member identifier pointing to the first member of the first
    /// team.
    pub fn zeroed() -> (r: Self)
        ensures
            r == (MemberIdentifier { team_id: 0, member_id: 0 }),
    {
        Self::default()
    }
}

} // verus!
