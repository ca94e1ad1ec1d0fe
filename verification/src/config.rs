use vstd::prelude::*;

verus! {

/// The three sides of the duel.
#[derive(Debug, Clone, Copy, PartialEq, Eq, Structural)]
pub enum Faction {
    Red,
    Green,
    Blue,
}

/// Two factions are enemies exactly when they differ.
pub open spec fn enemies(a: Faction, b: Faction) -> bool {
    a != b
}

impl Faction {
    /// Whether `other` is hostile to `self`.
    pub fn is_enemy(&self, other: &Self) -> (r: bool)
        ensures
            r == enemies(*self, *other),
    {
        *self != *other
    }
}

/// No faction is its own enemy, and hostility is mutual.
pub proof fn lemma_enemies_irreflexive_symmetric(a: Faction, b: Faction)
    ensures
        !enemies(a, a),
        enemies(a, b) == enemies(b, a),
{
}

/// Every faction has exactly the two other factions as enemies.
pub proof fn lemma_two_enemies_each(a: Faction)
    ensures
        Set::new(|f: Faction| enemies(a, f)) == set![Faction::Red, Faction::Green, Faction::Blue].remove(a),
{
    assert(Set::new(|f: Faction| enemies(a, f)) =~= set![Faction::Red, Faction::Green, Faction::Blue].remove(a));
}

} // verus!
