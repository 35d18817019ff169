use vstd::prelude::*;
use crate::components::Character;

verus! {

/// Definitions shared by all stages, each list keyed by a unique code.
#[derive(Debug)]
pub struct Global {
    pub potions: Vec<(String, PotionDef)>,
    pub monsters: Vec<(String, MonsterDef)>,
    pub spells: Vec<(String, Spell)>,
    pub weapons: Vec<(String, WeaponDef)>,
}

#[derive(Debug)]
pub struct Spell {
    pub name: String,
    pub description: String,
}

/// A potion: its name and what drinking it does to the characteristics.
#[derive(Debug)]
pub struct PotionDef {
    pub name: String,
    pub effects: Vec<Effect>,
}

/// A change of `diff` to the characteristic named `characteristic`.
#[derive(Debug)]
pub struct Effect {
    pub characteristic: String,
    pub diff: i32,
}

#[derive(Debug)]
pub struct MonsterDef {
    pub name: String,
    pub character: Character,
    pub weapon: WeaponDef,
    pub attacks: Vec<String>,
    pub misses: Vec<String>,
}

#[derive(Debug)]
pub struct WeaponDef {
    pub name: String,
    pub damage: (u32, u32),
}

impl Global {
    /// No potion code occurs twice.
    pub open spec fn potion_keys_unique(self) -> bool {
        forall|i: int, j: int|
            0 <= i < j < self.potions@.len() ==> #[trigger] self.potions@[i].0@
                != #[trigger] self.potions@[j].0@
    }

    /// There is a potion with this code.
    pub open spec fn has_potion(self, key: Seq<char>) -> bool {
        exists|i: int| 0 <= i < self.potions@.len() && #[trigger] self.potions@[i].0@ == key
    }

    /// The position of the potion with this code.
    pub open spec fn potion_index(self, key: Seq<char>) -> int {
        choose|i: int| 0 <= i < self.potions@.len() && #[trigger] self.potions@[i].0@ == key
    }

    /// The effects of the potion with this code, as (characteristic, change) pairs.
    pub open spec fn potion_effects(self, key: Seq<char>) -> Seq<(Seq<char>, i32)> {
        self.potions@[self.potion_index(key)].1.effects@.map_values(
            |e: Effect| (e.characteristic@, e.diff),
        )
    }

    /// Whether no potion code occurs twice.
    pub fn potion_keys_distinct(&self) -> (r: bool)
        ensures
            r == self.potion_keys_unique(),
    {
        let n = self.potions.len();
        let mut i: usize = 0;
        while i < n
            invariant
                n == self.potions@.len(),
                i <= n,
                forall|a: int, b: int|
                    0 <= a < i && a < b < n ==> #[trigger] self.potions@[a].0@ != #[trigger] self.potions@[b].0@,
            decreases n - i,
        {
            let mut j: usize = i + 1;
            while j < n
                invariant
                    n == self.potions@.len(),
                    i < n,
                    i + 1 <= j <= n,
                    forall|a: int, b: int|
                        0 <= a < i && a < b < n ==> #[trigger] self.potions@[a].0@ != #[trigger] self.potions@[b].0@,
                    forall|b: int| i < b < j ==> self.potions@[i as int].0@ != #[trigger] self.potions@[b].0@,
                decreases n - j,
            {
                if self.potions[i].0 == self.potions[j].0 {
                    return false;
                }
                j = j + 1;
            }
            i = i + 1;
        }
        true
    }

    /// The potion with the given code, if there is one.
    pub fn potion(&self, key: &String) -> (r: Option<&PotionDef>)
        requires
            self.potion_keys_unique(),
        ensures
            r is Some <==> self.has_potion(key@),
            r matches Some(p) ==> *p == self.potions@[self.potion_index(key@)].1,
    {
        let mut i: usize = 0;
        while i < self.potions.len()
            invariant
                self.potion_keys_unique(),
                i <= self.potions@.len(),
                forall|k: int| 0 <= k < i ==> #[trigger] self.potions@[k].0@ != key@,
            decreases self.potions@.len() - i,
        {
            if self.potions[i].0 == *key {
                proof {
                    assert(self.potions@[i as int].0@ == key@);
                    assert(self.has_potion(key@));
                    let j = self.potion_index(key@);
                    if j != i {
                        if j < i {
                            assert(self.potions@[j].0@ != key@);
                        } else {
                            assert(self.potions@[i as int].0@ != self.potions@[j].0@);
                        }
                    }
                }
                return Some(&self.potions[i].1);
            }
            i = i + 1;
        }
        None
    }
}

} // verus!
