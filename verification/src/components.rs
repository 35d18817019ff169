use vstd::prelude::*;

verus! {

/// A grid position.
#[derive(Clone, Copy, Debug, PartialEq, Eq, Structural)]
pub struct Position {
    pub x: i32,
    pub y: i32,
}

/// The characteristics of a fighter (the player or a monster).
#[derive(Clone, Copy, Debug, PartialEq, Eq, Structural)]
pub struct Character {
    pub strength: u32,
    pub dexterity: u32,
    pub willpower: u32,
    pub intelligence: u32,
    pub charisma: u32,
    pub level: u32,
    pub xp: u32,
    pub life: u32,
}

/// The characteristics every new player starts with.
pub open spec fn starting_character() -> Character {
    Character {
        strength: 8,
        dexterity: 8,
        willpower: 8,
        intelligence: 8,
        charisma: 8,
        level: 1,
        xp: 0,
        life: 10,
    }
}

impl Default for Character {
    fn default() -> (r: Self)
        ensures
            r == starting_character(),
    {
        Character {
            strength: 8,
            dexterity: 8,
            willpower: 8,
            intelligence: 8,
            charisma: 8,
            level: 1,
            xp: 0,
            life: 10,
        }
    }
}

/// The rows of the character panel: each characteristic's label and value,
/// in the order the panel shows them.
pub open spec fn attribute_table(c: Character) -> Seq<(Seq<char>, u32)> {
    seq![
        ("Strength:"@, c.strength),
        ("Dexterity:"@, c.dexterity),
        ("Willpower:"@, c.willpower),
        ("Intelligence:"@, c.intelligence),
        ("Charisma:"@, c.charisma),
        ("Level:"@, c.level),
        ("Experience:"@, c.xp),
        ("Life:"@, c.life),
    ]
}

impl Character {
    /// The rows of the character panel (see `attribute_table`).
    pub fn attribute_rows(&self) -> (r: Vec<(&'static str, u32)>)
        ensures
            r@.map_values(|p: (&str, u32)| (p.0@, p.1)) == attribute_table(*self),
    {
        let r = vec![
            ("Strength:", self.strength),
            ("Dexterity:", self.dexterity),
            ("Willpower:", self.willpower),
            ("Intelligence:", self.intelligence),
            ("Charisma:", self.charisma),
            ("Level:", self.level),
            ("Experience:", self.xp),
            ("Life:", self.life),
        ];
        assert(r@.map_values(|p: (&str, u32)| (p.0@, p.1)) =~= attribute_table(*self));
        r
    }
}

/// A weapon deals between `damage_min` and `damage_max` points of damage.
#[derive(Clone, Copy, Debug, PartialEq, Eq, Structural)]
pub struct Weapon {
    pub damage_min: i32,
    pub damage_max: i32,
}

} // verus!
