use vstd::prelude::*;
use crate::rect::Rect;

verus! {

/// A room of a stage: its outline and what the player reads on entering.
#[derive(Debug)]
pub struct Room {
    pub dimensions: Rect,
    pub name: String,
    pub description: String,
}

/// A passage of `width` tiles between two rooms, named by their codes.
#[derive(Debug)]
pub struct Door {
    pub room1: String,
    pub room2: String,
    pub width: usize,
}

#[derive(Debug)]
pub struct StageItem {
    pub name: String,
    pub position: (i32, i32),
}

#[derive(Debug)]
pub struct WeaponRef {
    pub key: String,
    pub position: (i32, i32),
}

#[derive(Debug)]
pub struct PotionRef {
    pub key: String,
    pub position: (i32, i32),
}

#[derive(Debug)]
pub struct StageNPC {
    pub name: String,
    pub position: (i32, i32),
    pub interactions: Vec<Interaction>,
}

#[derive(Debug)]
pub struct StageAffordance {
    pub name: String,
    pub position: (i32, i32),
    pub interactions: Vec<Interaction>,
}

/// Whether an interaction happens by itself or waits for the player's consent.
#[derive(Clone, Copy, Debug, PartialEq, Eq, Structural)]
pub enum InteractionType {
    Automatic,
    Question,
}

impl Default for InteractionType {
    fn default() -> (r: Self)
        ensures
            r == InteractionType::Automatic,
    {
        InteractionType::Automatic
    }
}

/// A scripted interaction: it is available when all its conditions hold,
/// shows a text and performs its actions.
#[derive(Debug)]
pub struct Interaction {
    pub conditions: Vec<Condition>,
    pub text: String,
    pub actions: Vec<Action>,
    pub interaction_type: InteractionType,
    pub after_text: String,
}

impl Interaction {
    /// An automatic interaction without text or conditions that performs one action.
    pub fn internal(action: Action) -> (r: Interaction)
        ensures
            r.conditions@.len() == 0,
            r.text@.len() == 0,
            r.actions@ == seq![action],
            r.interaction_type == InteractionType::Automatic,
            r.after_text@.len() == 0,
    {
        Interaction {
            conditions: Vec::new(),
            text: String::new(),
            actions: vec![action],
            interaction_type: InteractionType::Automatic,
            after_text: String::new(),
        }
    }

    /// The interaction as it runs once the player has accepted it: the
    /// same interaction, showing its after-text.
    pub fn accepted(&self) -> (r: Interaction)
        ensures
            r.conditions@ == self.conditions@,
            r.text@ == self.after_text@,
            r.actions@ == self.actions@,
            r.interaction_type == self.interaction_type,
            r.after_text@ == self.after_text@,
    {
        let r = Interaction {
            conditions: self.conditions.clone(),
            text: self.after_text.clone(),
            actions: self.actions.clone(),
            interaction_type: self.interaction_type,
            after_text: self.after_text.clone(),
        };
        assert(r.conditions@ =~= self.conditions@);
        assert(r.actions@ =~= self.actions@);
        r
    }
}

impl Clone for Interaction {
    fn clone(&self) -> (r: Self)
        ensures
            r.conditions@ == self.conditions@,
            r.text@ == self.text@,
            r.actions@ == self.actions@,
            r.interaction_type == self.interaction_type,
            r.after_text@ == self.after_text@,
    {
        let r = Interaction {
            conditions: self.conditions.clone(),
            text: self.text.clone(),
            actions: self.actions.clone(),
            interaction_type: self.interaction_type,
            after_text: self.after_text.clone(),
        };
        assert(r.conditions@ =~= self.conditions@);
        assert(r.actions@ =~= self.actions@);
        r
    }
}

/// A condition on the game's progress.
#[derive(Debug)]
pub enum Condition {
    IfFlag(String, String),
    IfItem(String),
    IfQuestAchieved(String),
}

impl Clone for Condition {
    fn clone(&self) -> (r: Self)
        ensures
            r == *self,
    {
        match self {
            Condition::IfFlag(q, f) => Condition::IfFlag(q.clone(), f.clone()),
            Condition::IfItem(i) => Condition::IfItem(i.clone()),
            Condition::IfQuestAchieved(q) => Condition::IfQuestAchieved(q.clone()),
        }
    }
}

/// What an interaction does to the game.
#[derive(Debug)]
pub enum Action {
    SetFlag(String, String),
    RemoveFlag(String, String),
    AddDiary(String, String),
    UseItem(String),
    RaiseXP(u32),
    UpdateCharacter(String, i32),
    StartQuest(String),
    CompleteQuest(String, u32),
    LearnSpell(String, u32),
    PickupPotion(String),
    AddDoor(String, String, usize),
    DrinkPotion(String),
}

impl Clone for Action {
    fn clone(&self) -> (r: Self)
        ensures
            r == *self,
    {
        match self {
            Action::SetFlag(a, b) => Action::SetFlag(a.clone(), b.clone()),
            Action::RemoveFlag(a, b) => Action::RemoveFlag(a.clone(), b.clone()),
            Action::AddDiary(a, b) => Action::AddDiary(a.clone(), b.clone()),
            Action::UseItem(a) => Action::UseItem(a.clone()),
            Action::RaiseXP(n) => Action::RaiseXP(*n),
            Action::UpdateCharacter(a, n) => Action::UpdateCharacter(a.clone(), *n),
            Action::StartQuest(a) => Action::StartQuest(a.clone()),
            Action::CompleteQuest(a, n) => Action::CompleteQuest(a.clone(), *n),
            Action::LearnSpell(a, n) => Action::LearnSpell(a.clone(), *n),
            Action::PickupPotion(a) => Action::PickupPotion(a.clone()),
            Action::AddDoor(a, b, w) => Action::AddDoor(a.clone(), b.clone(), *w),
            Action::DrinkPotion(a) => Action::DrinkPotion(a.clone()),
        }
    }
}

#[derive(Debug)]
pub struct MonsterRef {
    pub key: String,
    pub items: Vec<StageItem>,
    pub actions: Vec<Action>,
    pub rooms: Vec<String>,
}

/// A stage: its rooms (by code), doors, and everything placed in it.
/// Each keyed list holds every key at most once.
#[derive(Debug)]
pub struct Stage {
    pub name: String,
    pub rooms: Vec<(String, Room)>,
    pub start: String,
    pub doors: Vec<Door>,
    pub items: Vec<(String, StageItem)>,
    pub weapons: Vec<WeaponRef>,
    pub npcs: Vec<(String, StageNPC)>,
    pub affordances: Vec<(String, StageAffordance)>,
    pub quests: Vec<(String, String)>,
    pub potions: Vec<PotionRef>,
    pub monsters: Vec<MonsterRef>,
}


/// The value of the first entry with key `key` in an association list.
pub fn entry_for<'a, V>(entries: &'a Vec<(String, V)>, key: &String) -> (r: Option<&'a V>)
    ensures
        match r {
            None => forall|i: int| 0 <= i < entries@.len() ==> #[trigger] entries@[i].0@ != key@,
            Some(v) => exists|i: int|
                0 <= i < entries@.len() && #[trigger] entries@[i].0@ == key@ && *v == entries@[i].1
                    && forall|j: int| 0 <= j < i ==> #[trigger] entries@[j].0@ != key@,
        },
{
    let mut i: usize = 0;
    while i < entries.len()
        invariant
            i <= entries@.len(),
            forall|j: int| 0 <= j < i ==> #[trigger] entries@[j].0@ != key@,
        decreases entries@.len() - i,
    {
        if entries[i].0 == *key {
            return Some(&entries[i].1);
        }
        i = i + 1;
    }
    None
}

impl Stage {
    /// No room code occurs twice.
    pub open spec fn room_keys_unique(self) -> bool {
        forall|i: int, j: int|
            0 <= i < j < self.rooms@.len() ==> #[trigger] self.rooms@[i].0@ != #[trigger] self.rooms@[j].0@
    }

    /// The stage has a room with this code.
    pub open spec fn has_room(self, code: Seq<char>) -> bool {
        exists|i: int| 0 <= i < self.rooms@.len() && #[trigger] self.rooms@[i].0@ == code
    }

    /// The position of the room with this code.
    pub open spec fn room_index(self, code: Seq<char>) -> int {
        choose|i: int| 0 <= i < self.rooms@.len() && #[trigger] self.rooms@[i].0@ == code
    }

    /// The outline of the room with this code.
    pub open spec fn room_outline(self, code: Seq<char>) -> Rect {
        self.rooms@[self.room_index(code)].1.dimensions
    }

    /// The room with the given code, if the stage has one.
    pub fn room(&self, code: &String) -> (r: Option<&Room>)
        requires
            self.room_keys_unique(),
        ensures
            r is Some <==> self.has_room(code@),
            r matches Some(room) ==> *room == self.rooms@[self.room_index(code@)].1,
    {
        let mut i: usize = 0;
        while i < self.rooms.len()
            invariant
                self.room_keys_unique(),
                i <= self.rooms@.len(),
                forall|k: int| 0 <= k < i ==> #[trigger] self.rooms@[k].0@ != code@,
            decreases self.rooms@.len() - i,
        {
            if self.rooms[i].0 == *code {
                proof {
                    assert(self.rooms@[i as int].0@ == code@);
                    assert(self.has_room(code@));
                    let j = self.room_index(code@);
                    if j != i {
                        if j < i {
                            assert(self.rooms@[j].0@ != code@);
                        } else {
                            assert(self.rooms@[i as int].0@ != self.rooms@[j].0@);
                        }
                    }
                }
                return Some(&self.rooms[i].1);
            }
            i = i + 1;
        }
        None
    }
}

} // verus!
