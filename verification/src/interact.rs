use vstd::prelude::*;
use vstd::utf8::{encode_utf8, encode_utf8_decode_utf8};
use crate::components::Character;
use crate::global::{Global, Effect};
use crate::progress::{Flags, Journal, PlayerResource, PlayerView, Carried, carried_view, done_flag, pair_view, condition_holds};
use crate::stage::Condition;
use crate::stage::Action;

verus! {

/// A characteristic that interactions can change.
#[derive(Clone, Copy, Debug, PartialEq, Eq, Structural)]
pub enum Stat {
    Charisma,
    Strength,
    Dexterity,
    Willpower,
    Intelligence,
    Life,
    Xp,
}

/// The characteristic with this name.
pub open spec fn stat_named(name: Seq<char>) -> Option<Stat> {
    if name == "charisma"@ {
        Some(Stat::Charisma)
    } else if name == "strength"@ {
        Some(Stat::Strength)
    } else if name == "dexterity"@ {
        Some(Stat::Dexterity)
    } else if name == "willpower"@ {
        Some(Stat::Willpower)
    } else if name == "intelligence"@ {
        Some(Stat::Intelligence)
    } else if name == "life"@ {
        Some(Stat::Life)
    } else if name == "xp"@ {
        Some(Stat::Xp)
    } else {
        None
    }
}

pub open spec fn stat_value(c: Character, s: Stat) -> u32 {
    match s {
        Stat::Charisma => c.charisma,
        Stat::Strength => c.strength,
        Stat::Dexterity => c.dexterity,
        Stat::Willpower => c.willpower,
        Stat::Intelligence => c.intelligence,
        Stat::Life => c.life,
        Stat::Xp => c.xp,
    }
}

pub open spec fn with_stat(c: Character, s: Stat, v: u32) -> Character {
    match s {
        Stat::Charisma => Character { charisma: v, ..c },
        Stat::Strength => Character { strength: v, ..c },
        Stat::Dexterity => Character { dexterity: v, ..c },
        Stat::Willpower => Character { willpower: v, ..c },
        Stat::Intelligence => Character { intelligence: v, ..c },
        Stat::Life => Character { life: v, ..c },
        Stat::Xp => Character { xp: v, ..c },
    }
}

/// The characteristic named `name`, if there is one.
pub fn stat_of(name: &String) -> (r: Option<Stat>)
    ensures
        r == stat_named(name@),
{
    if *name == "charisma".to_owned() {
        Some(Stat::Charisma)
    } else if *name == "strength".to_owned() {
        Some(Stat::Strength)
    } else if *name == "dexterity".to_owned() {
        Some(Stat::Dexterity)
    } else if *name == "willpower".to_owned() {
        Some(Stat::Willpower)
    } else if *name == "intelligence".to_owned() {
        Some(Stat::Intelligence)
    } else if *name == "life".to_owned() {
        Some(Stat::Life)
    } else if *name == "xp".to_owned() {
        Some(Stat::Xp)
    } else {
        None
    }
}

/// Byte sequence `a` comes strictly before `b` in lexicographic order (a
/// proper prefix comes first).
pub open spec fn bytes_lt(a: Seq<u8>, b: Seq<u8>) -> bool
    decreases a.len(),
{
    if a.len() == 0 {
        b.len() > 0
    } else if b.len() == 0 {
        false
    } else if a[0] < b[0] {
        true
    } else if a[0] == b[0] {
        bytes_lt(a.drop_first(), b.drop_first())
    } else {
        false
    }
}

/// Name `a` comes strictly before name `b` in the order of `String`: the
/// lexicographic order of their UTF-8 bytes.
#[verifier::opaque]
pub open spec fn name_before(a: Seq<char>, b: Seq<char>) -> bool {
    bytes_lt(encode_utf8(a), encode_utf8(b))
}

/// No byte sequence comes before itself.
pub proof fn lemma_bytes_lt_irreflexive(a: Seq<u8>)
    ensures
        !bytes_lt(a, a),
    decreases a.len(),
{
    if a.len() > 0 {
        lemma_bytes_lt_irreflexive(a.drop_first());
    }
}

/// The byte order is transitive.
pub proof fn lemma_bytes_lt_transitive(a: Seq<u8>, b: Seq<u8>, c: Seq<u8>)
    requires
        bytes_lt(a, b),
        bytes_lt(b, c),
    ensures
        bytes_lt(a, c),
    decreases a.len(),
{
    if a.len() > 0 && b.len() > 0 && c.len() > 0 && a[0] == b[0] && b[0] == c[0] {
        lemma_bytes_lt_transitive(a.drop_first(), b.drop_first(), c.drop_first());
    }
}

/// Of two different byte sequences one comes before the other.
pub proof fn lemma_bytes_lt_total(a: Seq<u8>, b: Seq<u8>)
    requires
        a != b,
    ensures
        bytes_lt(a, b) || bytes_lt(b, a),
    decreases a.len(),
{
    if a.len() > 0 && b.len() > 0 && a[0] == b[0] {
        if a.drop_first() == b.drop_first() {
            assert(a =~= seq![a[0]] + a.drop_first());
            assert(b =~= seq![b[0]] + b.drop_first());
        }
        lemma_bytes_lt_total(a.drop_first(), b.drop_first());
    } else if a.len() == 0 && b.len() == 0 {
        assert(a =~= b);
    }
}

/// The name order is a strict total order on names.
pub proof fn lemma_name_order(a: Seq<char>, b: Seq<char>, c: Seq<char>)
    ensures
        !name_before(a, a),
        name_before(a, b) && name_before(b, c) ==> name_before(a, c),
        a != b ==> name_before(a, b) || name_before(b, a),
{
    reveal(name_before);
    lemma_bytes_lt_irreflexive(encode_utf8(a));
    if name_before(a, b) && name_before(b, c) {
        lemma_bytes_lt_transitive(encode_utf8(a), encode_utf8(b), encode_utf8(c));
    }
    if a != b {
        encode_utf8_decode_utf8(a);
        encode_utf8_decode_utf8(b);
        lemma_bytes_lt_total(encode_utf8(a), encode_utf8(b));
    }
}

/// Whether byte sequence `a` comes strictly before `b`.
fn bytes_before(a: &[u8], b: &[u8]) -> (r: bool)
    ensures
        r == bytes_lt(a@, b@),
{
    let mut i: usize = 0;
    assert(a@.skip(0) =~= a@);
    assert(b@.skip(0) =~= b@);
    while i < a.len() && i < b.len() && a[i] == b[i]
        invariant
            i <= a@.len(),
            i <= b@.len(),
            bytes_lt(a@, b@) == bytes_lt(a@.skip(i as int), b@.skip(i as int)),
        decreases a@.len() - i,
    {
        assert(a@.skip(i as int).drop_first() =~= a@.skip(i + 1));
        assert(b@.skip(i as int).drop_first() =~= b@.skip(i + 1));
        i = i + 1;
    }
    if i == a.len() {
        i < b.len()
    } else if i == b.len() {
        false
    } else {
        a[i] < b[i]
    }
}

/// Whether name `a` comes strictly before name `b` (see `name_before`).
fn name_is_before(a: &String, b: &String) -> (r: bool)
    ensures
        r == name_before(a@, b@),
{
    reveal(name_before);
    bytes_before(a.as_str().as_bytes(), b.as_str().as_bytes())
}

/// The spells a wizard knows, listed in the order of their names, each once.
pub struct Wizard {
    pub spells: Vec<String>,
}

impl View for Wizard {
    type V = Set<Seq<char>>;

    open spec fn view(&self) -> Set<Seq<char>> {
        Set::new(|s: Seq<char>| self.knows(s))
    }
}

impl Wizard {
    pub open spec fn knows(self, s: Seq<char>) -> bool {
        exists|i: int| 0 <= i < self.spells@.len() && #[trigger] self.spells@[i]@ == s
    }

    /// The spells are listed in strictly increasing name order, so none twice.
    pub open spec fn wf(self) -> bool {
        forall|i: int, j: int|
            0 <= i < j < self.spells@.len() ==> name_before(
                #[trigger] self.spells@[i]@,
                #[trigger] self.spells@[j]@,
            )
    }

    /// Whether the spells are listed in strictly increasing name order.
    pub fn is_ordered(&self) -> (r: bool)
        ensures
            r == self.wf(),
    {
        let n = self.spells.len();
        let mut i: usize = 0;
        while i < n
            invariant
                n == self.spells@.len(),
                i <= n,
                forall|a: int, b: int|
                    0 <= a < i && a < b < n ==> name_before(
                        #[trigger] self.spells@[a]@,
                        #[trigger] self.spells@[b]@,
                    ),
            decreases n - i,
        {
            let mut j: usize = i + 1;
            while j < n
                invariant
                    n == self.spells@.len(),
                    i < n,
                    i + 1 <= j <= n,
                    forall|a: int, b: int|
                        0 <= a < i && a < b < n ==> name_before(
                            #[trigger] self.spells@[a]@,
                            #[trigger] self.spells@[b]@,
                        ),
                    forall|b: int| i < b < j ==> name_before(self.spells@[i as int]@, #[trigger] self.spells@[b]@),
                decreases n - j,
            {
                if !name_is_before(&self.spells[i], &self.spells[j]) {
                    return false;
                }
                j = j + 1;
            }
            i = i + 1;
        }
        true
    }

    /// Learns `spell`, keeping the list in name order.
    pub fn learn(&mut self, spell: String)
        requires
            old(self).wf(),
        ensures
            final(self).wf(),
            final(self)@ == old(self)@.insert(spell@),
    {
        let mut i: usize = 0;
        while i < self.spells.len() && name_is_before(&self.spells[i], &spell)
            invariant
                *self == *old(self),
                i <= self.spells@.len(),
                forall|k: int| 0 <= k < i ==> name_before(#[trigger] self.spells@[k]@, spell@),
            decreases self.spells@.len() - i,
        {
            i = i + 1;
        }
        if i < self.spells.len() && self.spells[i] == spell {
            assert(self.knows(spell@));
            assert(self@ =~= old(self)@.insert(spell@));
            return ;
        }
        let ghost sv = spell@;
        let ghost o = self.spells@;
        proof {
            if i < o.len() {
                lemma_name_order(o[i as int]@, sv, sv);
                assert(name_before(sv, o[i as int]@));
            }
            assert forall|k: int| i <= k < o.len() implies name_before(sv, #[trigger] o[k]@) by {
                if k > i {
                    lemma_name_order(sv, o[i as int]@, o[k]@);
                }
            }
        }
        self.spells.insert(i, spell);
        proof {
            assert forall|a: int, b: int|
                0 <= a < b < self.spells@.len() implies name_before(
                #[trigger] self.spells@[a]@,
                #[trigger] self.spells@[b]@,
            ) by {
                if a < i {
                    assert(self.spells@[a] == o[a]);
                    if b == i {
                        assert(self.spells@[b]@ == sv);
                    } else if b > i {
                        assert(self.spells@[b] == o[b - 1]);
                    } else {
                        assert(self.spells@[b] == o[b]);
                    }
                } else if a == i {
                    assert(self.spells@[a]@ == sv);
                    assert(self.spells@[b] == o[b - 1]);
                } else {
                    assert(self.spells@[a] == o[a - 1]);
                    assert(self.spells@[b] == o[b - 1]);
                }
            }
            assert forall|t: Seq<char>| self.knows(t) == old(self)@.insert(sv).contains(t) by {
                if old(self).knows(t) {
                    let k = choose|k: int| 0 <= k < o.len() && #[trigger] o[k]@ == t;
                    if k < i {
                        assert(self.spells@[k]@ == t);
                    } else {
                        assert(self.spells@[k + 1]@ == t);
                    }
                }
                if t == sv {
                    assert(self.spells@[i as int]@ == t);
                }
                if self.knows(t) {
                    let k = choose|k: int| 0 <= k < self.spells@.len() && #[trigger] self.spells@[k]@ == t;
                    if k < i {
                        assert(o[k]@ == t);
                    } else if k > i {
                        assert(o[k - 1]@ == t);
                    }
                }
            }
            assert(self@ =~= old(self)@.insert(sv));
        }
    }
}

/// An action as character sequences.
pub enum ActionModel {
    SetFlag(Seq<char>, Seq<char>),
    RemoveFlag(Seq<char>, Seq<char>),
    AddDiary(Seq<char>, Seq<char>),
    UseItem(Seq<char>),
    RaiseXP(u32),
    UpdateCharacter(Seq<char>, i32),
    StartQuest(Seq<char>),
    CompleteQuest(Seq<char>, u32),
    LearnSpell(Seq<char>, u32),
    PickupPotion(Seq<char>),
    AddDoor(Seq<char>, Seq<char>, usize),
    DrinkPotion(Seq<char>),
}

impl View for Action {
    type V = ActionModel;

    open spec fn view(&self) -> ActionModel {
        match self {
            Action::SetFlag(a, b) => ActionModel::SetFlag(a@, b@),
            Action::RemoveFlag(a, b) => ActionModel::RemoveFlag(a@, b@),
            Action::AddDiary(a, b) => ActionModel::AddDiary(a@, b@),
            Action::UseItem(a) => ActionModel::UseItem(a@),
            Action::RaiseXP(n) => ActionModel::RaiseXP(*n),
            Action::UpdateCharacter(a, n) => ActionModel::UpdateCharacter(a@, *n),
            Action::StartQuest(a) => ActionModel::StartQuest(a@),
            Action::CompleteQuest(a, n) => ActionModel::CompleteQuest(a@, *n),
            Action::LearnSpell(a, n) => ActionModel::LearnSpell(a@, *n),
            Action::PickupPotion(a) => ActionModel::PickupPotion(a@),
            Action::AddDoor(a, b, w) => ActionModel::AddDoor(a@, b@, *w),
            Action::DrinkPotion(a) => ActionModel::DrinkPotion(a@),
        }
    }
}

/// The views of a list of actions.
pub open spec fn actions_view(actions: Seq<Action>) -> Seq<ActionModel> {
    actions.map_values(|a: Action| a@)
}

/// A change of the game world outside the player's progress that an
/// interaction asks for: removing the carried entities with a key, giving
/// the player a new potion, or carving a door between two rooms.
pub enum WorldChange {
    RemoveEquipped(String),
    CreatePotion(String),
    AddDoor(String, String, usize),
}

pub enum ChangeModel {
    RemoveEquipped(Seq<char>),
    CreatePotion(Seq<char>),
    AddDoor(Seq<char>, Seq<char>, usize),
}

impl View for WorldChange {
    type V = ChangeModel;

    open spec fn view(&self) -> ChangeModel {
        match self {
            WorldChange::RemoveEquipped(a) => ChangeModel::RemoveEquipped(a@),
            WorldChange::CreatePotion(a) => ChangeModel::CreatePotion(a@),
            WorldChange::AddDoor(a, b, w) => ChangeModel::AddDoor(a@, b@, *w),
        }
    }
}

/// The views of a list of world changes.
pub open spec fn changes_view(changes: Seq<WorldChange>) -> Seq<ChangeModel> {
    changes.map_values(|c: WorldChange| c@)
}

/// The player's progress, as interactions see it.
pub struct ProgressModel {
    pub flags: Set<(Seq<char>, Seq<char>)>,
    pub journal: Seq<(Seq<char>, Seq<char>)>,
    pub current: int,
    pub view: PlayerView,
    pub character: Character,
    pub spells: Set<Seq<char>>,
    pub carried: Seq<(Seq<char>, bool)>,
}

/// The player's progress: quest flags, diary, side panel, characteristics,
/// known spells and the keyed entities the player carries.
pub struct Progress {
    pub flags: Flags,
    pub journal: Journal,
    pub player: PlayerResource,
    pub character: Character,
    pub wizard: Wizard,
    pub carried: Vec<Carried>,
}

impl View for Progress {
    type V = ProgressModel;

    open spec fn view(&self) -> ProgressModel {
        ProgressModel {
            flags: self.flags@,
            journal: self.journal.entries@.map_values(|e: (String, String)| (e.0@, e.1@)),
            current: self.journal.current as int,
            view: self.player.player_view,
            character: self.character,
            spells: self.wizard@,
            carried: self.carried@.map_values(|c: Carried| carried_view(c)),
        }
    }
}

impl Progress {
    pub open spec fn wf(self) -> bool {
        self.flags.wf() && self.wizard.wf()
    }

    /// Whether the progress is well formed: no flag and no spell listed twice.
    pub fn is_well_formed(&self) -> (r: bool)
        ensures
            r == self.wf(),
    {
        self.flags.has_no_repeats() && self.wizard.is_ordered()
    }
}

/// The carried entities without those with key `key`, in order.
pub open spec fn without_key(carried: Seq<(Seq<char>, bool)>, key: Seq<char>) -> Seq<(Seq<char>, bool)>
    decreases carried.len(),
{
    if carried.len() == 0 {
        carried
    } else if carried.last().0 == key {
        without_key(carried.drop_last(), key)
    } else {
        without_key(carried.drop_last(), key).push(carried.last())
    }
}

/// `value` read as a signed 32-bit number, plus `amount` (unbounded; `step`
/// refuses a sum outside the `i32` range and raises a negative one to 0).
pub open spec fn shifted(value: u32, amount: i32) -> int {
    (value as i32) as int + amount
}

/// The effect of one action on the progress: the new progress, the actions
/// it triggers for the next round, and the world changes it asks for; `None`
/// where the action cannot be performed (an unknown characteristic or potion,
/// or a number that leaves its range).
pub open spec fn step(m: ProgressModel, a: ActionModel, g: Global) -> Option<
    (ProgressModel, Seq<ActionModel>, Seq<ChangeModel>),
> {
    match a {
        ActionModel::SetFlag(q, f) => Some(
            (ProgressModel { flags: m.flags.insert((q, f)), ..m }, seq![], seq![]),
        ),
        ActionModel::RemoveFlag(q, f) => Some(
            (ProgressModel { flags: m.flags.remove((q, f)), ..m }, seq![], seq![]),
        ),
        ActionModel::AddDiary(q, t) => if m.journal.len() < usize::MAX {
            Some(
                (
                    ProgressModel {
                        journal: m.journal.push((q, t)),
                        current: m.journal.len() as int,
                        view: PlayerView::Diary,
                        ..m
                    },
                    seq![],
                    seq![],
                ),
            )
        } else {
            None
        },
        ActionModel::UseItem(item) => Some(
            (
                ProgressModel { carried: without_key(m.carried, item), ..m },
                seq![],
                seq![ChangeModel::RemoveEquipped(item)],
            ),
        ),
        ActionModel::RaiseXP(n) => if m.character.xp + n <= u32::MAX {
            Some(
                (
                    ProgressModel {
                        character: Character { xp: (m.character.xp + n) as u32, ..m.character },
                        ..m
                    },
                    seq![],
                    seq![],
                ),
            )
        } else {
            None
        },
        ActionModel::UpdateCharacter(name, amount) => match stat_named(name) {
            None => None,
            Some(s) => {
                let v = shifted(stat_value(m.character, s), amount);
                if i32::MIN <= v <= i32::MAX {
                    Some(
                        (
                            ProgressModel {
                                character: with_stat(
                                    m.character,
                                    s,
                                    if v > 0 {
                                        v as u32
                                    } else {
                                        0
                                    },
                                ),
                                ..m
                            },
                            seq![],
                            seq![],
                        ),
                    )
                } else {
                    None
                }
            },
        },
        ActionModel::StartQuest(q) => Some(
            (ProgressModel { flags: m.flags.insert((q, "STARTED"@)), ..m }, seq![], seq![]),
        ),
        ActionModel::CompleteQuest(q, xp) => if m.character.xp + xp <= u32::MAX {
            Some(
                (
                    ProgressModel {
                        flags: m.flags.insert((q, done_flag())),
                        character: Character { xp: (m.character.xp + xp) as u32, ..m.character },
                        ..m
                    },
                    seq![],
                    seq![],
                ),
            )
        } else {
            None
        },
        ActionModel::LearnSpell(spell, xp) => if m.character.xp + xp <= u32::MAX {
            Some(
                (
                    ProgressModel {
                        character: Character { xp: (m.character.xp + xp) as u32, ..m.character },
                        spells: m.spells.insert(spell),
                        view: PlayerView::Spells,
                        ..m
                    },
                    seq![],
                    seq![],
                ),
            )
        } else {
            None
        },
        ActionModel::PickupPotion(p) => if g.has_potion(p) {
            Some(
                (
                    ProgressModel { carried: m.carried.push((p, false)), ..m },
                    seq![],
                    seq![ChangeModel::CreatePotion(p)],
                ),
            )
        } else {
            None
        },
        ActionModel::AddDoor(r1, r2, w) => Some((m, seq![], seq![ChangeModel::AddDoor(r1, r2, w)])),
        ActionModel::DrinkPotion(p) => if g.has_potion(p) {
            Some(
                (
                    m,
                    seq![ActionModel::UseItem(p)] + g.potion_effects(p).map_values(
                        |e: (Seq<char>, i32)| ActionModel::UpdateCharacter(e.0, e.1),
                    ),
                    seq![],
                ),
            )
        } else {
            None
        },
    }
}

/// One round: the actions performed in order, collecting the actions they
/// trigger and the world changes they ask for.
pub open spec fn run_round(m: ProgressModel, actions: Seq<ActionModel>, g: Global) -> Option<
    (ProgressModel, Seq<ActionModel>, Seq<ChangeModel>),
>
    decreases actions.len(),
{
    if actions.len() == 0 {
        Some((m, seq![], seq![]))
    } else {
        match run_round(m, actions.drop_last(), g) {
            None => None,
            Some((m1, n1, c1)) => match step(m1, actions.last(), g) {
                None => None,
                Some((m2, n2, c2)) => Some((m2, n1 + n2, c1 + c2)),
            },
        }
    }
}

/// Rounds are run until no action is left; `None` also where more than
/// `rounds` rounds would be needed.
pub open spec fn run_rounds(m: ProgressModel, actions: Seq<ActionModel>, g: Global, rounds: nat) -> Option<
    (ProgressModel, Seq<ChangeModel>),
>
    decreases rounds,
{
    if actions.len() == 0 {
        Some((m, seq![]))
    } else if rounds == 0 {
        None
    } else {
        match run_round(m, actions, g) {
            None => None,
            Some((m1, n1, c1)) => match run_rounds(m1, n1, g, (rounds - 1) as nat) {
                None => None,
                Some((m2, c2)) => Some((m2, c1 + c2)),
            },
        }
    }
}

/// The outcome of performing the actions of an interaction. Only drinking
/// a potion triggers further actions, and those trigger none, so two rounds
/// always suffice (see `lemma_two_rounds_suffice`).
pub open spec fn interaction_outcome(m: ProgressModel, actions: Seq<ActionModel>, g: Global) -> Option<
    (ProgressModel, Seq<ChangeModel>),
> {
    run_rounds(m, actions, g, 2)
}


impl Progress {
    /// Drops every carried entity with key `item`.
    fn remove_carried(&mut self, item: &String)
        ensures
            final(self).flags == old(self).flags,
            final(self).journal == old(self).journal,
            final(self).player == old(self).player,
            final(self).character == old(self).character,
            final(self).wizard == old(self).wizard,
            final(self).carried@.map_values(|c: Carried| carried_view(c)) == without_key(
                old(self).carried@.map_values(|c: Carried| carried_view(c)),
                item@,
            ),
    {
        let ghost cv = self.carried@.map_values(|c: Carried| carried_view(c));
        let mut kept: Vec<Carried> = Vec::new();
        let mut i: usize = 0;
        while i < self.carried.len()
            invariant
                i <= self.carried@.len(),
                *self == *old(self),
                cv == self.carried@.map_values(|c: Carried| carried_view(c)),
                kept@.map_values(|c: Carried| carried_view(c)) == without_key(
                    cv.subrange(0, i as int),
                    item@,
                ),
            decreases self.carried@.len() - i,
        {
            assert(cv.subrange(0, i + 1).drop_last() =~= cv.subrange(0, i as int));
            assert(cv.subrange(0, i + 1).last() == carried_view(self.carried@[i as int]));
            if self.carried[i].key != *item {
                let c = Carried { key: self.carried[i].key.clone(), is_item: self.carried[i].is_item };
                let ghost before = kept@;
                kept.push(c);
                assert(kept@.map_values(|c: Carried| carried_view(c)) =~= before.map_values(
                    |c: Carried| carried_view(c),
                ).push(carried_view(c)));
            }
            i = i + 1;
        }
        assert(cv.subrange(0, i as int) =~= cv);
        self.carried = kept;
    }

    /// Performs one action: updates the progress, appends the actions it
    /// triggers to `next` and the world changes it asks for to `changes`.
    pub fn apply_action(
        &mut self,
        act: &Action,
        global: &Global,
        next: &mut Vec<Action>,
        changes: &mut Vec<WorldChange>,
    )
        requires
            old(self).wf(),
            global.potion_keys_unique(),
            step(old(self)@, act@, *global) is Some,
        ensures
            final(self).wf(),
            final(self)@ == step(old(self)@, act@, *global).unwrap().0,
            actions_view(final(next)@) == actions_view(old(next)@) + step(
                old(self)@,
                act@,
                *global,
            ).unwrap().1,
            changes_view(final(changes)@) == changes_view(old(changes)@) + step(
                old(self)@,
                act@,
                *global,
            ).unwrap().2,
    {
        let ghost m = self@;
        let ghost next0 = actions_view(next@);
        let ghost changes0 = changes_view(changes@);
        match act {
            Action::SetFlag(quest, flag) => {
                self.flags.insert(quest.clone(), flag.clone());
            },
            Action::RemoveFlag(quest, flag) => {
                self.flags.remove(quest, flag);
            },
            Action::AddDiary(quest, text) => {
                self.journal.add_entry(quest.clone(), text.clone());
                self.player.player_view = PlayerView::Diary;
                assert(self@.journal =~= m.journal.push((quest@, text@)));
            },
            Action::UseItem(item) => {
                self.remove_carried(item);
                changes.push(WorldChange::RemoveEquipped(item.clone()));
            },
            Action::RaiseXP(amount) => {
                self.character.xp += *amount;
            },
            Action::UpdateCharacter(chr, amount) => {
                match stat_of(chr) {
                    Some(Stat::Charisma) => {
                        self.character.charisma = (self.character.charisma as i32 + *amount).max(0) as u32;
                    },
                    Some(Stat::Strength) => {
                        self.character.strength = (self.character.strength as i32 + *amount).max(0) as u32;
                    },
                    Some(Stat::Dexterity) => {
                        self.character.dexterity = (self.character.dexterity as i32 + *amount).max(0) as u32;
                    },
                    Some(Stat::Willpower) => {
                        self.character.willpower = (self.character.willpower as i32 + *amount).max(0) as u32;
                    },
                    Some(Stat::Intelligence) => {
                        self.character.intelligence = (self.character.intelligence as i32
                            + *amount).max(0) as u32;
                    },
                    Some(Stat::Life) => {
                        self.character.life = (self.character.life as i32 + *amount).max(0) as u32;
                    },
                    Some(Stat::Xp) => {
                        self.character.xp = (self.character.xp as i32 + *amount).max(0) as u32;
                    },
                    None => {},
                }
            },
            Action::StartQuest(quest) => {
                self.flags.insert(quest.clone(), "STARTED".to_owned());
            },
            Action::CompleteQuest(quest, xp) => {
                self.flags.insert(quest.clone(), "DONE".to_owned());
                self.character.xp += *xp;
            },
            Action::LearnSpell(spell, xp) => {
                self.character.xp += *xp;
                self.wizard.learn(spell.clone());
                self.player.player_view = PlayerView::Spells;
            },
            Action::PickupPotion(potion) => {
                let carried = Carried { key: potion.clone(), is_item: false };
                let ghost before = self.carried@;
                self.carried.push(carried);
                assert(self.carried@.map_values(|c: Carried| carried_view(c)) =~= before.map_values(
                    |c: Carried| carried_view(c),
                ).push((potion@, false)));
                changes.push(WorldChange::CreatePotion(potion.clone()));
            },
            Action::DrinkPotion(potion) => {
                match global.potion(potion) {
                    Some(p) => {
                        let ghost effects = global.potion_effects(potion@);
                        let ghost start = next@;
                        next.push(Action::UseItem(potion.clone()));
                        let mut k: usize = 0;
                        while k < p.effects.len()
                            invariant
                                k <= p.effects@.len(),
                                effects == p.effects@.map_values(
                                    |e: Effect| (e.characteristic@, e.diff),
                                ),
                                actions_view(next@) == actions_view(start) + seq![
                                    ActionModel::UseItem(potion@),
                                ] + effects.subrange(0, k as int).map_values(
                                    |e: (Seq<char>, i32)| ActionModel::UpdateCharacter(e.0, e.1),
                                ),
                            decreases p.effects@.len() - k,
                        {
                            let ghost before = next@;
                            next.push(
                                Action::UpdateCharacter(
                                    p.effects[k].characteristic.clone(),
                                    p.effects[k].diff,
                                ),
                            );
                            assert(actions_view(next@) =~= actions_view(before).push(
                                ActionModel::UpdateCharacter(
                                    p.effects@[k as int].characteristic@,
                                    p.effects@[k as int].diff,
                                ),
                            ));
                            assert(effects.subrange(0, k + 1) =~= effects.subrange(0, k as int).push(
                                effects[k as int],
                            ));
                            assert(effects.subrange(0, k + 1).map_values(
                                |e: (Seq<char>, i32)| ActionModel::UpdateCharacter(e.0, e.1),
                            ) =~= effects.subrange(0, k as int).map_values(
                                |e: (Seq<char>, i32)| ActionModel::UpdateCharacter(e.0, e.1),
                            ).push(
                                ActionModel::UpdateCharacter(
                                    p.effects@[k as int].characteristic@,
                                    p.effects@[k as int].diff,
                                ),
                            ));
                            k = k + 1;
                        }
                        assert(effects.subrange(0, k as int) =~= effects);
                        assert(actions_view(next@) =~= actions_view(start) + (seq![
                            ActionModel::UseItem(potion@),
                        ] + effects.map_values(
                            |e: (Seq<char>, i32)| ActionModel::UpdateCharacter(e.0, e.1),
                        )));
                    },
                    None => {},
                }
            },
            Action::AddDoor(room1, room2, width) => {
                changes.push(WorldChange::AddDoor(room1.clone(), room2.clone(), *width));
            },
        }
        proof {
            let (m2, n2, c2) = step(m, act@, *global).unwrap();
            assert(self@ == m2);
            assert(actions_view(next@) =~= next0 + n2);
            assert(changes_view(changes@) =~= changes0 + c2);
        }
    }
}


impl Progress {
    /// Whether `act` can be performed on the current progress: its
    /// characteristic and potion exist and no number leaves its range.
    pub fn can_apply(&self, act: &Action, global: &Global) -> (r: bool)
        requires
            global.potion_keys_unique(),
        ensures
            r == step(self@, act@, *global) is Some,
    {
        match act {
            Action::AddDiary(_, _) => self.journal.entries.len() < usize::MAX,
            Action::RaiseXP(n) => *n <= u32::MAX - self.character.xp,
            Action::CompleteQuest(_, n) => *n <= u32::MAX - self.character.xp,
            Action::LearnSpell(_, n) => *n <= u32::MAX - self.character.xp,
            Action::UpdateCharacter(chr, amount) => {
                let value = match stat_of(chr) {
                    None => {
                        return false;
                    },
                    Some(Stat::Charisma) => self.character.charisma,
                    Some(Stat::Strength) => self.character.strength,
                    Some(Stat::Dexterity) => self.character.dexterity,
                    Some(Stat::Willpower) => self.character.willpower,
                    Some(Stat::Intelligence) => self.character.intelligence,
                    Some(Stat::Life) => self.character.life,
                    Some(Stat::Xp) => self.character.xp,
                };
                let v: i64 = value as i32 as i64 + *amount as i64;
                i32::MIN as i64 <= v && v <= i32::MAX as i64
            },
            Action::PickupPotion(p) => global.potion(p).is_some(),
            Action::DrinkPotion(p) => global.potion(p).is_some(),
            _ => true,
        }
    }

    /// Performs `actions` in order and returns the actions they trigger; the
    /// world changes they ask for are appended to `changes`. `None` when one
    /// of the actions cannot be performed.
    pub fn apply_round(&mut self, actions: &Vec<Action>, global: &Global, changes: &mut Vec<WorldChange>) -> (next:
        Option<Vec<Action>>)
        requires
            old(self).wf(),
            global.potion_keys_unique(),
        ensures
            final(self).wf(),
            next is Some <==> run_round(old(self)@, actions_view(actions@), *global) is Some,
            next matches Some(n) ==> {
                &&& final(self)@ == run_round(old(self)@, actions_view(actions@), *global).unwrap().0
                &&& actions_view(n@) == run_round(old(self)@, actions_view(actions@), *global).unwrap().1
                &&& changes_view(final(changes)@) == changes_view(old(changes)@) + run_round(
                    old(self)@,
                    actions_view(actions@),
                    *global,
                ).unwrap().2
            },
    {
        let ghost m0 = self@;
        let ghost c0 = changes_view(changes@);
        let ghost all = actions_view(actions@);
        let mut next: Vec<Action> = Vec::new();
        let mut i: usize = 0;
        proof {
            assert(all.subrange(0, 0) =~= Seq::<ActionModel>::empty());
            assert(actions_view(next@) =~= Seq::<ActionModel>::empty());
        }
        while i < actions.len()
            invariant
                i <= actions@.len(),
                m0 == old(self)@,
                all == actions_view(actions@),
                global.potion_keys_unique(),
                self.wf(),
                run_round(m0, all.subrange(0, i as int), *global) == Some(
                    (
                        self@,
                        actions_view(next@),
                        changes_view(changes@).subrange(
                            c0.len() as int,
                            changes_view(changes@).len() as int,
                        ),
                    ),
                ),
                changes_view(changes@).subrange(0, c0.len() as int) == c0,
                c0.len() <= changes_view(changes@).len(),
            decreases actions@.len() - i,
        {
            proof {
                assert(all.subrange(0, i + 1).drop_last() =~= all.subrange(0, i as int));
                assert(all.subrange(0, i + 1).last() == actions@[i as int]@);
            }
            if !self.can_apply(&actions[i], global) {
                proof {
                    assert(run_round(m0, all.subrange(0, i + 1), *global) is None);
                    if run_round(m0, all, *global) is Some {
                        lemma_run_round_prefix(m0, all, *global, i as int + 1);
                    }
                }
                return None;
            }
            let ghost before_changes = changes_view(changes@);
            self.apply_action(&actions[i], global, &mut next, changes);
            proof {
                let c = changes_view(changes@);
                assert(c.subrange(0, c0.len() as int) =~= before_changes.subrange(0, c0.len() as int));
                assert(c.subrange(c0.len() as int, c.len() as int) =~= before_changes.subrange(
                    c0.len() as int,
                    before_changes.len() as int,
                ) + step(
                    run_round(m0, all.subrange(0, i as int), *global).unwrap().0,
                    all[i as int],
                    *global,
                ).unwrap().2);
            }
            i = i + 1;
        }
        proof {
            assert(all.subrange(0, i as int) =~= all);
            let c = changes_view(changes@);
            assert(c =~= c0 + c.subrange(c0.len() as int, c.len() as int));
        }
        Some(next)
    }

    /// Performs the actions of one interaction: round after round, each
    /// round's actions triggering those of the next, until none is left.
    /// Returns the world changes asked for, in order; `None` when an action
    /// cannot be performed.
    fn perform(&mut self, actions: &Vec<Action>, global: &Global) -> (changes: Option<
        Vec<WorldChange>,
    >)
        requires
            old(self).wf(),
            global.potion_keys_unique(),
        ensures
            final(self).wf(),
            changes is Some <==> interaction_outcome(old(self)@, actions_view(actions@), *global) is Some,
            changes matches Some(c) ==> {
                &&& final(self)@ == interaction_outcome(old(self)@, actions_view(actions@), *global).unwrap().0
                &&& changes_view(c@) == interaction_outcome(old(self)@, actions_view(actions@), *global).unwrap().1
            },
    {
        let ghost m0 = self@;
        let ghost a0 = actions_view(actions@);
        let mut changes: Vec<WorldChange> = Vec::new();
        let mut current: Vec<Action> = actions.clone();
        let ghost mut rounds: nat = 2;
        proof {
            assert(actions_view(current@) =~= a0);
            assert(changes_view(changes@) =~= Seq::<ChangeModel>::empty());
        }
        while current.len() > 0
            invariant
                global.potion_keys_unique(),
                self.wf(),
                m0 == old(self)@,
                a0 == actions_view(actions@),
                rounds <= 2,
                rounds == 1 ==> drinks_nothing(actions_view(current@)),
                rounds == 0 ==> current@.len() == 0,
                interaction_outcome(m0, a0, *global) == match run_rounds(
                    self@,
                    actions_view(current@),
                    *global,
                    rounds,
                ) {
                    None => None,
                    Some((m, c)) => Some((m, changes_view(changes@) + c)),
                },
            decreases rounds,
        {
            let ghost m = self@;
            let ghost cur = actions_view(current@);
            let ghost c_before = changes_view(changes@);
            match self.apply_round(&current, global, &mut changes) {
                None => {
                    proof {
                        assert(rounds > 0);
                        assert(run_rounds(m, cur, *global, rounds) is None);
                    }
                    return None;
                },
                Some(next) => {
                    proof {
                        let (m1, n1, c1) = run_round(m, cur, *global).unwrap();
                        lemma_round_triggers(m, cur, *global);
                        assert(changes_view(changes@) == c_before + c1);
                        match run_rounds(m1, n1, *global, (rounds - 1) as nat) {
                            None => {},
                            Some((m2, c2)) => {
                                assert(c_before + (c1 + c2) =~= changes_view(changes@) + c2);
                            },
                        }
                        rounds = (rounds - 1) as nat;
                    }
                    current = next;
                },
            }
        }
        proof {
            assert(changes_view(changes@) + Seq::<ChangeModel>::empty() =~= changes_view(changes@));
        }
        Some(changes)
    }
}

impl Progress {
    /// Performs the actions of one interaction: round after round, each
    /// round's actions triggering those of the next, until none is left.
    /// Returns the world changes asked for, in order. Every action must be
    /// possible (see `can_run_interaction`).
    pub fn run_interaction(&mut self, actions: &Vec<Action>, global: &Global) -> (changes: Vec<WorldChange>)
        requires
            old(self).wf(),
            global.potion_keys_unique(),
            interaction_outcome(old(self)@, actions_view(actions@), *global) is Some,
        ensures
            final(self).wf(),
            final(self)@ == interaction_outcome(old(self)@, actions_view(actions@), *global).unwrap().0,
            changes_view(changes@) == interaction_outcome(old(self)@, actions_view(actions@), *global).unwrap().1,
    {
        match self.perform(actions, global) {
            Some(c) => c,
            None => Vec::new(),
        }
    }

    /// Whether every action of an interaction with `actions` can be
    /// performed on this progress: no unknown characteristic or potion and
    /// no number leaving its range.
    pub fn can_run_interaction(&self, actions: &Vec<Action>, global: &Global) -> (r: bool)
        requires
            self.wf(),
            global.potion_keys_unique(),
        ensures
            r == interaction_outcome(self@, actions_view(actions@), *global) is Some,
    {
        let mut probe = self.duplicate();
        probe.perform(actions, global).is_some()
    }

    /// A copy of the progress.
    fn duplicate(&self) -> (r: Progress)
        ensures
            r@ == self@,
            r.wf() == self.wf(),
    {
        let r = Progress {
            flags: Flags { set: copy_pairs(&self.flags.set) },
            journal: Journal { entries: copy_pairs(&self.journal.entries), current: self.journal.current },
            player: PlayerResource { player_view: self.player.player_view },
            character: self.character,
            wizard: Wizard { spells: copy_strings(&self.wizard.spells) },
            carried: copy_carried(&self.carried),
        };
        assert(r.flags.set@ == self.flags.set@);
        assert forall|p: (Seq<char>, Seq<char>)| r.flags.holds(p) == self.flags.holds(p) by {
            if r.flags.holds(p) {
                let i = choose|i: int| 0 <= i < r.flags.set@.len() && #[trigger] pair_view(r.flags.set@[i]) == p;
                assert(pair_view(self.flags.set@[i]) == p);
            }
            if self.flags.holds(p) {
                let i = choose|i: int|
                    0 <= i < self.flags.set@.len() && #[trigger] pair_view(self.flags.set@[i]) == p;
                assert(pair_view(r.flags.set@[i]) == p);
            }
        }
        assert(r.flags@ =~= self.flags@);
        assert(r.wizard.spells@ == self.wizard.spells@);
        assert forall|t: Seq<char>| r.wizard.knows(t) == self.wizard.knows(t) by {
            if r.wizard.knows(t) {
                let i = choose|i: int| 0 <= i < r.wizard.spells@.len() && #[trigger] r.wizard.spells@[i]@ == t;
                assert(self.wizard.spells@[i]@ == t);
            }
            if self.wizard.knows(t) {
                let i = choose|i: int|
                    0 <= i < self.wizard.spells@.len() && #[trigger] self.wizard.spells@[i]@ == t;
                assert(r.wizard.spells@[i]@ == t);
            }
        }
        assert(r.wizard@ =~= self.wizard@);
        assert(r@ =~= self@);
        r
    }
}

/// A copy of a list of string pairs.
fn copy_pairs(v: &Vec<(String, String)>) -> (r: Vec<(String, String)>)
    ensures
        r@ == v@,
{
    let mut r: Vec<(String, String)> = Vec::new();
    let mut i: usize = 0;
    while i < v.len()
        invariant
            i <= v@.len(),
            r@ == v@.subrange(0, i as int),
        decreases v@.len() - i,
    {
        r.push((v[i].0.clone(), v[i].1.clone()));
        assert(r@ =~= v@.subrange(0, i + 1));
        i = i + 1;
    }
    assert(v@.subrange(0, i as int) =~= v@);
    r
}

/// A copy of a list of strings.
fn copy_strings(v: &Vec<String>) -> (r: Vec<String>)
    ensures
        r@ == v@,
{
    let mut r: Vec<String> = Vec::new();
    let mut i: usize = 0;
    while i < v.len()
        invariant
            i <= v@.len(),
            r@ == v@.subrange(0, i as int),
        decreases v@.len() - i,
    {
        r.push(v[i].clone());
        assert(r@ =~= v@.subrange(0, i + 1));
        i = i + 1;
    }
    assert(v@.subrange(0, i as int) =~= v@);
    r
}

/// A copy of a list of carried entities.
fn copy_carried(v: &Vec<Carried>) -> (r: Vec<Carried>)
    ensures
        r@ == v@,
{
    let mut r: Vec<Carried> = Vec::new();
    let mut i: usize = 0;
    while i < v.len()
        invariant
            i <= v@.len(),
            r@ == v@.subrange(0, i as int),
        decreases v@.len() - i,
    {
        r.push(Carried { key: v[i].key.clone(), is_item: v[i].is_item });
        assert(r@ =~= v@.subrange(0, i + 1));
        i = i + 1;
    }
    assert(v@.subrange(0, i as int) =~= v@);
    r
}

/// Each characteristic name changes exactly the characteristic of that name:
/// `UpdateCharacter(name, d)` adds `d` to that one field (read as a signed
/// 32-bit number, raised to 0 when negative) and leaves every other field and
/// the rest of the progress alone; it fails only when the sum leaves the
/// `i32` range. Any other name is refused.
pub proof fn lemma_update_character_names(m: ProgressModel, d: i32, g: Global, other: Seq<char>)
    requires
        other != "charisma"@,
        other != "strength"@,
        other != "dexterity"@,
        other != "willpower"@,
        other != "intelligence"@,
        other != "life"@,
        other != "xp"@,
    ensures
        step(m, ActionModel::UpdateCharacter("charisma"@, d), g) == ({
            let v = (m.character.charisma as i32) as int + d;
            if i32::MIN <= v <= i32::MAX {
                Some(
                    (
                        ProgressModel {
                            character: Character { charisma: if v > 0 { v as u32 } else { 0 }, ..m.character },
                            ..m
                        },
                        Seq::<ActionModel>::empty(),
                        Seq::<ChangeModel>::empty(),
                    ),
                )
            } else {
                None
            }
        }),
        step(m, ActionModel::UpdateCharacter("strength"@, d), g) == ({
            let v = (m.character.strength as i32) as int + d;
            if i32::MIN <= v <= i32::MAX {
                Some(
                    (
                        ProgressModel {
                            character: Character { strength: if v > 0 { v as u32 } else { 0 }, ..m.character },
                            ..m
                        },
                        Seq::<ActionModel>::empty(),
                        Seq::<ChangeModel>::empty(),
                    ),
                )
            } else {
                None
            }
        }),
        step(m, ActionModel::UpdateCharacter("dexterity"@, d), g) == ({
            let v = (m.character.dexterity as i32) as int + d;
            if i32::MIN <= v <= i32::MAX {
                Some(
                    (
                        ProgressModel {
                            character: Character { dexterity: if v > 0 { v as u32 } else { 0 }, ..m.character },
                            ..m
                        },
                        Seq::<ActionModel>::empty(),
                        Seq::<ChangeModel>::empty(),
                    ),
                )
            } else {
                None
            }
        }),
        step(m, ActionModel::UpdateCharacter("willpower"@, d), g) == ({
            let v = (m.character.willpower as i32) as int + d;
            if i32::MIN <= v <= i32::MAX {
                Some(
                    (
                        ProgressModel {
                            character: Character { willpower: if v > 0 { v as u32 } else { 0 }, ..m.character },
                            ..m
                        },
                        Seq::<ActionModel>::empty(),
                        Seq::<ChangeModel>::empty(),
                    ),
                )
            } else {
                None
            }
        }),
        step(m, ActionModel::UpdateCharacter("intelligence"@, d), g) == ({
            let v = (m.character.intelligence as i32) as int + d;
            if i32::MIN <= v <= i32::MAX {
                Some(
                    (
                        ProgressModel {
                            character: Character { intelligence: if v > 0 { v as u32 } else { 0 }, ..m.character },
                            ..m
                        },
                        Seq::<ActionModel>::empty(),
                        Seq::<ChangeModel>::empty(),
                    ),
                )
            } else {
                None
            }
        }),
        step(m, ActionModel::UpdateCharacter("life"@, d), g) == ({
            let v = (m.character.life as i32) as int + d;
            if i32::MIN <= v <= i32::MAX {
                Some(
                    (
                        ProgressModel {
                            character: Character { life: if v > 0 { v as u32 } else { 0 }, ..m.character },
                            ..m
                        },
                        Seq::<ActionModel>::empty(),
                        Seq::<ChangeModel>::empty(),
                    ),
                )
            } else {
                None
            }
        }),
        step(m, ActionModel::UpdateCharacter("xp"@, d), g) == ({
            let v = (m.character.xp as i32) as int + d;
            if i32::MIN <= v <= i32::MAX {
                Some(
                    (
                        ProgressModel {
                            character: Character { xp: if v > 0 { v as u32 } else { 0 }, ..m.character },
                            ..m
                        },
                        Seq::<ActionModel>::empty(),
                        Seq::<ChangeModel>::empty(),
                    ),
                )
            } else {
                None
            }
        }),
        step(m, ActionModel::UpdateCharacter(other, d), g) is None,
{
    reveal_strlit("charisma");
    reveal_strlit("strength");
    reveal_strlit("dexterity");
    reveal_strlit("willpower");
    reveal_strlit("intelligence");
    reveal_strlit("life");
    reveal_strlit("xp");
    assert("strength"@[0] != "charisma"@[0]);
    assert("dexterity"@[0] != "charisma"@[0]);
    assert("dexterity"@[0] != "strength"@[0]);
    assert("willpower"@[0] != "charisma"@[0]);
    assert("willpower"@[0] != "strength"@[0]);
    assert("willpower"@[0] != "dexterity"@[0]);
    assert("intelligence"@[0] != "charisma"@[0]);
    assert("intelligence"@[0] != "strength"@[0]);
    assert("intelligence"@[0] != "dexterity"@[0]);
    assert("intelligence"@[0] != "willpower"@[0]);
    assert("life"@[0] != "charisma"@[0]);
    assert("life"@[0] != "strength"@[0]);
    assert("life"@[0] != "dexterity"@[0]);
    assert("life"@[0] != "willpower"@[0]);
    assert("life"@[0] != "intelligence"@[0]);
    assert("xp"@[0] != "charisma"@[0]);
    assert("xp"@[0] != "strength"@[0]);
    assert("xp"@[0] != "dexterity"@[0]);
    assert("xp"@[0] != "willpower"@[0]);
    assert("xp"@[0] != "intelligence"@[0]);
    assert("xp"@[0] != "life"@[0]);
    assert(stat_named("charisma"@) == Some(Stat::Charisma));
    assert(stat_named("strength"@) == Some(Stat::Strength));
    assert(stat_named("dexterity"@) == Some(Stat::Dexterity));
    assert(stat_named("willpower"@) == Some(Stat::Willpower));
    assert(stat_named("intelligence"@) == Some(Stat::Intelligence));
    assert(stat_named("life"@) == Some(Stat::Life));
    assert(stat_named("xp"@) == Some(Stat::Xp));
}

/// An interaction of one action that drinks no potion does exactly what that
/// action does, in a single round.
pub proof fn lemma_single_action_outcome(m: ProgressModel, a: ActionModel, g: Global)
    requires
        !(a is DrinkPotion),
    ensures
        interaction_outcome(m, seq![a], g) == match step(m, a, g) {
            None => None,
            Some((m1, _n, c)) => Some((m1, c)),
        },
{
    let acts = seq![a];
    assert(acts.drop_last() =~= Seq::<ActionModel>::empty());
    assert(acts.last() == a);
    assert(run_round(m, acts.drop_last(), g) == Some(
        (m, Seq::<ActionModel>::empty(), Seq::<ChangeModel>::empty()),
    ));
    if let Some((m1, n1, c1)) = step(m, a, g) {
        assert(n1.len() == 0);
        assert(Seq::<ActionModel>::empty() + n1 =~= n1);
        assert(Seq::<ChangeModel>::empty() + c1 =~= c1);
        assert(run_round(m, acts, g) == Some((m1, n1, c1)));
        assert(run_rounds(m1, n1, g, 1) == Some((m1, Seq::<ChangeModel>::empty())));
        assert(c1 + Seq::<ChangeModel>::empty() =~= c1);
    }
}

/// Starting a quest that is not achieved does not achieve it; completing a
/// quest does.
pub proof fn lemma_start_does_not_achieve(m: ProgressModel, q: String, c: u32, g: Global)
    requires
        !m.flags.contains((q@, "DONE"@)),
    ensures
        !condition_holds(step(m, ActionModel::StartQuest(q@), g).unwrap().0.flags, m.carried, Condition::IfQuestAchieved(q)),
        m.character.xp + c <= u32::MAX ==> condition_holds(
            step(m, ActionModel::CompleteQuest(q@, c), g).unwrap().0.flags,
            m.carried,
            Condition::IfQuestAchieved(q),
        ),
{
    reveal_strlit("DONE");
    reveal_strlit("STARTED");
    assert("STARTED"@[0] != "DONE"@[0]);
    assert(done_flag() == "DONE"@);
}

/// A prefix of a round that succeeds succeeds too.
pub proof fn lemma_run_round_prefix(m: ProgressModel, actions: Seq<ActionModel>, g: Global, n: int)
    requires
        0 <= n <= actions.len(),
        run_round(m, actions, g) is Some,
    ensures
        run_round(m, actions.subrange(0, n), g) is Some,
    decreases actions.len(),
{
    if n < actions.len() {
        assert(actions.drop_last().subrange(0, n) =~= actions.subrange(0, n));
        lemma_run_round_prefix(m, actions.drop_last(), g, n);
    } else {
        assert(actions.subrange(0, n) =~= actions);
    }
}


/// No action of the list drinks a potion.
pub open spec fn drinks_nothing(actions: Seq<ActionModel>) -> bool {
    forall|i: int| 0 <= i < actions.len() ==> !(#[trigger] actions[i] is DrinkPotion)
}

/// The actions a round triggers never drink a potion, and a round without
/// potion drinking triggers no action at all.
pub proof fn lemma_round_triggers(m: ProgressModel, actions: Seq<ActionModel>, g: Global)
    requires
        run_round(m, actions, g) is Some,
    ensures
        drinks_nothing(run_round(m, actions, g).unwrap().1),
        drinks_nothing(actions) ==> run_round(m, actions, g).unwrap().1.len() == 0,
    decreases actions.len(),
{
    if actions.len() > 0 {
        lemma_run_round_prefix(m, actions, g, actions.len() - 1);
        assert(actions.subrange(0, actions.len() - 1) =~= actions.drop_last());
        lemma_round_triggers(m, actions.drop_last(), g);
        let (m1, n1, c1) = run_round(m, actions.drop_last(), g).unwrap();
        let (m2, n2, c2) = step(m1, actions.last(), g).unwrap();
        assert(drinks_nothing(n2));
        assert(drinks_nothing(n1 + n2));
        if drinks_nothing(actions) {
            assert(actions.last() == actions[actions.len() - 1]);
            assert(drinks_nothing(actions.drop_last()));
        }
    }
}

/// An interaction never needs more than two rounds: allowing more changes nothing.
pub proof fn lemma_two_rounds_suffice(m: ProgressModel, actions: Seq<ActionModel>, g: Global, rounds: nat)
    requires
        rounds >= 2,
    ensures
        run_rounds(m, actions, g, rounds) == interaction_outcome(m, actions, g),
{
    if actions.len() > 0 {
        if let Some((m1, n1, c1)) = run_round(m, actions, g) {
            lemma_round_triggers(m, actions, g);
            if n1.len() > 0 {
                if let Some((m2, n2, c2)) = run_round(m1, n1, g) {
                    lemma_round_triggers(m1, n1, g);
                    assert(n2.len() == 0);
                    assert(run_rounds(m2, n2, g, (rounds - 2) as nat) == run_rounds(m2, n2, g, 0));
                }
                assert(run_rounds(m1, n1, g, (rounds - 1) as nat) == run_rounds(m1, n1, g, 1));
            } else {
                assert(run_rounds(m1, n1, g, (rounds - 1) as nat) == run_rounds(m1, n1, g, 1));
            }
            assert(run_rounds(m, actions, g, rounds) == run_rounds(m, actions, g, 2));
        }
    }
}


/// The actions drinking potion `p` stands for: using the potion up, then
/// each of its effects in order.
pub open spec fn drink_actions(g: Global, p: Seq<char>) -> Seq<ActionModel> {
    seq![ActionModel::UseItem(p)] + g.potion_effects(p).map_values(
        |e: (Seq<char>, i32)| ActionModel::UpdateCharacter(e.0, e.1),
    )
}

/// Drinking a known potion does what an interaction that uses the potion
/// and then applies each of its effects in order does: the same progress
/// and the same world changes (or both fail).
pub proof fn lemma_drinking_is_using_then_effects(m: ProgressModel, p: Seq<char>, g: Global)
    requires
        g.has_potion(p),
    ensures
        interaction_outcome(m, seq![ActionModel::DrinkPotion(p)], g) == interaction_outcome(
            m,
            drink_actions(g, p),
            g,
        ),
{
    let d = drink_actions(g, p);
    let drink = seq![ActionModel::DrinkPotion(p)];
    assert(drink.drop_last() =~= Seq::<ActionModel>::empty());
    assert(drink.last() == ActionModel::DrinkPotion(p));
    assert(run_round(m, drink.drop_last(), g) == Some(
        (m, Seq::<ActionModel>::empty(), Seq::<ChangeModel>::empty()),
    ));
    assert(step(m, ActionModel::DrinkPotion(p), g) == Some((m, d, Seq::<ChangeModel>::empty())));
    assert(Seq::<ActionModel>::empty() + d =~= d);
    assert(Seq::<ChangeModel>::empty() + Seq::<ChangeModel>::empty() =~= Seq::<ChangeModel>::empty());
    assert(run_round(m, drink, g) == Some((m, d, Seq::<ChangeModel>::empty())));
    assert(drinks_nothing(d)) by {
        assert forall|i: int| 0 <= i < d.len() implies !(#[trigger] d[i] is DrinkPotion) by {
            if i > 0 {
                assert(d[i] == g.potion_effects(p).map_values(
                    |e: (Seq<char>, i32)| ActionModel::UpdateCharacter(e.0, e.1),
                )[i - 1]);
            }
        }
    }
    assert(d.len() > 0);
    if let Some((m2, n2, c2)) = run_round(m, d, g) {
        lemma_round_triggers(m, d, g);
        assert(n2.len() == 0);
        assert(run_rounds(m2, n2, g, 0) == Some((m2, Seq::<ChangeModel>::empty())));
        assert(run_rounds(m2, n2, g, 1) == Some((m2, Seq::<ChangeModel>::empty())));
        assert(run_rounds(m, d, g, 1) == Some((m2, c2 + Seq::<ChangeModel>::empty())));
        assert(Seq::<ChangeModel>::empty() + (c2 + Seq::<ChangeModel>::empty()) =~= c2 + Seq::<ChangeModel>::empty());
    }
}


impl Progress {
    /// The progress at the start of the game: no flag set, the given diary
    /// and characteristics, no spell known, nothing carried, the
    /// characteristics on display.
    pub fn new(journal: Journal, character: Character) -> (r: Progress)
        ensures
            r.wf(),
            r@.flags == Set::<(Seq<char>, Seq<char>)>::empty(),
            r.journal == journal,
            r.character == character,
            r@.view == PlayerView::Characteristics,
            r@.spells == Set::<Seq<char>>::empty(),
            r@.carried.len() == 0,
    {
        let r = Progress {
            flags: Flags::new(),
            journal: journal,
            player: PlayerResource { player_view: PlayerView::Characteristics },
            character: character,
            wizard: Wizard { spells: Vec::new() },
            carried: Vec::new(),
        };
        assert(r@.spells =~= Set::<Seq<char>>::empty());
        r
    }
}

/// After an item is used, nothing with its key is carried any more, and
/// everything else still is.
pub proof fn lemma_use_item_removes(carried: Seq<(Seq<char>, bool)>, key: Seq<char>)
    ensures
        forall|i: int|
            0 <= i < without_key(carried, key).len() ==> #[trigger] without_key(carried, key)[i].0 != key,
        forall|i: int|
            0 <= i < carried.len() && carried[i].0 != key ==> without_key(carried, key).contains(
                #[trigger] carried[i],
            ),
        without_key(carried, key).len() <= carried.len(),
    decreases carried.len(),
{
    if carried.len() > 0 {
        lemma_use_item_removes(carried.drop_last(), key);
        let rest = without_key(carried.drop_last(), key);
        assert forall|i: int|
            0 <= i < carried.len() && carried[i].0 != key implies without_key(carried, key).contains(
            #[trigger] carried[i],
        ) by {
            if i < carried.len() - 1 {
                assert(carried.drop_last()[i] == carried[i]);
                let j = choose|j: int| 0 <= j < rest.len() && rest[j] == carried[i];
                if carried.last().0 != key {
                    assert(rest.push(carried.last())[j] == carried[i]);
                }
            } else {
                assert(without_key(carried, key)[rest.len() as int] == carried.last());
            }
        }
    }
}

/// A set flag can be read back: after `SetFlag(q, f)` the flag holds.
pub proof fn lemma_set_flag_reads_back(m: ProgressModel, q: Seq<char>, f: Seq<char>, g: Global)
    ensures
        step(m, ActionModel::SetFlag(q, f), g) is Some,
        step(m, ActionModel::SetFlag(q, f), g).unwrap().0.flags.contains((q, f)),
        !step(m, ActionModel::RemoveFlag(q, f), g).unwrap().0.flags.contains((q, f)),
{
}

/// Completing a quest marks it as achieved (the flag `IfQuestAchieved` reads)
/// and grants its experience.
pub proof fn lemma_complete_quest_achieves(m: ProgressModel, q: Seq<char>, xp: u32, g: Global)
    requires
        step(m, ActionModel::CompleteQuest(q, xp), g) is Some,
    ensures
        step(m, ActionModel::CompleteQuest(q, xp), g).unwrap().0.flags.contains((q, done_flag())),
        step(m, ActionModel::CompleteQuest(q, xp), g).unwrap().0.character.xp == m.character.xp + xp,
{
}

/// A diary entry is added at the end and is the one on display, so the
/// displayed entry always exists.
pub proof fn lemma_diary_shows_new_entry(m: ProgressModel, q: Seq<char>, t: Seq<char>, g: Global)
    requires
        step(m, ActionModel::AddDiary(q, t), g) is Some,
    ensures
        step(m, ActionModel::AddDiary(q, t), g).unwrap().0.journal.last() == (q, t),
        step(m, ActionModel::AddDiary(q, t), g).unwrap().0.current == step(
            m,
            ActionModel::AddDiary(q, t),
            g,
        ).unwrap().0.journal.len() - 1,
        step(m, ActionModel::AddDiary(q, t), g).unwrap().0.view == PlayerView::Diary,
{
}

/// No action lowers experience except an explicit change of the `xp` characteristic.
pub proof fn lemma_xp_only_grows(m: ProgressModel, a: ActionModel, g: Global)
    requires
        step(m, a, g) is Some,
        !(a matches ActionModel::UpdateCharacter(name, _) && stat_named(name) == Some(Stat::Xp)),
    ensures
        step(m, a, g).unwrap().0.character.xp >= m.character.xp,
{
}

} // verus!
