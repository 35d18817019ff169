use vstd::prelude::*;
use crate::stage::{Condition, Interaction, InteractionType};

verus! {

/// What the main loop is doing.
#[derive(Clone, Copy, Debug, PartialEq, Eq, Structural)]
pub enum RunState {
    Running,
    Dropping,
    Paused,
    Combat,
}

/// Which panel the side bar shows.
#[derive(Clone, Copy, Debug, PartialEq, Eq, Structural)]
pub enum PlayerView {
    Characteristics,
    Inventory,
    Spells,
    Diary,
    Help,
}

/// The player's choice of side panel.
pub struct PlayerResource {
    pub player_view: PlayerView,
}

/// The pair of strings as a pair of character sequences.
pub open spec fn pair_view(p: (String, String)) -> (Seq<char>, Seq<char>) {
    (p.0@, p.1@)
}

/// Quest flags: a set of (quest, flag) pairs, held without repetition.
pub struct Flags {
    pub set: Vec<(String, String)>,
}

impl View for Flags {
    type V = Set<(Seq<char>, Seq<char>)>;

    open spec fn view(&self) -> Set<(Seq<char>, Seq<char>)> {
        Set::new(|p: (Seq<char>, Seq<char>)| self.holds(p))
    }
}

impl Flags {
    /// Some entry of the list is the pair `p`.
    pub open spec fn holds(self, p: (Seq<char>, Seq<char>)) -> bool {
        exists|i: int| 0 <= i < self.set@.len() && #[trigger] pair_view(self.set@[i]) == p
    }

    /// No pair is listed twice.
    pub open spec fn wf(self) -> bool {
        forall|i: int, j: int|
            0 <= i < j < self.set@.len() ==> #[trigger] pair_view(self.set@[i]) != #[trigger] pair_view(
                self.set@[j],
            )
    }

    pub fn new() -> (r: Flags)
        ensures
            r.wf(),
            r@ == Set::<(Seq<char>, Seq<char>)>::empty(),
    {
        let r = Flags { set: Vec::new() };
        assert(r@ =~= Set::<(Seq<char>, Seq<char>)>::empty());
        r
    }

    /// The position of `(quest, flag)` in the list, if it is there.
    fn find(&self, quest: &String, flag: &String) -> (r: Option<usize>)
        ensures
            match r {
                Some(i) => i < self.set@.len() && pair_view(self.set@[i as int]) == (quest@, flag@),
                None => !self.holds((quest@, flag@)),
            },
    {
        let mut i: usize = 0;
        while i < self.set.len()
            invariant
                i <= self.set@.len(),
                forall|k: int| 0 <= k < i ==> #[trigger] pair_view(self.set@[k]) != (quest@, flag@),
            decreases self.set@.len() - i,
        {
            if self.set[i].0 == *quest && self.set[i].1 == *flag {
                return Some(i);
            }
            i = i + 1;
        }
        None
    }

    /// Whether flag `flag` of quest `quest` is set.
    pub fn contains(&self, quest: &String, flag: &String) -> (r: bool)
        ensures
            r == self@.contains((quest@, flag@)),
    {
        self.find(quest, flag).is_some()
    }

    /// Whether no pair is listed twice.
    pub fn has_no_repeats(&self) -> (r: bool)
        ensures
            r == self.wf(),
    {
        let n = self.set.len();
        let mut i: usize = 0;
        while i < n
            invariant
                n == self.set@.len(),
                i <= n,
                forall|a: int, b: int|
                    0 <= a < i && a < b < n ==> #[trigger] pair_view(self.set@[a]) != #[trigger] pair_view(
                        self.set@[b],
                    ),
            decreases n - i,
        {
            let mut j: usize = i + 1;
            while j < n
                invariant
                    n == self.set@.len(),
                    i < n,
                    i + 1 <= j <= n,
                    forall|a: int, b: int|
                        0 <= a < i && a < b < n ==> #[trigger] pair_view(self.set@[a]) != #[trigger] pair_view(
                            self.set@[b],
                        ),
                    forall|b: int| i < b < j ==> pair_view(self.set@[i as int]) != #[trigger] pair_view(self.set@[b]),
                decreases n - j,
            {
                if self.set[i].0 == self.set[j].0 && self.set[i].1 == self.set[j].1 {
                    assert(pair_view(self.set@[i as int]) == pair_view(self.set@[j as int]));
                    return false;
                }
                j = j + 1;
            }
            i = i + 1;
        }
        true
    }

    /// Sets flag `flag` of quest `quest`.
    pub fn insert(&mut self, quest: String, flag: String)
        requires
            old(self).wf(),
        ensures
            final(self).wf(),
            final(self)@ == old(self)@.insert((quest@, flag@)),
    {
        match self.find(&quest, &flag) {
            Some(_) => {
                assert(self@ =~= old(self)@.insert((quest@, flag@)));
            },
            None => {
                let ghost q = quest@;
                let ghost f = flag@;
                self.set.push((quest, flag));
                proof {
                    assert forall|i: int, j: int|
                        0 <= i < j < self.set@.len() implies #[trigger] pair_view(self.set@[i])
                        != #[trigger] pair_view(self.set@[j]) by {
                        if j == self.set@.len() - 1 {
                            assert(pair_view(old(self).set@[i]) != (q, f));
                        } else {
                            assert(pair_view(old(self).set@[i]) != pair_view(old(self).set@[j]));
                        }
                    }
                    assert forall|p: (Seq<char>, Seq<char>)|
                        self.holds(p) == old(self)@.insert((q, f)).contains(p) by {
                        if old(self).holds(p) {
                            let i = choose|i: int|
                                0 <= i < old(self).set@.len() && #[trigger] pair_view(old(self).set@[i])
                                    == p;
                            assert(pair_view(self.set@[i]) == p);
                        }
                        if p == (q, f) {
                            assert(pair_view(self.set@[self.set@.len() - 1]) == p);
                        }
                        if self.holds(p) {
                            let i = choose|i: int|
                                0 <= i < self.set@.len() && #[trigger] pair_view(self.set@[i]) == p;
                            if i < old(self).set@.len() {
                                assert(pair_view(old(self).set@[i]) == p);
                            }
                        }
                    }
                    assert(self@ =~= old(self)@.insert((q, f)));
                }
            },
        }
    }

    /// Clears flag `flag` of quest `quest`.
    pub fn remove(&mut self, quest: &String, flag: &String)
        requires
            old(self).wf(),
        ensures
            final(self).wf(),
            final(self)@ == old(self)@.remove((quest@, flag@)),
    {
        match self.find(quest, flag) {
            None => {
                assert(self@ =~= old(self)@.remove((quest@, flag@)));
            },
            Some(i) => {
                self.set.remove(i);
                proof {
                    let o = old(self).set@;
                    assert forall|a: int, b: int|
                        0 <= a < b < self.set@.len() implies #[trigger] pair_view(self.set@[a])
                        != #[trigger] pair_view(self.set@[b]) by {
                        let oa = if a < i { a } else { a + 1 };
                        let ob = if b < i { b } else { b + 1 };
                        assert(self.set@[a] == o[oa]);
                        assert(self.set@[b] == o[ob]);
                        assert(pair_view(o[oa]) != pair_view(o[ob]));
                    }
                    assert forall|p: (Seq<char>, Seq<char>)|
                        self.holds(p) == old(self)@.remove((quest@, flag@)).contains(p) by {
                        if self.holds(p) {
                            let k = choose|k: int|
                                0 <= k < self.set@.len() && #[trigger] pair_view(self.set@[k]) == p;
                            let ok = if k < i { k } else { k + 1 };
                            assert(self.set@[k] == o[ok]);
                            assert(pair_view(o[ok]) == p);
                            assert(ok != i);
                            assert(pair_view(o[ok]) != pair_view(o[i as int]));
                        }
                        if old(self).holds(p) && p != (quest@, flag@) {
                            let k = choose|k: int|
                                0 <= k < o.len() && #[trigger] pair_view(o[k]) == p;
                            assert(k != i);
                            let nk = if k < i { k } else { k - 1 };
                            assert(self.set@[nk] == o[k]);
                            assert(pair_view(self.set@[nk]) == p);
                        }
                    }
                    assert(self@ =~= old(self)@.remove((quest@, flag@)));
                }
            },
        }
    }
}

/// A move through the journal's entries.
#[derive(Clone, Copy, Debug, PartialEq, Eq, Structural)]
pub enum JournalMove {
    Previous,
    Next,
    Last,
}

/// The player's diary: (quest, text) entries and the one on display.
pub struct Journal {
    pub entries: Vec<(String, String)>,
    pub current: usize,
}

/// The entry shown after `m`, given the shown entry `current` of `len` entries.
pub open spec fn moved_entry(current: int, len: int, m: JournalMove) -> int {
    match m {
        JournalMove::Previous => if current > 0 { current - 1 } else { current },
        JournalMove::Next => if current < len - 1 { current + 1 } else { current },
        JournalMove::Last => len - 1,
    }
}

impl Journal {
    /// The entry on display exists.
    pub open spec fn wf(self) -> bool {
        self.current < self.entries@.len()
    }

    /// Shows the previous, the next or the last entry. Stepping before the
    /// first or past the last entry leaves the display as it is.
    pub fn apply_move(&mut self, m: JournalMove)
        requires
            m != JournalMove::Previous ==> old(self).entries@.len() > 0,
        ensures
            final(self).entries@ == old(self).entries@,
            final(self).current == moved_entry(
                old(self).current as int,
                old(self).entries@.len() as int,
                m,
            ),
    {
        match m {
            JournalMove::Previous => {
                if self.current > 0 {
                    self.current -= 1;
                }
            },
            JournalMove::Next => {
                if self.current < self.entries.len() - 1 {
                    self.current += 1;
                }
            },
            JournalMove::Last => {
                self.current = self.entries.len() - 1;
            },
        }
    }

    /// Adds an entry for `quest` and shows it.
    pub fn add_entry(&mut self, quest: String, text: String)
        requires
            old(self).entries@.len() < usize::MAX,
        ensures
            final(self).entries@ == old(self).entries@.push((quest, text)),
            final(self).current == old(self).entries@.len(),
    {
        self.entries.push((quest, text));
        self.current = self.entries.len() - 1;
    }

    /// There is an entry before the one on display.
    pub fn has_previous(&self) -> (r: bool)
        ensures
            r == (self.current > 0),
    {
        self.current > 0
    }

    /// There is an entry after the one on display.
    pub fn has_next(&self) -> (r: bool)
        ensures
            r == (self.current + 1 < self.entries@.len()),
    {
        self.current < self.entries.len() && self.current + 1 < self.entries.len()
    }
}

/// Every journal move keeps the displayed entry within the journal.
pub proof fn lemma_journal_move_in_range(current: int, len: int, m: JournalMove)
    requires
        0 <= current < len,
    ensures
        0 <= moved_entry(current, len, m) < len,
{
}

/// Moving back then forward returns to the same entry, unless the first entry was shown.
pub proof fn lemma_journal_previous_next(current: int, len: int)
    requires
        0 < current < len,
    ensures
        moved_entry(moved_entry(current, len, JournalMove::Previous), len, JournalMove::Next)
            == current,
{
}

/// An equipped entity with a key: a stage item (`is_item`) or a potion.
pub struct Carried {
    pub key: String,
    pub is_item: bool,
}

/// The carried entity as its key and kind.
pub open spec fn carried_view(c: Carried) -> (Seq<char>, bool) {
    (c.key@, c.is_item)
}

/// Some carried stage item has key `key`.
pub open spec fn carries_item(carried: Seq<(Seq<char>, bool)>, key: Seq<char>) -> bool {
    exists|i: int| 0 <= i < carried.len() && #[trigger] carried[i] == (key, true)
}

/// The flag that marks a quest as achieved.
pub open spec fn done_flag() -> Seq<char> {
    "DONE"@
}

/// Whether `c` holds given the set flags and the carried entities.
pub open spec fn condition_holds(
    flags: Set<(Seq<char>, Seq<char>)>,
    carried: Seq<(Seq<char>, bool)>,
    c: Condition,
) -> bool {
    match c {
        Condition::IfFlag(q, f) => flags.contains((q@, f@)),
        Condition::IfQuestAchieved(q) => flags.contains((q@, done_flag())),
        Condition::IfItem(item) => carries_item(carried, item@),
    }
}

/// Whether all conditions of `i` hold.
pub open spec fn interaction_available(
    flags: Set<(Seq<char>, Seq<char>)>,
    carried: Seq<(Seq<char>, bool)>,
    i: Interaction,
) -> bool {
    forall|k: int| 0 <= k < i.conditions@.len() ==> condition_holds(flags, carried, #[trigger] i.conditions@[k])
}

/// Whether `condition` holds.
pub fn valid_condition(flags: &Flags, carried: &Vec<Carried>, condition: &Condition) -> (r: bool)
    ensures
        r == condition_holds(flags@, carried@.map_values(|c: Carried| carried_view(c)), *condition),
{
    let ghost cv = carried@.map_values(|c: Carried| carried_view(c));
    match condition {
        Condition::IfFlag(q, f) => flags.contains(q, f),
        Condition::IfQuestAchieved(q) => {
            let done = "DONE".to_owned();
            flags.contains(q, &done)
        },
        Condition::IfItem(item) => {
            let mut i: usize = 0;
            while i < carried.len()
                invariant
                    i <= carried@.len(),
                    cv == carried@.map_values(|c: Carried| carried_view(c)),
                    condition_holds(flags@, cv, *condition) == carries_item(cv, item@),
                    forall|k: int| 0 <= k < i ==> #[trigger] cv[k] != (item@, true),
                decreases carried@.len() - i,
            {
                if carried[i].is_item && carried[i].key == *item {
                    assert(cv[i as int] == (item@, true));
                    assert(carries_item(cv, item@));
                    return true;
                }
                i = i + 1;
            }
            false
        },
    }
}

/// Whether all conditions of `interaction` hold.
pub fn valid_interaction(flags: &Flags, carried: &Vec<Carried>, interaction: &Interaction) -> (r: bool)
    ensures
        r == interaction_available(
            flags@,
            carried@.map_values(|c: Carried| carried_view(c)),
            *interaction,
        ),
{
    let mut k: usize = 0;
    while k < interaction.conditions.len()
        invariant
            k <= interaction.conditions@.len(),
            forall|j: int|
                0 <= j < k ==> condition_holds(
                    flags@,
                    carried@.map_values(|c: Carried| carried_view(c)),
                    #[trigger] interaction.conditions@[j],
                ),
        decreases interaction.conditions@.len() - k,
    {
        if !valid_condition(flags, carried, &interaction.conditions[k]) {
            return false;
        }
        k = k + 1;
    }
    true
}

/// The position of the last available interaction of `interactions`, if any.
pub fn get_interaction(flags: &Flags, carried: &Vec<Carried>, interactions: &Vec<Interaction>) -> (r:
    Option<usize>)
    ensures
        match r {
            Some(i) => i < interactions@.len() && interaction_available(
                flags@,
                carried@.map_values(|c: Carried| carried_view(c)),
                interactions@[i as int],
            ) && forall|j: int|
                i < j < interactions@.len() ==> !interaction_available(
                    flags@,
                    carried@.map_values(|c: Carried| carried_view(c)),
                    #[trigger] interactions@[j],
                ),
            None => forall|j: int|
                0 <= j < interactions@.len() ==> !interaction_available(
                    flags@,
                    carried@.map_values(|c: Carried| carried_view(c)),
                    #[trigger] interactions@[j],
                ),
        },
{
    let mut found: Option<usize> = None;
    let mut i: usize = 0;
    while i < interactions.len()
        invariant
            i <= interactions@.len(),
            match found {
                Some(f) => f < i && interaction_available(
                    flags@,
                    carried@.map_values(|c: Carried| carried_view(c)),
                    interactions@[f as int],
                ) && forall|j: int|
                    f < j < i ==> !interaction_available(
                        flags@,
                        carried@.map_values(|c: Carried| carried_view(c)),
                        #[trigger] interactions@[j],
                    ),
                None => forall|j: int|
                    0 <= j < i ==> !interaction_available(
                        flags@,
                        carried@.map_values(|c: Carried| carried_view(c)),
                        #[trigger] interactions@[j],
                    ),
            },
        decreases interactions@.len() - i,
    {
        if valid_interaction(flags, carried, &interactions[i]) {
            found = Some(i);
        }
        i = i + 1;
    }
    found
}

/// A quest is achieved exactly when its `DONE` flag is set: having only
/// started it (its `STARTED` flag) or any other flag does not achieve it.
pub proof fn lemma_quest_achieved_means_done(
    flags: Set<(Seq<char>, Seq<char>)>,
    carried: Seq<(Seq<char>, bool)>,
    q: String,
)
    ensures
        condition_holds(flags, carried, Condition::IfQuestAchieved(q)) == flags.contains((q@, "DONE"@)),
        flags.contains((q@, "STARTED"@)) && !flags.contains((q@, "DONE"@)) ==> !condition_holds(
            flags,
            carried,
            Condition::IfQuestAchieved(q),
        ),
{
    reveal_strlit("DONE");
    reveal_strlit("STARTED");
    assert(done_flag() == "DONE"@);
}

/// The interaction offered when the player arrives: the position of the
/// last available one (see `get_interaction`), and whether it runs at once
/// (an automatic one) rather than waiting for the player's consent.
pub fn interaction_on_arrival(flags: &Flags, carried: &Vec<Carried>, interactions: &Vec<Interaction>) -> (r:
    Option<(usize, bool)>)
    ensures
        match r {
            Some((i, at_once)) => i < interactions@.len() && interaction_available(
                flags@,
                carried@.map_values(|c: Carried| carried_view(c)),
                interactions@[i as int],
            ) && (forall|j: int|
                i < j < interactions@.len() ==> !interaction_available(
                    flags@,
                    carried@.map_values(|c: Carried| carried_view(c)),
                    #[trigger] interactions@[j],
                )) && at_once == (interactions@[i as int].interaction_type == InteractionType::Automatic),
            None => forall|j: int|
                0 <= j < interactions@.len() ==> !interaction_available(
                    flags@,
                    carried@.map_values(|c: Carried| carried_view(c)),
                    #[trigger] interactions@[j],
                ),
        },
{
    match get_interaction(flags, carried, interactions) {
        Some(i) => {
            let at_once = interactions[i].interaction_type == InteractionType::Automatic;
            Some((i, at_once))
        },
        None => None,
    }
}

/// The side panel after the pickup system ran: the inventory when
/// something was picked up or dropped, the panel shown before otherwise.
pub fn view_after_pickup(view: PlayerView, changed: bool) -> (r: PlayerView)
    ensures
        r == if changed {
            PlayerView::Inventory
        } else {
            view
        },
{
    if changed {
        PlayerView::Inventory
    } else {
        view
    }
}

/// What the main loop shows while no key is pressed: the drop menu stays
/// open, everything else waits.
pub fn waiting_state(runstate: RunState) -> (r: RunState)
    ensures
        r == if runstate == RunState::Dropping {
            RunState::Dropping
        } else {
            RunState::Paused
        },
{
    match runstate {
        RunState::Dropping => RunState::Dropping,
        _ => RunState::Paused,
    }
}

/// A set flag can be read back, a cleared one not.
pub proof fn lemma_flags_read_back(
    flags: Set<(Seq<char>, Seq<char>)>,
    q: Seq<char>,
    f: Seq<char>,
    g: Seq<char>,
)
    ensures
        flags.insert((q, f)).contains((q, f)),
        !flags.remove((q, f)).contains((q, f)),
        f != g ==> (flags.insert((q, f)).contains((q, g)) == flags.contains((q, g))),
{
}

} // verus!
