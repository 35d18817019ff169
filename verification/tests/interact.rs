use anthea::components::Character;
use anthea::global::{Effect, Global, PotionDef};
use anthea::interact::{stat_of, Progress, Stat, Wizard, WorldChange};
use anthea::progress::{Carried, Journal, PlayerView};
use anthea::stage::Action;

fn s(t: &str) -> String {
    t.to_string()
}

fn progress() -> Progress {
    Progress::new(Journal { entries: vec![(s("main"), s("start"))], current: 0 }, Character::default())
}

fn global() -> Global {
    Global {
        potions: vec![(
            s("heal"),
            PotionDef {
                name: s("Healing potion"),
                effects: vec![
                    Effect { characteristic: s("life"), diff: 5 },
                    Effect { characteristic: s("strength"), diff: -20 },
                ],
            },
        )],
        monsters: Vec::new(),
        spells: Vec::new(),
        weapons: Vec::new(),
    }
}

#[test]
fn characteristic_names() {
    assert_eq!(stat_of(&s("charisma")), Some(Stat::Charisma));
    assert_eq!(stat_of(&s("xp")), Some(Stat::Xp));
    assert_eq!(stat_of(&s("luck")), None);
}

#[test]
fn flags_quests_and_diary() {
    let mut p = progress();
    let acts = vec![
        Action::StartQuest(s("q")),
        Action::SetFlag(s("q"), s("met")),
        Action::AddDiary(s("q"), s("I met him")),
        Action::CompleteQuest(s("q"), 10),
        Action::RemoveFlag(s("q"), s("met")),
    ];
    let changes = p.run_interaction(&acts, &global());
    assert!(changes.is_empty());
    assert!(p.flags.contains(&s("q"), &s("STARTED")));
    assert!(p.flags.contains(&s("q"), &s("DONE")));
    assert!(!p.flags.contains(&s("q"), &s("met")));
    assert_eq!(p.character.xp, 10);
    assert_eq!(p.journal.entries.len(), 2);
    assert_eq!(p.journal.current, 1);
    assert_eq!(p.player.player_view, PlayerView::Diary);
}

#[test]
fn drinking_a_potion_uses_it_and_applies_its_effects() {
    let mut p = progress();
    p.carried.push(Carried { key: s("heal"), is_item: false });
    p.carried.push(Carried { key: s("key"), is_item: true });
    let changes = p.run_interaction(&vec![Action::DrinkPotion(s("heal"))], &global());
    assert_eq!(p.character.life, 15);
    // 8 - 20 is floored at 0
    assert_eq!(p.character.strength, 0);
    assert_eq!(p.carried.len(), 1);
    assert_eq!(p.carried[0].key, "key");
    assert_eq!(changes.len(), 1);
    assert!(matches!(&changes[0], WorldChange::RemoveEquipped(k) if k == "heal"));
}

#[test]
fn picking_up_a_potion_and_learning_a_spell() {
    let mut p = progress();
    let acts = vec![
        Action::PickupPotion(s("heal")),
        Action::LearnSpell(s("light"), 3),
        Action::LearnSpell(s("light"), 3),
        Action::RaiseXP(4),
        Action::AddDoor(s("a"), s("b"), 2),
        Action::UpdateCharacter(s("charisma"), 2),
    ];
    let changes = p.run_interaction(&acts, &global());
    assert_eq!(p.carried.len(), 1);
    assert!(!p.carried[0].is_item);
    assert_eq!(p.wizard.spells, vec![s("light")]);
    assert_eq!(p.character.xp, 10);
    assert_eq!(p.character.charisma, 10);
    assert_eq!(p.player.player_view, PlayerView::Spells);
    assert_eq!(changes.len(), 2);
    assert!(matches!(&changes[0], WorldChange::CreatePotion(k) if k == "heal"));
    assert!(matches!(&changes[1], WorldChange::AddDoor(a, b, 2) if a == "a" && b == "b"));
}

#[test]
fn impossible_actions_are_refused() {
    let p = progress();
    assert!(!p.can_run_interaction(&vec![Action::UpdateCharacter(s("luck"), 1)], &global()));
    assert!(!p.can_run_interaction(&vec![Action::DrinkPotion(s("poison"))], &global()));
    assert!(!p.can_run_interaction(&vec![Action::SetFlag(s("q"), s("a")), Action::PickupPotion(s("poison"))], &global()));
    assert!(p.can_run_interaction(&vec![Action::DrinkPotion(s("heal")), Action::RaiseXP(1)], &global()));
    // the check leaves the progress as it was
    assert!(!p.flags.contains(&s("q"), &s("a")));
    let mut p = progress();
    p.character.xp = u32::MAX;
    assert!(!p.can_run_interaction(&vec![Action::RaiseXP(1)], &global()));
    let p = progress();
    assert!(p.can_apply(&Action::RaiseXP(1), &global()));
    assert!(!p.can_apply(&Action::DrinkPotion(s("poison")), &global()));
}

#[test]
fn use_item_removes_every_carried_copy() {
    let mut p = progress();
    p.carried.push(Carried { key: s("key"), is_item: true });
    p.carried.push(Carried { key: s("coin"), is_item: true });
    p.carried.push(Carried { key: s("key"), is_item: true });
    let changes = p.run_interaction(&vec![Action::UseItem(s("key"))], &global());
    assert_eq!(p.carried.len(), 1);
    assert_eq!(p.carried[0].key, "coin");
    assert_eq!(changes.len(), 1);
}

#[test]
fn repeated_entries_are_detected() {
    let mut g = global();
    assert!(g.potion_keys_distinct());
    g.potions.push((s("heal"), PotionDef { name: s("Other"), effects: Vec::new() }));
    assert!(!g.potion_keys_distinct());
    let mut w = Wizard { spells: vec![s("fire"), s("ice")] };
    assert!(w.is_ordered());
    w.learn(s("fire"));
    assert_eq!(w.spells.len(), 2);
    w.spells.push(s("ice"));
    assert!(!w.is_ordered());
    let mut p = progress();
    assert!(p.is_well_formed());
    p.flags.set.push((s("q"), s("a")));
    p.flags.set.push((s("q"), s("a")));
    assert!(!p.flags.has_no_repeats());
    assert!(!p.is_well_formed());
}

#[test]
fn spells_are_kept_in_name_order() {
    let mut w = Wizard { spells: Vec::new() };
    w.learn(s("ice"));
    w.learn(s("fire"));
    w.learn(s("earth"));
    w.learn(s("fire"));
    w.learn(s("Zap"));
    w.learn(s("fireball"));
    assert_eq!(w.spells, vec![s("Zap"), s("earth"), s("fire"), s("fireball"), s("ice")]);
    assert!(w.is_ordered());
    assert!(!Wizard { spells: vec![s("ice"), s("fire")] }.is_ordered());
}

#[test]
fn drinking_equals_using_then_applying_effects() {
    let mut a = progress();
    a.carried.push(Carried { key: s("heal"), is_item: false });
    let mut b = progress();
    b.carried.push(Carried { key: s("heal"), is_item: false });
    let ca = a.run_interaction(&vec![Action::DrinkPotion(s("heal"))], &global());
    let cb = b.run_interaction(
        &vec![
            Action::UseItem(s("heal")),
            Action::UpdateCharacter(s("life"), 5),
            Action::UpdateCharacter(s("strength"), -20),
        ],
        &global(),
    );
    assert_eq!(a.character, b.character);
    assert_eq!(a.carried.len(), b.carried.len());
    assert_eq!(ca.len(), cb.len());
    assert!(matches!(&cb[0], WorldChange::RemoveEquipped(k) if k == "heal"));
}
