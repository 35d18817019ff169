use anthea::combat::{combat_outcome, combat_round, defeat_interaction, initiative_fits, player_attack, round_can_be_rolled, take_damage, CombatResult, Foe};
use anthea::components::{Character, Weapon};
use anthea::rpg::{against, against_roll, fight_outcome, fight_round, initiative};
use anthea::stage::{Action, InteractionType};

fn ch(strength: u32, dexterity: u32, willpower: u32) -> Character {
    Character { strength, dexterity, willpower, ..Character::default() }
}

#[test]
fn character_default_values() {
    let c = Character::default();
    assert_eq!(
        c,
        Character {
            strength: 8,
            dexterity: 8,
            willpower: 8,
            intelligence: 8,
            charisma: 8,
            level: 1,
            xp: 0,
            life: 10
        }
    );
}

#[test]
fn against_with_an_empty_side_is_decided() {
    for _ in 0..50 {
        assert!(!against(0, 7));
        assert!(against(7, 0));
    }
    assert!(against_roll(5, 5));
    assert!(!against_roll(5, 6));
}

#[test]
fn initiative_with_no_score_is_lost() {
    let slow = ch(8, 0, 0);
    let quick = ch(8, 5, 5);
    for _ in 0..50 {
        assert!(!initiative(&slow, &quick));
        assert!(initiative(&quick, &slow));
    }
}

#[test]
fn fight_outcome_formula() {
    // sc1 = 2*10 + 16 = 36, sc2 = 2*8 + 8 = 24, total 60
    let a = ch(16, 10, 0);
    let d = ch(8, 8, 0);
    // miss
    assert_eq!(fight_outcome(&a, &d, 37, 3), 0);
    // hit: 3 + (16 - 10) / 3 = 5
    assert_eq!(fight_outcome(&a, &d, 20, 3), 5);
    // critical (roll < 60 / 10): doubled
    assert_eq!(fight_outcome(&a, &d, 5, 3), 10);
    // no strength bonus at 10 or less
    assert_eq!(fight_outcome(&d, &a, 1, 2), 4);
}

#[test]
fn fight_round_stays_within_the_weapon() {
    let a = ch(8, 8, 0);
    let d = ch(8, 8, 0);
    let w = Weapon { damage_min: 2, damage_max: 4 };
    for _ in 0..200 {
        let r = fight_round(&a, &w, &d);
        assert!(r == 0 || (2..=8).contains(&r));
    }
}

#[test]
fn bare_hands_without_weapons() {
    let a = ch(8, 8, 0);
    let d = ch(8, 8, 0);
    for _ in 0..200 {
        let r = player_attack(&a, &Vec::new(), &d);
        assert!(r <= 6);
    }
    let big = vec![Weapon { damage_min: 1, damage_max: 1 }, Weapon { damage_min: 40, damage_max: 40 }];
    for _ in 0..200 {
        let r = player_attack(&a, &big, &d);
        assert!(r == 0 || r == 40 || r == 80);
    }
}

#[test]
fn damage_floors_life_at_zero() {
    let mut c = ch(8, 8, 8);
    assert!(!take_damage(&mut c, 4));
    assert_eq!(c.life, 6);
    assert!(take_damage(&mut c, 9));
    assert_eq!(c.life, 0);
}

#[test]
fn defeated_monster_grants_its_xp() {
    let i = defeat_interaction(&vec![Action::SetFlag("q".to_string(), "won".to_string())], 12);
    assert_eq!(i.actions.len(), 2);
    assert!(matches!(i.actions[1], Action::RaiseXP(12)));
    assert!(i.conditions.is_empty());
    assert_eq!(i.interaction_type, InteractionType::Automatic);
    assert!(i.text.is_empty() && i.after_text.is_empty());
}

#[test]
fn combat_round_strikes_only_fighters() {
    let p = ch(8, 8, 0);
    let weak = Weapon { damage_min: 1, damage_max: 2 };
    let foes = vec![
        Foe { character: ch(8, 8, 0), weapon: weak, in_fight: true, wants_to_fight: false },
        Foe { character: ch(8, 8, 0), weapon: weak, in_fight: false, wants_to_fight: false },
    ];
    for _ in 0..50 {
        let b = combat_round(&p, true, &Vec::new(), &foes);
        assert_eq!(b.to_foes.len(), 2);
        assert!(b.to_foes[0] <= 6);
        assert_eq!(b.to_foes[1], 0);
        assert_eq!(b.to_player, 0);
        let idle = combat_round(&p, false, &Vec::new(), &foes);
        assert_eq!(idle.to_foes, vec![0, 0]);
    }
    assert!(CombatResult::Stop != CombatResult::Continue);
}

#[test]
fn rolls_that_cannot_be_made_are_detected() {
    let p = ch(8, 8, 0);
    assert!(initiative_fits(&p, &ch(8, 8, 8)));
    assert!(!initiative_fits(&ch(0, 0, 0), &ch(0, 0, 0)));
    assert!(!initiative_fits(&ch(0, 0, u32::MAX), &ch(0, 0, 0)));
    let ok = Weapon { damage_min: 1, damage_max: 4 };
    let foe = Foe { character: ch(8, 8, 0), weapon: ok, in_fight: true, wants_to_fight: true };
    assert!(round_can_be_rolled(&p, true, &vec![ok], &vec![foe]));
    let reversed = Weapon { damage_min: 5, damage_max: 2 };
    assert!(!round_can_be_rolled(&p, true, &vec![reversed], &vec![foe]));
    let negative = Weapon { damage_min: -1, damage_max: 2 };
    assert!(!round_can_be_rolled(&p, true, &vec![], &vec![Foe { weapon: negative, ..foe }]));
    let empty = Foe { character: ch(0, 0, 0), ..foe };
    assert!(!round_can_be_rolled(&ch(0, 0, 0), true, &vec![], &vec![empty]));
    assert!(round_can_be_rolled(&p, true, &vec![], &vec![]));
}

#[test]
fn character_panel_rows() {
    let c = Character { xp: 42, ..Character::default() };
    assert_eq!(
        c.attribute_rows(),
        vec![
            ("Strength:", 8),
            ("Dexterity:", 8),
            ("Willpower:", 8),
            ("Intelligence:", 8),
            ("Charisma:", 8),
            ("Level:", 1),
            ("Experience:", 42),
            ("Life:", 10),
        ]
    );
}

#[test]
fn even_contests_go_both_ways() {
    let mut wins = 0;
    for _ in 0..400 {
        if against(3, 3) {
            wins += 1;
        }
    }
    // the roll is random: neither side wins every time
    assert!(wins > 0 && wins < 400);
}

#[test]
fn combat_outcome_for_given_rolls() {
    let p = ch(8, 8, 0);
    let w = Weapon { damage_min: 1, damage_max: 4 };
    let a = Foe { character: ch(8, 8, 0), weapon: w, in_fight: true, wants_to_fight: true };
    let b = Foe { in_fight: false, ..a };
    let c = Foe { wants_to_fight: false, ..a };
    let foes = vec![a, b, c];
    // scores 24 against 24: a hit needs a roll of at most 24, below 4 doubles
    let player_rolls = vec![(2, 3), (1, 1), (10, 2)];
    let r = combat_outcome(&p, true, &Vec::new(), &foes, &player_rolls, &vec![(10, 4), (2, 1), (40, 1)]);
    assert_eq!(r.to_foes, vec![6, 0, 2]);
    assert_eq!(r.to_player, 2);
    // the last blow that hits counts: b misses, so a's blow stands
    let r = combat_outcome(&p, true, &Vec::new(), &foes, &player_rolls, &vec![(10, 4), (40, 1), (2, 1)]);
    assert_eq!(r.to_player, 4);
    let idle = combat_outcome(&p, false, &Vec::new(), &foes, &player_rolls, &vec![(30, 1), (30, 1), (1, 1)]);
    assert_eq!(idle.to_foes, vec![0, 0, 0]);
    assert_eq!(idle.to_player, 0);
}

#[test]
fn guarding_monster_joins_the_fight() {
    assert_eq!(anthea::combat::engagement(true), (true, false));
    assert_eq!(anthea::combat::engagement(false), (true, true));
    let slow = ch(8, 0, 0);
    let quick = ch(8, 5, 5);
    for _ in 0..20 {
        assert_eq!(anthea::combat::engage(&quick, &slow), (true, false));
        assert_eq!(anthea::combat::engage(&slow, &quick), (true, true));
    }
}

#[test]
fn foes_that_take_no_part_need_no_rolls() {
    let p = ch(8, 8, 0);
    let ok = Weapon { damage_min: 1, damage_max: 4 };
    let reversed = Weapon { damage_min: 5, damage_max: 2 };
    let idle = Foe { character: ch(8, 8, 0), weapon: reversed, in_fight: false, wants_to_fight: false };
    let fighter = Foe { character: ch(8, 8, 0), weapon: ok, in_fight: true, wants_to_fight: true };
    assert!(round_can_be_rolled(&p, true, &vec![], &vec![idle, fighter]));
    // an idle foe is not struck and does not strike
    let b = combat_round(&p, true, &vec![], &vec![idle, fighter]);
    assert_eq!(b.to_foes[0], 0);
    // a foe in the fight that does not strike needs no usable weapon
    let passive = Foe { in_fight: true, ..idle };
    assert!(round_can_be_rolled(&p, true, &vec![], &vec![passive]));
    // the player's weapons are rolled only when the player strikes someone
    assert!(round_can_be_rolled(&p, false, &vec![reversed], &vec![fighter]));
    assert!(!round_can_be_rolled(&p, true, &vec![reversed], &vec![fighter]));
    // a foe that strikes needs a usable weapon
    assert!(!round_can_be_rolled(&p, false, &vec![], &vec![Foe { wants_to_fight: true, ..idle }]));
}
