use vstd::prelude::*;
use crate::components::{Character, Weapon};
use crate::rpg::{attack_rolls_ok, draw_attack, fight_outcome, initiative, max_hit, round_damage, score, wins};
use crate::stage::{Action, Interaction, InteractionType};

verus! {

/// Whether the combat screen goes on or is closed.
#[derive(Clone, Copy, Debug, PartialEq, Eq, Structural)]
pub enum CombatResult {
    Stop,
    Continue,
}

/// What a fighter without a weapon hits with.
pub open spec fn bare_hands() -> Weapon {
    Weapon { damage_min: 1, damage_max: 3 }
}

/// The weapon the player strikes with: the last of the equipped weapons, or
/// bare hands when none is equipped.
pub open spec fn striking_weapon(weapons: Seq<Weapon>) -> Weapon {
    if weapons.len() == 0 {
        bare_hands()
    } else {
        weapons.last()
    }
}

/// A weapon can be rolled: its damage range is non-empty, non-negative, and
/// a doubled hit of `attacker` with it fits in a `u32`.
pub open spec fn weapon_usable(attacker: Character, w: Weapon) -> bool {
    0 <= w.damage_min <= w.damage_max < i32::MAX && 2 * max_hit(attacker, w) <= u32::MAX
}

/// The player's attack can be rolled: every equipped weapon is usable
/// (each is rolled), and bare hands are when no weapon is equipped.
pub open spec fn attack_fits(player: Character, weapons: Seq<Weapon>) -> bool {
    &&& forall|i: int| 0 <= i < weapons.len() ==> weapon_usable(player, #[trigger] weapons[i])
    &&& weapons.len() == 0 ==> weapon_usable(player, bare_hands())
}

/// The weapon the player strikes with is usable when the attack can be rolled.
proof fn lemma_striking_usable(player: Character, weapons: Seq<Weapon>)
    requires
        attack_fits(player, weapons),
    ensures
        weapon_usable(player, striking_weapon(weapons)),
{
    if weapons.len() > 0 {
        assert(weapon_usable(player, weapons[weapons.len() - 1]));
    }
}

/// The rolls of the player's attack on `monster`: every equipped weapon is
/// rolled in turn and the last rolls count; without a weapon the player
/// fights bare-handed.
fn player_attack_rolls(player: &Character, weapons: &Vec<Weapon>, monster: &Character) -> (r: (u32, u32))
    requires
        1 <= score(*player, player.strength) + score(*monster, monster.strength) < u32::MAX,
        attack_fits(*player, weapons@),
    ensures
        attack_rolls_ok(*player, striking_weapon(weapons@), *monster, r),
{
    let mut cnt: usize = 0;
    let mut rolls: (u32, u32) = (0, 0);
    while cnt < weapons.len()
        invariant
            cnt <= weapons@.len(),
            1 <= score(*player, player.strength) + score(*monster, monster.strength) < u32::MAX,
            forall|i: int| 0 <= i < weapons@.len() ==> weapon_usable(*player, #[trigger] weapons@[i]),
            cnt > 0 ==> attack_rolls_ok(*player, weapons@[cnt - 1], *monster, rolls),
        decreases weapons@.len() - cnt,
    {
        assert(weapon_usable(*player, weapons@[cnt as int]));
        rolls = draw_attack(player, &weapons[cnt], monster);
        cnt += 1;
    }
    if cnt == 0 {
        rolls = draw_attack(player, &Weapon { damage_min: 1, damage_max: 3 }, monster);
    }
    rolls
}

/// The damage an attack with `w` deals for rolls in range fits the
/// arithmetic of `fight_outcome`.
proof fn lemma_rolls_fit(attacker: Character, w: Weapon, defender: Character, rolls: (u32, u32))
    requires
        weapon_usable(attacker, w),
        attack_rolls_ok(attacker, w, defender, rolls),
    ensures
        2 * (rolls.1 + if attacker.strength > 10 { (attacker.strength - 10) / 3 } else { 0 }) <= u32::MAX,
{
}

/// The player attacks `monster`: every equipped weapon is rolled in turn and
/// the last roll counts; without a weapon the player fights bare-handed.
pub fn player_attack(player: &Character, weapons: &Vec<Weapon>, monster: &Character) -> (r: u32)
    requires
        1 <= score(*player, player.strength) + score(*monster, monster.strength) < u32::MAX,
        attack_fits(*player, weapons@),
    ensures
        possible_hit(*player, striking_weapon(weapons@), *monster, r as int),
{
    reveal(possible_hit);
    let rolls = player_attack_rolls(player, weapons, monster);
    proof {
        lemma_striking_usable(*player, weapons@);
        lemma_rolls_fit(*player, striking_weapon(weapons@), *monster, rolls);
    }
    let r = fight_outcome(player, monster, rolls.0, rolls.1);
    assert(attack_rolls_ok(*player, striking_weapon(weapons@), *monster, rolls));
    r
}

/// The life left after a blow of `damage`: the life read as a signed
/// 32-bit number, minus the damage read the same way, at least 0.
pub open spec fn life_after(life: u32, damage: u32) -> int {
    let v = (life as i32) as int - (damage as i32) as int;
    if v > 0 {
        v
    } else {
        0
    }
}

/// Applies a blow of `damage` to `character`; returns whether it is dead.
pub fn take_damage(character: &mut Character, damage: u32) -> (dead: bool)
    requires
        i32::MIN <= (old(character).life as i32) as int - (damage as i32) as int <= i32::MAX,
    ensures
        *final(character) == (Character {
            life: life_after(old(character).life, damage) as u32,
            ..*old(character)
        }),
        dead == (final(character).life == 0),
{
    character.life = 0i32.max(character.life as i32 - damage as i32) as u32;
    character.life == 0
}

/// The interaction a defeated monster leaves to the player: its own actions,
/// then a gain of `xp` experience.
pub fn defeat_interaction(actions: &Vec<Action>, xp: u32) -> (r: Interaction)
    ensures
        r.conditions@.len() == 0,
        r.text@.len() == 0,
        r.after_text@.len() == 0,
        r.interaction_type == InteractionType::Automatic,
        r.actions@ == actions@.push(Action::RaiseXP(xp)),
{
    let mut acts = actions.clone();
    assert(acts@ =~= actions@);
    acts.push(Action::RaiseXP(xp));
    Interaction {
        conditions: Vec::new(),
        text: String::new(),
        after_text: String::new(),
        interaction_type: InteractionType::Automatic,
        actions: acts,
    }
}


/// A monster on the combat screen.
#[derive(Clone, Copy, Debug)]
pub struct Foe {
    pub character: Character,
    pub weapon: Weapon,
    /// The player is fighting it.
    pub in_fight: bool,
    /// It attacks the player this round.
    pub wants_to_fight: bool,
}

/// The damage of one combat round: what each foe takes (0 when none), and
/// what the player takes.
pub struct Blows {
    pub to_foes: Vec<u32>,
    pub to_player: u32,
}

/// The last non-zero value of `s`, or 0.
pub open spec fn last_nonzero(s: Seq<int>) -> int
    decreases s.len(),
{
    if s.len() == 0 {
        0
    } else if s.last() != 0 {
        s.last()
    } else {
        last_nonzero(s.drop_last())
    }
}

/// `d` is damage that one attack of `attacker` with `w` against `defender` can deal.
#[verifier::opaque]
pub open spec fn possible_hit(attacker: Character, w: Weapon, defender: Character, d: int) -> bool {
    exists|roll: int, damage_roll: int|
        1 <= roll <= score(attacker, attacker.strength) + score(defender, defender.strength)
            && w.damage_min <= damage_roll <= w.damage_max && d == round_damage(
            attacker,
            defender,
            roll,
            damage_roll,
        )
}

/// The damage foe `f` takes this round for the player's rolls `rolls`: the
/// player's blow when the player wants to fight and `f` is in the fight,
/// else none.
pub open spec fn foe_damage(player: Character, player_wants_fight: bool, f: Foe, rolls: (u32, u32)) -> int {
    if player_wants_fight && f.in_fight {
        round_damage(player, f.character, rolls.0 as int, rolls.1 as int)
    } else {
        0
    }
}

/// The damage foe `f` deals to the player for its rolls `rolls`: its blow
/// when it wants to fight, else none.
pub open spec fn damage_to_player(player: Character, f: Foe, rolls: (u32, u32)) -> int {
    if f.wants_to_fight {
        round_damage(f.character, player, rolls.0 as int, rolls.1 as int)
    } else {
        0
    }
}

/// The blows of every foe on the player, in order, for the foes' rolls.
pub open spec fn hits_on_player(player: Character, foes: Seq<Foe>, foe_rolls: Seq<(u32, u32)>) -> Seq<int> {
    Seq::new(foes.len(), |i: int| damage_to_player(player, foes[i], foe_rolls[i]))
}

/// The rolls of a round are in range: the player's rolls against each foe
/// the player strikes (with the striking weapon), and each attacking foe's
/// rolls against the player (with its weapon).
pub open spec fn combat_rolls_ok(
    player: Character,
    player_wants_fight: bool,
    weapons: Seq<Weapon>,
    foes: Seq<Foe>,
    player_rolls: Seq<(u32, u32)>,
    foe_rolls: Seq<(u32, u32)>,
) -> bool {
    &&& player_rolls.len() == foes.len()
    &&& foe_rolls.len() == foes.len()
    &&& forall|i: int|
        0 <= i < foes.len() && player_wants_fight && (#[trigger] foes[i]).in_fight ==> attack_rolls_ok(
            player,
            striking_weapon(weapons),
            foes[i].character,
            player_rolls[i],
        )
    &&& forall|i: int|
        0 <= i < foes.len() && (#[trigger] foes[i]).wants_to_fight ==> attack_rolls_ok(
            foes[i].character,
            foes[i].weapon,
            player,
            foe_rolls[i],
        )
}

/// The blows `r` are those of the round for the given rolls.
pub open spec fn blows_for(
    r: Blows,
    player: Character,
    player_wants_fight: bool,
    foes: Seq<Foe>,
    player_rolls: Seq<(u32, u32)>,
    foe_rolls: Seq<(u32, u32)>,
) -> bool {
    &&& r.to_foes@.len() == foes.len()
    &&& forall|i: int|
        0 <= i < foes.len() ==> #[trigger] r.to_foes@[i] == foe_damage(
            player,
            player_wants_fight,
            foes[i],
            player_rolls[i],
        )
    &&& r.to_player == last_nonzero(hits_on_player(player, foes, foe_rolls))
}

/// Every roll the round makes can be made: the player's attack on each foe
/// in the fight when the player wants to fight, and the blow of each foe
/// that wants to fight. Nothing is asked of foes that take no part.
pub open spec fn round_fits(player: Character, player_wants_fight: bool, weapons: Seq<Weapon>, foes: Seq<Foe>) -> bool {
    forall|i: int|
        0 <= i < foes.len() ==> {
            let f = #[trigger] foes[i];
            &&& player_wants_fight && f.in_fight ==> {
                &&& attack_fits(player, weapons)
                &&& 1 <= score(player, player.strength) + score(f.character, f.character.strength)
                    < u32::MAX
            }
            &&& f.wants_to_fight ==> {
                &&& 1 <= score(player, player.strength) + score(f.character, f.character.strength)
                    < u32::MAX
                &&& weapon_usable(f.character, f.weapon)
            }
        }
}

/// One round of combat for given rolls. When the player wants to fight,
/// each foe in the fight takes the player's blow (rolled with
/// `player_rolls[i]`); every foe that wants to fight strikes the player
/// (rolled with `foe_rolls[i]`), and of those blows only the last one that
/// hits counts.
pub fn combat_outcome(
    player: &Character,
    player_wants_fight: bool,
    weapons: &Vec<Weapon>,
    foes: &Vec<Foe>,
    player_rolls: &Vec<(u32, u32)>,
    foe_rolls: &Vec<(u32, u32)>,
) -> (r: Blows)
    requires
        round_fits(*player, player_wants_fight, weapons@, foes@),
        combat_rolls_ok(*player, player_wants_fight, weapons@, foes@, player_rolls@, foe_rolls@),
    ensures
        blows_for(r, *player, player_wants_fight, foes@, player_rolls@, foe_rolls@),
{
    let ghost hits = hits_on_player(*player, foes@, foe_rolls@);
    let mut to_foes: Vec<u32> = Vec::new();
    let mut to_player: u32 = 0;
    let mut i: usize = 0;
    proof {
        assert(hits.subrange(0, 0) =~= Seq::<int>::empty());
    }
    while i < foes.len()
        invariant
            i <= foes@.len(),
            round_fits(*player, player_wants_fight, weapons@, foes@),
            combat_rolls_ok(*player, player_wants_fight, weapons@, foes@, player_rolls@, foe_rolls@),
            hits == hits_on_player(*player, foes@, foe_rolls@),
            to_foes@.len() == i,
            to_player == last_nonzero(hits.subrange(0, i as int)),
            forall|k: int|
                0 <= k < i ==> #[trigger] to_foes@[k] == foe_damage(
                    *player,
                    player_wants_fight,
                    foes@[k],
                    player_rolls@[k],
                ),
        decreases foes@.len() - i,
    {
        let f = &foes[i];
        assert(foes@[i as int] == *f);
        let dealt = if player_wants_fight && f.in_fight {
            let pr = player_rolls[i];
            proof {
                assert(attack_rolls_ok(*player, striking_weapon(weapons@), f.character, pr));
                lemma_striking_usable(*player, weapons@);
                lemma_rolls_fit(*player, striking_weapon(weapons@), f.character, pr);
            }
            fight_outcome(player, &f.character, pr.0, pr.1)
        } else {
            0
        };
        let ghost before = to_foes@;
        to_foes.push(dealt);
        proof {
            assert forall|k: int|
                0 <= k < i + 1 implies #[trigger] to_foes@[k] == foe_damage(
                *player,
                player_wants_fight,
                foes@[k],
                player_rolls@[k],
            ) by {
                if k < i {
                    assert(to_foes@[k] == before[k]);
                }
            }
        }
        let taken = if f.wants_to_fight {
            let fr = foe_rolls[i];
            proof {
                assert(attack_rolls_ok(f.character, f.weapon, *player, fr));
                lemma_rolls_fit(f.character, f.weapon, *player, fr);
            }
            fight_outcome(&f.character, player, fr.0, fr.1)
        } else {
            0
        };
        assert(hits[i as int] == taken as int);
        if taken > 0 {
            to_player = taken;
        }
        proof {
            assert(hits.subrange(0, i + 1).drop_last() =~= hits.subrange(0, i as int));
            assert(hits.subrange(0, i + 1).last() == hits[i as int]);
        }
        i = i + 1;
    }
    proof {
        assert(hits.subrange(0, i as int) =~= hits);
    }
    Blows { to_foes, to_player }
}

/// One round of combat: the rolls are drawn at random (the player's rolls
/// as in `player_attack`, each attacking foe's as in `fight_round`), and the
/// blows are those of `combat_outcome` for them.
pub fn combat_round(player: &Character, player_wants_fight: bool, weapons: &Vec<Weapon>, foes: &Vec<Foe>) -> (r:
    Blows)
    requires
        round_fits(*player, player_wants_fight, weapons@, foes@),
    ensures
        exists|pr: Seq<(u32, u32)>, fr: Seq<(u32, u32)>|
            #![trigger combat_rolls_ok(*player, player_wants_fight, weapons@, foes@, pr, fr)]
            combat_rolls_ok(*player, player_wants_fight, weapons@, foes@, pr, fr) && blows_for(
                r,
                *player,
                player_wants_fight,
                foes@,
                pr,
                fr,
            ),
{
    let mut player_rolls: Vec<(u32, u32)> = Vec::new();
    let mut foe_rolls: Vec<(u32, u32)> = Vec::new();
    let mut i: usize = 0;
    while i < foes.len()
        invariant
            i <= foes@.len(),
            round_fits(*player, player_wants_fight, weapons@, foes@),
            player_rolls@.len() == i,
            foe_rolls@.len() == i,
            forall|k: int|
                0 <= k < i && player_wants_fight && (#[trigger] foes@[k]).in_fight ==> attack_rolls_ok(
                    *player,
                    striking_weapon(weapons@),
                    foes@[k].character,
                    player_rolls@[k],
                ),
            forall|k: int|
                0 <= k < i && (#[trigger] foes@[k]).wants_to_fight ==> attack_rolls_ok(
                    foes@[k].character,
                    foes@[k].weapon,
                    *player,
                    foe_rolls@[k],
                ),
        decreases foes@.len() - i,
    {
        let f = &foes[i];
        assert(foes@[i as int] == *f);
        let pr = if player_wants_fight && f.in_fight {
            player_attack_rolls(player, weapons, &f.character)
        } else {
            (0, 0)
        };
        let fr = if f.wants_to_fight {
            proof {
                assert(1 <= score(f.character, f.character.strength) + score(*player, player.strength)
                    < u32::MAX);
            }
            draw_attack(&f.character, &f.weapon, player)
        } else {
            (0, 0)
        };
        let ghost pb = player_rolls@;
        let ghost fb = foe_rolls@;
        player_rolls.push(pr);
        foe_rolls.push(fr);
        proof {
            assert forall|k: int|
                0 <= k < i + 1 && player_wants_fight && (#[trigger] foes@[k]).in_fight implies attack_rolls_ok(
                *player,
                striking_weapon(weapons@),
                foes@[k].character,
                player_rolls@[k],
            ) by {
                if k < i {
                    assert(player_rolls@[k] == pb[k]);
                }
            }
            assert forall|k: int|
                0 <= k < i + 1 && (#[trigger] foes@[k]).wants_to_fight implies attack_rolls_ok(
                foes@[k].character,
                foes@[k].weapon,
                *player,
                foe_rolls@[k],
            ) by {
                if k < i {
                    assert(foe_rolls@[k] == fb[k]);
                }
            }
        }
        i = i + 1;
    }
    let r = combat_outcome(player, player_wants_fight, weapons, foes, &player_rolls, &foe_rolls);
    assert(combat_rolls_ok(*player, player_wants_fight, weapons@, foes@, player_rolls@, foe_rolls@));
    r
}

/// How the monster guarding a room the player steps into joins the fight,
/// given whether the player won the initiative: (in the fight, strikes this
/// round). It is always in the fight, and strikes first when the player lost
/// the initiative.
pub open spec fn engagement_for(player_first: bool) -> (bool, bool) {
    (true, !player_first)
}

/// How the guarding monster joins the fight (see `engagement_for`).
pub fn engagement(player_first: bool) -> (r: (bool, bool))
    ensures
        r == engagement_for(player_first),
{
    (true, !player_first)
}

/// The player steps into a room guarded by `monster`: the initiative is
/// rolled and decides how the monster joins the fight (see `engagement`).
pub fn engage(player: &Character, monster: &Character) -> (r: (bool, bool))
    requires
        1 <= score(*player, player.willpower) + score(*monster, monster.willpower) < u32::MAX,
    ensures
        exists|roll: int|
            1 <= roll <= score(*player, player.willpower) + score(*monster, monster.willpower) && r
                == engagement_for(wins(score(*player, player.willpower), roll)),
{
    let first = initiative(player, monster);
    engagement(first)
}

/// Whether an opposed roll of `a` (twice the dexterity plus `a_extra`)
/// against `b` (the same with `b_extra`) can be made: the total lies in
/// `[1, u32::MAX)`.
fn scores_fit(a: &Character, a_extra: u32, b: &Character, b_extra: u32) -> (r: bool)
    ensures
        r == (1 <= score(*a, a_extra) + score(*b, b_extra) < u32::MAX),
{
    let t: u64 = a.dexterity as u64 * 2 + a_extra as u64 + b.dexterity as u64 * 2 + b_extra as u64;
    1 <= t && t < u32::MAX as u64
}

/// Whether the initiative of `player` against `monster` can be rolled.
pub fn initiative_fits(player: &Character, monster: &Character) -> (r: bool)
    ensures
        r == (1 <= score(*player, player.willpower) + score(*monster, monster.willpower) < u32::MAX),
{
    scores_fit(player, player.willpower, monster, monster.willpower)
}

/// Whether `attacker` can roll an attack with `w` (see `weapon_usable`).
fn weapon_fits(attacker: &Character, w: &Weapon) -> (r: bool)
    ensures
        r == weapon_usable(*attacker, *w),
{
    if !(0 <= w.damage_min && w.damage_min <= w.damage_max && w.damage_max < i32::MAX) {
        return false;
    }
    let bonus: i64 = if attacker.strength > 10 {
        ((attacker.strength - 10) / 3) as i64
    } else {
        0
    };
    2 * (w.damage_max as i64 + bonus) <= u32::MAX as i64
}

/// Whether the player's attack can be rolled (see `attack_fits`).
fn attack_can_be_rolled(player: &Character, weapons: &Vec<Weapon>) -> (r: bool)
    ensures
        r == attack_fits(*player, weapons@),
{
    let mut i: usize = 0;
    while i < weapons.len()
        invariant
            i <= weapons@.len(),
            forall|k: int| 0 <= k < i ==> weapon_usable(*player, #[trigger] weapons@[k]),
        decreases weapons@.len() - i,
    {
        if !weapon_fits(player, &weapons[i]) {
            return false;
        }
        i = i + 1;
    }
    weapons.len() > 0 || weapon_fits(player, &Weapon { damage_min: 1, damage_max: 3 })
}

/// Whether every roll of a round can be made (see `round_fits`).
pub fn round_can_be_rolled(player: &Character, player_wants_fight: bool, weapons: &Vec<Weapon>, foes: &Vec<Foe>) -> (r: bool)
    ensures
        r == round_fits(*player, player_wants_fight, weapons@, foes@),
{
    let attack_ok = attack_can_be_rolled(player, weapons);
    let mut j: usize = 0;
    while j < foes.len()
        invariant
            j <= foes@.len(),
            attack_ok == attack_fits(*player, weapons@),
            forall|k: int|
                0 <= k < j ==> {
                    let f = #[trigger] foes@[k];
                    &&& player_wants_fight && f.in_fight ==> {
                        &&& attack_fits(*player, weapons@)
                        &&& 1 <= score(*player, player.strength) + score(f.character, f.character.strength)
                            < u32::MAX
                    }
                    &&& f.wants_to_fight ==> {
                        &&& 1 <= score(*player, player.strength) + score(f.character, f.character.strength)
                            < u32::MAX
                        &&& weapon_usable(f.character, f.weapon)
                    }
                },
        decreases foes@.len() - j,
    {
        let f = &foes[j];
        assert(foes@[j as int] == *f);
        let scores_ok = scores_fit(player, player.strength, &f.character, f.character.strength);
        if player_wants_fight && f.in_fight && !(attack_ok && scores_ok) {
            return false;
        }
        if f.wants_to_fight && !(scores_ok && weapon_fits(&f.character, &f.weapon)) {
            return false;
        }
        j = j + 1;
    }
    true
}

} // verus!
