use vstd::prelude::*;
use rand::Rng;
use crate::components::{Character, Weapon};

verus! {

/// A number drawn uniformly from `[low, high)` by the thread-local
/// generator of `rand` (`thread_rng().gen_range(low, high)`, which panics
/// when `low >= high`). Only the range of the result is stated: the draw
/// itself is chance.
#[verifier::external_body]
pub(crate) fn roll_range(low: u64, high: u64) -> (r: u64)
    requires
        low < high,
    ensures
        low <= r < high,
{
    rand::thread_rng().gen_range(low, high)
}

/// The score an opposed roll is made with: twice the dexterity plus `extra`.
pub open spec fn score(c: Character, extra: u32) -> int {
    c.dexterity * 2 + extra
}

/// Whether a roll from `[1, score1 + score2]` wins for the first side.
pub open spec fn wins(score1: int, roll: int) -> bool {
    roll <= score1
}

/// The damage that an attack with the given rolls deals.
///
/// `roll` is the opposed roll in `[1, sc1 + sc2]`, `sc1` and `sc2` being
/// twice the dexterity plus the strength of attacker and defender; the
/// attack hits when `roll <= sc1`. A hit deals `damage_roll` (drawn from the
/// weapon's damage range), plus a third of the attacker's strength above ten,
/// doubled when `roll` is below a tenth of `sc1 + sc2`. A miss deals nothing.
pub open spec fn round_damage(attacker: Character, defender: Character, roll: int, damage_roll: int) -> int {
    let sc1 = score(attacker, attacker.strength);
    let sc2 = score(defender, defender.strength);
    let total = sc1 + sc2;
    if roll <= sc1 {
        let bonus = if attacker.strength > 10 { (attacker.strength - 10) / 3 } else { 0 };
        let dmg = damage_roll + bonus;
        if roll < total / 10 { dmg * 2 } else { dmg }
    } else {
        0
    }
}

/// An attack hits exactly when the opposed roll is at most the attacker's
/// own score, twice its dexterity plus its strength (the side that wins the
/// same roll in `against`): then a positive damage roll deals damage, and a
/// roll above that score deals none whatever the defender.
pub proof fn lemma_hit_when_attacker_wins(attacker: Character, defender: Character, roll: int, damage_roll: int)
    requires
        damage_roll >= 1,
    ensures
        round_damage(attacker, defender, roll, damage_roll) > 0 <==> roll <= 2 * attacker.dexterity
            + attacker.strength,
        round_damage(attacker, defender, roll, damage_roll) > 0 <==> wins(
            score(attacker, attacker.strength),
            roll,
        ),
        roll > 2 * attacker.dexterity + attacker.strength ==> round_damage(
            attacker,
            defender,
            roll,
            damage_roll,
        ) == 0,
        roll <= 2 * attacker.dexterity + attacker.strength ==> round_damage(
            attacker,
            defender,
            roll,
            damage_roll,
        ) >= damage_roll,
{
}

/// The largest damage a hit of `attacker` can deal with `weapon`, before doubling.
pub open spec fn max_hit(attacker: Character, weapon: Weapon) -> int {
    weapon.damage_max + if attacker.strength > 10 { (attacker.strength - 10) / 3 } else { 0 }
}

/// The outcome of an opposed test between `score1` and `score2` for the roll `roll`.
pub fn against_roll(score1: u32, roll: u32) -> (r: bool)
    ensures
        r == wins(score1 as int, roll as int),
{
    roll <= score1
}

/// An opposed test: a roll from `[1, score1 + score2]` decides, the first
/// side winning when the roll is at most `score1`.
pub fn against(score1: u32, score2: u32) -> (r: bool)
    requires
        1 <= score1 + score2 < u32::MAX,
    ensures
        exists|roll: int| 1 <= roll <= score1 + score2 && r == wins(score1 as int, roll),
        score1 == 0 ==> !r,
        score2 == 0 ==> r,
{
    let total = score1 + score2;
    let roll = roll_range(1, total as u64 + 1) as u32;
    let r = against_roll(score1, roll);
    assert(1 <= roll as int <= score1 + score2 && r == wins(score1 as int, roll as int));
    r
}

/// Whether the player acts before the monster: an opposed test of twice the
/// dexterity plus the willpower of each.
pub fn initiative(player: &Character, monster: &Character) -> (r: bool)
    requires
        1 <= score(*player, player.willpower) + score(*monster, monster.willpower) < u32::MAX,
    ensures
        exists|roll: int|
            1 <= roll <= score(*player, player.willpower) + score(*monster, monster.willpower) && r
                == wins(score(*player, player.willpower), roll),
{
    against(
        player.dexterity * 2 + player.willpower,
        monster.dexterity * 2 + monster.willpower,
    )
}

/// The damage of one attack for given rolls (see `round_damage`).
pub fn fight_outcome(attacker: &Character, defender: &Character, roll: u32, damage_roll: u32) -> (r: u32)
    requires
        score(*attacker, attacker.strength) + score(*defender, defender.strength) <= u32::MAX,
        2 * (damage_roll + if attacker.strength > 10 { (attacker.strength - 10) / 3 } else { 0 })
            <= u32::MAX,
    ensures
        r == round_damage(*attacker, *defender, roll as int, damage_roll as int),
{
    let sc1 = attacker.dexterity * 2 + attacker.strength;
    let sc2 = defender.dexterity * 2 + defender.strength;
    let total = sc1 + sc2;
    if roll <= sc1 {
        let mut dmg = damage_roll;
        if attacker.strength > 10 {
            dmg += (attacker.strength - 10) / 3;
        }
        if roll < total / 10 {
            dmg *= 2;
        }
        return dmg;
    }
    0
}

/// The rolls of one attack are in range: the opposed roll in
/// `[1, sc1 + sc2]` and the damage roll in the weapon's damage range.
pub open spec fn attack_rolls_ok(attacker: Character, weapon: Weapon, defender: Character, rolls: (u32, u32)) -> bool {
    &&& 1 <= rolls.0 <= score(attacker, attacker.strength) + score(defender, defender.strength)
    &&& weapon.damage_min <= rolls.1 <= weapon.damage_max
}

/// Draws the rolls of one attack of `attacker` with `weapon` against
/// `defender`: the opposed roll, then, on a hit, the damage roll (on a miss
/// the damage roll is not drawn and the weapon's least damage stands in).
pub(crate) fn draw_attack(attacker: &Character, weapon: &Weapon, defender: &Character) -> (r: (u32, u32))
    requires
        1 <= score(*attacker, attacker.strength) + score(*defender, defender.strength) < u32::MAX,
        0 <= weapon.damage_min <= weapon.damage_max < i32::MAX,
    ensures
        attack_rolls_ok(*attacker, *weapon, *defender, r),
{
    let sc1 = attacker.dexterity * 2 + attacker.strength;
    let sc2 = defender.dexterity * 2 + defender.strength;
    let total = sc1 + sc2;
    let roll = roll_range(1, total as u64 + 1) as u32;
    let damage_roll = if roll <= sc1 {
        roll_range(weapon.damage_min as u64, weapon.damage_max as u64 + 1) as u32
    } else {
        weapon.damage_min as u32
    };
    (roll, damage_roll)
}

/// One attack of `attacker` with `weapon` against `defender`: the damage
/// dealt for some opposed roll from `[1, sc1 + sc2]` and some damage roll
/// from the weapon's range (see `fight_outcome` for given rolls).
pub fn fight_round(attacker: &Character, weapon: &Weapon, defender: &Character) -> (r: u32)
    requires
        1 <= score(*attacker, attacker.strength) + score(*defender, defender.strength) < u32::MAX,
        0 <= weapon.damage_min <= weapon.damage_max < i32::MAX,
        2 * max_hit(*attacker, *weapon) <= u32::MAX,
    ensures
        exists|roll: int, damage_roll: int|
            1 <= roll <= score(*attacker, attacker.strength) + score(*defender, defender.strength)
                && weapon.damage_min <= damage_roll <= weapon.damage_max && r == round_damage(
                *attacker,
                *defender,
                roll,
                damage_roll,
            ),
        r <= 2 * max_hit(*attacker, *weapon),
{
    let (roll, damage_roll) = draw_attack(attacker, weapon, defender);
    let r = fight_outcome(attacker, defender, roll, damage_roll);
    assert(1 <= roll as int <= score(*attacker, attacker.strength) + score(*defender, defender.strength)
        && weapon.damage_min <= damage_roll as int <= weapon.damage_max && r == round_damage(
        *attacker,
        *defender,
        roll as int,
        damage_roll as int,
    ));
    r
}

} // verus!
