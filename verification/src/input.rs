use vstd::prelude::*;
use crate::progress::{JournalMove, PlayerView, RunState};
use crate::combat::CombatResult;

verus! {

/// The keys the game reacts to.
#[derive(Clone, Copy, Debug, PartialEq, Eq, Structural)]
pub enum Key {
    Left,
    Numpad4,
    Right,
    Numpad6,
    Up,
    Numpad8,
    Down,
    Numpad2,
    J,
    C,
    I,
    M,
    H,
    F1,
    G,
    D,
    P,
    N,
    L,
    Y,
    A,
    F,
    Other,
}

/// What the player asked for with a key press.
#[derive(Clone, Copy, Debug, PartialEq, Eq, Structural)]
pub enum Command {
    /// No key was pressed: stay in the given state.
    Wait(RunState),
    /// A key was pressed in the drop menu: drop the item of that letter.
    DropChoice,
    /// Step by the given offsets.
    Move(i32, i32),
    /// Show the given side panel.
    ShowView(PlayerView),
    /// Pick up what lies here.
    Pickup,
    /// Open the drop menu over the inventory.
    StartDrop,
    /// Move through the journal.
    Journal(JournalMove),
    /// Accept the interactions on offer.
    Accept,
    /// Any other key: pause.
    Ignore,
}

/// The command a key press (or its absence) means in state `runstate`.
pub open spec fn command_for(runstate: RunState, key: Option<Key>) -> Command {
    match key {
        None => Command::Wait(if runstate == RunState::Dropping {
            RunState::Dropping
        } else {
            RunState::Paused
        }),
        Some(k) => if runstate == RunState::Dropping {
            Command::DropChoice
        } else {
            match k {
                Key::Left | Key::Numpad4 => Command::Move(-1i32, 0i32),
                Key::Right | Key::Numpad6 => Command::Move(1, 0),
                Key::Up | Key::Numpad8 => Command::Move(0i32, -1i32),
                Key::Down | Key::Numpad2 => Command::Move(0, 1),
                Key::J => Command::ShowView(PlayerView::Diary),
                Key::C => Command::ShowView(PlayerView::Characteristics),
                Key::I => Command::ShowView(PlayerView::Inventory),
                Key::M => Command::ShowView(PlayerView::Spells),
                Key::H | Key::F1 => Command::ShowView(PlayerView::Help),
                Key::G => Command::Pickup,
                Key::D => Command::StartDrop,
                Key::P => Command::Journal(JournalMove::Previous),
                Key::N => Command::Journal(JournalMove::Next),
                Key::L => Command::Journal(JournalMove::Last),
                Key::Y => Command::Accept,
                Key::A | Key::F | Key::Other => Command::Ignore,
            }
        },
    }
}

/// The command for a key press in state `runstate`.
pub fn player_command(runstate: RunState, key: Option<Key>) -> (r: Command)
    ensures
        r == command_for(runstate, key),
{
    match key {
        None => Command::Wait(crate::progress::waiting_state(runstate)),
        Some(k) => match runstate {
            RunState::Dropping => Command::DropChoice,
            _ => match k {
                Key::Left => Command::Move(-1i32, 0i32),
                Key::Numpad4 => Command::Move(-1i32, 0i32),
                Key::Right => Command::Move(1, 0),
                Key::Numpad6 => Command::Move(1, 0),
                Key::Up => Command::Move(0, -1),
                Key::Numpad8 => Command::Move(0, -1),
                Key::Down => Command::Move(0, 1),
                Key::Numpad2 => Command::Move(0, 1),
                Key::J => Command::ShowView(PlayerView::Diary),
                Key::C => Command::ShowView(PlayerView::Characteristics),
                Key::I => Command::ShowView(PlayerView::Inventory),
                Key::M => Command::ShowView(PlayerView::Spells),
                Key::H => Command::ShowView(PlayerView::Help),
                Key::F1 => Command::ShowView(PlayerView::Help),
                Key::G => Command::Pickup,
                Key::D => Command::StartDrop,
                Key::P => Command::Journal(JournalMove::Previous),
                Key::N => Command::Journal(JournalMove::Next),
                Key::L => Command::Journal(JournalMove::Last),
                Key::Y => Command::Accept,
                Key::A => Command::Ignore,
                Key::F => Command::Ignore,
                Key::Other => Command::Ignore,
            },
        },
    }
}

/// Whether carrying out `cmd` first withdraws the interactions on offer.
pub open spec fn withdraws_interactions(cmd: Command) -> bool {
    cmd is Move || cmd is ShowView || cmd is StartDrop || cmd is Journal
}

/// Whether carrying out `cmd` first withdraws the interactions on offer.
pub fn clears_interactions(cmd: Command) -> (r: bool)
    ensures
        r == withdraws_interactions(cmd),
{
    match cmd {
        Command::Move(_, _) | Command::ShowView(_) | Command::StartDrop | Command::Journal(_) => true,
        _ => false,
    }
}

/// The state after a step: a fight when the step led into a room guarded by
/// a monster, running otherwise.
pub open spec fn state_after_move(moved: bool, guarded: bool) -> RunState {
    if moved && guarded {
        RunState::Combat
    } else {
        RunState::Running
    }
}

/// The state after a step.
pub fn move_state(moved: bool, guarded: bool) -> (r: RunState)
    ensures
        r == state_after_move(moved, guarded),
{
    if moved && guarded {
        RunState::Combat
    } else {
        RunState::Running
    }
}

/// The state the main loop goes on in after `cmd`; `after_move` is the
/// state a step led to.
pub open spec fn state_after(cmd: Command, after_move: RunState) -> RunState {
    match cmd {
        Command::Wait(s) => s,
        Command::Move(_, _) => after_move,
        Command::StartDrop => RunState::Dropping,
        Command::Ignore => RunState::Paused,
        _ => RunState::Running,
    }
}

/// The state the main loop goes on in after `cmd`.
pub fn next_state(cmd: Command, after_move: RunState) -> (r: RunState)
    ensures
        r == state_after(cmd, after_move),
{
    match cmd {
        Command::Wait(s) => s,
        Command::Move(_, _) => after_move,
        Command::StartDrop => RunState::Dropping,
        Command::Ignore => RunState::Paused,
        _ => RunState::Running,
    }
}

/// What a frame of the main loop does.
#[derive(Clone, Copy, Debug, PartialEq, Eq, Structural)]
pub enum Frame {
    /// Run a combat round and show the combat screen.
    Fight,
    /// Let the systems carry out what the last command asked for.
    Systems,
    /// Read the keyboard.
    Input,
}

/// The work of a frame in state `s`.
pub open spec fn frame_for(s: RunState) -> Frame {
    match s {
        RunState::Combat => Frame::Fight,
        RunState::Running => Frame::Systems,
        _ => Frame::Input,
    }
}

/// The work of a frame in state `s`.
pub fn frame_of(s: RunState) -> (r: Frame)
    ensures
        r == frame_for(s),
{
    match s {
        RunState::Combat => Frame::Fight,
        RunState::Running => Frame::Systems,
        _ => Frame::Input,
    }
}

/// The state after a frame that did not read the keyboard: after a combat
/// round, running once the combat screen closes and fighting on otherwise;
/// after the systems ran, paused until the next key.
pub open spec fn state_after_frame(s: RunState, fight: CombatResult) -> RunState {
    match frame_for(s) {
        Frame::Fight => if fight == CombatResult::Stop {
            RunState::Running
        } else {
            RunState::Combat
        },
        _ => RunState::Paused,
    }
}

/// The state after a frame that did not read the keyboard (see `state_after_frame`).
pub fn after_frame(s: RunState, fight: CombatResult) -> (r: RunState)
    requires
        frame_for(s) != Frame::Input,
    ensures
        r == state_after_frame(s, fight),
{
    match frame_of(s) {
        Frame::Fight => match fight {
            CombatResult::Stop => RunState::Running,
            CombatResult::Continue => RunState::Combat,
        },
        _ => RunState::Paused,
    }
}

/// What the combat screen does in a frame: whether the fight goes on, and
/// whether the player (with every standing foe in the fight) strikes, or
/// flees, in the next round.
#[derive(Clone, Copy, Debug, PartialEq, Eq, Structural)]
pub struct CombatTurn {
    /// The fight is over (see `combat_over`).
    pub over: bool,
    pub result: CombatResult,
    pub attack: bool,
    pub flee: bool,
}

/// The fight is over: the player is dead or has fled, or every foe in the
/// fight (`foes_dead` tells which of them are dead) is dead.
pub open spec fn combat_over(player_dead: bool, player_fled: bool, foes_dead: Seq<bool>) -> bool {
    player_dead || player_fled || forall|i: int| 0 <= i < foes_dead.len() ==> #[trigger] foes_dead[i]
}

/// The combat screen's answer to a key press (or its absence): once the
/// fight is over any key closes the screen; until then `A` attacks, `F`
/// flees and the fight goes on.
pub open spec fn combat_turn_for(over: bool, key: Option<Key>) -> CombatTurn {
    if over {
        CombatTurn {
            over: true,
            result: if key is Some {
                CombatResult::Stop
            } else {
                CombatResult::Continue
            },
            attack: false,
            flee: false,
        }
    } else {
        CombatTurn {
            over: false,
            result: CombatResult::Continue,
            attack: key == Some(Key::A),
            flee: key == Some(Key::F),
        }
    }
}

/// The combat screen's answer to a key press (see `combat_turn_for`).
pub fn combat_turn(player_dead: bool, player_fled: bool, foes_dead: &Vec<bool>, key: Option<Key>) -> (r: CombatTurn)
    ensures
        r == combat_turn_for(combat_over(player_dead, player_fled, foes_dead@), key),
{
    let mut all_dead = true;
    let mut i: usize = 0;
    while i < foes_dead.len()
        invariant
            i <= foes_dead@.len(),
            all_dead == forall|k: int| 0 <= k < i ==> #[trigger] foes_dead@[k],
        decreases foes_dead@.len() - i,
    {
        if !foes_dead[i] {
            all_dead = false;
        }
        i = i + 1;
    }
    if player_dead || player_fled || all_dead {
        let result = match key {
            Some(_) => CombatResult::Stop,
            None => CombatResult::Continue,
        };
        CombatTurn { over: true, result, attack: false, flee: false }
    } else {
        let (attack, flee) = match key {
            Some(Key::A) => (true, false),
            Some(Key::F) => (false, true),
            _ => (false, false),
        };
        CombatTurn { over: false, result: CombatResult::Continue, attack, flee }
    }
}

/// Whether a foe strikes in the next round: when the player attacks, every
/// foe in the fight that still stands strikes back.
pub fn foe_strikes(turn: CombatTurn, in_fight: bool, dead: bool) -> (r: bool)
    ensures
        r == (turn.attack && in_fight && !dead),
{
    turn.attack && in_fight && !dead
}

/// The combat screen closes only once the fight is over and a key is
/// pressed; while the fight is on it never closes; the player never both
/// attacks and flees, and does neither once the fight is over.
pub proof fn lemma_combat_turn(over: bool, key: Option<Key>)
    ensures
        combat_turn_for(over, key).result == CombatResult::Stop <==> (over && key is Some),
        !(combat_turn_for(over, key).attack && combat_turn_for(over, key).flee),
        over ==> !combat_turn_for(over, key).attack && !combat_turn_for(over, key).flee,
{
}

/// Outside the drop menu each arrow key moves one step in its own direction
/// (x grows to the right, y downwards), its number-pad twin does the same,
/// and opposite keys move in opposite directions.
pub proof fn lemma_arrow_keys(s: RunState)
    requires
        s != RunState::Dropping,
    ensures
        command_for(s, Some(Key::Left)) == Command::Move(-1i32, 0i32),
        command_for(s, Some(Key::Right)) == Command::Move(1, 0),
        command_for(s, Some(Key::Up)) == Command::Move(0i32, -1i32),
        command_for(s, Some(Key::Down)) == Command::Move(0, 1),
        command_for(s, Some(Key::Numpad4)) == command_for(s, Some(Key::Left)),
        command_for(s, Some(Key::Numpad6)) == command_for(s, Some(Key::Right)),
        command_for(s, Some(Key::Numpad8)) == command_for(s, Some(Key::Up)),
        command_for(s, Some(Key::Numpad2)) == command_for(s, Some(Key::Down)),
{
}

/// The keyboard is read only while the game is paused or the drop menu is
/// open; once the systems have run the game waits for a key; a fight goes
/// on exactly as long as the combat screen says so.
pub proof fn lemma_frames(s: RunState, fight: CombatResult)
    ensures
        (frame_for(s) == Frame::Input) <==> (s == RunState::Paused || s == RunState::Dropping),
        s == RunState::Running ==> frame_for(state_after_frame(s, fight)) == Frame::Input,
        s == RunState::Combat ==> (state_after_frame(s, fight) == RunState::Combat <==> fight
            == CombatResult::Continue),
{
}

/// While the drop menu is open every key press chooses an item to drop,
/// and without a key press the menu stays open.
pub proof fn lemma_drop_menu_captures_keys(key: Option<Key>)
    ensures
        command_for(RunState::Dropping, key) == match key {
            None => Command::Wait(RunState::Dropping),
            Some(_) => Command::DropChoice,
        },
        state_after(command_for(RunState::Dropping, None), RunState::Running) == RunState::Dropping,
{
}

} // verus!
