use anthea::input::{after_frame, clears_interactions, combat_turn, foe_strikes, frame_of, move_state, next_state, player_command, Command, CombatTurn, Frame, Key};
use anthea::map::mark_visited;
use anthea::combat::CombatResult;
use anthea::progress::{
    get_interaction, interaction_on_arrival, valid_condition, view_after_pickup, valid_interaction, waiting_state, Carried, Flags, Journal,
    JournalMove, PlayerView, RunState,
};
use anthea::stage::{Action, Condition, Interaction, InteractionType};

fn s(t: &str) -> String {
    t.to_string()
}

fn journal(n: usize, current: usize) -> Journal {
    Journal { entries: (0..n).map(|i| (s("main"), format!("entry {}", i))).collect(), current }
}

#[test]
fn flags_read_back() {
    let mut f = Flags::new();
    assert!(!f.contains(&s("q"), &s("a")));
    f.insert(s("q"), s("a"));
    f.insert(s("q"), s("a"));
    assert_eq!(f.set.len(), 1);
    assert!(f.contains(&s("q"), &s("a")));
    assert!(!f.contains(&s("q"), &s("b")));
    f.insert(s("q"), s("b"));
    f.remove(&s("q"), &s("a"));
    assert!(!f.contains(&s("q"), &s("a")));
    assert!(f.contains(&s("q"), &s("b")));
    f.remove(&s("x"), &s("y"));
    assert_eq!(f.set.len(), 1);
}

#[test]
fn journal_moves() {
    let mut j = journal(3, 0);
    j.apply_move(JournalMove::Previous);
    assert_eq!(j.current, 0);
    j.apply_move(JournalMove::Next);
    assert_eq!(j.current, 1);
    j.apply_move(JournalMove::Last);
    assert_eq!(j.current, 2);
    j.apply_move(JournalMove::Next);
    assert_eq!(j.current, 2);
    j.apply_move(JournalMove::Previous);
    assert_eq!(j.current, 1);
    assert!(j.has_previous());
    assert!(j.has_next());
    j.add_entry(s("q"), s("new"));
    assert_eq!(j.current, 3);
    assert_eq!(j.entries.len(), 4);
    assert!(!j.has_next());
    let mut empty = journal(0, 0);
    empty.apply_move(JournalMove::Previous);
    assert_eq!(empty.current, 0);
}

#[test]
fn conditions_and_interactions() {
    let mut f = Flags::new();
    f.insert(s("q"), s("met"));
    f.insert(s("quest"), s("DONE"));
    let carried = vec![
        Carried { key: s("key"), is_item: true },
        Carried { key: s("potion"), is_item: false },
    ];
    assert!(valid_condition(&f, &carried, &Condition::IfFlag(s("q"), s("met"))));
    assert!(!valid_condition(&f, &carried, &Condition::IfFlag(s("q"), s("other"))));
    assert!(valid_condition(&f, &carried, &Condition::IfQuestAchieved(s("quest"))));
    assert!(!valid_condition(&f, &carried, &Condition::IfQuestAchieved(s("q"))));
    assert!(valid_condition(&f, &carried, &Condition::IfItem(s("key"))));
    // potions are carried but are not stage items
    assert!(!valid_condition(&f, &carried, &Condition::IfItem(s("potion"))));

    let first = Interaction::internal(Action::RaiseXP(1));
    let mut second = Interaction::internal(Action::RaiseXP(2));
    second.conditions.push(Condition::IfFlag(s("q"), s("met")));
    let mut third = Interaction::internal(Action::RaiseXP(3));
    third.conditions.push(Condition::IfItem(s("missing")));
    assert!(valid_interaction(&f, &carried, &second));
    assert!(!valid_interaction(&f, &carried, &third));
    let all = vec![first, second, third];
    assert_eq!(get_interaction(&f, &carried, &all), Some(1));
    assert_eq!(get_interaction(&Flags::new(), &carried, &all), Some(0));
    assert_eq!(get_interaction(&f, &carried, &Vec::new()), None);
}

#[test]
fn accepted_interaction_shows_its_after_text() {
    let mut i = Interaction::internal(Action::StartQuest(s("q")));
    i.text = s("Will you help?");
    i.after_text = s("Thank you.");
    i.interaction_type = InteractionType::Question;
    let a = i.accepted();
    assert_eq!(a.text, "Thank you.");
    assert_eq!(a.after_text, "Thank you.");
    assert_eq!(a.interaction_type, InteractionType::Question);
    assert_eq!(a.actions.len(), 1);
    let c = i.clone();
    assert_eq!(c.text, "Will you help?");
    assert_eq!(InteractionType::default(), InteractionType::Automatic);
}

#[test]
fn waiting_keeps_the_drop_menu() {
    assert_eq!(waiting_state(RunState::Dropping), RunState::Dropping);
    assert_eq!(waiting_state(RunState::Running), RunState::Paused);
    assert_eq!(waiting_state(RunState::Combat), RunState::Paused);
}

#[test]
fn keys_map_to_commands() {
    assert_eq!(player_command(RunState::Paused, None), Command::Wait(RunState::Paused));
    assert_eq!(player_command(RunState::Dropping, None), Command::Wait(RunState::Dropping));
    assert_eq!(player_command(RunState::Dropping, Some(Key::Left)), Command::DropChoice);
    assert_eq!(player_command(RunState::Paused, Some(Key::Left)), Command::Move(-1, 0));
    assert_eq!(player_command(RunState::Paused, Some(Key::Numpad6)), Command::Move(1, 0));
    assert_eq!(player_command(RunState::Paused, Some(Key::Up)), Command::Move(0, -1));
    assert_eq!(player_command(RunState::Paused, Some(Key::Numpad2)), Command::Move(0, 1));
    assert_eq!(player_command(RunState::Paused, Some(Key::J)), Command::ShowView(PlayerView::Diary));
    assert_eq!(player_command(RunState::Paused, Some(Key::F1)), Command::ShowView(PlayerView::Help));
    assert_eq!(player_command(RunState::Paused, Some(Key::G)), Command::Pickup);
    assert_eq!(player_command(RunState::Paused, Some(Key::D)), Command::StartDrop);
    assert_eq!(player_command(RunState::Paused, Some(Key::N)), Command::Journal(JournalMove::Next));
    assert_eq!(player_command(RunState::Paused, Some(Key::Y)), Command::Accept);
    assert_eq!(player_command(RunState::Paused, Some(Key::Other)), Command::Ignore);
}

#[test]
fn states_after_commands() {
    assert_eq!(next_state(Command::StartDrop, RunState::Running), RunState::Dropping);
    assert_eq!(next_state(Command::Ignore, RunState::Running), RunState::Paused);
    assert_eq!(next_state(Command::Move(1, 0), RunState::Combat), RunState::Combat);
    assert_eq!(next_state(Command::Pickup, RunState::Combat), RunState::Running);
    assert_eq!(next_state(Command::Wait(RunState::Dropping), RunState::Running), RunState::Dropping);
    assert_eq!(move_state(true, true), RunState::Combat);
    assert_eq!(move_state(false, true), RunState::Running);
    assert_eq!(move_state(true, false), RunState::Running);
    assert!(clears_interactions(Command::Move(0, 1)));
    assert!(clears_interactions(Command::Journal(JournalMove::Last)));
    assert!(!clears_interactions(Command::Accept));
    assert!(!clears_interactions(Command::Pickup));
}

#[test]
fn frames_of_the_main_loop() {
    assert_eq!(frame_of(RunState::Combat), Frame::Fight);
    assert_eq!(frame_of(RunState::Running), Frame::Systems);
    assert_eq!(frame_of(RunState::Paused), Frame::Input);
    assert_eq!(frame_of(RunState::Dropping), Frame::Input);
    assert_eq!(after_frame(RunState::Combat, CombatResult::Stop), RunState::Running);
    assert_eq!(after_frame(RunState::Combat, CombatResult::Continue), RunState::Combat);
    assert_eq!(after_frame(RunState::Running, CombatResult::Stop), RunState::Paused);
}

#[test]
fn combat_screen_turns() {
    let t = combat_turn(false, false, &vec![false, true], Some(Key::A));
    assert_eq!(t, CombatTurn { over: false, result: CombatResult::Continue, attack: true, flee: false });
    let t = combat_turn(false, false, &vec![false], Some(Key::F));
    assert_eq!(t, CombatTurn { over: false, result: CombatResult::Continue, attack: false, flee: true });
    let t = combat_turn(false, false, &vec![false], Some(Key::G));
    assert_eq!(t, CombatTurn { over: false, result: CombatResult::Continue, attack: false, flee: false });
    let t = combat_turn(false, false, &vec![true, true], None);
    assert_eq!(t, CombatTurn { over: true, result: CombatResult::Continue, attack: false, flee: false });
    let t = combat_turn(false, true, &vec![false], Some(Key::A));
    assert_eq!(t, CombatTurn { over: true, result: CombatResult::Stop, attack: false, flee: false });
    assert_eq!(combat_turn(true, false, &vec![false], Some(Key::Other)).result, CombatResult::Stop);
    assert!(foe_strikes(CombatTurn { over: false, result: CombatResult::Continue, attack: true, flee: false }, true, false));
    assert!(!foe_strikes(CombatTurn { over: false, result: CombatResult::Continue, attack: true, flee: false }, true, true));
    assert!(!foe_strikes(CombatTurn { over: false, result: CombatResult::Continue, attack: true, flee: false }, false, false));
    assert!(!foe_strikes(CombatTurn { over: false, result: CombatResult::Continue, attack: false, flee: true }, true, false));
    assert_eq!(player_command(RunState::Paused, Some(Key::A)), Command::Ignore);
}

#[test]
fn small_decisions() {
    assert_eq!(view_after_pickup(PlayerView::Diary, true), PlayerView::Inventory);
    assert_eq!(view_after_pickup(PlayerView::Diary, false), PlayerView::Diary);
    let mut v = vec![false, false, false];
    mark_visited(&mut v, 1);
    assert_eq!(v, vec![false, true, false]);
    let ask = Interaction {
        conditions: vec![],
        text: s("Join me?"),
        actions: vec![],
        interaction_type: InteractionType::Question,
        after_text: s("Good."),
    };
    let auto = Interaction { interaction_type: InteractionType::Automatic, text: s("Hello"), ..ask.clone() };
    let locked = Interaction { conditions: vec![Condition::IfFlag(s("q"), s("x"))], ..auto.clone() };
    let flags = Flags::new();
    assert_eq!(interaction_on_arrival(&flags, &vec![], &vec![auto.clone(), ask.clone()]), Some((1, false)));
    assert_eq!(interaction_on_arrival(&flags, &vec![], &vec![ask.clone(), auto.clone(), locked.clone()]), Some((1, true)));
    assert_eq!(interaction_on_arrival(&flags, &vec![], &vec![locked]), None);
}
