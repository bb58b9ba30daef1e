use noname_rl::components::ButtonStatus;
use noname_rl::scheduler::{update_end_turn, RLTimeSystem, TurnPhase};
use noname_rl::ui::{game_ui_interaction, ButtonColor, InteractionKind};

#[test]
fn turn_end_twice_restores_phase_and_adds_two() {
    let mut ts = RLTimeSystem::new();
    let mut phase = TurnPhase::ActorTurn;
    assert_eq!(ts.get_time(), 0);

    update_end_turn(&mut ts, &mut phase);
    assert_eq!(phase, TurnPhase::OpponentTurn);
    assert_eq!(ts.get_time(), 1);

    update_end_turn(&mut ts, &mut phase);
    assert_eq!(phase, TurnPhase::ActorTurn);
    assert_eq!(ts.get_time(), 2);
}

#[test]
fn schedule_and_wake_entities() {
    let mut ts = RLTimeSystem::new();
    assert!(ts.get_entities_at_current_time().is_none());

    ts.schedule_entity(42, 3);
    ts.schedule_entity(7, 3);
    ts.schedule_entity(9, 1);

    assert_eq!(ts.get_entities_at_time(3), Some(&vec![42u64, 7u64]));
    assert_eq!(ts.get_entities_at_time(1), Some(&vec![9u64]));
    assert!(ts.get_entities_at_time(2).is_none());

    ts.increment();
    assert_eq!(ts.get_entities_at_current_time(), Some(&vec![9u64]));
}

#[test]
fn schedule_is_relative_to_current_time() {
    let mut ts = RLTimeSystem::new();
    ts.increment();
    ts.increment();
    ts.schedule_entity(5, 4);
    assert_eq!(ts.get_entities_at_time(6), Some(&vec![5u64]));
}

#[test]
fn clock_parts_render_hours_minutes_seconds() {
    let mut ts = RLTimeSystem::new();
    for _ in 0..3725 {
        ts.increment();
    }
    assert_eq!(ts.clock_parts(), (1, 2, 5));
}

#[test]
fn button_press_emits_turn_end() {
    let (status, color, emit) = game_ui_interaction(InteractionKind::Pressed, ButtonStatus::Normal);
    assert_eq!(status, ButtonStatus::Pressed);
    assert_eq!(color, ButtonColor::Pressed);
    assert!(emit);

    let (status, _, emit) = game_ui_interaction(InteractionKind::Pressed, ButtonStatus::Hovered);
    assert_eq!(status, ButtonStatus::Pressed);
    assert!(emit);
}

#[test]
fn button_press_on_pressed_does_not_re_emit() {
    let (status, color, emit) = game_ui_interaction(InteractionKind::Pressed, ButtonStatus::Pressed);
    assert_eq!(status, ButtonStatus::Pressed);
    assert_eq!(color, ButtonColor::Base);
    assert!(!emit);
}

#[test]
fn button_hover_and_release_cycle() {
    let (status, color, emit) = game_ui_interaction(InteractionKind::Hovered, ButtonStatus::Normal);
    assert_eq!(status, ButtonStatus::Hovered);
    assert_eq!(color, ButtonColor::Hover);
    assert!(!emit);

    let (status, color, emit) = game_ui_interaction(InteractionKind::Idle, ButtonStatus::Pressed);
    assert_eq!(status, ButtonStatus::Hovered);
    assert_eq!(color, ButtonColor::NormalBg);
    assert!(!emit);

    let (status, _, emit) = game_ui_interaction(InteractionKind::Idle, ButtonStatus::Hovered);
    assert_eq!(status, ButtonStatus::Normal);
    assert!(!emit);

    let (status, color, emit) = game_ui_interaction(InteractionKind::Idle, ButtonStatus::Normal);
    assert_eq!(status, ButtonStatus::Normal);
    assert_eq!(color, ButtonColor::Base);
    assert!(!emit);
}
