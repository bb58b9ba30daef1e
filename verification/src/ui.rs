//! The turn-end button's interaction state machine.
//!
//! The presentation layer reports the pointer's interaction with the
//! button; this module decides the button's next status, which of the
//! named colors it shows, and whether a turn-end signal is emitted.

use vstd::prelude::*;
use crate::components::ButtonStatus;

verus! {

/// The pointer's interaction with the button this tick, as the
/// presentation layer reports it.
#[derive(Clone, Copy, PartialEq, Eq, Structural, Debug)]
pub enum InteractionKind {
    Pressed,
    Hovered,
    Idle,
}

/// The named button colors the presentation layer can show.
#[derive(Clone, Copy, PartialEq, Eq, Structural, Debug)]
pub enum ButtonColor {
    /// The pressed highlight.
    Pressed,
    /// The hover highlight.
    Hover,
    /// The resting background a hovered or pressed button falls back to.
    NormalBg,
    /// The base color of every other state.
    Base,
}

/// The button's transition table: next status, color to show, and whether
/// a turn-end signal is emitted.
pub open spec fn button_transition(i: InteractionKind, s: ButtonStatus) -> (
    ButtonStatus,
    ButtonColor,
    bool,
) {
    match (i, s) {
        (InteractionKind::Pressed, ButtonStatus::Normal) => (
            ButtonStatus::Pressed,
            ButtonColor::Pressed,
            true,
        ),
        (InteractionKind::Pressed, ButtonStatus::Hovered) => (
            ButtonStatus::Pressed,
            ButtonColor::Pressed,
            true,
        ),
        (InteractionKind::Hovered, _) => (ButtonStatus::Hovered, ButtonColor::Hover, false),
        (InteractionKind::Idle, ButtonStatus::Pressed) => (
            ButtonStatus::Hovered,
            ButtonColor::NormalBg,
            false,
        ),
        (InteractionKind::Idle, ButtonStatus::Hovered) => (
            ButtonStatus::Normal,
            ButtonColor::NormalBg,
            false,
        ),
        _ => (s, ButtonColor::Base, false),
    }
}

/// Advance the turn-end button one tick.  A press on a normal or hovered
/// button — and only that — emits the turn-end signal.
pub fn game_ui_interaction(interaction: InteractionKind, status: ButtonStatus) -> (r: (
    ButtonStatus,
    ButtonColor,
    bool,
))
    ensures
        r == button_transition(interaction, status),
        r.2 <==> (interaction is Pressed && (status is Normal || status is Hovered)),
{
    match (interaction, status) {
        (InteractionKind::Pressed, ButtonStatus::Normal) => (
            ButtonStatus::Pressed,
            ButtonColor::Pressed,
            true,
        ),
        (InteractionKind::Pressed, ButtonStatus::Hovered) => (
            ButtonStatus::Pressed,
            ButtonColor::Pressed,
            true,
        ),
        (InteractionKind::Hovered, _) => (ButtonStatus::Hovered, ButtonColor::Hover, false),
        (InteractionKind::Idle, ButtonStatus::Pressed) => (
            ButtonStatus::Hovered,
            ButtonColor::NormalBg,
            false,
        ),
        (InteractionKind::Idle, ButtonStatus::Hovered) => (
            ButtonStatus::Normal,
            ButtonColor::NormalBg,
            false,
        ),
        (_, _) => (status, ButtonColor::Base, false),
    }
}

} // verus!
