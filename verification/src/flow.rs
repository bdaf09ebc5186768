//! The game's two screens and what moves between them.

use vstd::prelude::*;
use crate::ship::ShipColor;

verus! {

/// The screen the game shows.
#[derive(Clone, Copy, Debug, PartialEq, Eq, Structural, Hash)]
pub enum GameState {
    MainMenu,
    Gameplay,
}

/// The buttons of the main menu.
#[derive(Clone, Copy, Debug, PartialEq, Eq, Structural, Hash)]
pub enum MenuButton {
    Start,
    Quit,
}

/// What the pointer is doing to a button.
#[derive(Clone, Copy, Debug, PartialEq, Eq, Structural, Hash)]
pub enum ButtonInteraction {
    Clicked,
    Hovered,
    Idle,
}

/// Something that happened in a frame.
#[derive(Clone, Copy, Debug, PartialEq, Eq, Structural)]
pub enum GameEvent {
    /// A menu button's interaction changed.
    Button(MenuButton, ButtonInteraction),
    /// A ship was destroyed; the colour is the winner's.
    GameOver(ShipColor),
}

/// What the game does in answer.
#[derive(Clone, Copy, Debug, PartialEq, Eq, Structural, Hash)]
pub enum FlowAction {
    /// Nothing.
    Stay,
    /// Remove the menu and switch to play.
    StartGame,
    /// Leave the application.
    Exit,
    /// Switch back to the main menu.
    ReturnToMenu,
}

/// The answer to an event on a screen. The menu's buttons are read only on the
/// main menu, and the end of a round only during play.
pub open spec fn spec_on_event(state: GameState, event: GameEvent) -> FlowAction {
    match (state, event) {
        (GameState::MainMenu, GameEvent::Button(MenuButton::Start, ButtonInteraction::Clicked)) => FlowAction::StartGame,
        (GameState::MainMenu, GameEvent::Button(MenuButton::Quit, ButtonInteraction::Clicked)) => FlowAction::Exit,
        (GameState::Gameplay, GameEvent::GameOver(_)) => FlowAction::ReturnToMenu,
        _ => FlowAction::Stay,
    }
}

/// The screen an action switches to, if it switches at all.
pub open spec fn spec_target(action: FlowAction) -> Option<GameState> {
    match action {
        FlowAction::StartGame => Some(GameState::Gameplay),
        FlowAction::ReturnToMenu => Some(GameState::MainMenu),
        _ => None,
    }
}

/// The screen the game starts on.
pub fn initial_state() -> (s: GameState)
    ensures
        s == GameState::MainMenu,
{
    GameState::MainMenu
}

/// The answer to `event` while `state` is shown.
pub fn on_event(state: GameState, event: GameEvent) -> (action: FlowAction)
    ensures
        action == spec_on_event(state, event),
        (event matches GameEvent::Button(_, i) && i != ButtonInteraction::Clicked) ==> action == FlowAction::Stay,
{
    match (state, event) {
        (GameState::MainMenu, GameEvent::Button(MenuButton::Start, ButtonInteraction::Clicked)) => FlowAction::StartGame,
        (GameState::MainMenu, GameEvent::Button(MenuButton::Quit, ButtonInteraction::Clicked)) => FlowAction::Exit,
        (GameState::Gameplay, GameEvent::GameOver(_)) => FlowAction::ReturnToMenu,
        _ => FlowAction::Stay,
    }
}

/// The screen `action` switches to, if any.
pub fn target(action: FlowAction) -> (t: Option<GameState>)
    ensures
        t == spec_target(action),
{
    match action {
        FlowAction::StartGame => Some(GameState::Gameplay),
        FlowAction::ReturnToMenu => Some(GameState::MainMenu),
        _ => None,
    }
}

} // verus!
