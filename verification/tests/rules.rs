use ships::firing::{check_for_collisions, hits_fit_check, Hit};
use ships::flow::{
    initial_state, on_event, target, ButtonInteraction, FlowAction, GameEvent, GameState, MenuButton,
};
use ships::scoring::{reset_players, score_board, ScoreUpdate};
use ships::ship::{
    controls, facing_degrees, heading, home_x, initial_ships, lane, Heading, Key, Lane, Ship,
    ShipColor, FULL_HEALTH, MAX_LASERS,
};

fn ship(color: ShipColor, health: u8) -> Ship {
    Ship { color, health, fire_delay_passed: true }
}

#[test]
fn opponents_and_names() {
    assert_eq!(ShipColor::Red.opponent(), ShipColor::Yellow);
    assert_eq!(ShipColor::Yellow.opponent(), ShipColor::Red);
    assert_eq!(ShipColor::Red.opponent().opponent(), ShipColor::Red);
    assert_eq!(ShipColor::Red.name(), "red");
    assert_eq!(ShipColor::Yellow.name(), "yellow");
}

#[test]
fn starting_positions_and_facing() {
    assert_eq!(home_x(ShipColor::Red), 250);
    assert_eq!(home_x(ShipColor::Yellow), -250);
    assert_eq!(facing_degrees(ShipColor::Red), -90);
    assert_eq!(facing_degrees(ShipColor::Yellow), 90);
}

#[test]
fn lasers_fly_towards_the_opponent() {
    assert_eq!(heading(ShipColor::Red), Heading::Left);
    assert_eq!(heading(ShipColor::Yellow), Heading::Right);
    for c in [ShipColor::Red, ShipColor::Yellow] {
        let dx = home_x(c.opponent()) - home_x(c);
        assert!(heading(c).sign() * dx > 0);
    }
}

#[test]
fn lanes() {
    assert_eq!(lane(ShipColor::Red), Lane::RightHalf);
    assert_eq!(lane(ShipColor::Yellow), Lane::LeftHalf);
    assert_eq!(Lane::LeftHalf.x_range_halves(), (-1, 0));
    assert_eq!(Lane::RightHalf.x_range_halves(), (0, 1));
    for c in [ShipColor::Red, ShipColor::Yellow] {
        let (lo, hi) = lane(c).x_range_halves();
        assert!(lo * 450 <= home_x(c) && home_x(c) <= hi * 450);
    }
}

#[test]
fn key_bindings() {
    let y = controls(ShipColor::Yellow);
    assert_eq!((y.up, y.down, y.right, y.left, y.fire), (Key::E, Key::D, Key::F, Key::S, Key::Back));
    let r = controls(ShipColor::Red);
    assert_eq!((r.up, r.down, r.right, r.left, r.fire), (Key::I, Key::K, Key::L, Key::J, Key::Space));
    let all = [y.up, y.down, y.right, y.left, y.fire, r.up, r.down, r.right, r.left, r.fire];
    for i in 0..all.len() {
        for j in (i + 1)..all.len() {
            assert_ne!(all[i], all[j]);
        }
    }
}

#[test]
fn ships_at_start() {
    let v = initial_ships();
    assert_eq!(v, vec![ship(ShipColor::Red, 10), ship(ShipColor::Yellow, 10)]);
    assert_eq!(Ship::new(ShipColor::Yellow).health, FULL_HEALTH);
    assert!(Ship::new(ShipColor::Red).fire_delay_passed);
}

#[test]
fn firing_needs_trigger_room_and_recharge() {
    let mut s = ship(ShipColor::Red, 10);
    assert!(!s.try_fire(false, 0, 0));
    assert!(s.fire_delay_passed);
    assert!(!s.try_fire(true, MAX_LASERS, 0));
    assert!(s.fire_delay_passed);
    // The yellow count does not limit the red ship.
    assert!(s.try_fire(true, MAX_LASERS - 1, MAX_LASERS));
    assert!(!s.fire_delay_passed);
    assert_eq!(s.health, 10);
    let mut y = ship(ShipColor::Yellow, 7);
    assert!(!y.try_fire(true, 0, MAX_LASERS));
    assert!(y.try_fire(true, 9, 4));
}

#[test]
fn one_shot_per_recharge() {
    let mut s = ship(ShipColor::Yellow, 10);
    assert!(s.try_fire(true, 0, 0));
    assert!(!s.try_fire(true, 0, 0));
    s.laser_timer_tick(false);
    assert!(!s.try_fire(true, 0, 0));
    s.laser_timer_tick(true);
    assert!(s.fire_delay_passed);
    assert!(s.try_fire(true, 0, 0));
}

#[test]
fn timer_tick_keeps_a_ready_laser_ready() {
    let mut s = ship(ShipColor::Red, 3);
    s.laser_timer_tick(false);
    assert!(s.fire_delay_passed);
    assert_eq!(s.health, 3);
}

#[test]
fn hits_cost_health_and_are_reported_in_order() {
    let mut ships = vec![ship(ShipColor::Red, 10), ship(ShipColor::Yellow, 10)];
    let collided = vec![vec![true, false, true], vec![false, true]];
    assert!(hits_fit_check(&ships, &collided));
    let out = check_for_collisions(&mut ships, &collided);
    assert_eq!(ships[0].health, 8);
    assert_eq!(ships[1].health, 9);
    assert_eq!(
        out.hits,
        vec![Hit { ship: 0, laser: 0 }, Hit { ship: 0, laser: 2 }, Hit { ship: 1, laser: 1 }]
    );
    assert_eq!(out.winner, None);
}

#[test]
fn a_destroyed_ship_ends_the_check() {
    let mut ships = vec![ship(ShipColor::Red, 1), ship(ShipColor::Yellow, 3)];
    let collided = vec![vec![false, true], vec![true]];
    assert!(hits_fit_check(&ships, &collided));
    let out = check_for_collisions(&mut ships, &collided);
    assert_eq!(out.winner, Some(ShipColor::Yellow));
    assert_eq!(out.hits, vec![Hit { ship: 0, laser: 1 }]);
    assert_eq!(ships[0].health, 0);
    // The yellow ship was not reached.
    assert_eq!(ships[1].health, 3);
}

#[test]
fn a_ship_already_at_zero_ends_the_round_again() {
    let mut ships = vec![ship(ShipColor::Yellow, 0), ship(ShipColor::Red, 5)];
    let collided = vec![vec![], vec![true]];
    assert!(hits_fit_check(&ships, &collided));
    let out = check_for_collisions(&mut ships, &collided);
    assert_eq!(out.winner, Some(ShipColor::Red));
    assert!(out.hits.is_empty());
    assert_eq!(ships[1].health, 5);
}

#[test]
fn too_many_hits_are_detected() {
    let ships = vec![ship(ShipColor::Red, 1), ship(ShipColor::Yellow, 3)];
    assert!(!hits_fit_check(&ships, &vec![vec![true, true], vec![]]));
    // After a destroyed ship, the later ones are not reached.
    assert!(hits_fit_check(&ships, &vec![vec![true], vec![true, true, true, true]]));
    assert!(!hits_fit_check(&ships, &vec![vec![false], vec![true, true, true, true]]));
}

#[test]
fn reset_restores_health_only() {
    let mut ships = vec![
        Ship { color: ShipColor::Red, health: 0, fire_delay_passed: false },
        Ship { color: ShipColor::Yellow, health: 4, fire_delay_passed: true },
    ];
    assert_eq!(reset_players(&mut ships), ShipColor::Red);
    assert_eq!(
        ships,
        vec![
            Ship { color: ShipColor::Red, health: 10, fire_delay_passed: false },
            Ship { color: ShipColor::Yellow, health: 10, fire_delay_passed: true },
        ]
    );
    let before = ships.clone();
    reset_players(&mut ships);
    assert_eq!(ships, before);
}

#[test]
fn boards_after_reset_show_full_health() {
    let mut ships = initial_ships();
    let loser = reset_players(&mut ships);
    let updates = score_board(&vec![loser], &ships);
    assert_eq!(
        updates,
        vec![
            ScoreUpdate { board: ShipColor::Red, health: 10 },
            ScoreUpdate { board: ShipColor::Yellow, health: 10 },
        ]
    );
}

#[test]
fn a_yellow_announcement_writes_to_the_yellow_board() {
    let ships = vec![ship(ShipColor::Red, 6), ship(ShipColor::Yellow, 9)];
    let updates = score_board(&vec![ShipColor::Yellow, ShipColor::Red], &ships);
    assert_eq!(
        updates,
        vec![
            ScoreUpdate { board: ShipColor::Yellow, health: 6 },
            ScoreUpdate { board: ShipColor::Yellow, health: 9 },
            ScoreUpdate { board: ShipColor::Red, health: 6 },
            ScoreUpdate { board: ShipColor::Yellow, health: 9 },
        ]
    );
    assert!(score_board(&vec![], &ships).is_empty());
}

#[test]
fn screens_and_buttons() {
    assert_eq!(initial_state(), GameState::MainMenu);
    let start = GameEvent::Button(MenuButton::Start, ButtonInteraction::Clicked);
    let quit = GameEvent::Button(MenuButton::Quit, ButtonInteraction::Clicked);
    assert_eq!(on_event(GameState::MainMenu, start), FlowAction::StartGame);
    assert_eq!(on_event(GameState::MainMenu, quit), FlowAction::Exit);
    assert_eq!(
        on_event(GameState::MainMenu, GameEvent::Button(MenuButton::Start, ButtonInteraction::Hovered)),
        FlowAction::Stay
    );
    assert_eq!(
        on_event(GameState::MainMenu, GameEvent::Button(MenuButton::Quit, ButtonInteraction::Idle)),
        FlowAction::Stay
    );
    assert_eq!(on_event(GameState::Gameplay, start), FlowAction::Stay);
    assert_eq!(on_event(GameState::MainMenu, GameEvent::GameOver(ShipColor::Red)), FlowAction::Stay);
    assert_eq!(
        on_event(GameState::Gameplay, GameEvent::GameOver(ShipColor::Yellow)),
        FlowAction::ReturnToMenu
    );
    assert_eq!(target(FlowAction::StartGame), Some(GameState::Gameplay));
    assert_eq!(target(FlowAction::ReturnToMenu), Some(GameState::MainMenu));
    assert_eq!(target(FlowAction::Exit), None);
    assert_eq!(target(FlowAction::Stay), None);
}
