//! The two ships: colours, starting values, home positions, lanes, lasers'
//! headings and the keys that control each ship.

use vstd::prelude::*;

verus! {

/// Most lasers of one colour that may be in flight at once.
pub const MAX_LASERS: usize = 5;

/// Health of a ship at the start of a round.
pub const FULL_HEALTH: u8 = 10;

/// Horizontal distance of each ship's starting point from the screen's centre.
pub const HOME_OFFSET: i32 = 250;

/// The colour of a player; each ship, laser and score board belongs to one.
#[derive(Clone, Copy, Debug, PartialEq, Eq, Structural, Hash)]
pub enum ShipColor {
    Red,
    Yellow,
}

/// Which way a colour's lasers fly.
#[derive(Clone, Copy, Debug, PartialEq, Eq, Structural, Hash)]
pub enum Heading {
    Left,
    Right,
}

/// The half of the screen a ship may move in.
#[derive(Clone, Copy, Debug, PartialEq, Eq, Structural, Hash)]
pub enum Lane {
    LeftHalf,
    RightHalf,
}

/// The keys the game reads.
#[derive(Clone, Copy, Debug, PartialEq, Eq, Structural, Hash)]
pub enum Key {
    E,
    D,
    F,
    S,
    I,
    K,
    L,
    J,
    Space,
    Back,
}

/// The keys of one ship.
#[derive(Clone, Copy, Debug, PartialEq, Eq, Structural)]
pub struct Controls {
    pub up: Key,
    pub down: Key,
    pub right: Key,
    pub left: Key,
    pub fire: Key,
}

/// What the rules read of a ship: its colour, its health, and whether its
/// laser has recharged since its last shot.
#[derive(Clone, Copy, Debug, PartialEq, Eq, Structural)]
pub struct Ship {
    pub color: ShipColor,
    pub health: u8,
    pub fire_delay_passed: bool,
}

pub open spec fn spec_opponent(c: ShipColor) -> ShipColor {
    match c {
        ShipColor::Red => ShipColor::Yellow,
        ShipColor::Yellow => ShipColor::Red,
    }
}

pub open spec fn spec_home_x(c: ShipColor) -> int {
    match c {
        ShipColor::Red => HOME_OFFSET as int,
        ShipColor::Yellow => -(HOME_OFFSET as int),
    }
}

pub open spec fn spec_facing_degrees(c: ShipColor) -> int {
    match c {
        ShipColor::Red => -90,
        ShipColor::Yellow => 90,
    }
}

pub open spec fn spec_heading(c: ShipColor) -> Heading {
    match c {
        ShipColor::Red => Heading::Left,
        ShipColor::Yellow => Heading::Right,
    }
}

pub open spec fn spec_heading_sign(h: Heading) -> int {
    match h {
        Heading::Left => -1,
        Heading::Right => 1,
    }
}

pub open spec fn spec_lane(c: ShipColor) -> Lane {
    match c {
        ShipColor::Red => Lane::RightHalf,
        ShipColor::Yellow => Lane::LeftHalf,
    }
}

pub open spec fn spec_controls(c: ShipColor) -> Controls {
    match c {
        ShipColor::Red => Controls {
            up: Key::I,
            down: Key::K,
            right: Key::L,
            left: Key::J,
            fire: Key::Space,
        },
        ShipColor::Yellow => Controls {
            up: Key::E,
            down: Key::D,
            right: Key::F,
            left: Key::S,
            fire: Key::Back,
        },
    }
}

pub open spec fn spec_new_ship(c: ShipColor) -> Ship {
    Ship { color: c, health: FULL_HEALTH, fire_delay_passed: true }
}

impl ShipColor {
    /// The other player.
    pub fn opponent(self) -> (c: ShipColor)
        ensures
            c == spec_opponent(self),
    {
        match self {
            ShipColor::Red => ShipColor::Yellow,
            ShipColor::Yellow => ShipColor::Red,
        }
    }

    /// The colour's name as the game prints it.
    pub fn name(self) -> (s: &'static str)
        ensures
            self == ShipColor::Red ==> s@ == "red"@,
            self == ShipColor::Yellow ==> s@ == "yellow"@,
    {
        match self {
            ShipColor::Red => "red",
            ShipColor::Yellow => "yellow",
        }
    }
}

/// Horizontal starting coordinate of a ship: red on the right, yellow on the left.
pub fn home_x(c: ShipColor) -> (x: i32)
    ensures
        x == spec_home_x(c),
{
    match c {
        ShipColor::Red => HOME_OFFSET,
        ShipColor::Yellow => -HOME_OFFSET,
    }
}

/// Rotation of a ship's sprite in degrees, so that it faces its opponent.
pub fn facing_degrees(c: ShipColor) -> (d: i32)
    ensures
        d == spec_facing_degrees(c),
{
    match c {
        ShipColor::Red => -90,
        ShipColor::Yellow => 90,
    }
}

/// Direction of a colour's lasers: red shoots to the left, yellow to the right.
pub fn heading(c: ShipColor) -> (h: Heading)
    ensures
        h == spec_heading(c),
{
    match c {
        ShipColor::Red => Heading::Left,
        ShipColor::Yellow => Heading::Right,
    }
}

impl Heading {
    /// The sign of horizontal motion in this direction.
    pub fn sign(self) -> (s: i32)
        ensures
            s == spec_heading_sign(self),
            s == -1 || s == 1,
    {
        match self {
            Heading::Left => -1,
            Heading::Right => 1,
        }
    }
}

/// The half of the screen a colour's ship is kept in.
pub fn lane(c: ShipColor) -> (l: Lane)
    ensures
        l == spec_lane(c),
{
    match c {
        ShipColor::Red => Lane::RightHalf,
        ShipColor::Yellow => Lane::LeftHalf,
    }
}

pub open spec fn spec_lane_halves(l: Lane) -> (int, int) {
    match l {
        Lane::LeftHalf => (-1, 0),
        Lane::RightHalf => (0, 1),
    }
}

impl Lane {
    /// The lane's horizontal extent in half screen widths from the centre:
    /// the left half spans -1 to 0, the right half 0 to 1.
    pub fn x_range_halves(self) -> (r: (i32, i32))
        ensures
            r.0 == spec_lane_halves(self).0,
            r.1 == spec_lane_halves(self).1,
    {
        match self {
            Lane::LeftHalf => (-1, 0),
            Lane::RightHalf => (0, 1),
        }
    }
}

/// The keys of a colour's ship: yellow uses E, D, F, S and Backspace; red
/// uses I, K, L, J and Space.
pub fn controls(c: ShipColor) -> (k: Controls)
    ensures
        k == spec_controls(c),
{
    match c {
        ShipColor::Red => Controls {
            up: Key::I,
            down: Key::K,
            right: Key::L,
            left: Key::J,
            fire: Key::Space,
        },
        ShipColor::Yellow => Controls {
            up: Key::E,
            down: Key::D,
            right: Key::F,
            left: Key::S,
            fire: Key::Back,
        },
    }
}

impl Ship {
    /// A ship at the start of the game: full health, laser ready.
    pub fn new(color: ShipColor) -> (s: Ship)
        ensures
            s == spec_new_ship(color),
    {
        Ship { color, health: FULL_HEALTH, fire_delay_passed: true }
    }
}

/// The ships that the game spawns, in spawning order: red, then yellow.
pub fn initial_ships() -> (v: Vec<Ship>)
    ensures
        v@ == seq![spec_new_ship(ShipColor::Red), spec_new_ship(ShipColor::Yellow)],
{
    let mut v: Vec<Ship> = Vec::new();
    v.push(Ship::new(ShipColor::Red));
    v.push(Ship::new(ShipColor::Yellow));
    v
}

} // verus!
