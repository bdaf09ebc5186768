//! Round reset and score boards.

use vstd::prelude::*;
use crate::ship::{Ship, ShipColor, FULL_HEALTH};
use crate::firing::with_health;
use crate::laws::score_board_law;

verus! {

/// A score board to rewrite: the board of colour `board` is to show `health`.
#[derive(Clone, Copy, Debug, PartialEq, Eq, Structural)]
pub struct ScoreUpdate {
    pub board: ShipColor,
    pub health: u8,
}

pub open spec fn spec_reset(s: Ship) -> Ship {
    with_health(s, FULL_HEALTH as int)
}

/// Every ship reset, in the same order.
pub open spec fn reset_all(ships: Seq<Ship>) -> Seq<Ship> {
    ships.map_values(|s: Ship| spec_reset(s))
}

/// The board a ship's health is written to when `loser` was announced: the
/// red board for the red ship after a red loss, the yellow board otherwise.
pub open spec fn board_for(loser: ShipColor, ship: ShipColor) -> ShipColor {
    if loser == ShipColor::Red && ship == ShipColor::Red {
        ShipColor::Red
    } else {
        ShipColor::Yellow
    }
}

pub open spec fn update_for(loser: ShipColor, s: Ship) -> ScoreUpdate {
    ScoreUpdate { board: board_for(loser, s.color), health: s.health }
}

/// The rewrites one announcement causes: one per ship, in ship order.
pub open spec fn event_updates(loser: ShipColor, ships: Seq<Ship>) -> Seq<ScoreUpdate> {
    ships.map_values(|s: Ship| update_for(loser, s))
}

/// The rewrites a sequence of announcements causes, in order.
pub open spec fn score_updates(losers: Seq<ShipColor>, ships: Seq<Ship>) -> Seq<ScoreUpdate>
    decreases losers.len(),
{
    if losers.len() == 0 {
        Seq::empty()
    } else {
        score_updates(losers.drop_last(), ships) + event_updates(losers.last(), ships)
    }
}

/// Start of a round: every ship is back to full health; nothing else of a
/// ship changes. The returned colour is the loser announced so that the score
/// boards are redrawn: always red.
pub fn reset_players(ships: &mut Vec<Ship>) -> (loser: ShipColor)
    ensures
        final(ships)@ == reset_all(old(ships)@),
        loser == ShipColor::Red,
{
    let ghost ships0 = ships@;
    let n = ships.len();
    let mut i: usize = 0;
    while i < n
        invariant
            n == ships0.len(),
            ships@.len() == n,
            i <= n,
            forall|k: int| 0 <= k < i ==> ships@[k] == spec_reset(ships0[k]),
            forall|k: int| i <= k < n ==> ships@[k] == ships0[k],
        decreases n - i,
    {
        let s = ships[i];
        ships.set(i, Ship { color: s.color, health: FULL_HEALTH, fire_delay_passed: s.fire_delay_passed });
        i = i + 1;
    }
    assert(ships@ =~= reset_all(ships0));
    ShipColor::Red
}

/// The score-board rewrites for the announced losers (in announcement order)
/// given the ships (in ship order): for each announcement, each ship's health
/// is written to `board_for(loser, ship colour)`.
pub fn score_board(losers: &Vec<ShipColor>, ships: &Vec<Ship>) -> (updates: Vec<ScoreUpdate>)
    ensures
        updates@ == score_updates(losers@, ships@),
        updates@.len() == losers@.len() * ships@.len(),
{
    let mut updates: Vec<ScoreUpdate> = Vec::new();
    let mut e: usize = 0;
    while e < losers.len()
        invariant
            e <= losers@.len(),
            updates@ == score_updates(losers@.take(e as int), ships@),
        decreases losers@.len() - e,
    {
        let loser = losers[e];
        let ghost base = updates@;
        let mut k: usize = 0;
        while k < ships.len()
            invariant
                k <= ships@.len(),
                updates@ == base + event_updates(loser, ships@.take(k as int)),
            decreases ships@.len() - k,
        {
            let s = ships[k];
            let board = if loser == ShipColor::Red && s.color == ShipColor::Red {
                ShipColor::Red
            } else {
                ShipColor::Yellow
            };
            updates.push(ScoreUpdate { board, health: s.health });
            assert(event_updates(loser, ships@.take(k as int + 1)) =~= event_updates(loser, ships@.take(k as int)).push(
                update_for(loser, s),
            ));
            k = k + 1;
        }
        assert(ships@.take(k as int) =~= ships@);
        assert(losers@.take(e as int + 1).drop_last() =~= losers@.take(e as int));
        e = e + 1;
    }
    assert(losers@.take(e as int) =~= losers@);
    proof {
        score_board_law(losers@, ships@);
    }
    updates
}

} // verus!
