//! Properties of the game's rules that span several functions or all inputs.

use vstd::prelude::*;
use crate::ship::{
    Key, Ship, ShipColor, FULL_HEALTH, MAX_LASERS, spec_controls, spec_heading, spec_heading_sign,
    spec_home_x, spec_lane, spec_lane_halves, spec_new_ship, spec_opponent, spec_facing_degrees,
    Heading, Lane, HOME_OFFSET,
};
use crate::firing::{
    Hit, count_true, hits_fit, lemma_resolve_shape, resolve, row_hits, spec_fires, with_fire_delay,
    with_health, reached, hit_before,
};
use crate::scoring::{ScoreUpdate, event_updates, reset_all, score_updates};
use crate::flow::{
    ButtonInteraction, FlowAction, GameEvent, GameState, MenuButton, spec_on_event, spec_target,
};

verus! {

/// Each colour has exactly one opponent, which is not itself, and the
/// opponent's opponent is the colour again.
pub proof fn opponent_is_an_involution(c: ShipColor)
    ensures
        spec_opponent(spec_opponent(c)) == c,
        spec_opponent(c) != c,
{
}

/// Every ship's lasers fly from its home towards its opponent's home.
pub proof fn lasers_fly_towards_the_opponent(c: ShipColor)
    ensures
        spec_heading_sign(spec_heading(c)) * (spec_home_x(spec_opponent(c)) - spec_home_x(c)) > 0,
{
}

/// A ship starts inside its own lane, and the two ships have different lanes.
pub proof fn ships_start_in_their_own_lanes(c: ShipColor)
    ensures
        spec_lane_halves(spec_lane(c)).0 * 450 <= spec_home_x(c) <= spec_lane_halves(spec_lane(c)).1 * 450,
        spec_lane(c) != spec_lane(spec_opponent(c)),
{
}

pub open spec fn all_keys() -> Seq<Key> {
    let r = spec_controls(ShipColor::Red);
    let y = spec_controls(ShipColor::Yellow);
    seq![r.up, r.down, r.right, r.left, r.fire, y.up, y.down, y.right, y.left, y.fire]
}

/// No key has two uses: the ten keys of the two ships are pairwise distinct.
pub proof fn every_key_has_one_use()
    ensures
        forall|i: int, j: int| 0 <= i < j < 10 ==> all_keys()[i] != all_keys()[j],
{
    assert(all_keys().len() == 10);
}

/// A shot never takes a colour past `MAX_LASERS` lasers in flight.
pub proof fn a_shot_respects_the_laser_limit(ship: Ship, trigger: bool, red_lasers: nat, yellow_lasers: nat)
    requires
        spec_fires(ship, trigger, red_lasers, yellow_lasers),
    ensures
        ship.color == ShipColor::Red ==> red_lasers + 1 <= MAX_LASERS,
        ship.color == ShipColor::Yellow ==> yellow_lasers + 1 <= MAX_LASERS,
{
}

/// After a shot a ship cannot fire again, whatever the keys and lasers, until
/// its laser timer runs out; a tick that does not finish the timer changes
/// nothing, and once the timer has run out a held trigger with room for a
/// laser fires again. The states are those that `Ship::try_fire` and
/// `Ship::laser_timer_tick` produce.
pub proof fn one_shot_per_recharge(
    ship: Ship,
    trigger: bool,
    red_lasers: nat,
    yellow_lasers: nat,
    trigger2: bool,
    red_lasers2: nat,
    yellow_lasers2: nat,
)
    requires
        spec_fires(ship, trigger, red_lasers, yellow_lasers),
    ensures
        ({
            let after_shot = with_fire_delay(ship, ship.fire_delay_passed && !true);
            let after_idle_tick = with_fire_delay(after_shot, after_shot.fire_delay_passed || false);
            let after_recharge = with_fire_delay(after_shot, after_shot.fire_delay_passed || true);
            &&& !spec_fires(after_shot, trigger2, red_lasers2, yellow_lasers2)
            &&& !spec_fires(after_idle_tick, trigger2, red_lasers2, yellow_lasers2)
            &&& spec_fires(after_recharge, true, 0, 0)
        }),
{
}

/// Every hit that hit checking reports on ship `ship` is a laser that struck
/// that ship, and there is one per such laser.
pub proof fn row_hits_are_collisions(ship: usize, row: Seq<bool>)
    requires
        row.len() <= usize::MAX,
    ensures
        forall|k: int| 0 <= k < row_hits(ship, row).len() ==> {
            let h = #[trigger] row_hits(ship, row)[k];
            &&& h.ship == ship
            &&& h.laser < row.len()
            &&& row[h.laser as int]
        },
        row_hits(ship, row).len() == count_true(row),
    decreases row.len(),
{
    if row.len() > 0 {
        let front = row.drop_last();
        row_hits_are_collisions(ship, front);
        assert forall|k: int| 0 <= k < row_hits(ship, row).len() implies {
            let h = #[trigger] row_hits(ship, row)[k];
            &&& h.ship == ship
            &&& h.laser < row.len()
            &&& row[h.laser as int]
        } by {
            if k < row_hits(ship, front).len() {
                assert(row_hits(ship, row)[k] == row_hits(ship, front)[k]);
                assert(front[row_hits(ship, front)[k].laser as int] == row[row_hits(ship, front)[k].laser as int]);
            } else {
                assert(row_hits(ship, row)[k] == Hit { ship, laser: (row.len() - 1) as usize });
            }
        }
    }
}

/// Hit checking changes only health, never raises it, and reports only true
/// collisions, on ships it reached.
pub proof fn hits_only_lower_health(ships: Seq<Ship>, rows: Seq<Seq<bool>>, n: nat)
    requires
        n <= ships.len(),
        n <= rows.len(),
        n <= usize::MAX,
        forall|k: int| 0 <= k < rows.len() ==> (#[trigger] rows[k]).len() <= usize::MAX,
        hits_fit(ships, rows, n),
    ensures
        resolve(ships, rows, n).0.len() == ships.len(),
        forall|k: int| 0 <= k < ships.len() ==> {
            let s = #[trigger] resolve(ships, rows, n).0[k];
            &&& s.color == ships[k].color
            &&& s.fire_delay_passed == ships[k].fire_delay_passed
            &&& s.health <= ships[k].health
        },
        forall|k: int| 0 <= k < resolve(ships, rows, n).1.len() ==> {
            let h = #[trigger] resolve(ships, rows, n).1[k];
            &&& h.ship < n
            &&& h.laser < rows[h.ship as int].len()
            &&& rows[h.ship as int][h.laser as int]
        },
    decreases n,
{
    lemma_resolve_shape(ships, rows, n);
    if n > 0 {
        let m = (n - 1) as nat;
        hits_only_lower_health(ships, rows, m);
        lemma_resolve_shape(ships, rows, m);
        let prev = resolve(ships, rows, m);
        if prev.2 is None {
            row_hits_are_collisions(m as usize, rows[m as int]);
            let now = resolve(ships, rows, n);
            assert forall|k: int| 0 <= k < now.1.len() implies {
                let h = #[trigger] now.1[k];
                &&& h.ship < n
                &&& h.laser < rows[h.ship as int].len()
                &&& rows[h.ship as int][h.laser as int]
            } by {
                if k >= prev.1.len() {
                    assert(now.1[k] == row_hits(m as usize, rows[m as int])[k - prev.1.len()]);
                } else {
                    assert(now.1[k] == prev.1[k]);
                }
            }
        }
    }
}

/// The round ends exactly when a ship it reached is destroyed: a winner is
/// named only if a ship of the other colour was left with no health, and when
/// no winner is named every ship survived with its health lowered by exactly
/// the number of lasers that struck it.
pub proof fn a_winner_means_a_destroyed_ship(ships: Seq<Ship>, rows: Seq<Seq<bool>>, n: nat)
    requires
        n <= ships.len(),
        hits_fit(ships, rows, n),
    ensures
        resolve(ships, rows, n).2 matches Some(w) ==> exists|k: int|
            0 <= k < n && (#[trigger] resolve(ships, rows, n).0[k]).health == 0 && ships[k].color == spec_opponent(w),
        resolve(ships, rows, n).2 is None ==> forall|k: int| 0 <= k < n ==> {
            let s = #[trigger] resolve(ships, rows, n).0[k];
            &&& s.health > 0
            &&& s.health == ships[k].health - count_true(rows[k])
        },
    decreases n,
{
    lemma_resolve_shape(ships, rows, n);
    if n > 0 {
        let m = (n - 1) as nat;
        a_winner_means_a_destroyed_ship(ships, rows, m);
        lemma_resolve_shape(ships, rows, m);
        let prev = resolve(ships, rows, m);
        let now = resolve(ships, rows, n);
        if prev.2 is None {
            let left = ships[m as int].health - count_true(rows[m as int]);
            assert(now.0[m as int].health == left);
            if left == 0 {
                assert(now.0[m as int].health == 0);
            } else {
                assert forall|k: int| 0 <= k < n implies {
                    let s = #[trigger] now.0[k];
                    &&& s.health > 0
                    &&& s.health == ships[k].health - count_true(rows[k])
                } by {
                    if k < m {
                        assert(now.0[k] == prev.0[k]);
                    }
                }
            }
        } else {
            let w = prev.2->Some_0;
            let k = choose|k: int|
                0 <= k < m && (#[trigger] prev.0[k]).health == 0 && ships[k].color == spec_opponent(w);
            assert(now.0[k].health == 0);
        }
    }
}

/// Resetting twice is the same as resetting once, and a reset ship is at
/// full health with nothing else changed.
pub proof fn reset_is_idempotent(ships: Seq<Ship>)
    ensures
        reset_all(reset_all(ships))
            == reset_all(ships),
        forall|k: int| 0 <= k < ships.len() ==> {
            let s = #[trigger] reset_all(ships)[k];
            &&& s.health == FULL_HEALTH
            &&& s.color == ships[k].color
            &&& s.fire_delay_passed == ships[k].fire_delay_passed
        },
{
    assert(reset_all(reset_all(ships))
        =~= reset_all(ships));
}

/// A red announcement writes each ship's health to that ship's own board; a
/// yellow one writes every ship's health to the yellow board.
pub proof fn where_health_is_written(ships: Seq<Ship>)
    ensures
        forall|k: int| 0 <= k < ships.len() ==> (#[trigger] event_updates(ShipColor::Red, ships)[k]).board == ships[k].color,
        forall|k: int| 0 <= k < ships.len() ==> (#[trigger] event_updates(ShipColor::Yellow, ships)[k]).board == ShipColor::Yellow,
        forall|k: int| 0 <= k < ships.len() ==> (#[trigger] event_updates(ShipColor::Red, ships)[k]).health == ships[k].health,
{
}

/// At the start of a round, after the reset and its red announcement, both
/// boards show full health.
pub proof fn boards_show_full_health_after_reset()
    ensures
        ({
            let ships = reset_all(seq![spec_new_ship(ShipColor::Red), spec_new_ship(ShipColor::Yellow)]);
            score_updates(seq![ShipColor::Red], ships) == seq![
                ScoreUpdate { board: ShipColor::Red, health: FULL_HEALTH },
                ScoreUpdate { board: ShipColor::Yellow, health: FULL_HEALTH },
            ]
        }),
{
    let ships = reset_all(seq![spec_new_ship(ShipColor::Red), spec_new_ship(ShipColor::Yellow)]);
    assert(seq![ShipColor::Red].drop_last() =~= Seq::<ShipColor>::empty());
    assert(score_updates(Seq::<ShipColor>::empty(), ships) =~= Seq::<ScoreUpdate>::empty());
    assert(event_updates(ShipColor::Red, ships) =~= seq![
        ScoreUpdate { board: ShipColor::Red, health: FULL_HEALTH },
        ScoreUpdate { board: ShipColor::Yellow, health: FULL_HEALTH },
    ]);
    assert(score_updates(seq![ShipColor::Red], ships) =~= seq![
        ScoreUpdate { board: ShipColor::Red, health: FULL_HEALTH },
        ScoreUpdate { board: ShipColor::Yellow, health: FULL_HEALTH },
    ]);
}

/// Every switch goes to the other screen, so a switch is never a request
/// for the screen already shown; starting leads to play, and the end of a
/// round leads back to the menu.
pub proof fn every_switch_changes_the_screen(state: GameState, event: GameEvent)
    ensures
        spec_target(spec_on_event(state, event)) matches Some(t) ==> t != state,
        spec_on_event(state, event) == FlowAction::StartGame ==> state == GameState::MainMenu,
        spec_on_event(state, event) == FlowAction::ReturnToMenu ==> state == GameState::Gameplay,
        spec_on_event(GameState::MainMenu, GameEvent::Button(MenuButton::Start, ButtonInteraction::Clicked))
            == FlowAction::StartGame,
        spec_on_event(GameState::Gameplay, GameEvent::GameOver(ShipColor::Red)) == FlowAction::ReturnToMenu,
        spec_on_event(GameState::Gameplay, GameEvent::GameOver(ShipColor::Yellow)) == FlowAction::ReturnToMenu,
{
}

/// The hits reported on one ship come in the order of its lasers, and every
/// laser that struck it is reported.
pub proof fn row_hits_in_order(ship: usize, row: Seq<bool>)
    requires
        row.len() <= usize::MAX,
    ensures
        forall|a: int, b: int|
            0 <= a < b < row_hits(ship, row).len() ==> (#[trigger] row_hits(ship, row)[a]).laser
                < (#[trigger] row_hits(ship, row)[b]).laser,
        forall|j: int|
            0 <= j < row.len() && #[trigger] row[j] ==> (exists|idx: int|
                0 <= idx < row_hits(ship, row).len() && #[trigger] row_hits(ship, row)[idx] == (Hit {
                    ship,
                    laser: j as usize,
                })),
    decreases row.len(),
{
    row_hits_are_collisions(ship, row);
    if row.len() > 0 {
        let front = row.drop_last();
        row_hits_in_order(ship, front);
        row_hits_are_collisions(ship, front);
        let rh = row_hits(ship, row);
        let fh = row_hits(ship, front);
        assert forall|a: int| 0 <= a < fh.len() implies #[trigger] rh[a] == fh[a] && fh[a].laser < row.len() - 1 by {
            assert(rh[a] == fh[a]);
        }
        if row.last() {
            assert(rh.len() == fh.len() + 1);
            assert(rh[fh.len() as int] == Hit { ship, laser: (row.len() - 1) as usize });
        } else {
            assert(rh =~= fh);
        }
        assert forall|a: int, b: int|
            0 <= a < b < rh.len() implies (#[trigger] rh[a]).laser < (#[trigger] rh[b]).laser by {
            if b < fh.len() {
                assert(rh[a] == fh[a] && rh[b] == fh[b]);
            } else {
                assert(rh[a] == fh[a]);
            }
        }
        assert forall|j: int| 0 <= j < row.len() && #[trigger] row[j] implies exists|idx: int|
            0 <= idx < rh.len() && #[trigger] rh[idx] == Hit { ship, laser: j as usize } by {
            if j < front.len() {
                assert(front[j] == row[j]);
                let idx = choose|idx: int| 0 <= idx < fh.len() && #[trigger] fh[idx] == Hit { ship, laser: j as usize };
                assert(rh[idx] == fh[idx]);
            } else {
                assert(rh[fh.len() as int] == Hit { ship, laser: j as usize });
            }
        }
    }
}

/// Hit checking over the first `n` ships, stated through the inputs alone:
/// every reached ship (up to and including the destroyed one) loses exactly
/// one health per laser that struck it and keeps everything else; every other
/// ship is untouched; a winner is named exactly when some ship is struck as
/// often as it has health, and it is the opponent of the first such ship; the
/// hits are exactly the collisions on reached ships, ordered by ship and then
/// by laser.
pub proof fn hit_checking_law(ships: Seq<Ship>, rows: Seq<Seq<bool>>, n: nat)
    requires
        n <= ships.len(),
        rows.len() == ships.len(),
        ships.len() <= usize::MAX,
        forall|k: int| 0 <= k < rows.len() ==> (#[trigger] rows[k]).len() <= usize::MAX,
        hits_fit(ships, rows, n),
    ensures
        ({
            let r = resolve(ships, rows, n);
            &&& r.0.len() == ships.len()
            &&& forall|k: int| 0 <= k < n && reached(ships, rows, k) ==> {
                &&& (#[trigger] r.0[k]).color == ships[k].color
                &&& r.0[k].fire_delay_passed == ships[k].fire_delay_passed
                &&& r.0[k].health == ships[k].health - count_true(rows[k])
            }
            &&& forall|k: int| 0 <= k < ships.len() && !(k < n && reached(ships, rows, k)) ==> #[trigger] r.0[k] == ships[k]
            &&& (r.2 is None <==> forall|k: int| 0 <= k < n ==> (#[trigger] ships[k]).health != count_true(rows[k]))
            &&& (r.2 matches Some(w) ==> (exists|k: int|
                0 <= k < n && reached(ships, rows, k) && (#[trigger] ships[k]).health == count_true(rows[k])
                    && w == spec_opponent(ships[k].color)))
            &&& forall|i: int| 0 <= i < r.1.len() ==> {
                let h = #[trigger] r.1[i];
                &&& h.ship < n
                &&& reached(ships, rows, h.ship as int)
                &&& h.laser < rows[h.ship as int].len()
                &&& rows[h.ship as int][h.laser as int]
            }
            &&& forall|k: int, j: int|
                0 <= k < n && reached(ships, rows, k) && 0 <= j < rows[k].len() && #[trigger] rows[k][j]
                    ==> (exists|i: int| 0 <= i < r.1.len() && #[trigger] r.1[i] == (Hit { ship: k as usize, laser: j as usize }))
            &&& forall|a: int, b: int| 0 <= a < b < r.1.len() ==> hit_before(#[trigger] r.1[a], #[trigger] r.1[b])
        }),
    decreases n,
{
    lemma_resolve_shape(ships, rows, n);
    if n > 0 {
        let m = (n - 1) as nat;
        hit_checking_law(ships, rows, m);
        lemma_resolve_shape(ships, rows, m);
        let prev = resolve(ships, rows, m);
        let r = resolve(ships, rows, n);
        if prev.2 is Some {
            assert(r == prev);
            let w = prev.2->Some_0;
            let k0 = choose|k: int|
                0 <= k < m && reached(ships, rows, k) && (#[trigger] ships[k]).health == count_true(rows[k])
                    && w == spec_opponent(ships[k].color);
            assert(!reached(ships, rows, m as int)) by {
                assert(ships[k0].health == count_true(rows[k0]));
            }
            assert forall|k: int| 0 <= k < n && reached(ships, rows, k) implies {
                &&& (#[trigger] r.0[k]).color == ships[k].color
                &&& r.0[k].fire_delay_passed == ships[k].fire_delay_passed
                &&& r.0[k].health == ships[k].health - count_true(rows[k])
            } by {
                assert(k < m);
            }
            assert forall|k: int| 0 <= k < ships.len() && !(k < n && reached(ships, rows, k)) implies #[trigger] r.0[k] == ships[k] by {
                if k == m {
                    assert(prev.0[k] == ships[k]);
                }
            }
            assert(!(forall|k: int| 0 <= k < n ==> (#[trigger] ships[k]).health != count_true(rows[k]))) by {
                assert(ships[k0].health == count_true(rows[k0]));
            }
            assert forall|k: int, j: int|
                0 <= k < n && reached(ships, rows, k) && 0 <= j < rows[k].len() && #[trigger] rows[k][j]
                    implies exists|i: int| 0 <= i < r.1.len() && #[trigger] r.1[i] == Hit { ship: k as usize, laser: j as usize } by {
                assert(k < m);
            }
        } else {
            let row = rows[m as int];
            row_hits_are_collisions(m as usize, row);
            row_hits_in_order(m as usize, row);
            let rh = row_hits(m as usize, row);
            assert(reached(ships, rows, m as int));
            let left = ships[m as int].health - count_true(row);
            assert(left >= 0);
            assert(r.0 == prev.0.update(m as int, with_health(ships[m as int], left)));
            assert(r.1 == prev.1 + rh);
            assert forall|k: int| 0 <= k < n && reached(ships, rows, k) implies {
                &&& (#[trigger] r.0[k]).color == ships[k].color
                &&& r.0[k].fire_delay_passed == ships[k].fire_delay_passed
                &&& r.0[k].health == ships[k].health - count_true(rows[k])
            } by {
                if k < m {
                    assert(r.0[k] == prev.0[k]);
                }
            }
            assert forall|k: int| 0 <= k < ships.len() && !(k < n && reached(ships, rows, k)) implies #[trigger] r.0[k] == ships[k] by {
                if k < m {
                    assert(r.0[k] == prev.0[k]);
                } else {
                    assert(k > m);
                    assert(r.0[k] == prev.0[k]);
                }
            }
            if left == 0 {
                assert(ships[m as int].health == count_true(rows[m as int]));
            } else {
                assert forall|k: int| 0 <= k < n implies (#[trigger] ships[k]).health != count_true(rows[k]) by {
                    if k < m {
                        assert(ships[k].health != count_true(rows[k]));
                    }
                }
            }
            assert forall|i: int| 0 <= i < r.1.len() implies {
                let h = #[trigger] r.1[i];
                &&& h.ship < n
                &&& reached(ships, rows, h.ship as int)
                &&& h.laser < rows[h.ship as int].len()
                &&& rows[h.ship as int][h.laser as int]
            } by {
                if i < prev.1.len() {
                    assert(r.1[i] == prev.1[i]);
                } else {
                    assert(r.1[i] == rh[i - prev.1.len()]);
                }
            }
            assert forall|k: int, j: int|
                0 <= k < n && reached(ships, rows, k) && 0 <= j < rows[k].len() && #[trigger] rows[k][j]
                    implies exists|i: int| 0 <= i < r.1.len() && #[trigger] r.1[i] == Hit { ship: k as usize, laser: j as usize } by {
                if k < m {
                    let i = choose|i: int| 0 <= i < prev.1.len() && #[trigger] prev.1[i] == Hit { ship: k as usize, laser: j as usize };
                    assert(r.1[i] == prev.1[i]);
                } else {
                    assert(row[j]);
                    let i = choose|i: int| 0 <= i < rh.len() && #[trigger] rh[i] == Hit { ship: m as usize, laser: j as usize };
                    assert(r.1[prev.1.len() + i] == rh[i]);
                }
            }
            assert forall|a: int, b: int| 0 <= a < b < r.1.len() implies hit_before(#[trigger] r.1[a], #[trigger] r.1[b]) by {
                if b < prev.1.len() {
                    assert(r.1[a] == prev.1[a] && r.1[b] == prev.1[b]);
                } else if a < prev.1.len() {
                    assert(r.1[a] == prev.1[a]);
                    assert(r.1[b] == rh[b - prev.1.len()]);
                    assert(prev.1[a].ship < m);
                } else {
                    assert(r.1[a] == rh[a - prev.1.len()]);
                    assert(r.1[b] == rh[b - prev.1.len()]);
                }
            }
        }
    }
}

/// The score-board rewrites are, in announcement order, one block per
/// announcement with one rewrite per ship in ship order: the ship's health,
/// written to the red board when both the announced loser and the ship are
/// red, and to the yellow board otherwise.
pub proof fn score_board_law(losers: Seq<ShipColor>, ships: Seq<Ship>)
    ensures
        score_updates(losers, ships).len() == losers.len() * ships.len(),
        forall|e: int, k: int|
            #![trigger losers[e], ships[k]]
            0 <= e < losers.len() && 0 <= k < ships.len() ==> score_updates(losers, ships)[e * ships.len() + k] == (
            ScoreUpdate {
                board: if losers[e] == ShipColor::Red && ships[k].color == ShipColor::Red {
                    ShipColor::Red
                } else {
                    ShipColor::Yellow
                },
                health: ships[k].health,
            }),
    decreases losers.len(),
{
    let m = ships.len() as int;
    if losers.len() > 0 {
        let front = losers.drop_last();
        let p = front.len() as int;
        score_board_law(front, ships);
        let prev = score_updates(front, ships);
        let ev = event_updates(losers.last(), ships);
        assert(score_updates(losers, ships) == prev + ev);
        assert((p + 1) * m == p * m + m) by (nonlinear_arith);
        assert forall|e: int, k: int|
            #![trigger losers[e], ships[k]]
            0 <= e < losers.len() && 0 <= k < ships.len() implies score_updates(losers, ships)[e * ships.len() + k] == (
            ScoreUpdate {
                board: if losers[e] == ShipColor::Red && ships[k].color == ShipColor::Red {
                    ShipColor::Red
                } else {
                    ShipColor::Yellow
                },
                health: ships[k].health,
            }) by {
            if e < p {
                assert(e * m + k < p * m) by (nonlinear_arith)
                    requires
                        0 <= e < p,
                        0 <= k < m,
                ;
                assert(front[e] == losers[e]);
                assert(score_updates(losers, ships)[e * m + k] == prev[e * m + k]);
            } else {
                assert(e == p);
                assert(score_updates(losers, ships)[e * m + k] == ev[k]);
            }
        }
    }
}

/// A ship fires exactly when its trigger is held, its laser has recharged and
/// fewer than `MAX_LASERS` lasers of its own colour are in flight; the other
/// colour's lasers do not matter.
pub proof fn firing_law(ship: Ship, trigger: bool, red_lasers: nat, yellow_lasers: nat, other: nat)
    ensures
        !trigger ==> !spec_fires(ship, trigger, red_lasers, yellow_lasers),
        !ship.fire_delay_passed ==> !spec_fires(ship, trigger, red_lasers, yellow_lasers),
        ship.color == ShipColor::Red && red_lasers >= MAX_LASERS ==> !spec_fires(ship, trigger, red_lasers, yellow_lasers),
        ship.color == ShipColor::Yellow && yellow_lasers >= MAX_LASERS ==> !spec_fires(ship, trigger, red_lasers, yellow_lasers),
        trigger && ship.fire_delay_passed && ship.color == ShipColor::Red && red_lasers < MAX_LASERS
            ==> spec_fires(ship, trigger, red_lasers, yellow_lasers),
        trigger && ship.fire_delay_passed && ship.color == ShipColor::Yellow && yellow_lasers < MAX_LASERS
            ==> spec_fires(ship, trigger, red_lasers, yellow_lasers),
        ship.color == ShipColor::Red ==> spec_fires(ship, trigger, red_lasers, other) == spec_fires(ship, trigger, red_lasers, yellow_lasers),
        ship.color == ShipColor::Yellow ==> spec_fires(ship, trigger, other, yellow_lasers) == spec_fires(ship, trigger, red_lasers, yellow_lasers),
{
}

/// A shot uses up the recharge and changes nothing else; a ship that does not
/// fire is unchanged. The laser timer makes a ship ready when it runs out and
/// changes nothing otherwise.
pub proof fn recharge_law(ship: Ship, fired: bool, just_finished: bool)
    ensures
        fired ==> !with_fire_delay(ship, ship.fire_delay_passed && !fired).fire_delay_passed,
        !fired ==> with_fire_delay(ship, ship.fire_delay_passed && !fired) == ship,
        with_fire_delay(ship, ship.fire_delay_passed && !fired).color == ship.color,
        with_fire_delay(ship, ship.fire_delay_passed && !fired).health == ship.health,
        just_finished ==> with_fire_delay(ship, ship.fire_delay_passed || just_finished).fire_delay_passed,
        !just_finished ==> with_fire_delay(ship, ship.fire_delay_passed || just_finished) == ship,
        with_fire_delay(ship, ship.fire_delay_passed || just_finished).health == ship.health,
        with_fire_delay(ship, ship.fire_delay_passed || just_finished).color == ship.color,
{
}

/// The screens answer only clicks: play starts exactly on a click on Start on
/// the main menu, the application exits exactly on a click on Quit on the main
/// menu, the menu returns exactly on the end of a round during play, and a
/// hover or an idle button never does anything.
pub proof fn flow_law(state: GameState, event: GameEvent)
    ensures
        (spec_on_event(state, event) == FlowAction::StartGame) <==> (state == GameState::MainMenu && event
            == GameEvent::Button(MenuButton::Start, ButtonInteraction::Clicked)),
        (spec_on_event(state, event) == FlowAction::Exit) <==> (state == GameState::MainMenu && event
            == GameEvent::Button(MenuButton::Quit, ButtonInteraction::Clicked)),
        (spec_on_event(state, event) == FlowAction::ReturnToMenu) <==> (state == GameState::Gameplay && event is GameOver),
        (event matches GameEvent::Button(_, i) && i != ButtonInteraction::Clicked) ==> spec_on_event(state, event)
            == FlowAction::Stay,
        (spec_target(spec_on_event(state, event)) is Some) <==> (spec_on_event(state, event) == FlowAction::StartGame
            || spec_on_event(state, event) == FlowAction::ReturnToMenu),
{
}

/// Screen switches: starting leads to play, returning leads to the menu, and
/// nothing else switches.
pub proof fn target_law(action: FlowAction)
    ensures
        (spec_target(action) == Some(GameState::Gameplay)) <==> action == FlowAction::StartGame,
        (spec_target(action) == Some(GameState::MainMenu)) <==> action == FlowAction::ReturnToMenu,
        (spec_target(action) is None) <==> (action == FlowAction::Stay || action == FlowAction::Exit),
{
}

/// A heading's sign is a unit: one laser speed per unit of time, one ship
/// width from the ship; left is negative and right positive.
pub proof fn heading_sign_is_a_unit(h: Heading)
    ensures
        spec_heading_sign(h) == -1 || spec_heading_sign(h) == 1,
        h == Heading::Left ==> spec_heading_sign(h) < 0,
        h == Heading::Right ==> spec_heading_sign(h) > 0,
        spec_heading_sign(spec_heading(ShipColor::Red)) == -spec_heading_sign(spec_heading(ShipColor::Yellow)),
{
}

/// The ships start mirrored about the centre, `HOME_OFFSET` away from it, each
/// on the side of its lane, and each turned a quarter turn towards the side its
/// lasers fly to.
pub proof fn homes_are_mirrored(c: ShipColor)
    ensures
        spec_home_x(spec_opponent(c)) == -spec_home_x(c),
        spec_home_x(c) == HOME_OFFSET || spec_home_x(c) == -HOME_OFFSET,
        (spec_home_x(c) > 0) <==> spec_lane(c) == Lane::RightHalf,
        spec_facing_degrees(c) == 90 * spec_heading_sign(spec_heading(c)),
{
}

/// Each lane is half the screen, and the two lanes together cover it without
/// overlap.
pub proof fn lanes_split_the_screen(c: ShipColor)
    ensures
        spec_lane_halves(spec_lane(c)).1 - spec_lane_halves(spec_lane(c)).0 == 1,
        spec_lane_halves(spec_lane(c)).0 == -1 || spec_lane_halves(spec_lane(c)).1 == 1,
        spec_lane_halves(spec_lane(c)).0 == spec_lane_halves(spec_lane(spec_opponent(c))).1
            || spec_lane_halves(spec_lane(c)).1 == spec_lane_halves(spec_lane(spec_opponent(c))).0,
{
}

/// Grid position (row, column) of a letter key on a QWERTY keyboard: row 0 is
/// Q..P, row 1 is A..L.
pub open spec fn key_position(k: Key) -> Option<(int, int)> {
    match k {
        Key::E => Some((0, 2)),
        Key::I => Some((0, 7)),
        Key::S => Some((1, 1)),
        Key::D => Some((1, 2)),
        Key::F => Some((1, 3)),
        Key::J => Some((1, 6)),
        Key::K => Some((1, 7)),
        Key::L => Some((1, 8)),
        _ => None,
    }
}

/// Each ship is steered with an inverted-T cluster of letter keys: "up" sits
/// directly above "down", and "left" and "right" directly beside it; the
/// fire key is not a letter key.
pub proof fn steering_keys_form_a_cluster(c: ShipColor)
    ensures
        ({
            let k = spec_controls(c);
            let d = key_position(k.down)->Some_0;
            &&& key_position(k.down) is Some
            &&& key_position(k.up) == Some((d.0 - 1, d.1))
            &&& key_position(k.left) == Some((d.0, d.1 - 1))
            &&& key_position(k.right) == Some((d.0, d.1 + 1))
            &&& key_position(k.fire) is None
        }),
{
}

/// A new ship has the given colour, full health and a ready laser.
pub proof fn new_ships_are_ready(c: ShipColor)
    ensures
        spec_new_ship(c).color == c,
        spec_new_ship(c).health == FULL_HEALTH,
        spec_new_ship(c).fire_delay_passed,
{
}

/// Hit checking fits its inputs exactly when every ship it reaches is struck
/// at most as often as it has health.
pub proof fn hits_fit_law(ships: Seq<Ship>, rows: Seq<Seq<bool>>, n: nat)
    requires
        n <= ships.len(),
    ensures
        hits_fit(ships, rows, n) <==> forall|k: int|
            0 <= k < n && reached(ships, rows, k) ==> count_true(rows[k]) <= (#[trigger] ships[k]).health,
    decreases n,
{
    if n > 0 {
        let m = (n - 1) as nat;
        hits_fit_law(ships, rows, m);
        lemma_resolve_is_reached(ships, rows, m);
        if hits_fit(ships, rows, n) {
            assert forall|k: int| 0 <= k < n && reached(ships, rows, k) implies count_true(rows[k])
                <= (#[trigger] ships[k]).health by {
                if k == m {
                    assert(resolve(ships, rows, m).2 is None);
                }
            }
        } else {
            if hits_fit(ships, rows, m) {
                assert(resolve(ships, rows, m).2 is None);
                assert(reached(ships, rows, m as int));
                assert(!(count_true(rows[m as int]) <= ships[m as int].health));
            } else {
                let k = choose|k: int|
                    !(0 <= k < m && reached(ships, rows, k) ==> count_true(rows[k]) <= (#[trigger] ships[k]).health);
                assert(!(count_true(rows[k]) <= ships[k].health));
            }
        }
    }
}

/// Hit checking has named no winner among the first `n` ships exactly when it
/// reaches the next one.
pub proof fn lemma_resolve_is_reached(ships: Seq<Ship>, rows: Seq<Seq<bool>>, n: nat)
    requires
        n <= ships.len(),
    ensures
        (resolve(ships, rows, n).2 is None) <==> reached(ships, rows, n as int),
    decreases n,
{
    if n > 0 {
        let m = (n - 1) as nat;
        lemma_resolve_is_reached(ships, rows, m);
        if resolve(ships, rows, m).2 is Some {
            let k = choose|k: int| 0 <= k < m && (#[trigger] ships[k]).health == count_true(rows[k]);
            assert(!reached(ships, rows, n as int)) by {
                assert(ships[k].health == count_true(rows[k]));
            }
        } else {
            if !reached(ships, rows, n as int) {
                let k = choose|k: int| 0 <= k < n && (#[trigger] ships[k]).health == count_true(rows[k]);
                assert(k == m);
            }
        }
    }
}

} // verus!
