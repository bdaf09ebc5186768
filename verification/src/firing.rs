//! Firing and hits: when a ship may shoot, how its laser recharges, and how
//! laser hits cost health and decide the round.

use vstd::prelude::*;
use crate::ship::{Ship, ShipColor, MAX_LASERS, spec_opponent};
use crate::laws::hit_checking_law;

verus! {

/// A laser that struck a ship: `ship` is the ship's place in the list of
/// ships, `laser` the laser's place in the list of the opponent's lasers.
#[derive(Clone, Copy, Debug, PartialEq, Eq, Structural)]
pub struct Hit {
    pub ship: usize,
    pub laser: usize,
}

/// What one round of hit checking produced: the hits in the order they were
/// found (each costs its ship one health, removes the laser and is announced
/// with the struck ship's colour as loser), and the winner if a ship was
/// destroyed.
pub struct CollisionOutcome {
    pub hits: Vec<Hit>,
    pub winner: Option<ShipColor>,
}

/// Whether a ship fires: its trigger is held, fewer than `MAX_LASERS` of its
/// colour's lasers are in flight, and its laser has recharged.
pub open spec fn spec_fires(ship: Ship, trigger_pressed: bool, red_lasers: nat, yellow_lasers: nat) -> bool {
    let own = match ship.color {
        ShipColor::Red => red_lasers,
        ShipColor::Yellow => yellow_lasers,
    };
    trigger_pressed && own < MAX_LASERS && ship.fire_delay_passed
}

pub open spec fn with_fire_delay(ship: Ship, ready: bool) -> Ship {
    Ship { color: ship.color, health: ship.health, fire_delay_passed: ready }
}

pub open spec fn with_health(ship: Ship, health: int) -> Ship {
    Ship { color: ship.color, health: health as u8, fire_delay_passed: ship.fire_delay_passed }
}

/// Number of `true` entries.
pub open spec fn count_true(s: Seq<bool>) -> nat
    decreases s.len(),
{
    if s.len() == 0 {
        0
    } else {
        count_true(s.drop_last()) + if s.last() { 1nat } else { 0nat }
    }
}

/// The hits on ship `ship` whose row of collision results is `row`, in order.
pub open spec fn row_hits(ship: usize, row: Seq<bool>) -> Seq<Hit>
    decreases row.len(),
{
    if row.len() == 0 {
        Seq::empty()
    } else {
        row_hits(ship, row.drop_last()) + if row.last() {
            seq![Hit { ship, laser: (row.len() - 1) as usize }]
        } else {
            Seq::empty()
        }
    }
}

pub open spec fn rows_of(collided: Seq<Vec<bool>>) -> Seq<Seq<bool>> {
    collided.map_values(|r: Vec<bool>| r@)
}

/// Whether hit checking reaches ship `k`: no earlier ship is struck exactly as
/// often as it has health.
pub open spec fn reached(ships: Seq<Ship>, rows: Seq<Seq<bool>>, k: int) -> bool {
    forall|m: int| 0 <= m < k ==> (#[trigger] ships[m]).health != count_true(rows[m])
}

/// Hit `a` comes before hit `b`: on an earlier ship, or on the same ship by an
/// earlier laser.
pub open spec fn hit_before(a: Hit, b: Hit) -> bool {
    a.ship < b.ship || (a.ship == b.ship && a.laser < b.laser)
}

/// Hit checking over the first `n` ships, in order: each ship loses one health
/// per laser that struck it; the first ship left with no health ends the
/// check, and its opponent wins. Ships after it are left as they were.
pub open spec fn resolve(ships: Seq<Ship>, rows: Seq<Seq<bool>>, n: nat) -> (Seq<Ship>, Seq<Hit>, Option<ShipColor>)
    decreases n,
{
    if n == 0 {
        (ships, Seq::empty(), None)
    } else {
        let prev = resolve(ships, rows, (n - 1) as nat);
        if prev.2 is Some {
            prev
        } else {
            let i = n - 1;
            let left = ships[i].health - count_true(rows[i]);
            (
                prev.0.update(i, with_health(ships[i], left)),
                prev.1 + row_hits(i as usize, rows[i]),
                if left == 0 { Some(spec_opponent(ships[i].color)) } else { None },
            )
        }
    }
}

/// No ship that hit checking reaches among the first `n` is struck more
/// often than it has health.
pub open spec fn hits_fit(ships: Seq<Ship>, rows: Seq<Seq<bool>>, n: nat) -> bool
    decreases n,
{
    n == 0 || (hits_fit(ships, rows, (n - 1) as nat) && (resolve(ships, rows, (n - 1) as nat).2 is None
        ==> count_true(rows[n - 1]) <= ships[n - 1].health))
}

proof fn lemma_count_take(s: Seq<bool>, j: int)
    requires
        0 <= j < s.len(),
    ensures
        count_true(s.take(j + 1)) == count_true(s.take(j)) + if s[j] { 1nat } else { 0nat },
        row_hits_step(s, j),
{
    assert(s.take(j + 1).drop_last() =~= s.take(j));
}

pub open spec fn row_hits_step(s: Seq<bool>, j: int) -> bool {
    forall|i: usize| #[trigger] row_hits(i, s.take(j + 1)) == row_hits(i, s.take(j)) + if s[j] {
        seq![Hit { ship: i, laser: j as usize }]
    } else {
        Seq::<Hit>::empty()
    }
}

proof fn lemma_count_prefix(s: Seq<bool>, j: int)
    requires
        0 <= j <= s.len(),
    ensures
        count_true(s.take(j)) <= count_true(s),
    decreases s.len() - j,
{
    if j == s.len() {
        assert(s.take(j) =~= s);
    } else {
        lemma_count_take(s, j);
        lemma_count_prefix(s, j + 1);
    }
}

proof fn lemma_resolve_stays(ships: Seq<Ship>, rows: Seq<Seq<bool>>, i: nat, k: nat)
    requires
        i <= k,
        resolve(ships, rows, i).2 is Some,
    ensures
        resolve(ships, rows, k) == resolve(ships, rows, i),
    decreases k,
{
    if k > i {
        lemma_resolve_stays(ships, rows, i, (k - 1) as nat);
    }
}

proof fn lemma_hits_fit_prefix(ships: Seq<Ship>, rows: Seq<Seq<bool>>, n: nat, i: nat)
    requires
        i <= n,
        hits_fit(ships, rows, n),
    ensures
        hits_fit(ships, rows, i),
    decreases n,
{
    if n > i {
        lemma_hits_fit_prefix(ships, rows, (n - 1) as nat, i);
    }
}

/// Hit checking keeps the number of ships, and leaves the ships it has not
/// reached as they were.
pub proof fn lemma_resolve_shape(ships: Seq<Ship>, rows: Seq<Seq<bool>>, n: nat)
    requires
        n <= ships.len(),
    ensures
        resolve(ships, rows, n).0.len() == ships.len(),
        forall|k: int| n <= k < ships.len() ==> resolve(ships, rows, n).0[k] == ships[k],
    decreases n,
{
    if n > 0 {
        lemma_resolve_shape(ships, rows, (n - 1) as nat);
    }
}

/// Once hit checking has stopped, later ships add no further condition.
proof fn lemma_hits_fit_after_stop(ships: Seq<Ship>, rows: Seq<Seq<bool>>, i: nat, k: nat)
    requires
        i <= k,
        hits_fit(ships, rows, i),
        resolve(ships, rows, i).2 is Some,
    ensures
        hits_fit(ships, rows, k),
    decreases k,
{
    if k > i {
        lemma_hits_fit_after_stop(ships, rows, i, (k - 1) as nat);
        lemma_resolve_stays(ships, rows, i, (k - 1) as nat);
    }
}

/// Counts the lasers that struck one ship.
fn count_hits(row: &Vec<bool>) -> (c: usize)
    ensures
        c == count_true(row@),
{
    let mut c: usize = 0;
    let mut j: usize = 0;
    while j < row.len()
        invariant
            j <= row@.len(),
            c == count_true(row@.take(j as int)),
            c <= j,
        decreases row@.len() - j,
    {
        proof {
            lemma_count_take(row@, j as int);
        }
        if row[j] {
            c = c + 1;
        }
        j = j + 1;
    }
    assert(row@.take(j as int) =~= row@);
    c
}

/// Whether hit checking can run on these inputs without a ship it reaches
/// being struck more often than it has health; where this is false, the
/// health count would fall below zero.
pub fn hits_fit_check(ships: &Vec<Ship>, collided: &Vec<Vec<bool>>) -> (ok: bool)
    requires
        collided.len() == ships.len(),
    ensures
        ok == hits_fit(ships@, rows_of(collided@), ships@.len()),
{
    let ghost rows = rows_of(collided@);
    let n = ships.len();
    let mut i: usize = 0;
    let mut stopped = false;
    while i < n && !stopped
        invariant
            n == ships@.len(),
            collided.len() == n,
            rows == rows_of(collided@),
            i <= n,
            hits_fit(ships@, rows, i as nat),
            stopped == resolve(ships@, rows, i as nat).2 is Some,
        decreases n - i,
    {
        let c = count_hits(&collided[i]);
        assert(collided@[i as int]@ == rows[i as int]);
        if c > ships[i].health as usize {
            proof {
                if hits_fit(ships@, rows, n as nat) {
                    lemma_hits_fit_prefix(ships@, rows, n as nat, (i + 1) as nat);
                }
            }
            return false;
        }
        if c == ships[i].health as usize {
            stopped = true;
        }
        i = i + 1;
    }
    proof {
        if i < n {
            lemma_hits_fit_after_stop(ships@, rows, i as nat, n as nat);
        }
    }
    true
}

impl Ship {
    /// The firing decision for one ship in one frame. `red_lasers` and
    /// `yellow_lasers` count the lasers in flight at the start of the frame.
    /// A shot uses up the recharge until the laser timer next runs out.
    pub fn try_fire(&mut self, trigger_pressed: bool, red_lasers: usize, yellow_lasers: usize) -> (fired: bool)
        ensures
            fired == spec_fires(*old(self), trigger_pressed, red_lasers as nat, yellow_lasers as nat),
            !trigger_pressed ==> !fired,
            !old(self).fire_delay_passed ==> !fired,
            *final(self) == with_fire_delay(*old(self), old(self).fire_delay_passed && !fired),
    {
        let own = match self.color {
            ShipColor::Red => red_lasers,
            ShipColor::Yellow => yellow_lasers,
        };
        if trigger_pressed && own < MAX_LASERS && self.fire_delay_passed {
            self.fire_delay_passed = false;
            true
        } else {
            false
        }
    }

    /// The laser timer's tick: when the timer has just run out, the laser is
    /// ready again; otherwise nothing changes.
    pub fn laser_timer_tick(&mut self, just_finished: bool)
        ensures
            *final(self) == with_fire_delay(*old(self), old(self).fire_delay_passed || just_finished),
    {
        if just_finished {
            self.fire_delay_passed = true;
        }
    }
}

/// Hit checking for one frame. `collided[i][j]` tells whether the `j`-th laser
/// of the opponent of `ships[i]` overlaps `ships[i]`. Ships are taken in
/// order; each loses one health per hit, and the first ship left with no
/// health ends the check, making its opponent the winner.
pub fn check_for_collisions(ships: &mut Vec<Ship>, collided: &Vec<Vec<bool>>) -> (out: CollisionOutcome)
    requires
        collided.len() == old(ships).len(),
        hits_fit(old(ships)@, rows_of(collided@), old(ships)@.len()),
    ensures
        final(ships)@ == resolve(old(ships)@, rows_of(collided@), old(ships)@.len()).0,
        out.hits@ == resolve(old(ships)@, rows_of(collided@), old(ships)@.len()).1,
        out.winner == resolve(old(ships)@, rows_of(collided@), old(ships)@.len()).2,
        forall|k: int|
            0 <= k < old(ships)@.len() && reached(old(ships)@, rows_of(collided@), k) ==> (#[trigger] final(ships)@[k]).health
                == old(ships)@[k].health - count_true(rows_of(collided@)[k]),
        forall|k: int|
            0 <= k < old(ships)@.len() && !reached(old(ships)@, rows_of(collided@), k) ==> #[trigger] final(ships)@[k]
                == old(ships)@[k],
        (out.winner is None) <==> forall|k: int|
            0 <= k < old(ships)@.len() ==> (#[trigger] old(ships)@[k]).health != count_true(rows_of(collided@)[k]),
        forall|a: int, b: int| 0 <= a < b < out.hits@.len() ==> hit_before(#[trigger] out.hits@[a], #[trigger] out.hits@[b]),
{
    let ghost ships0 = ships@;
    let ghost rows = rows_of(collided@);
    let n = ships.len();
    let mut hits: Vec<Hit> = Vec::new();
    let mut winner: Option<ShipColor> = None;
    let mut i: usize = 0;
    proof {
        lemma_resolve_shape(ships0, rows, 0);
    }
    while i < n && winner.is_none()
        invariant
            n == ships0.len(),
            collided.len() == n,
            rows == rows_of(collided@),
            hits_fit(ships0, rows, n as nat),
            i <= n,
            ships@ == resolve(ships0, rows, i as nat).0,
            hits@ == resolve(ships0, rows, i as nat).1,
            winner == resolve(ships0, rows, i as nat).2,
            ships@.len() == n,
            forall|k: int| i <= k < n ==> ships@[k] == ships0[k],
        decreases n - i,
    {
        proof {
            lemma_hits_fit_prefix(ships0, rows, n as nat, (i + 1) as nat);
        }
        let ship = ships[i];
        let row = &collided[i];
        assert(row@ == rows[i as int]);
        let mut health: u8 = ship.health;
        let ghost base = hits@;
        let mut j: usize = 0;
        while j < row.len()
            invariant
                j <= row@.len(),
                count_true(row@) <= ship.health,
                health == ship.health - count_true(row@.take(j as int)),
                hits@ == base + row_hits(i, row@.take(j as int)),
            decreases row@.len() - j,
        {
            proof {
                lemma_count_take(row@, j as int);
                lemma_count_prefix(row@, j as int + 1);
                assert(row_hits(i, row@.take(j as int + 1)) == row_hits(i, row@.take(j as int)) + if row@[j as int] {
                    seq![Hit { ship: i, laser: j }]
                } else {
                    Seq::<Hit>::empty()
                });
            }
            if row[j] {
                health = health - 1;
                hits.push(Hit { ship: i, laser: j });
            }
            proof {
                assert(hits@ == base + row_hits(i, row@.take(j as int + 1)));
            }
            j = j + 1;
        }
        proof {
            assert(row@.take(j as int) =~= row@);
        }
        ships.set(i, Ship { color: ship.color, health, fire_delay_passed: ship.fire_delay_passed });
        if health == 0 {
            winner = Some(ship.color.opponent());
        }
        i = i + 1;
        proof {
            lemma_resolve_shape(ships0, rows, i as nat);
        }
    }
    proof {
        if i < n {
            lemma_resolve_stays(ships0, rows, i as nat, n as nat);
        }
        assert forall|k: int| 0 <= k < rows.len() implies (#[trigger] rows[k]).len() <= usize::MAX by {
            assert(rows[k] == collided@[k]@);
            assert(collided@[k].len() == collided@[k]@.len());
        }
        hit_checking_law(ships0, rows, n as nat);
    }
    CollisionOutcome { hits, winner }
}

} // verus!
