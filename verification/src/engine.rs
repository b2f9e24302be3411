//! The simulation engine.
//!
//! One tick advances the world through five deterministic phases, in this
//! order: display-size easing and movement with boundary clamping, pickup
//! consumption, suction of soon-to-be-eaten players, absorption, and the
//! resolution of the eaten-by relation. The stochastic pickup spawn is the
//! authoritative server's own phase and stands in its own function.
//!
//! Every phase is specified as a function of the previous world model;
//! `advance_spec` composes them, and `State::tick` returns exactly that
//! model.

use crate::num::isqrt;
use crate::num::lemma_mul4_bound;
use crate::num::lemma_muldiv_bound;
use crate::num::pow_nano;
use crate::num::pow_nano_spec;
use crate::num::sqrt_floor;
use crate::num::NANO;
use crate::trig::cos;
use crate::trig::cos_spec;
use crate::trig::sin;
use crate::trig::sin_spec;
use crate::types::contains_id;
use crate::types::idx_of;
use crate::types::Ball;
use crate::types::Player;
use crate::types::StateModel;
use crate::types::DT_MAX;
use crate::types::POS_BOUND;
use crate::types::SIZE_MAX;
use crate::types::SPEED_MAX;
use crate::types::WORLD_MAX;
use crate::types::WORLD_MIN;
use crate::trig::SIN_BOUND;
use vstd::arithmetic::div_mod::lemma_div_by_multiple;
use vstd::arithmetic::div_mod::lemma_div_is_ordered;
use vstd::arithmetic::div_mod::lemma_div_is_ordered_by_denominator;
use vstd::arithmetic::mul::lemma_mul_upper_bound;
use vstd::prelude::*;

verus! {

/// Displacement per second is `MOVE_SCALE` times the effective speed.
pub const MOVE_SCALE: i64 = 35;

/// The effective speed divides the desired speed by the size plus this
/// offset (five units), so larger players move slower.
pub const SPEED_SIZE_OFFSET: i64 = 5000;

/// A pickup is consumed when its distance to the player's center is below
/// the player's radius minus this margin (one unit).
pub const BALL_MARGIN: i64 = 1000;

/// Consuming a pickup first widens the radius by this bump (a tenth of a
/// unit) before the area gain.
pub const BALL_BUMP: i64 = 100;

/// The squared-radius ("mass") gain of one consumed pickup: three square
/// units.
pub const BALL_MASS_GAIN: i64 = 3_000_000;

/// A prey is small enough to eat when `prey.size * EAT_RATIO_NUM <
/// eater.size * EAT_RATIO_DEN`, the exact form of a 1.2 size ratio.
pub const EAT_RATIO_NUM: i64 = 6;

/// See `EAT_RATIO_NUM`.
pub const EAT_RATIO_DEN: i64 = 5;

/// The strength of the suction pull.
pub const SUCTION_SCALE: i64 = 3;

/// The per-millisecond decay of the display-size lag: the nano-scaled
/// thousandth root of one quarter, so that a full second scales the lag by
/// one quarter.
pub const GROW_DECAY_NANO: u64 = 998_614_666;

/// The per-millisecond survival probability of the spawn process: the
/// nano-scaled thousandth root of seven tenths, so that within a full second
/// a pickup spawns with probability three tenths.
pub const SPAWN_DECAY_NANO: u64 = 999_643_389;

/// The squared Euclidean distance of two points.
pub open spec fn dist2(a: (i64, i64), b: (i64, i64)) -> int {
    (b.0 - a.0) * (b.0 - a.0) + (b.1 - a.1) * (b.1 - a.1)
}

/// The display size after easing toward `size` with the given nano-scaled
/// decay factor: the lag is scaled by `decay / NANO`, truncating toward
/// `size`.
pub open spec fn eased_show(size: int, show: int, decay: int) -> int {
    if show >= size {
        size + (show - size) * decay / (NANO as int)
    } else {
        size - (size - show) * decay / (NANO as int)
    }
}

/// The movement displacement along one axis: the desired speed divided by
/// the offset size, times the direction component `trig` (nano-scaled),
/// times the time delta in milliseconds, times the movement scale, truncated
/// toward zero.
pub open spec fn move_delta(speed: int, size: int, trig: int, dt: int) -> int {
    let den = (size + SPEED_SIZE_OFFSET) * (NANO as int);
    if trig >= 0 {
        MOVE_SCALE * speed * trig * dt / den
    } else {
        -(MOVE_SCALE * speed * (-trig) * dt / den)
    }
}

/// One axis of the boundary clamp: raise to the inset, then cap at the
/// extent minus the inset (in this order, as the cap wins when the inset
/// exceeds half the extent).
pub open spec fn clamp_axis(x: int, inset: int, extent: int) -> int {
    let lo = if x < inset {
        inset
    } else {
        x
    };
    if lo > extent - inset {
        extent - inset
    } else {
        lo
    }
}

/// One player after the easing, movement and clamping phase.
pub open spec fn moved_player(p: Player, w: i64, h: i64, dt: u64) -> Player {
    let decay = pow_nano_spec(GROW_DECAY_NANO as int, dt as nat);
    let show = eased_show(p.size as int, p.show_size as int, decay);
    let dx = move_delta(p.speed as int, p.size as int, sin_spec(p.direction as int), dt as int);
    let dy = move_delta(p.speed as int, p.size as int, cos_spec(p.direction as int), dt as int);
    Player {
        pos: (
            clamp_axis(p.pos.0 + dx, show, w as int) as i64,
            clamp_axis(p.pos.1 + dy, show, h as int) as i64,
        ),
        show_size: show as i64,
        ..p
    }
}

/// Whether a pickup lies strictly inside the player's radius minus the
/// margin (compared in squared form, which is exact).
pub open spec fn ball_hit(pos: (i64, i64), size: int, b: Ball) -> bool {
    &&& size > BALL_MARGIN
    &&& dist2(pos, b.pos) < (size - BALL_MARGIN) * (size - BALL_MARGIN)
}

/// The radius after one consumed pickup: bump the radius a tenth of a unit,
/// add three square units of area, take the square root, and cap at
/// `SIZE_MAX`.
pub open spec fn grown_size(size: int) -> int {
    let m = (size + BALL_BUMP) * (size + BALL_BUMP) + BALL_MASS_GAIN;
    if sqrt_floor(m) > SIZE_MAX {
        SIZE_MAX as int
    } else {
        sqrt_floor(m)
    }
}

/// One player consuming pickups in order: every pickup within reach is
/// removed and grows the player, each test using the size grown so far.
/// Returns the final size and the surviving pickups.
pub open spec fn consume_balls(pos: (i64, i64), size: int, balls: Seq<Ball>) -> (int, Seq<Ball>)
    decreases balls.len(),
{
    if balls.len() == 0 {
        (size, balls)
    } else {
        let b = balls[0];
        let rest = balls.subrange(1, balls.len() as int);
        if ball_hit(pos, size, b) {
            consume_balls(pos, grown_size(size), rest)
        } else {
            let sr = consume_balls(pos, size, rest);
            (sr.0, seq![b] + sr.1)
        }
    }
}

/// One player through the first two phases: easing, movement, clamping, then
/// pickup consumption against the current pickup list.
pub open spec fn step_player(p: Player, balls: Seq<Ball>, w: i64, h: i64, dt: u64) -> (
    Player,
    Seq<Ball>,
) {
    let mp = moved_player(p, w, h, dt);
    let sr = consume_balls(mp.pos, mp.size as int, balls);
    (Player { size: sr.0 as i64, ..mp }, sr.1)
}

/// The first `k` players stepped in order, threading the pickup list
/// through: earlier players consume first, exactly as the tick does.
pub open spec fn phase_move(
    players: Seq<(usize, Player)>,
    balls: Seq<Ball>,
    w: i64,
    h: i64,
    dt: u64,
    k: nat,
) -> (Seq<(usize, Player)>, Seq<Ball>)
    decreases k,
{
    if k == 0 {
        (Seq::<(usize, Player)>::empty(), balls)
    } else {
        let prev = phase_move(players, balls, w, h, dt, (k - 1) as nat);
        let st = step_player(players[k - 1].1, prev.1, w, h, dt);
        (prev.0.push((players[k - 1].0, st.0)), st.1)
    }
}

/// Whether `eater` pulls `prey` in: the eat ratio holds and the two discs
/// overlap (distance below the sum of the radii, compared in squared form).
pub open spec fn suck_cond(eater: Player, prey: Player) -> bool {
    &&& prey.size * EAT_RATIO_NUM < eater.size * EAT_RATIO_DEN
    &&& dist2(eater.pos, prey.pos) < (eater.size + prey.size) * (eater.size + prey.size)
}

/// The player whose pull applies to prey `j`: the last index below `k`
/// meeting the suction condition (later players overwrite earlier pulls).
pub open spec fn last_sucker(s: Seq<(usize, Player)>, j: int, k: nat) -> int
    decreases k,
{
    if k == 0 {
        -1
    } else if k - 1 != j && suck_cond(s[k - 1].1, s[j].1) {
        k - 1
    } else {
        last_sucker(s, j, (k - 1) as nat)
    }
}

/// The suction displacement along one axis: the distance to the eater,
/// scaled by the time delta and the nano-scaled pull amount, truncated
/// toward zero.
pub open spec fn pull_delta(diff: int, dt: int, amount: int) -> int {
    let den = 1000 * (NANO as int);
    if diff >= 0 {
        diff * dt * amount * SUCTION_SCALE / den
    } else {
        -((-diff) * dt * amount * SUCTION_SCALE / den)
    }
}

/// Prey `j` after the suction phase: pulled toward the last qualifying
/// eater with a strength that grows from zero (discs barely touching) to
/// one whole unit (prey about to be absorbed), then clamped back into the
/// world.
pub open spec fn sucked_player(s: Seq<(usize, Player)>, j: int, w: i64, h: i64, dt: u64) -> Player {
    let p = s[j].1;
    let i = last_sucker(s, j, s.len());
    if i < 0 {
        p
    } else {
        let e = s[i].1;
        let d = sqrt_floor(dist2(e.pos, p.pos));
        let amount = (e.size + p.size - d) * (NANO as int) / (2 * p.size);
        let dx = pull_delta(e.pos.0 - p.pos.0, dt as int, amount);
        let dy = pull_delta(e.pos.1 - p.pos.1, dt as int, amount);
        Player {
            pos: (
                clamp_axis(p.pos.0 + dx, p.show_size as int, w as int) as i64,
                clamp_axis(p.pos.1 + dy, p.show_size as int, h as int) as i64,
            ),
            ..p
        }
    }
}

/// The suction phase: every player pulled on the same snapshot.
pub open spec fn phase_suction(s: Seq<(usize, Player)>, w: i64, h: i64, dt: u64) -> Seq<
    (usize, Player),
> {
    Seq::new(s.len(), |j: int| (s[j].0, sucked_player(s, j, w, h, dt)))
}

/// Whether `eater` absorbs `prey`: the eat ratio holds and the distance is
/// below the radius difference (compared in squared form; the eater is
/// strictly larger, so the difference is positive).
pub open spec fn eat_cond(eater: Player, prey: Player) -> bool {
    &&& prey.size * EAT_RATIO_NUM < eater.size * EAT_RATIO_DEN
    &&& eater.size > prey.size
    &&& dist2(eater.pos, prey.pos) < (eater.size - prey.size) * (eater.size - prey.size)
}

/// The winner that absorbs prey `j`, searching from index `i` upward: the
/// first player meeting the absorption condition, or `-1`.
pub open spec fn winner_from(s: Seq<(usize, Player)>, j: int, i: nat) -> int
    decreases s.len() - i,
{
    if i >= s.len() {
        -1
    } else if i != j && eat_cond(s[i as int].1, s[j].1) {
        i as int
    } else {
        winner_from(s, j, i + 1)
    }
}

/// The winner that absorbs prey `j` this tick, or `-1` if `j` survives.
pub open spec fn winner_of(s: Seq<(usize, Player)>, j: int) -> int {
    winner_from(s, j, 0)
}

/// The total squared-radius gain of winner `i` from the prey below index
/// `k`.
pub open spec fn adds_upto(s: Seq<(usize, Player)>, i: int, k: nat) -> int
    decreases k,
{
    if k == 0 {
        0
    } else {
        adds_upto(s, i, (k - 1) as nat) + if winner_of(s, k - 1) == i {
            s[k - 1].1.size * s[k - 1].1.size
        } else {
            0
        }
    }
}

/// The size of survivor `i` after absorption: the square root of its own
/// squared radius plus all absorbed squared radii, capped at `SIZE_MAX`.
pub open spec fn fed_size(s: Seq<(usize, Player)>, i: int) -> int {
    let m = s[i].1.size * s[i].1.size + adds_upto(s, i, s.len());
    if sqrt_floor(m) > SIZE_MAX {
        SIZE_MAX as int
    } else {
        sqrt_floor(m)
    }
}

/// The players that survive absorption among the first `k`, each with its
/// fed size.
pub open spec fn survivors_upto(s: Seq<(usize, Player)>, k: nat) -> Seq<(usize, Player)>
    decreases k,
{
    if k == 0 {
        Seq::<(usize, Player)>::empty()
    } else {
        let prev = survivors_upto(s, (k - 1) as nat);
        if winner_of(s, k - 1) >= 0 {
            prev
        } else {
            prev.push((s[k - 1].0, Player { size: fed_size(s, k - 1) as i64, ..s[k - 1].1 }))
        }
    }
}

/// Follows winners until a live player is reached or the fuel runs out;
/// each hop moves to a strictly larger player, so `s.len()` fuel always
/// reaches a live one.
pub open spec fn resolve_winner(s: Seq<(usize, Player)>, j: int, fuel: nat) -> int
    decreases fuel,
{
    let i = winner_of(s, j);
    if i < 0 || fuel == 0 {
        j
    } else {
        resolve_winner(s, i, (fuel - 1) as nat)
    }
}

/// The eaten-by entries this tick adds: each absorbed player of the first
/// `k`, mapped to the live player that ends up controlling its mass.
pub open spec fn eaten_pairs_upto(s: Seq<(usize, Player)>, k: nat) -> Seq<(usize, usize)>
    decreases k,
{
    if k == 0 {
        Seq::<(usize, usize)>::empty()
    } else {
        let prev = eaten_pairs_upto(s, (k - 1) as nat);
        if winner_of(s, k - 1) >= 0 {
            prev.push((s[k - 1].0, s[resolve_winner(s, k - 1, s.len())].0))
        } else {
            prev
        }
    }
}

/// One old eaten-by entry after this tick: if its target is absorbed this
/// tick, the entry follows the chain to the target's final live winner.
pub open spec fn retarget_entry(s: Seq<(usize, Player)>, e: (usize, usize)) -> (usize, usize) {
    let j = idx_of(s, e.1);
    if 0 <= j && winner_of(s, j) >= 0 {
        (e.0, s[resolve_winner(s, j, s.len())].0)
    } else {
        e
    }
}

/// All old eaten-by entries after this tick.
pub open spec fn retarget(s: Seq<(usize, Player)>, eaten: Seq<(usize, usize)>) -> Seq<
    (usize, usize),
> {
    Seq::new(eaten.len(), |k: int| retarget_entry(s, eaten[k]))
}

/// The nano-scaled probability of a pickup spawning within a tick of `dt`
/// milliseconds: one minus the per-millisecond survival decayed `dt` times.
pub open spec fn spawn_threshold(dt: u64) -> int {
    NANO as int - pow_nano_spec(SPAWN_DECAY_NANO as int, dt as nat)
}

/// The eased display size keeps the display-size bounds.
pub(crate) proof fn lemma_eased_bounds(size: int, show: int, decay: int)
    requires
        0 < size <= SIZE_MAX,
        0 <= show <= SIZE_MAX,
        0 <= decay <= NANO,
    ensures
        0 <= eased_show(size, show, decay) <= SIZE_MAX,
{
    let n = NANO as int;
    if show >= size {
        lemma_muldiv_bound(show - size, decay, show - size, n);
        lemma_div_by_multiple(show - size, n);
    } else {
        lemma_muldiv_bound(size - show, decay, size - show, n);
        lemma_div_by_multiple(size - show, n);
    }
}

/// The easing step: the display size moves toward the size, scaling the lag
/// by `decay / NANO`.
fn eased_exec(size: i64, show: i64, decay: u64) -> (r: i64)
    requires
        0 < size <= SIZE_MAX,
        0 <= show <= SIZE_MAX,
        decay <= NANO,
    ensures
        r == eased_show(size as int, show as int, decay as int),
        0 <= r <= SIZE_MAX,
{
    proof {
        lemma_eased_bounds(size as int, show as int, decay as int);
    }
    if show >= size {
        proof {
            lemma_muldiv_bound(
                (show - size) as int,
                decay as int,
                (show - size) as int,
                NANO as int,
            );
            lemma_div_by_multiple((show - size) as int, NANO as int);
        }
        let lag = (((show - size) as u128 * decay as u128) / (NANO as u128)) as i64;
        size + lag
    } else {
        proof {
            lemma_muldiv_bound(
                (size - show) as int,
                decay as int,
                (size - show) as int,
                NANO as int,
            );
            lemma_div_by_multiple((size - show) as int, NANO as int);
        }
        let lag = (((size - show) as u128 * decay as u128) / (NANO as u128)) as i64;
        size - lag
    }
}

/// The movement displacement along one axis.
fn move_delta_exec(speed: i64, size: i64, trig: i64, dt: u64) -> (r: i64)
    requires
        0 <= speed <= SPEED_MAX,
        0 < size <= SIZE_MAX,
        -SIN_BOUND <= trig <= SIN_BOUND,
        dt <= DT_MAX,
    ensures
        r == move_delta(speed as int, size as int, trig as int, dt as int),
        -100_000_000_000_000 <= r <= 100_000_000_000_000,
{
    let neg = trig < 0;
    let mag: u128 = if neg {
        (-(trig as i128)) as u128
    } else {
        trig as u128
    };
    proof {
        lemma_mul4_bound(
            MOVE_SCALE as int,
            MOVE_SCALE as int,
            speed as int,
            SPEED_MAX as int,
            mag as int,
            SIN_BOUND as int,
            dt as int,
            DT_MAX as int,
        );
    }
    let num: u128 = (MOVE_SCALE as u128) * (speed as u128) * mag * (dt as u128);
    proof {
        lemma_mul_upper_bound((size + SPEED_SIZE_OFFSET) as int, 1_000_005_000, NANO as int, 1_000_000_000);
        vstd::arithmetic::mul::lemma_mul_nonnegative((size + SPEED_SIZE_OFFSET) as int, NANO as int);
        vstd::arithmetic::mul::lemma_mul_inequality(5_001, (size + SPEED_SIZE_OFFSET) as int, NANO as int);
    }
    let den: u128 = ((size + SPEED_SIZE_OFFSET) as u128) * (NANO as u128);
    let q = num / den;
    proof {
        lemma_div_is_ordered_by_denominator(num as int, 5_001_000_000_000, den as int);
        lemma_div_is_ordered(num as int, 252_000_000_000_000_000_000_000_000, 5_001_000_000_000);
    }
    if neg {
        -(q as i64)
    } else {
        q as i64
    }
}

/// The squared distance of two well-bounded points.
fn dist2_exec(a: (i64, i64), b: (i64, i64)) -> (d: i128)
    requires
        -POS_BOUND <= a.0 <= POS_BOUND,
        -POS_BOUND <= a.1 <= POS_BOUND,
        -POS_BOUND <= b.0 <= POS_BOUND,
        -POS_BOUND <= b.1 <= POS_BOUND,
    ensures
        d == dist2(a, b),
        0 <= d <= 32_000_000_000_000_000_000,
{
    let dx = (b.0 as i128) - (a.0 as i128);
    let dy = (b.1 as i128) - (a.1 as i128);
    proof {
        assert(0 <= dx * dx <= 16_000_000_000_000_000_000) by (nonlinear_arith)
            requires
                -4_000_000_000 <= dx <= 4_000_000_000,
        ;
        assert(0 <= dy * dy <= 16_000_000_000_000_000_000) by (nonlinear_arith)
            requires
                -4_000_000_000 <= dy <= 4_000_000_000,
        ;
    }
    dx * dx + dy * dy
}

/// One axis of the boundary clamp.
fn clamp_exec(x: i128, inset: i64, extent: i64) -> (r: i64)
    requires
        0 <= inset <= SIZE_MAX,
        WORLD_MIN <= extent <= WORLD_MAX,
    ensures
        r == clamp_axis(x as int, inset as int, extent as int),
        -SIZE_MAX <= r <= WORLD_MAX,
{
    let lo = if x < inset as i128 {
        inset as i128
    } else {
        x
    };
    let cap = (extent as i128) - (inset as i128);
    let res = if lo > cap {
        cap
    } else {
        lo
    };
    res as i64
}

/// The growth of one consumed pickup.
fn grown_exec(size: i64) -> (r: i64)
    requires
        0 < size <= SIZE_MAX,
    ensures
        r == grown_size(size as int),
        0 < r <= SIZE_MAX,
{
    let b = (size + BALL_BUMP) as u128;
    proof {
        lemma_mul_upper_bound(b as int, 1_000_000_100, b as int, 1_000_000_100);
        vstd::arithmetic::mul::lemma_mul_nonnegative(b as int, b as int);
    }
    let m = b * b + (BALL_MASS_GAIN as u128);
    let s = isqrt(m);
    proof {
        if s == 0 {
            assert((0int + 1) * (0int + 1) == 1);
        }
    }
    if s > SIZE_MAX as u64 {
        SIZE_MAX
    } else {
        s as i64
    }
}

/// One player through easing, movement and clamping.
fn move_one(p: &Player, w: i64, h: i64, dt: u64) -> (mp: Player)
    requires
        crate::types::wf_player(*p),
        WORLD_MIN <= w <= WORLD_MAX,
        WORLD_MIN <= h <= WORLD_MAX,
        dt <= DT_MAX,
    ensures
        mp == moved_player(*p, w, h, dt),
        crate::types::wf_player(mp),
        -SIZE_MAX <= mp.pos.0 <= WORLD_MAX,
        -SIZE_MAX <= mp.pos.1 <= WORLD_MAX,
        mp.size == p.size,
{
    let decay = pow_nano(GROW_DECAY_NANO, dt);
    let show = eased_exec(p.size, p.show_size, decay);
    let sv = sin(p.direction);
    let cv = cos(p.direction);
    let dx = move_delta_exec(p.speed, p.size, sv, dt);
    let dy = move_delta_exec(p.speed, p.size, cv, dt);
    let nx = clamp_exec(p.pos.0 as i128 + dx as i128, show, w);
    let ny = clamp_exec(p.pos.1 as i128 + dy as i128, show, h);
    Player { pos: (nx, ny), show_size: show, ..*p }
}

/// One player's pickup consumption: removes every pickup in reach, in order,
/// and returns the grown size.
fn consume_exec(pos: (i64, i64), size0: i64, balls: &mut Vec<Ball>) -> (ns: i64)
    requires
        0 < size0 <= SIZE_MAX,
        -SIZE_MAX <= pos.0 <= WORLD_MAX,
        -SIZE_MAX <= pos.1 <= WORLD_MAX,
        forall|i: int|
            0 <= i < old(balls)@.len() ==> crate::types::wf_ball(#[trigger] old(balls)@[i]),
    ensures
        ns as int == consume_balls(pos, size0 as int, old(balls)@).0,
        final(balls)@ == consume_balls(pos, size0 as int, old(balls)@).1,
        0 < ns <= SIZE_MAX,
        forall|i: int| 0 <= i < final(balls)@.len() ==> crate::types::wf_ball(#[trigger] final(balls)@[i]),
{
    let n = balls.len();
    let mut kept: Vec<Ball> = Vec::new();
    let mut size = size0;
    let mut j: usize = 0;
    proof {
        assert(old(balls)@.skip(0) =~= old(balls)@);
        let sr = consume_balls(pos, size0 as int, old(balls)@);
        assert(Seq::<Ball>::empty() + sr.1 =~= sr.1);
    }
    while j < n
        invariant
            n == balls@.len(),
            balls@ == old(balls)@,
            j <= n,
            0 < size <= SIZE_MAX,
            -SIZE_MAX <= pos.0 <= WORLD_MAX,
            -SIZE_MAX <= pos.1 <= WORLD_MAX,
            forall|i: int| 0 <= i < balls@.len() ==> crate::types::wf_ball(#[trigger] balls@[i]),
            forall|i: int| 0 <= i < kept@.len() ==> crate::types::wf_ball(#[trigger] kept@[i]),
            consume_balls(pos, size0 as int, old(balls)@) == {
                let sr = consume_balls(pos, size as int, old(balls)@.skip(j as int));
                (sr.0, kept@ + sr.1)
            },
        decreases n - j,
    {
        let b = balls[j];
        let ghost suffix = old(balls)@.skip(j as int);
        proof {
            assert(suffix[0] == old(balls)@[j as int]);
            assert(suffix.subrange(1, suffix.len() as int) =~= old(balls)@.skip(j as int + 1));
        }
        let hit = if size > BALL_MARGIN {
            let d2 = dist2_exec(pos, b.pos);
            proof {
                lemma_mul_upper_bound(
                    (size - BALL_MARGIN) as int,
                    SIZE_MAX as int,
                    (size - BALL_MARGIN) as int,
                    SIZE_MAX as int,
                );
            }
            let lim = ((size - BALL_MARGIN) as i128) * ((size - BALL_MARGIN) as i128);
            d2 < lim
        } else {
            false
        };
        assert(hit == ball_hit(pos, size as int, b));
        if hit {
            size = grown_exec(size);
        } else {
            let ghost kept0 = kept@;
            kept.push(b);
            proof {
                let sr = consume_balls(pos, size as int, old(balls)@.skip(j as int + 1));
                assert(kept0 + (seq![b] + sr.1) =~= kept@ + sr.1);
            }
        }
        j = j + 1;
    }
    proof {
        assert(old(balls)@.skip(n as int) =~= Seq::<Ball>::empty());
        let sr = consume_balls(pos, size as int, old(balls)@.skip(n as int));
        assert(kept@ + sr.1 =~= kept@);
    }
    *balls = kept;
    size
}

/// The first phase over all players: easing, movement, clamping and pickup
/// consumption, in player order, threading the pickup list through.
fn phase_move_exec(players: &mut Vec<(usize, Player)>, balls: &mut Vec<Ball>, w: i64, h: i64, dt: u64)
    requires
        forall|i: int|
            0 <= i < old(players)@.len() ==> crate::types::wf_player(#[trigger] old(players)@[i].1),
        forall|i: int|
            0 <= i < old(balls)@.len() ==> crate::types::wf_ball(#[trigger] old(balls)@[i]),
        WORLD_MIN <= w <= WORLD_MAX,
        WORLD_MIN <= h <= WORLD_MAX,
        dt <= DT_MAX,
    ensures
        final(players)@ == phase_move(old(players)@, old(balls)@, w, h, dt, old(players)@.len()).0,
        final(balls)@ == phase_move(old(players)@, old(balls)@, w, h, dt, old(players)@.len()).1,
        forall|i: int|
            0 <= i < final(players)@.len() ==> crate::types::wf_player(
                #[trigger] final(players)@[i].1,
            ),
        forall|i: int|
            0 <= i < final(balls)@.len() ==> crate::types::wf_ball(#[trigger] final(balls)@[i]),
        final(players)@.len() == old(players)@.len(),
        forall|i: int|
            0 <= i < final(players)@.len() ==> #[trigger] final(players)@[i].0 == old(
                players,
            )@[i].0,
{
    let n = players.len();
    let mut i: usize = 0;
    proof {
        assert(players@.take(0) =~= phase_move(old(players)@, old(balls)@, w, h, dt, 0).0);
    }
    while i < n
        invariant
            n == old(players)@.len(),
            players@.len() == n,
            i <= n,
            players@.take(i as int) == phase_move(old(players)@, old(balls)@, w, h, dt, i as nat).0,
            balls@ == phase_move(old(players)@, old(balls)@, w, h, dt, i as nat).1,
            forall|j: int| i <= j < n ==> #[trigger] players@[j] == old(players)@[j],
            forall|j: int| 0 <= j < i ==> crate::types::wf_player(#[trigger] players@[j].1),
            forall|j: int| 0 <= j < i ==> #[trigger] players@[j].0 == old(players)@[j].0,
            forall|j: int| 0 <= j < balls@.len() ==> crate::types::wf_ball(#[trigger] balls@[j]),
            forall|j: int|
                0 <= j < old(players)@.len() ==> crate::types::wf_player(
                    #[trigger] old(players)@[j].1,
                ),
            WORLD_MIN <= w <= WORLD_MAX,
            WORLD_MIN <= h <= WORLD_MAX,
            dt <= DT_MAX,
        decreases n - i,
    {
        let ghost prefix = players@.take(i as int);
        let entry = players[i];
        assert(entry == old(players)@[i as int]);
        let mp = move_one(&entry.1, w, h, dt);
        let ns = consume_exec(mp.pos, mp.size, balls);
        let np = Player { size: ns, ..mp };
        players.set(i, (entry.0, np));
        proof {
            let st = step_player(old(players)@[i as int].1, phase_move(old(players)@, old(balls)@, w, h, dt, i as nat).1, w, h, dt);
            assert(np == st.0);
            assert(players@.take(i + 1) =~= prefix.push((old(players)@[i as int].0, st.0)));
        }
        i = i + 1;
    }
    proof {
        assert(players@.take(n as int) =~= players@);
    }
}

/// A found last sucker meets the suction condition.
pub(crate) proof fn lemma_last_sucker(s: Seq<(usize, Player)>, j: int, k: nat)
    requires
        k <= s.len(),
    ensures
        last_sucker(s, j, k) >= 0 ==> {
            let i = last_sucker(s, j, k);
            &&& 0 <= i < k
            &&& i != j
            &&& suck_cond(s[i].1, s[j].1)
        },
    decreases k,
{
    if k > 0 && !(k - 1 != j && suck_cond(s[k - 1].1, s[j].1)) {
        lemma_last_sucker(s, j, (k - 1) as nat);
    }
}

/// The suction condition, decided exactly.
fn suck_cond_exec(e: &Player, p: &Player) -> (r: bool)
    requires
        crate::types::wf_player(*e),
        crate::types::wf_player(*p),
    ensures
        r == suck_cond(*e, *p),
{
    if p.size * EAT_RATIO_NUM < e.size * EAT_RATIO_DEN {
        let d2 = dist2_exec(e.pos, p.pos);
        proof {
            lemma_mul_upper_bound(
                (e.size + p.size) as int,
                2_000_000_000,
                (e.size + p.size) as int,
                2_000_000_000,
            );
            vstd::arithmetic::mul::lemma_mul_nonnegative((e.size + p.size) as int, (e.size + p.size) as int);
        }
        let lim = ((e.size + p.size) as i128) * ((e.size + p.size) as i128);
        d2 < lim
    } else {
        false
    }
}

/// The last player that pulls prey `j`, if any.
fn find_sucker(snap: &Vec<(usize, Player)>, j: usize) -> (r: Option<usize>)
    requires
        j < snap@.len(),
        forall|i: int| 0 <= i < snap@.len() ==> crate::types::wf_player(#[trigger] snap@[i].1),
    ensures
        match r {
            Some(i) => 0 <= i < snap@.len() && i as int == last_sucker(
                snap@,
                j as int,
                snap@.len(),
            ),
            None => last_sucker(snap@, j as int, snap@.len()) < 0,
        },
{
    let n = snap.len();
    let mut k = n;
    while k > 0
        invariant
            k <= n,
            n == snap@.len(),
            j < n,
            forall|i: int| 0 <= i < snap@.len() ==> crate::types::wf_player(#[trigger] snap@[i].1),
            last_sucker(snap@, j as int, n as nat) == last_sucker(snap@, j as int, k as nat),
        decreases k,
    {
        let kk = k - 1;
        if kk != j && suck_cond_exec(&snap[kk].1, &snap[j].1) {
            return Some(kk);
        }
        k = kk;
    }
    None
}

/// The suction displacement along one axis.
fn pull_delta_exec(diff: i64, dt: u64, amount: u64) -> (r: i128)
    requires
        -4_000_000_000 <= diff <= 4_000_000_000,
        dt <= DT_MAX,
        amount <= 1_000_000_000_000_000_000,
    ensures
        r == pull_delta(diff as int, dt as int, amount as int),
        -43_200_000_000_000_000_000_000 <= r <= 43_200_000_000_000_000_000_000,
{
    let neg = diff < 0;
    let mag: u128 = if neg {
        (-(diff as i128)) as u128
    } else {
        diff as u128
    };
    proof {
        lemma_mul4_bound(
            mag as int,
            4_000_000_000,
            dt as int,
            DT_MAX as int,
            amount as int,
            1_000_000_000_000_000_000,
            SUCTION_SCALE as int,
            3,
        );
    }
    let num = mag * (dt as u128) * (amount as u128) * (SUCTION_SCALE as u128);
    let q = num / 1_000_000_000_000u128;
    proof {
        lemma_div_is_ordered(
            num as int,
            43_200_000_000_000_000_000_000_000_000_000_000,
            1_000_000_000_000,
        );
    }
    if neg {
        -(q as i128)
    } else {
        q as i128
    }
}

/// The suction phase over all players, on one snapshot.
fn phase_suction_exec(players: &mut Vec<(usize, Player)>, w: i64, h: i64, dt: u64)
    requires
        forall|i: int|
            0 <= i < old(players)@.len() ==> crate::types::wf_player(#[trigger] old(players)@[i].1),
        WORLD_MIN <= w <= WORLD_MAX,
        WORLD_MIN <= h <= WORLD_MAX,
        dt <= DT_MAX,
    ensures
        final(players)@ == phase_suction(old(players)@, w, h, dt),
        forall|i: int|
            0 <= i < final(players)@.len() ==> crate::types::wf_player(
                #[trigger] final(players)@[i].1,
            ),
        final(players)@.len() == old(players)@.len(),
        forall|i: int|
            0 <= i < final(players)@.len() ==> #[trigger] final(players)@[i].0 == old(
                players,
            )@[i].0 && final(players)@[i].1.size == old(players)@[i].1.size,
{
    let n = players.len();
    let mut snap: Vec<(usize, Player)> = Vec::new();
    let mut k: usize = 0;
    while k < n
        invariant
            k <= n,
            n == players@.len(),
            players@ == old(players)@,
            snap@ == players@.take(k as int),
        decreases n - k,
    {
        snap.push(players[k]);
        proof {
            assert(snap@ =~= players@.take(k as int + 1));
        }
        k = k + 1;
    }
    proof {
        assert(snap@ =~= old(players)@);
    }
    let mut j: usize = 0;
    while j < n
        invariant
            j <= n,
            n == players@.len(),
            n == old(players)@.len(),
            snap@ == old(players)@,
            forall|i: int| 0 <= i < n ==> crate::types::wf_player(#[trigger] old(players)@[i].1),
            forall|jj: int|
                0 <= jj < j ==> #[trigger] players@[jj] == (
                    old(players)@[jj].0,
                    sucked_player(old(players)@, jj, w, h, dt),
                ),
            forall|jj: int| j <= jj < n ==> #[trigger] players@[jj] == old(players)@[jj],
            forall|jj: int| 0 <= jj < j ==> crate::types::wf_player(#[trigger] players@[jj].1),
            WORLD_MIN <= w <= WORLD_MAX,
            WORLD_MIN <= h <= WORLD_MAX,
            dt <= DT_MAX,
        decreases n - j,
    {
        let found = find_sucker(&snap, j);
        match found {
            None => {
                proof {
                    assert(players@[j as int] == (
                        old(players)@[j as int].0,
                        sucked_player(old(players)@, j as int, w, h, dt),
                    ));
                }
            },
            Some(i) => {
                proof {
                    lemma_last_sucker(snap@, j as int, snap@.len());
                }
                let e = snap[i].1;
                let p = snap[j].1;
                let d2 = dist2_exec(e.pos, p.pos);
                let d = isqrt(d2 as u128);
                proof {
                    assert(d < 6_000_000_000) by (nonlinear_arith)
                        requires
                            (d as int) * (d as int) <= 32_000_000_000_000_000_000,
                            d >= 0,
                    ;
                    assert((d as int) < e.size + p.size) by (nonlinear_arith)
                        requires
                            (d as int) * (d as int) <= d2 as int,
                            d2 < ((e.size + p.size) as int) * ((e.size + p.size) as int),
                            0 <= d,
                            0 < e.size + p.size,
                    ;
                }
                let diff_size = e.size + p.size - (d as i64);
                let num = (diff_size as u128) * (NANO as u128);
                proof {
                    lemma_div_is_ordered_by_denominator(num as int, 2, (2 * p.size) as int);
                    lemma_div_is_ordered(num as int, 2_000_000_000_000_000_000, 2);
                }
                let amount = (num / ((2 * p.size) as u128)) as u64;
                let dx = pull_delta_exec(e.pos.0 - p.pos.0, dt, amount);
                let dy = pull_delta_exec(e.pos.1 - p.pos.1, dt, amount);
                let nx = clamp_exec(p.pos.0 as i128 + dx, p.show_size, w);
                let ny = clamp_exec(p.pos.1 as i128 + dy, p.show_size, h);
                let np = Player { pos: (nx, ny), ..p };
                let entry = players[j];
                players.set(j, (entry.0, np));
                proof {
                    assert(np == sucked_player(old(players)@, j as int, w, h, dt));
                }
            },
        }
        j = j + 1;
    }
    proof {
        assert(players@ =~= phase_suction(old(players)@, w, h, dt));
    }
}

/// A found winner meets the absorption condition; in particular it is
/// strictly larger than its prey.
pub(crate) proof fn lemma_winner_from(s: Seq<(usize, Player)>, j: int, i: nat)
    ensures
        winner_from(s, j, i) >= 0 ==> {
            let r = winner_from(s, j, i);
            &&& i <= r < s.len()
            &&& r != j
            &&& eat_cond(s[r].1, s[j].1)
        },
        winner_from(s, j, i) >= -1,
    decreases s.len() - i,
{
    if i < s.len() && !(i != j && eat_cond(s[i as int].1, s[j].1)) {
        lemma_winner_from(s, j, i + 1);
    }
}

/// How many players are strictly larger than `x` among the first `k`.
spec fn count_bigger(s: Seq<(usize, Player)>, x: int, k: nat) -> int
    decreases k,
{
    if k == 0 {
        0
    } else {
        count_bigger(s, x, (k - 1) as nat) + if s[k - 1].1.size > x {
            1int
        } else {
            0int
        }
    }
}

proof fn lemma_count_bigger_range(s: Seq<(usize, Player)>, x: int, k: nat)
    ensures
        0 <= count_bigger(s, x, k) <= k,
    decreases k,
{
    if k > 0 {
        lemma_count_bigger_range(s, x, (k - 1) as nat);
    }
}

/// Moving up to a strictly larger player strictly shrinks the set of players
/// larger than the current one.
proof fn lemma_count_bigger_step(s: Seq<(usize, Player)>, xj: int, i: int, k: nat)
    requires
        0 <= i < s.len(),
        s[i].1.size > xj,
    ensures
        count_bigger(s, s[i].1.size as int, k) + (if i < k {
            1int
        } else {
            0int
        }) <= count_bigger(s, xj, k),
    decreases k,
{
    if k > 0 {
        lemma_count_bigger_step(s, xj, i, (k - 1) as nat);
    }
}

/// With fuel at least the number of strictly larger players, following
/// winners ends at a live player.
proof fn lemma_resolve_live(s: Seq<(usize, Player)>, j: int, fuel: nat)
    requires
        0 <= j < s.len(),
        count_bigger(s, s[j].1.size as int, s.len()) <= fuel,
    ensures
        0 <= resolve_winner(s, j, fuel) < s.len(),
        winner_of(s, resolve_winner(s, j, fuel)) < 0,
    decreases fuel,
{
    let i = winner_of(s, j);
    lemma_winner_from(s, j, 0);
    if i >= 0 {
        lemma_count_bigger_step(s, s[j].1.size as int, i, s.len());
        lemma_count_bigger_range(s, s[i].1.size as int, s.len());
        lemma_resolve_live(s, i, (fuel - 1) as nat);
    }
}

/// Following winners with fuel for the whole player list ends at a live
/// player: each hop strictly grows the size, so no chain is longer.
pub proof fn lemma_resolve_live_full(s: Seq<(usize, Player)>, j: int)
    requires
        0 <= j < s.len(),
    ensures
        0 <= resolve_winner(s, j, s.len()) < s.len(),
        winner_of(s, resolve_winner(s, j, s.len())) < 0,
{
    lemma_count_bigger_range(s, s[j].1.size as int, s.len());
    lemma_resolve_live(s, j, s.len());
}

/// The absorption condition, decided exactly.
fn eat_cond_exec(e: &Player, p: &Player) -> (r: bool)
    requires
        crate::types::wf_player(*e),
        crate::types::wf_player(*p),
    ensures
        r == eat_cond(*e, *p),
{
    if p.size * EAT_RATIO_NUM < e.size * EAT_RATIO_DEN && e.size > p.size {
        let d2 = dist2_exec(e.pos, p.pos);
        proof {
            lemma_mul_upper_bound(
                (e.size - p.size) as int,
                1_000_000_000,
                (e.size - p.size) as int,
                1_000_000_000,
            );
            vstd::arithmetic::mul::lemma_mul_nonnegative(
                (e.size - p.size) as int,
                (e.size - p.size) as int,
            );
        }
        let lim = ((e.size - p.size) as i128) * ((e.size - p.size) as i128);
        d2 < lim
    } else {
        false
    }
}

/// The winner that absorbs prey `j` this tick, if any.
fn find_winner(snap: &Vec<(usize, Player)>, j: usize) -> (r: Option<usize>)
    requires
        j < snap@.len(),
        forall|i: int| 0 <= i < snap@.len() ==> crate::types::wf_player(#[trigger] snap@[i].1),
    ensures
        match r {
            Some(i) => i < snap@.len() && i as int == winner_of(snap@, j as int),
            None => winner_of(snap@, j as int) < 0,
        },
{
    let n = snap.len();
    let mut i: usize = 0;
    while i < n
        invariant
            i <= n,
            n == snap@.len(),
            j < n,
            forall|m: int| 0 <= m < snap@.len() ==> crate::types::wf_player(#[trigger] snap@[m].1),
            winner_of(snap@, j as int) == winner_from(snap@, j as int, i as nat),
        decreases n - i,
    {
        if i != j && eat_cond_exec(&snap[i].1, &snap[j].1) {
            return Some(i);
        }
        i = i + 1;
    }
    None
}

/// Follows the cached winners from `start` until a live player is reached.
fn resolve_exec(snap: &Vec<(usize, Player)>, winners: &Vec<Option<usize>>, start: usize) -> (r:
    usize)
    requires
        winners@.len() == snap@.len(),
        start < snap@.len(),
        forall|jj: int|
            0 <= jj < winners@.len() ==> match #[trigger] winners@[jj] {
                Some(i) => i < snap@.len() && i as int == winner_of(snap@, jj),
                None => winner_of(snap@, jj) < 0,
            },
    ensures
        r as int == resolve_winner(snap@, start as int, snap@.len() as nat),
        r < snap@.len(),
{
    let n = snap.len();
    let mut cur = start;
    let mut fuel = n;
    let mut done = false;
    while !done && fuel > 0
        invariant
            cur < n,
            n == snap@.len(),
            winners@.len() == n,
            fuel <= n,
            forall|jj: int|
                0 <= jj < winners@.len() ==> match #[trigger] winners@[jj] {
                    Some(i) => i < snap@.len() && i as int == winner_of(snap@, jj),
                    None => winner_of(snap@, jj) < 0,
                },
            resolve_winner(snap@, start as int, n as nat) == if done {
                cur as int
            } else {
                resolve_winner(snap@, cur as int, fuel as nat)
            },
        decreases 2 * fuel + (if done {
            0int
        } else {
            1int
        }),
    {
        match winners[cur] {
            None => {
                done = true;
            },
            Some(w2) => {
                cur = w2;
                fuel = fuel - 1;
            },
        }
    }
    cur
}

/// The absorbed squared radii stay non-negative and bounded.
pub(crate) proof fn lemma_adds_bounds(s: Seq<(usize, Player)>, i: int, k: nat)
    requires
        k <= s.len(),
        forall|m: int| 0 <= m < s.len() ==> crate::types::wf_player(#[trigger] s[m].1),
    ensures
        0 <= adds_upto(s, i, k) <= k * 1_000_000_000_000_000_000,
    decreases k,
{
    if k > 0 {
        lemma_adds_bounds(s, i, (k - 1) as nat);
        if winner_of(s, k - 1) == i {
            lemma_mul_upper_bound(
                s[k - 1].1.size as int,
                1_000_000_000,
                s[k - 1].1.size as int,
                1_000_000_000,
            );
            vstd::arithmetic::mul::lemma_mul_nonnegative(
                s[k - 1].1.size as int,
                s[k - 1].1.size as int,
            );
        }
    }
}

/// A survivor's fed size is a valid radius.
pub(crate) proof fn lemma_fed_wf(s: Seq<(usize, Player)>, i: int)
    requires
        0 <= i < s.len(),
        forall|m: int| 0 <= m < s.len() ==> crate::types::wf_player(#[trigger] s[m].1),
    ensures
        0 < fed_size(s, i) <= SIZE_MAX,
{
    let sz = s[i].1.size as int;
    lemma_adds_bounds(s, i, s.len());
    vstd::arithmetic::mul::lemma_mul_inequality(1, sz, sz);
    let m = sz * sz + adds_upto(s, i, s.len());
    crate::num::lemma_sqrt_floor_bounds(m);
    if sqrt_floor(m) == 0 {
        assert((0int + 1) * (0int + 1) == 1);
    }
}

/// What the absorption phase's survivor list holds: players drawn in order
/// from the live indices, each fed and well-formed, under distinct ids.
pub(crate) proof fn lemma_survivors(s: Seq<(usize, Player)>, k: nat)
    requires
        k <= s.len(),
        forall|i: int, j: int| 0 <= i < j < s.len() ==> s[i].0 != s[j].0,
        forall|i: int| 0 <= i < s.len() ==> crate::types::wf_player(#[trigger] s[i].1),
    ensures
        survivors_upto(s, k).len() <= k,
        forall|m: int|
            #![trigger survivors_upto(s, k)[m]]
            0 <= m < survivors_upto(s, k).len() ==> exists|i: int|
                #![trigger winner_of(s, i)]
                0 <= i < k && winner_of(s, i) < 0 && survivors_upto(s, k)[m] == (
                    s[i].0,
                    Player { size: fed_size(s, i) as i64, ..s[i].1 },
                ),
        forall|m1: int, m2: int|
            0 <= m1 < m2 < survivors_upto(s, k).len() ==> survivors_upto(s, k)[m1].0
                != survivors_upto(s, k)[m2].0,
        forall|m: int|
            0 <= m < survivors_upto(s, k).len() ==> crate::types::wf_player(
                #[trigger] survivors_upto(s, k)[m].1,
            ),
        forall|i: int|
            0 <= i < k && winner_of(s, i) < 0 ==> contains_id(survivors_upto(s, k), s[i].0),
    decreases k,
{
    if k > 0 {
        lemma_survivors(s, (k - 1) as nat);
        let prev = survivors_upto(s, (k - 1) as nat);
        let curr = survivors_upto(s, k);
        let live = winner_of(s, k - 1) < 0;
        if live {
            lemma_fed_wf(s, k - 1);
            assert(curr == prev.push((
                s[k - 1].0,
                Player { size: fed_size(s, k - 1) as i64, ..s[k - 1].1 },
            )));
        } else {
            assert(curr == prev);
        }
        assert forall|m: int| #![trigger curr[m]] 0 <= m < curr.len() implies exists|i: int|
            #![trigger winner_of(s, i)]
            0 <= i < k && winner_of(s, i) < 0 && curr[m] == (
                s[i].0,
                Player { size: fed_size(s, i) as i64, ..s[i].1 },
            ) by {
            if m < prev.len() {
                assert(curr[m] == prev[m]);
                let i = choose|i: int|
                    #![trigger winner_of(s, i)]
                    0 <= i < k - 1 && winner_of(s, i) < 0 && prev[m] == (
                        s[i].0,
                        Player { size: fed_size(s, i) as i64, ..s[i].1 },
                    );
                assert(0 <= i < k && winner_of(s, i) < 0 && curr[m] == (
                    s[i].0,
                    Player { size: fed_size(s, i) as i64, ..s[i].1 },
                ));
            } else {
                assert(live && m == prev.len());
                assert(winner_of(s, k - 1) < 0 && curr[m] == (
                    s[k - 1].0,
                    Player { size: fed_size(s, k - 1) as i64, ..s[k - 1].1 },
                ));
            }
        }
        assert forall|m1: int, m2: int| 0 <= m1 < m2 < curr.len() implies curr[m1].0
            != curr[m2].0 by {
            if m2 < prev.len() {
                assert(curr[m1] == prev[m1] && curr[m2] == prev[m2]);
            } else {
                assert(live && m2 == prev.len());
                assert(curr[m1] == prev[m1]);
                let i = choose|i: int|
                    #![trigger winner_of(s, i)]
                    0 <= i < k - 1 && winner_of(s, i) < 0 && prev[m1] == (
                        s[i].0,
                        Player { size: fed_size(s, i) as i64, ..s[i].1 },
                    );
                assert(curr[m1].0 == s[i].0);
                assert(curr[m2].0 == s[k - 1].0);
            }
        }
        assert forall|m: int| #![trigger curr[m]] 0 <= m < curr.len() implies crate::types::wf_player(
            curr[m].1,
        ) by {
            if m < prev.len() {
                assert(curr[m] == prev[m]);
            } else {
                assert(live && m == prev.len());
            }
        }
        assert forall|i: int| 0 <= i < k && winner_of(s, i) < 0 implies contains_id(
            curr,
            s[i].0,
        ) by {
            if i < k - 1 {
                let m = choose|m: int| 0 <= m < prev.len() && prev[m].0 == s[i].0;
                assert(curr[m] == prev[m]);
                assert(curr[m].0 == s[i].0);
            } else {
                assert(live);
                assert(curr[prev.len() as int].0 == s[k - 1].0);
            }
        }
    }
}

/// Every eaten-by entry this tick adds points at a live player of the
/// snapshot.
proof fn lemma_pairs_targets(s: Seq<(usize, Player)>, k: nat)
    requires
        k <= s.len(),
    ensures
        forall|m: int|
            0 <= m < eaten_pairs_upto(s, k).len() ==> exists|r: int|
                0 <= r < s.len() && winner_of(s, r) < 0 && #[trigger] eaten_pairs_upto(s, k)[m].1
                    == s[r].0,
    decreases k,
{
    if k > 0 {
        lemma_pairs_targets(s, (k - 1) as nat);
        let prev = eaten_pairs_upto(s, (k - 1) as nat);
        let curr = eaten_pairs_upto(s, k);
        if winner_of(s, k - 1) >= 0 {
            lemma_resolve_live_full(s, k - 1);
            assert forall|m: int| 0 <= m < curr.len() implies exists|r: int|
                0 <= r < s.len() && winner_of(s, r) < 0 && #[trigger] curr[m].1 == s[r].0 by {
                if m < prev.len() {
                    let r = choose|r: int|
                        0 <= r < s.len() && winner_of(s, r) < 0 && #[trigger] prev[m].1 == s[r].0;
                    assert(curr[m] == prev[m]);
                    assert(curr[m].1 == s[r].0);
                } else {
                    let r = resolve_winner(s, k - 1, s.len());
                    assert(curr[m].1 == s[r].0);
                }
            }
        }
    }
}

/// The absorption phase: determines each player's winner on the snapshot,
/// removes the absorbed players, feeds the survivors their prey's squared
/// radii, and resolves the eaten-by relation so that every entry points at a
/// live player again.
fn phase_eat_exec(players: &mut Vec<(usize, Player)>, eaten_by: &mut Vec<(usize, usize)>)
    requires
        forall|i: int|
            0 <= i < old(players)@.len() ==> crate::types::wf_player(#[trigger] old(players)@[i].1),
    ensures
        final(players)@ == survivors_upto(old(players)@, old(players)@.len()),
        final(eaten_by)@ == retarget(old(players)@, old(eaten_by)@) + eaten_pairs_upto(
            old(players)@,
            old(players)@.len(),
        ),
{
    let n = players.len();
    let ghost s = players@;
    // Cache each player's winner.
    let mut winners: Vec<Option<usize>> = Vec::new();
    let mut j: usize = 0;
    while j < n
        invariant
            j <= n,
            n == players@.len(),
            players@ == s,
            forall|i: int| 0 <= i < s.len() ==> crate::types::wf_player(#[trigger] s[i].1),
            winners@.len() == j,
            forall|jj: int|
                0 <= jj < j ==> match #[trigger] winners@[jj] {
                    Some(i) => i < s.len() && i as int == winner_of(s, jj),
                    None => winner_of(s, jj) < 0,
                },
        decreases n - j,
    {
        let wn = find_winner(players, j);
        winners.push(wn);
        j = j + 1;
    }
    // Survivors with their fed sizes, and the new eaten-by pairs.
    let mut out: Vec<(usize, Player)> = Vec::new();
    let mut pairs: Vec<(usize, usize)> = Vec::new();
    let mut k: usize = 0;
    while k < n
        invariant
            k <= n,
            n == players@.len(),
            players@ == s,
            forall|i: int| 0 <= i < s.len() ==> crate::types::wf_player(#[trigger] s[i].1),
            winners@.len() == n,
            forall|jj: int|
                0 <= jj < n ==> match #[trigger] winners@[jj] {
                    Some(i) => i < s.len() && i as int == winner_of(s, jj),
                    None => winner_of(s, jj) < 0,
                },
            out@ == survivors_upto(s, k as nat),
            pairs@ == eaten_pairs_upto(s, k as nat),
        decreases n - k,
    {
        let entry = players[k];
        match winners[k] {
            None => {
                // Survivor: gather the squared radii of everything it ate.
                let mut add: u128 = 0;
                let mut j2: usize = 0;
                while j2 < n
                    invariant
                        j2 <= n,
                        n == players@.len(),
                        players@ == s,
                        forall|i: int| 0 <= i < s.len() ==> crate::types::wf_player(
                            #[trigger] s[i].1,
                        ),
                        winners@.len() == n,
                        forall|jj: int|
                            0 <= jj < n ==> match #[trigger] winners@[jj] {
                                Some(i) => i < s.len() && i as int == winner_of(s, jj),
                                None => winner_of(s, jj) < 0,
                            },
                        k < n,
                        add == adds_upto(s, k as int, j2 as nat),
                        add <= j2 * 1_000_000_000_000_000_000,
                    decreases n - j2,
                {
                    let is_mine = match winners[j2] {
                        Some(wi) => wi == k,
                        None => false,
                    };
                    if is_mine {
                        let sz = players[j2].1.size;
                        proof {
                            lemma_mul_upper_bound(sz as int, 1_000_000_000, sz as int, 1_000_000_000);
                            vstd::arithmetic::mul::lemma_mul_nonnegative(sz as int, sz as int);
                        }
                        add = add + (sz as u128) * (sz as u128);
                    }
                    j2 = j2 + 1;
                }
                let sz = entry.1.size;
                proof {
                    lemma_mul_upper_bound(sz as int, 1_000_000_000, sz as int, 1_000_000_000);
                    vstd::arithmetic::mul::lemma_mul_inequality(1, sz as int, sz as int);
                }
                let m = (sz as u128) * (sz as u128) + add;
                let sq = isqrt(m);
                proof {
                    if sq == 0 {
                        assert((0int + 1) * (0int + 1) == 1);
                    }
                }
                let ns = if sq > SIZE_MAX as u64 {
                    SIZE_MAX
                } else {
                    sq as i64
                };
                assert(ns as int == fed_size(s, k as int));
                out.push((entry.0, Player { size: ns, ..entry.1 }));
            },
            Some(_) => {
                let resolved = resolve_exec(players, &winners, k);
                let target = players[resolved];
                pairs.push((entry.0, target.0));
            },
        }
        k = k + 1;
    }
    // Retarget the old eaten-by entries whose target was absorbed this tick.
    let mut t: usize = 0;
    let en = eaten_by.len();
    while t < en
        invariant
            t <= en,
            en == eaten_by@.len(),
            n == players@.len(),
            players@ == s,
            winners@.len() == n,
            forall|jj: int|
                0 <= jj < n ==> match #[trigger] winners@[jj] {
                    Some(i) => i < s.len() && i as int == winner_of(s, jj),
                    None => winner_of(s, jj) < 0,
                },
            forall|m: int|
                0 <= m < t ==> #[trigger] eaten_by@[m] == retarget_entry(s, old(eaten_by)@[m]),
            forall|m: int| t <= m < en ==> #[trigger] eaten_by@[m] == old(eaten_by)@[m],
        decreases en - t,
    {
        let e = eaten_by[t];
        proof {
            crate::types::lemma_idx_of(s, e.1);
        }
        let ghost gi = idx_of(s, e.1);
        let mut f: usize = 0;
        let mut found: Option<usize> = None;
        while f < n
            invariant
                f <= n,
                n == players@.len(),
                players@ == s,
                gi == idx_of(s, e.1),
                -1 <= gi < n,
                0 <= gi ==> s[gi].0 == e.1,
                forall|x: int| 0 <= x < gi ==> s[x].0 != e.1,
                contains_id(s, e.1) ==> 0 <= gi,
                match found {
                    Some(i) => i as int == gi,
                    None => gi < 0 || gi >= f,
                },
            decreases n - f,
        {
            match found {
                Some(_) => {},
                None => {
                    if players[f].0 == e.1 {
                        proof {
                            assert(s[f as int].0 == e.1);
                            assert(contains_id(s, e.1));
                            assert(0 <= gi);
                            if (f as int) < gi {
                                assert(s[f as int].0 != e.1);
                            }
                            assert(f as int == gi);
                        }
                        found = Some(f);
                    }
                },
            }
            f = f + 1;
        }
        match found {
            None => {},
            Some(fi) => {
                let needs = match winners[fi] {
                    Some(_) => true,
                    None => false,
                };
                if needs {
                    let resolved = resolve_exec(players, &winners, fi);
                    let nid = players[resolved].0;
                    eaten_by.set(t, (e.0, nid));
                }
            },
        }
        proof {
            assert(eaten_by@[t as int] == retarget_entry(s, old(eaten_by)@[t as int]));
        }
        t = t + 1;
    }
    // Append this tick's new entries.
    proof {
        assert(eaten_by@ =~= retarget(s, old(eaten_by)@));
        assert(retarget(s, old(eaten_by)@) + pairs@.take(0) =~= eaten_by@);
    }
    let pn = pairs.len();
    let mut q: usize = 0;
    while q < pn
        invariant
            q <= pn,
            pn == pairs@.len(),
            pairs@ == eaten_pairs_upto(s, n as nat),
            n == players@.len(),
            players@ == s,
            eaten_by@ == retarget(s, old(eaten_by)@) + pairs@.take(q as int),
        decreases pn - q,
    {
        let pr = pairs[q];
        eaten_by.push(pr);
        proof {
            assert(eaten_by@ =~= retarget(s, old(eaten_by)@) + pairs@.take(q as int + 1));
        }
        q = q + 1;
    }
    proof {
        assert(pairs@.take(pn as int) =~= pairs@);
        assert(out@ == survivors_upto(s, n as nat));
    }
    *players = out;
}

/// The deterministic part of one tick: movement and easing, pickup
/// consumption, suction, absorption, and the resolved eaten-by relation.
pub open spec fn advance_spec(m: StateModel, dt: u64) -> StateModel {
    let pm = phase_move(m.players, m.balls, m.size.0, m.size.1, dt, m.players.len());
    let s2 = phase_suction(pm.0, m.size.0, m.size.1, dt);
    StateModel {
        players: survivors_upto(s2, s2.len()),
        balls: pm.1,
        eaten_by: retarget(s2, m.eaten_by) + eaten_pairs_upto(s2, s2.len()),
        size: m.size,
    }
}

/// The fields a freshly spawned player has: a start-sized, motionless avatar
/// somewhere inside the world rectangle.
pub open spec fn spawned_ok(p: Player, size: (i64, i64)) -> bool {
    &&& p.direction == 0
    &&& p.speed == 0
    &&& p.size == crate::types::START_SIZE
    &&& p.show_size == 0
    &&& 0 <= p.pos.0 < size.0
    &&& 0 <= p.pos.1 < size.1
}

impl crate::types::State {
    /// One simulation tick of `dt` milliseconds: the world becomes exactly
    /// the deterministic advance of its model, and stays well-formed. The
    /// stochastic pickup spawn is not part of the tick; the authoritative
    /// server calls `do_server_side_stuff` after it.
    pub fn tick(&mut self, dt: u64)
        requires
            old(self).wf(),
            dt <= DT_MAX,
        ensures
            final(self)@ == advance_spec(old(self)@, dt),
            final(self).wf(),
    {
        let w = self.size.0;
        let h = self.size.1;
        let ghost s0 = self.players@;
        proof {
            assert forall|i: int| 0 <= i < self.players@.len() implies crate::types::wf_player(
                #[trigger] self.players@[i].1,
            ) by {
                assert(self@.players[i].1 == self.players@[i].1);
            }
            assert forall|i: int| 0 <= i < self.balls@.len() implies crate::types::wf_ball(
                #[trigger] self.balls@[i],
            ) by {
                assert(self@.balls[i] == self.balls@[i]);
            }
        }
        phase_move_exec(&mut self.players, &mut self.balls, w, h, dt);
        let ghost s1 = self.players@;
        phase_suction_exec(&mut self.players, w, h, dt);
        let ghost s2 = self.players@;
        proof {
            assert forall|i: int, j: int| 0 <= i < j < s2.len() implies s2[i].0 != s2[j].0 by {
                assert(s2[i].0 == s1[i].0 && s2[j].0 == s1[j].0);
                assert(s1[i].0 == s0[i].0 && s1[j].0 == s0[j].0);
                assert(old(self)@.players[i].0 != old(self)@.players[j].0);
            }
        }
        phase_eat_exec(&mut self.players, &mut self.eaten_by);
        proof {
            lemma_survivors(s2, s2.len());
            lemma_pairs_targets(s2, s2.len());
            let fin = self@;
            let eb_old = old(self)@.eaten_by;
            let rt = retarget(s2, eb_old);
            let pairs = eaten_pairs_upto(s2, s2.len());
            assert forall|k: int| 0 <= k < fin.eaten_by.len() implies contains_id(
                fin.players,
                #[trigger] fin.eaten_by[k].1,
            ) by {
                if k < rt.len() {
                    assert(fin.eaten_by[k] == retarget_entry(s2, eb_old[k]));
                    let t = eb_old[k].1;
                    let jt = choose|j: int| 0 <= j < s0.len() && s0[j].0 == t;
                    assert(s2[jt].0 == t);
                    assert(contains_id(s2, t));
                    crate::types::lemma_idx_of(s2, t);
                    let j = idx_of(s2, t);
                    assert(s2[j].0 == t);
                    if winner_of(s2, j) >= 0 {
                        lemma_resolve_live_full(s2, j);
                        let r = resolve_winner(s2, j, s2.len());
                        assert(fin.eaten_by[k].1 == s2[r].0);
                    } else {
                        assert(fin.eaten_by[k].1 == t);
                    }
                } else {
                    assert(fin.eaten_by[k] == pairs[k - rt.len()]);
                    let r = choose|r: int|
                        0 <= r < s2.len() && winner_of(s2, r) < 0 && #[trigger] pairs[k
                            - rt.len()].1 == s2[r].0;
                    assert(contains_id(fin.players, s2[r].0));
                }
            }
            assert(self@ == advance_spec(old(self)@, dt));
        }
    }

    /// One spawn decision on given draws: a pickup is created exactly when
    /// `draw` (a uniform draw from `[0, NANO)`) falls below the per-tick
    /// spawn probability `spawn_threshold(dt)`; `x` and `y` place it within
    /// the world rectangle inset by one unit, and `color` colors it.
    pub fn spawn_step(&mut self, draw: u64, x: u64, y: u64, color: (u8, u8, u8), dt: u64)
        requires
            old(self).wf(),
            x < (old(self)@.size.0 - 2000) as u64,
            y < (old(self)@.size.1 - 2000) as u64,
        ensures
            final(self)@.players == old(self)@.players,
            final(self)@.eaten_by == old(self)@.eaten_by,
            final(self)@.size == old(self)@.size,
            final(self).wf(),
            final(self)@.balls == if (draw as int) < spawn_threshold(dt) {
                old(self)@.balls.push(
                    Ball { pos: ((1000 + x) as i64, (1000 + y) as i64), color },
                )
            } else {
                old(self)@.balls
            },
    {
        let decay = pow_nano(SPAWN_DECAY_NANO, dt);
        let th = NANO - decay;
        if draw < th {
            let b = Ball { pos: (1000 + (x as i64), 1000 + (y as i64)), color };
            let ghost balls0 = self.balls@;
            self.balls.push(b);
            proof {
                assert(crate::types::wf_ball(b));
                assert(balls0 == old(self)@.balls);
                assert(self@.balls == balls0.push(b));
                assert forall|i: int| 0 <= i < self@.balls.len() implies crate::types::wf_ball(
                    #[trigger] self@.balls[i],
                ) by {
                    if i < balls0.len() {
                        assert(crate::types::wf_ball(old(self)@.balls[i]));
                        assert(self@.balls[i] == balls0[i]);
                    } else {
                        assert(self@.balls[i] == b);
                    }
                }
            }
        }
        proof {
            let fin = self@;
            let pre = old(self)@;
            assert(fin.players == pre.players);
            assert(fin.eaten_by == pre.eaten_by);
            assert(fin.size == pre.size);
            assert forall|i: int, j: int| 0 <= i < j < fin.players.len() implies fin.players[i].0
                != fin.players[j].0 by {
                assert(pre.players[i].0 != pre.players[j].0);
            }
            assert forall|i: int| 0 <= i < fin.players.len() implies crate::types::wf_player(
                #[trigger] fin.players[i].1,
            ) by {
                assert(pre.players[i].1 == fin.players[i].1);
            }
            assert forall|k: int| 0 <= k < fin.eaten_by.len() implies contains_id(
                fin.players,
                #[trigger] fin.eaten_by[k].1,
            ) by {
                assert(contains_id(pre.players, pre.eaten_by[k].1));
            }
            assert forall|i: int| 0 <= i < fin.balls.len() implies crate::types::wf_ball(
                #[trigger] fin.balls[i],
            ) by {
                if i < pre.balls.len() {
                    assert(fin.balls[i] == pre.balls[i]);
                }
            }
        }
    }

    /// The authoritative server's spawn phase: draws one value of `[0, NANO)`
    /// and spawns through `spawn_step` exactly when it falls below the
    /// per-tick probability `spawn_threshold(dt)`, at a uniformly random
    /// position inside the world rectangle inset by one unit, with a random
    /// color. Players, the eaten-by relation and the extents are untouched,
    /// and a zero threshold (in particular a zero `dt`) never spawns.
    pub fn do_server_side_stuff(&mut self, dt: u64)
        requires
            old(self).wf(),
        ensures
            final(self)@.players == old(self)@.players,
            final(self)@.eaten_by == old(self)@.eaten_by,
            final(self)@.size == old(self)@.size,
            final(self).wf(),
            spawn_threshold(dt) <= 0 ==> final(self)@.balls == old(self)@.balls,
            final(self)@.balls == old(self)@.balls || (spawn_threshold(dt) > 0 && exists|b: Ball|
                final(self)@.balls == old(self)@.balls.push(b) && 1000 <= b.pos.0 < old(
                    self,
                )@.size.0 - 1000 && 1000 <= b.pos.1 < old(self)@.size.1 - 1000),
    {
        let draw = crate::rng::rand_below(NANO);
        let x = crate::rng::rand_below((self.size.0 - 2000) as u64);
        let y = crate::rng::rand_below((self.size.1 - 2000) as u64);
        let color = (
            crate::rng::rand_below(256) as u8,
            crate::rng::rand_below(256) as u8,
            crate::rng::rand_below(256) as u8,
        );
        self.spawn_step(draw, x, y, color, dt);
        proof {
            if (draw as int) < spawn_threshold(dt) {
                let b = Ball { pos: ((1000 + x) as i64, (1000 + y) as i64), color };
                assert(self@.balls == old(self)@.balls.push(b) && 1000 <= b.pos.0 < old(
                    self,
                )@.size.0 - 1000 && 1000 <= b.pos.1 < old(self)@.size.1 - 1000);
            }
        }
    }

    /// Registers a player under `id`: a start-sized, motionless avatar at a
    /// uniformly random position, overwriting any previous entry for `id`.
    pub fn add_player(&mut self, id: usize)
        requires
            old(self).wf(),
        ensures
            final(self).wf(),
            final(self)@.size == old(self)@.size,
            final(self)@.balls == old(self)@.balls,
            final(self)@.eaten_by == old(self)@.eaten_by,
            contains_id(old(self)@.players, id) ==> {
                let i = idx_of(old(self)@.players, id);
                final(self)@.players == old(self)@.players.update(
                    i,
                    (id, final(self)@.players[i].1),
                ) && spawned_ok(final(self)@.players[i].1, old(self)@.size)
            },
            !contains_id(old(self)@.players, id) ==> final(self)@.players == old(
                self,
            )@.players.push((id, final(self)@.players[old(self)@.players.len() as int].1))
                && spawned_ok(
                final(self)@.players[old(self)@.players.len() as int].1,
                old(self)@.size,
            ),
    {
        let w = self.size.0;
        let h = self.size.1;
        let px = crate::rng::rand_below(w as u64) as i64;
        let py = crate::rng::rand_below(h as u64) as i64;
        let color = (
            crate::rng::rand_below(256) as u8,
            crate::rng::rand_below(256) as u8,
            crate::rng::rand_below(256) as u8,
        );
        let p = Player {
            pos: (px, py),
            direction: 0,
            speed: 0,
            size: crate::types::START_SIZE,
            show_size: 0,
            color,
        };
        assert(crate::types::wf_player(p) && spawned_ok(p, old(self)@.size));
        proof {
            crate::types::lemma_idx_of(old(self)@.players, id);
        }
        let ghost gi = idx_of(old(self)@.players, id);
        let n = self.players.len();
        let mut i: usize = 0;
        while i < n
            invariant
                self@ == old(self)@,
                n == self.players@.len(),
                i <= n,
                forall|j: int| 0 <= j < i ==> self.players@[j].0 != id,
                gi == idx_of(old(self)@.players, id),
                contains_id(old(self)@.players, id) ==> 0 <= gi < n
                    && old(self)@.players[gi].0 == id,
                forall|j: int| 0 <= j < gi ==> old(self)@.players[j].0 != id,
                contains_id(old(self)@.players, id) <==> 0 <= gi < n,
                crate::types::wf_player(p) && spawned_ok(p, old(self)@.size),
                old(self).wf(),
            decreases n - i,
        {
            if self.players[i].0 == id {
                assert(old(self)@.players[i as int].0 == id);
                assert(contains_id(old(self)@.players, id));
                assert(i == gi);
                self.players.set(i, (id, p));
                proof {
                    assert(self@.players =~= old(self)@.players.update(gi, (id, p)));
                    crate::types::lemma_wf_after_update(old(self)@, self@, gi);
                }
                return ;
            }
            i = i + 1;
        }
        assert(!contains_id(old(self)@.players, id));
        let ghost players0 = self.players@;
        self.players.push((id, p));
        proof {
            assert(self@.players =~= old(self)@.players.push((id, p)));
            let post = self@;
            let pre = old(self)@;
            assert forall|a: int, bq: int| 0 <= a < bq < post.players.len() implies post.players[a].0
                != post.players[bq].0 by {
                if bq < pre.players.len() {
                    assert(post.players[a] == pre.players[a] && post.players[bq]
                        == pre.players[bq]);
                } else {
                    assert(post.players[a] == pre.players[a]);
                    assert(post.players[bq].0 == id);
                }
            }
            assert forall|k: int| 0 <= k < post.eaten_by.len() implies contains_id(
                post.players,
                #[trigger] post.eaten_by[k].1,
            ) by {
                let j = choose|j: int|
                    0 <= j < pre.players.len() && pre.players[j].0 == pre.eaten_by[k].1;
                assert(post.players[j].0 == pre.eaten_by[k].1);
            }
            assert forall|k: int| 0 <= k < post.players.len() implies crate::types::wf_player(
                #[trigger] post.players[k].1,
            ) by {
                if k < pre.players.len() {
                    assert(post.players[k] == pre.players[k]);
                }
            }
            assert forall|i: int| 0 <= i < post.balls.len() implies crate::types::wf_ball(
                #[trigger] post.balls[i],
            ) by {
                assert(post.balls[i] == pre.balls[i]);
            }
            assert(post.size == pre.size);
        }
    }
}

} // verus!
