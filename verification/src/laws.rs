//! The laws of the simulation, proved once and for all over the engine's
//! model: conservation of squared radii, the area-conserving merge rule, the
//! boundary clamp, and the zero-time no-op.

use crate::engine::adds_upto;
use crate::engine::advance_spec;
use crate::engine::ball_hit;
use crate::engine::clamp_axis;
use crate::engine::consume_balls;
use crate::engine::eased_show;
use crate::engine::eat_cond;
use crate::engine::fed_size;
use crate::engine::grown_size;
use crate::engine::move_delta;
use crate::engine::moved_player;
use crate::engine::phase_move;
use crate::engine::phase_suction;
use crate::engine::pull_delta;
use crate::engine::spawn_threshold;
use crate::engine::step_player;
use crate::engine::sucked_player;
use crate::engine::survivors_upto;
use crate::engine::winner_from;
use crate::engine::winner_of;
use crate::engine::eaten_pairs_upto;
use crate::engine::retarget;
use crate::engine::retarget_entry;
use crate::engine::BALL_MASS_GAIN;
use crate::engine::BALL_BUMP;
use crate::engine::GROW_DECAY_NANO;
use crate::num::lemma_pow_nano_bounds;
use crate::num::lemma_sqrt_floor;
use crate::num::lemma_sqrt_floor_bounds;
use crate::num::pow_nano_spec;
use crate::num::sqrt_floor;
use crate::num::NANO;
use crate::trig::cos_spec;
use crate::trig::sin_spec;
use crate::types::contains_id;
use crate::types::wf_player;
use crate::types::Ball;
use crate::types::Player;
use crate::types::StateModel;
use crate::types::SIZE_MAX;
use crate::types::WORLD_MAX;
use crate::types::WORLD_MIN;
use vstd::arithmetic::div_mod::lemma_div_by_multiple;
use vstd::arithmetic::mul::lemma_mul_strictly_positive;
use vstd::prelude::*;

verus! {

/// The total squared radius ("mass") of a player list.
pub open spec fn sum_sq(s: Seq<(usize, Player)>) -> int
    decreases s.len(),
{
    if s.len() == 0 {
        0
    } else {
        sum_sq(s.drop_last()) + s.last().1.size * s.last().1.size
    }
}

/// The player's center lies within the world inset by its display radius
/// on the sides where the display radius fits the world at all.
pub open spec fn clamped_ok(p: Player, w: i64, h: i64) -> bool {
    &&& 2 * p.show_size <= w ==> p.show_size <= p.pos.0 <= w - p.show_size
    &&& 2 * p.show_size <= h ==> p.show_size <= p.pos.1 <= h - p.show_size
}

/// The player's center lies strictly within the world inset by its display
/// radius.
pub open spec fn inside_world(p: Player, w: i64, h: i64) -> bool {
    &&& p.show_size <= p.pos.0 <= w - p.show_size
    &&& p.show_size <= p.pos.1 <= h - p.show_size
}

/// The players of the world after movement, consumption and suction, on
/// which absorption is decided.
pub open spec fn mid_tick_players(m: StateModel, dt: u64) -> Seq<(usize, Player)> {
    phase_suction(
        phase_move(m.players, m.balls, m.size.0, m.size.1, dt, m.players.len()).0,
        m.size.0,
        m.size.1,
        dt,
    )
}

/// The tick consumes no pickup.
pub open spec fn consumes_nothing(m: StateModel, dt: u64) -> bool {
    phase_move(m.players, m.balls, m.size.0, m.size.1, dt, m.players.len()).1 == m.balls
}

/// The tick absorbs no player.
pub open spec fn absorbs_nothing(m: StateModel, dt: u64) -> bool {
    forall|j: int|
        0 <= j < mid_tick_players(m, dt).len() ==> winner_of(mid_tick_players(m, dt), j) < 0
}

proof fn lemma_clamp_bounds(x: int, inset: int, extent: int)
    requires
        0 <= inset <= SIZE_MAX,
        WORLD_MIN <= extent <= WORLD_MAX,
    ensures
        -SIZE_MAX <= clamp_axis(x, inset, extent) <= WORLD_MAX,
        2 * inset <= extent ==> inset <= clamp_axis(x, inset, extent) <= extent - inset,
        inset <= x <= extent - inset ==> clamp_axis(x, inset, extent) == x,
{
}

/// Everything the easing, movement and clamping step promises of one player.
proof fn lemma_moved_props(p: Player, w: i64, h: i64, dt: u64)
    requires
        wf_player(p),
        WORLD_MIN <= w <= WORLD_MAX,
        WORLD_MIN <= h <= WORLD_MAX,
    ensures
        wf_player(moved_player(p, w, h, dt)),
        clamped_ok(moved_player(p, w, h, dt), w, h),
        moved_player(p, w, h, dt).size == p.size,
        moved_player(p, w, h, dt).speed == p.speed,
        moved_player(p, w, h, dt).direction == p.direction,
        moved_player(p, w, h, dt).color == p.color,
        moved_player(p, w, h, dt).show_size as int == eased_show(
            p.size as int,
            p.show_size as int,
            pow_nano_spec(GROW_DECAY_NANO as int, dt as nat),
        ),
{
    let decay = pow_nano_spec(GROW_DECAY_NANO as int, dt as nat);
    lemma_pow_nano_bounds(GROW_DECAY_NANO as int, dt as nat);
    crate::engine::lemma_eased_bounds(p.size as int, p.show_size as int, decay);
    let show = eased_show(p.size as int, p.show_size as int, decay);
    let dx = move_delta(p.speed as int, p.size as int, sin_spec(p.direction as int), dt as int);
    let dy = move_delta(p.speed as int, p.size as int, cos_spec(p.direction as int), dt as int);
    lemma_clamp_bounds(p.pos.0 + dx, show, w as int);
    lemma_clamp_bounds(p.pos.1 + dy, show, h as int);
}

/// The growth of one consumed pickup keeps the radius a valid radius.
proof fn lemma_grown_bounds(size: int)
    requires
        0 < size <= SIZE_MAX,
    ensures
        0 < grown_size(size) <= SIZE_MAX,
{
    let b = size + BALL_BUMP;
    vstd::arithmetic::mul::lemma_mul_inequality(1, b, b);
    let m = b * b + BALL_MASS_GAIN;
    lemma_sqrt_floor_bounds(m);
    if sqrt_floor(m) == 0 {
        assert((0int + 1) * (0int + 1) == 1);
    }
}

/// Pickup consumption keeps the radius valid and never adds pickups.
proof fn lemma_consume_wf(pos: (i64, i64), size: int, balls: Seq<Ball>)
    requires
        0 < size <= SIZE_MAX,
    ensures
        0 < consume_balls(pos, size, balls).0 <= SIZE_MAX,
        consume_balls(pos, size, balls).1.len() <= balls.len(),
    decreases balls.len(),
{
    if balls.len() > 0 {
        let rest = balls.subrange(1, balls.len() as int);
        if ball_hit(pos, size, balls[0]) {
            lemma_grown_bounds(size);
            lemma_consume_wf(pos, grown_size(size), rest);
        } else {
            lemma_consume_wf(pos, size, rest);
        }
    }
}

/// If consumption returns as many pickups as it was given, it consumed
/// nothing: the pickups and the radius are unchanged.
proof fn lemma_consume_eq(pos: (i64, i64), size: int, balls: Seq<Ball>)
    requires
        0 < size <= SIZE_MAX,
    ensures
        consume_balls(pos, size, balls).1.len() == balls.len() ==> consume_balls(
            pos,
            size,
            balls,
        ) == (size, balls),
    decreases balls.len(),
{
    if balls.len() > 0 {
        let rest = balls.subrange(1, balls.len() as int);
        if ball_hit(pos, size, balls[0]) {
            lemma_grown_bounds(size);
            lemma_consume_wf(pos, grown_size(size), rest);
        } else {
            lemma_consume_wf(pos, size, rest);
            lemma_consume_eq(pos, size, rest);
            let sr = consume_balls(pos, size, rest);
            if sr.1.len() + 1 == balls.len() {
                assert(sr.1 == rest && sr.0 == size);
                assert(seq![balls[0]] + rest =~= balls);
            }
        }
    }
}

/// If no pickup is within reach of the given center at the given radius,
/// consumption is the identity.
proof fn lemma_consume_nohit(pos: (i64, i64), size: int, balls: Seq<Ball>)
    requires
        forall|j: int| 0 <= j < balls.len() ==> !ball_hit(pos, size, #[trigger] balls[j]),
    ensures
        consume_balls(pos, size, balls) == (size, balls),
    decreases balls.len(),
{
    if balls.len() > 0 {
        let rest = balls.subrange(1, balls.len() as int);
        assert(!ball_hit(pos, size, balls[0]));
        assert forall|j: int| 0 <= j < rest.len() implies !ball_hit(pos, size, #[trigger] rest[j]) by {
            assert(rest[j] == balls[j + 1]);
        }
        lemma_consume_nohit(pos, size, rest);
        assert(seq![balls[0]] + rest =~= balls);
    }
}

/// The shape of the movement phase: one stepped player per input player,
/// under the same id, and a pickup list that never grows.
proof fn lemma_phase_index(
    players: Seq<(usize, Player)>,
    balls: Seq<Ball>,
    w: i64,
    h: i64,
    dt: u64,
    k: nat,
)
    requires
        k <= players.len(),
        forall|i: int| 0 <= i < players.len() ==> wf_player(#[trigger] players[i].1),
    ensures
        phase_move(players, balls, w, h, dt, k).0.len() == k,
        forall|i: int|
            0 <= i < k ==> #[trigger] phase_move(players, balls, w, h, dt, k).0[i] == (
                players[i].0,
                step_player(players[i].1, phase_move(players, balls, w, h, dt, i as nat).1, w, h, dt).0,
            ),
        phase_move(players, balls, w, h, dt, k).1.len() <= balls.len(),
    decreases k,
{
    if k > 0 {
        lemma_phase_index(players, balls, w, h, dt, (k - 1) as nat);
        let prev = phase_move(players, balls, w, h, dt, (k - 1) as nat);
        lemma_consume_wf(
            moved_player(players[k - 1].1, w, h, dt).pos,
            moved_player(players[k - 1].1, w, h, dt).size as int,
            prev.1,
        );
    }
}

/// When the movement phase returns the pickups unchanged, no player consumed
/// anything: every intermediate pickup list is the full one, and every
/// player keeps its radius.
proof fn lemma_phase_noconsume(
    players: Seq<(usize, Player)>,
    balls: Seq<Ball>,
    w: i64,
    h: i64,
    dt: u64,
    k: nat,
)
    requires
        k <= players.len(),
        forall|i: int| 0 <= i < players.len() ==> wf_player(#[trigger] players[i].1),
        phase_move(players, balls, w, h, dt, k).1 == balls,
    ensures
        forall|i: nat| i <= k ==> #[trigger] phase_move(players, balls, w, h, dt, i).1 == balls,
    decreases k,
{
    if k > 0 {
        let prev = phase_move(players, balls, w, h, dt, (k - 1) as nat);
        let mp = moved_player(players[k - 1].1, w, h, dt);
        lemma_phase_index(players, balls, w, h, dt, (k - 1) as nat);
        assert(mp.size == players[k - 1].1.size);
        lemma_consume_wf(mp.pos, mp.size as int, prev.1);
        lemma_consume_eq(mp.pos, mp.size as int, prev.1);
        assert(consume_balls(mp.pos, mp.size as int, prev.1).1 == balls);
        assert(prev.1.len() == balls.len());
        assert(prev.1 == balls);
        lemma_phase_noconsume(players, balls, w, h, dt, (k - 1) as nat);
        assert forall|i: nat| i <= k implies #[trigger] phase_move(players, balls, w, h, dt, i).1
            == balls by {
            if i < k {
                assert(phase_move(players, balls, w, h, dt, i).1 == balls);
            }
        }
    }
}

/// A player's radius is untouched by a movement phase whose every
/// intermediate pickup list is the full one.
proof fn lemma_phase_sizes_upto(
    players: Seq<(usize, Player)>,
    balls: Seq<Ball>,
    w: i64,
    h: i64,
    dt: u64,
    k: nat,
)
    requires
        k <= players.len(),
        forall|i: int| 0 <= i < players.len() ==> wf_player(#[trigger] players[i].1),
        forall|i: nat| i <= k ==> #[trigger] phase_move(players, balls, w, h, dt, i).1 == balls,
    ensures
        phase_move(players, balls, w, h, dt, k).0.len() == k,
        forall|i: int|
            0 <= i < k ==> #[trigger] phase_move(players, balls, w, h, dt, k).0[i].1.size
                == players[i].1.size,
    decreases k,
{
    if k > 0 {
        lemma_phase_sizes_upto(players, balls, w, h, dt, (k - 1) as nat);
        let prev = phase_move(players, balls, w, h, dt, (k - 1) as nat);
        let curr = phase_move(players, balls, w, h, dt, k);
        let mp = moved_player(players[k - 1].1, w, h, dt);
        assert(prev.1 == balls);
        assert(curr.1 == balls);
        assert(mp.size == players[k - 1].1.size);
        lemma_consume_wf(mp.pos, mp.size as int, balls);
        lemma_consume_eq(mp.pos, mp.size as int, balls);
        assert(consume_balls(mp.pos, mp.size as int, balls) == (mp.size as int, balls));
        assert forall|i: int| 0 <= i < k implies #[trigger] curr.0[i].1.size
            == players[i].1.size by {
            if i < k - 1 {
                assert(curr.0[i] == prev.0[i]);
            } else {
                assert(curr.0[i].1.size == players[k - 1].1.size);
            }
        }
    }
}

/// A player's radius is untouched by the movement phase of a tick that
/// consumes nothing.
proof fn lemma_phase_sizes(
    players: Seq<(usize, Player)>,
    balls: Seq<Ball>,
    w: i64,
    h: i64,
    dt: u64,
)
    requires
        forall|i: int| 0 <= i < players.len() ==> wf_player(#[trigger] players[i].1),
        phase_move(players, balls, w, h, dt, players.len()).1 == balls,
    ensures
        phase_move(players, balls, w, h, dt, players.len()).0.len() == players.len(),
        forall|i: int|
            0 <= i < players.len() ==> #[trigger] phase_move(
                players,
                balls,
                w,
                h,
                dt,
                players.len(),
            ).0[i].1.size == players[i].1.size,
{
    lemma_phase_noconsume(players, balls, w, h, dt, players.len());
    lemma_phase_sizes_upto(players, balls, w, h, dt, players.len());
}

/// No index wins against anyone when the absorption phase absorbs nothing,
/// so nobody's radius is fed.
proof fn lemma_adds_zero(s: Seq<(usize, Player)>, i: int, k: nat)
    requires
        0 <= i,
        forall|j: int| 0 <= j < s.len() ==> winner_of(s, j) < 0,
        k <= s.len(),
    ensures
        adds_upto(s, i, k) == 0,
    decreases k,
{
    if k > 0 {
        lemma_adds_zero(s, i, (k - 1) as nat);
    }
}

/// With nothing absorbed, the fed size of every player is its own size.
proof fn lemma_fed_identity(s: Seq<(usize, Player)>, i: int)
    requires
        0 <= i < s.len(),
        0 < s[i].1.size <= SIZE_MAX,
        forall|j: int| 0 <= j < s.len() ==> winner_of(s, j) < 0,
    ensures
        fed_size(s, i) == s[i].1.size,
{
    lemma_adds_zero(s, i, s.len());
    let sz = s[i].1.size as int;
    assert(sz * sz < (sz + 1) * (sz + 1)) by (nonlinear_arith)
        requires
            0 < sz,
    ;
    vstd::arithmetic::mul::lemma_mul_nonnegative(sz, sz);
    lemma_sqrt_floor(sz * sz, sz);
}

/// With nothing absorbed, the absorption phase keeps every player, fed with
/// its own size.
proof fn lemma_survivors_all_live(s: Seq<(usize, Player)>, k: nat)
    requires
        k <= s.len(),
        forall|j: int| 0 <= j < s.len() ==> winner_of(s, j) < 0,
    ensures
        survivors_upto(s, k).len() == k,
        forall|i: int|
            0 <= i < k ==> #[trigger] survivors_upto(s, k)[i] == (
                s[i].0,
                Player { size: fed_size(s, i) as i64, ..s[i].1 },
            ),
    decreases k,
{
    if k > 0 {
        lemma_survivors_all_live(s, (k - 1) as nat);
    }
}

/// Two player lists with pointwise equal radii have the same total squared
/// radius.
proof fn lemma_sum_sq_pointwise(a: Seq<(usize, Player)>, b: Seq<(usize, Player)>)
    requires
        a.len() == b.len(),
        forall|i: int| 0 <= i < a.len() ==> #[trigger] a[i].1.size == b[i].1.size,
    ensures
        sum_sq(a) == sum_sq(b),
    decreases a.len(),
{
    if a.len() > 0 {
        assert forall|i: int| 0 <= i < a.drop_last().len() implies #[trigger] a.drop_last()[i].1.size
            == b.drop_last()[i].1.size by {
            assert(a.drop_last()[i] == a[i] && b.drop_last()[i] == b[i]);
        }
        lemma_sum_sq_pointwise(a.drop_last(), b.drop_last());
        assert(a.last().1.size == b.last().1.size);
    }
}

/// Conservation: a tick that consumes no pickup and absorbs no player leaves
/// the total squared radius of the world unchanged, and the pickups as they
/// were.
pub proof fn lemma_conservation(m: StateModel, dt: u64)
    requires
        m.wf(),
        consumes_nothing(m, dt),
        absorbs_nothing(m, dt),
    ensures
        sum_sq(advance_spec(m, dt).players) == sum_sq(m.players),
        advance_spec(m, dt).balls == m.balls,
{
    let w = m.size.0;
    let h = m.size.1;
    let s0 = m.players;
    let s1 = phase_move(s0, m.balls, w, h, dt, s0.len()).0;
    let s2 = mid_tick_players(m, dt);
    lemma_phase_index(s0, m.balls, w, h, dt, s0.len());
    lemma_phase_sizes(s0, m.balls, w, h, dt);
    assert(s2.len() == s1.len());
    assert forall|i: int| 0 <= i < s2.len() implies #[trigger] s2[i].1.size == s0[i].1.size by {
        assert(s2[i].1 == sucked_player(s1, i, w, h, dt));
        assert(s2[i].1.size == s1[i].1.size);
    }
    lemma_survivors_all_live(s2, s2.len());
    let out = survivors_upto(s2, s2.len());
    assert forall|i: int| 0 <= i < out.len() implies #[trigger] out[i].1.size == s2[i].1.size by {
        assert(0 < s2[i].1.size <= SIZE_MAX) by {
            assert(s2[i].1.size == s0[i].1.size);
            assert(wf_player(s0[i].1));
        }
        lemma_fed_identity(s2, i);
    }
    lemma_sum_sq_pointwise(out, s2);
    lemma_sum_sq_pointwise(s2, s0);
}

/// What one movement-phase output player looks like, and that it is clamped.
proof fn lemma_s1_props(m: StateModel, dt: u64, i: int)
    requires
        m.wf(),
        0 <= i < m.players.len(),
    ensures
        ({
            let s1 = phase_move(m.players, m.balls, m.size.0, m.size.1, dt, m.players.len()).0;
            &&& s1.len() == m.players.len()
            &&& wf_player(s1[i].1)
            &&& clamped_ok(s1[i].1, m.size.0, m.size.1)
            &&& s1[i].0 == m.players[i].0
        }),
{
    let w = m.size.0;
    let h = m.size.1;
    lemma_phase_index(m.players, m.balls, w, h, dt, m.players.len());
    let p = m.players[i].1;
    let mp = moved_player(p, w, h, dt);
    lemma_moved_props(p, w, h, dt);
    lemma_consume_wf(mp.pos, mp.size as int, phase_move(m.players, m.balls, w, h, dt, i as nat).1);
}

/// What one suction-phase output player looks like, and that it is clamped.
proof fn lemma_s2_props(m: StateModel, dt: u64, i: int)
    requires
        m.wf(),
        0 <= i < m.players.len(),
    ensures
        ({
            let s2 = mid_tick_players(m, dt);
            &&& s2.len() == m.players.len()
            &&& wf_player(s2[i].1)
            &&& clamped_ok(s2[i].1, m.size.0, m.size.1)
            &&& s2[i].0 == m.players[i].0
        }),
{
    let w = m.size.0;
    let h = m.size.1;
    let s1 = phase_move(m.players, m.balls, w, h, dt, m.players.len()).0;
    lemma_s1_props(m, dt, i);
    let p = s1[i].1;
    let s2 = mid_tick_players(m, dt);
    assert(s2[i] == (s1[i].0, sucked_player(s1, i, w, h, dt)));
    let q = sucked_player(s1, i, w, h, dt);
    if crate::engine::last_sucker(s1, i, s1.len()) >= 0 {
        let dxp = pull_delta(
            s1[crate::engine::last_sucker(s1, i, s1.len())].1.pos.0 - p.pos.0,
            dt as int,
            (s1[crate::engine::last_sucker(s1, i, s1.len())].1.size + p.size - sqrt_floor(
                crate::engine::dist2(
                    s1[crate::engine::last_sucker(s1, i, s1.len())].1.pos,
                    p.pos,
                ),
            )) * (NANO as int) / (2 * p.size),
        );
        lemma_clamp_bounds(p.pos.0 + dxp, p.show_size as int, w as int);
        let dyp = pull_delta(
            s1[crate::engine::last_sucker(s1, i, s1.len())].1.pos.1 - p.pos.1,
            dt as int,
            (s1[crate::engine::last_sucker(s1, i, s1.len())].1.size + p.size - sqrt_floor(
                crate::engine::dist2(
                    s1[crate::engine::last_sucker(s1, i, s1.len())].1.pos,
                    p.pos,
                ),
            )) * (NANO as int) / (2 * p.size),
        );
        lemma_clamp_bounds(p.pos.1 + dyp, p.show_size as int, h as int);
    }
}

/// Boundary clamp: after every tick, every player's center lies within the
/// world rectangle inset by its display radius, on each axis where twice the
/// display radius fits the world extent.
pub proof fn lemma_boundary_clamp(m: StateModel, dt: u64)
    requires
        m.wf(),
    ensures
        forall|i: int|
            0 <= i < advance_spec(m, dt).players.len() ==> clamped_ok(
                #[trigger] advance_spec(m, dt).players[i].1,
                m.size.0,
                m.size.1,
            ),
{
    lemma_phase_index(m.players, m.balls, m.size.0, m.size.1, dt, m.players.len());
    let s2 = mid_tick_players(m, dt);
    assert(s2.len() == m.players.len());
    assert forall|i: int| 0 <= i < s2.len() implies wf_player(#[trigger] s2[i].1) && clamped_ok(
        s2[i].1,
        m.size.0,
        m.size.1,
    ) && s2[i].0 == m.players[i].0 by {
        lemma_s2_props(m, dt, i);
    }
    assert forall|i: int, j: int| 0 <= i < j < s2.len() implies s2[i].0 != s2[j].0 by {
        assert(m.players[i].0 != m.players[j].0);
    }
    crate::engine::lemma_survivors(s2, s2.len());
    let out = survivors_upto(s2, s2.len());
    assert forall|i: int| 0 <= i < out.len() implies clamped_ok(
        #[trigger] out[i].1,
        m.size.0,
        m.size.1,
    ) by {
        let j = choose|j: int|
            0 <= j < s2.len() && winner_of(s2, j) < 0 && out[i] == (
                s2[j].0,
                Player { size: fed_size(s2, j) as i64, ..s2[j].1 },
            );
        assert(out[i].1.pos == s2[j].1.pos && out[i].1.show_size == s2[j].1.show_size);
    }
}

/// With no pair in absorption range, nobody wins against anybody.
proof fn lemma_no_winner_from(s: Seq<(usize, Player)>, j: int, i: nat)
    requires
        forall|a: int, b: int|
            0 <= a < s.len() && 0 <= b < s.len() && a != b ==> !eat_cond(
                #[trigger] s[a].1,
                #[trigger] s[b].1,
            ),
        0 <= j < s.len(),
    ensures
        winner_from(s, j, i) < 0,
    decreases s.len() - i,
{
    if i < s.len() {
        lemma_no_winner_from(s, j, i + 1);
    }
}

/// With no winners at all, this tick records no eaten-by entries.
proof fn lemma_pairs_empty(s: Seq<(usize, Player)>, k: nat)
    requires
        forall|j: int| 0 <= j < s.len() ==> winner_of(s, j) < 0,
        k <= s.len(),
    ensures
        eaten_pairs_upto(s, k) =~= Seq::<(usize, usize)>::empty(),
    decreases k,
{
    if k > 0 {
        lemma_pairs_empty(s, (k - 1) as nat);
    }
}

/// At a zero time delta the easing, movement and clamping step is the
/// identity on a player that already sits inside the world.
proof fn lemma_moved_zero(p: Player, w: i64, h: i64)
    requires
        wf_player(p),
        inside_world(p, w, h),
        WORLD_MIN <= w <= WORLD_MAX,
        WORLD_MIN <= h <= WORLD_MAX,
    ensures
        moved_player(p, w, h, 0) == p,
{
    let decay = pow_nano_spec(GROW_DECAY_NANO as int, 0);
    assert(decay == NANO as int);
    if p.show_size >= p.size {
        lemma_div_by_multiple((p.show_size - p.size) as int, NANO as int);
    } else {
        lemma_div_by_multiple((p.size - p.show_size) as int, NANO as int);
    }
    assert(eased_show(p.size as int, p.show_size as int, decay) == p.show_size);
    let den = (p.size + crate::engine::SPEED_SIZE_OFFSET) * (NANO as int);
    lemma_mul_strictly_positive(p.size + crate::engine::SPEED_SIZE_OFFSET, NANO as int);
    vstd::arithmetic::div_mod::lemma_basic_div_specific_divisor(den);
    assert(move_delta(p.speed as int, p.size as int, sin_spec(p.direction as int), 0) == 0);
    assert(move_delta(p.speed as int, p.size as int, cos_spec(p.direction as int), 0) == 0);
    lemma_clamp_bounds(p.pos.0 as int, p.show_size as int, w as int);
    lemma_clamp_bounds(p.pos.1 as int, p.show_size as int, h as int);
}

/// At a zero time delta the whole movement phase is the identity on a world
/// whose players sit inside it and reach no pickup.
proof fn lemma_phase_zero(m: StateModel, k: nat)
    requires
        m.wf(),
        k <= m.players.len(),
        forall|i: int|
            0 <= i < m.players.len() ==> inside_world(
                #[trigger] m.players[i].1,
                m.size.0,
                m.size.1,
            ),
        forall|i: int, j: int|
            #![trigger m.players[i], m.balls[j]]
            0 <= i < m.players.len() && 0 <= j < m.balls.len() ==> !ball_hit(
                m.players[i].1.pos,
                m.players[i].1.size as int,
                m.balls[j],
            ),
    ensures
        phase_move(m.players, m.balls, m.size.0, m.size.1, 0, k).0 =~= m.players.take(k as int),
        phase_move(m.players, m.balls, m.size.0, m.size.1, 0, k).1 == m.balls,
    decreases k,
{
    if k > 0 {
        lemma_phase_zero(m, (k - 1) as nat);
        let p = m.players[k - 1].1;
        lemma_moved_zero(p, m.size.0, m.size.1);
        assert forall|j: int| 0 <= j < m.balls.len() implies !ball_hit(
            p.pos,
            p.size as int,
            #[trigger] m.balls[j],
        ) by {
            assert(!ball_hit(m.players[k - 1].1.pos, m.players[k - 1].1.size as int, m.balls[j]));
        }
        lemma_consume_nohit(p.pos, p.size as int, m.balls);
        assert(step_player(p, m.balls, m.size.0, m.size.1, 0).0 == p);
    }
}

/// Zero-time no-op: advancing a settled world by a zero time delta returns
/// it unchanged. "Settled" rules out the inputs on which even a zero-time
/// tick acts: a player outside the world (it is clamped back in), a pickup
/// already within a player's reach (it is consumed), and a pair already in
/// absorption range (it is merged), since none of these is scaled by time.
#[verifier::rlimit(80)]
pub proof fn lemma_zero_dt_noop(m: StateModel)
    requires
        m.wf(),
        forall|i: int|
            0 <= i < m.players.len() ==> inside_world(
                #[trigger] m.players[i].1,
                m.size.0,
                m.size.1,
            ),
        forall|i: int, j: int|
            #![trigger m.players[i], m.balls[j]]
            0 <= i < m.players.len() && 0 <= j < m.balls.len() ==> !ball_hit(
                m.players[i].1.pos,
                m.players[i].1.size as int,
                m.balls[j],
            ),
        forall|a: int, b: int|
            0 <= a < m.players.len() && 0 <= b < m.players.len() && a != b ==> !eat_cond(
                #[trigger] m.players[a].1,
                #[trigger] m.players[b].1,
            ),
    ensures
        advance_spec(m, 0) == m,
{
    let w = m.size.0;
    let h = m.size.1;
    let s0 = m.players;
    lemma_phase_zero(m, s0.len());
    let s1 = phase_move(s0, m.balls, w, h, 0, s0.len()).0;
    assert(s0.take(s0.len() as int) =~= s0);
    assert(s1 == s0);
    let s2 = mid_tick_players(m, 0);
    assert forall|j: int| 0 <= j < s2.len() implies s2[j] == s0[j] by {
        let p = s0[j].1;
        let ls = crate::engine::last_sucker(s0, j, s0.len());
        if ls >= 0 {
            let e = s0[ls].1;
            let amount = (e.size + p.size - sqrt_floor(crate::engine::dist2(e.pos, p.pos))) * (
            NANO as int) / (2 * p.size);
            assert(pull_delta(e.pos.0 - p.pos.0, 0, amount) == 0);
            assert(pull_delta(e.pos.1 - p.pos.1, 0, amount) == 0);
            lemma_clamp_bounds(p.pos.0 as int, p.show_size as int, w as int);
            lemma_clamp_bounds(p.pos.1 as int, p.show_size as int, h as int);
            assert(sucked_player(s0, j, w, h, 0) == p);
        }
    }
    assert(s2 =~= s0);
    assert forall|j: int| 0 <= j < s0.len() implies winner_of(s0, j) < 0 by {
        lemma_no_winner_from(s0, j, 0);
    }
    lemma_survivors_all_live(s0, s0.len());
    let out = survivors_upto(s0, s0.len());
    assert forall|i: int| 0 <= i < out.len() implies #[trigger] out[i] == s0[i] by {
        lemma_fed_identity(s0, i);
        assert(out[i] == (s0[i].0, Player { size: fed_size(s0, i) as i64, ..s0[i].1 }));
    }
    assert(out =~= s0);
    lemma_pairs_empty(s0, s0.len());
    let rt = retarget(s0, m.eaten_by);
    assert forall|k: int| 0 <= k < rt.len() implies #[trigger] rt[k] == m.eaten_by[k] by {
        crate::types::lemma_idx_of(s0, m.eaten_by[k].1);
        let jt = crate::types::idx_of(s0, m.eaten_by[k].1);
        if 0 <= jt {
            assert(winner_of(s0, jt) < 0);
        }
        assert(retarget_entry(s0, m.eaten_by[k]) == m.eaten_by[k]);
    }
    assert(rt =~= m.eaten_by);
    assert(rt + eaten_pairs_upto(s0, s0.len()) =~= m.eaten_by);
    assert(advance_spec(m, 0) == m);
}

/// When only prey `j` is absorbed, and by winner `i`, only `i`'s radius is
/// fed, by exactly `j`'s squared radius.
proof fn lemma_adds_single(s: Seq<(usize, Player)>, i: int, j: int, k: nat)
    requires
        0 <= i < s.len(),
        0 <= j < s.len(),
        winner_of(s, j) == i,
        forall|x: int| 0 <= x < s.len() && x != j ==> winner_of(s, x) < 0,
        k <= s.len(),
    ensures
        adds_upto(s, i, k) == if j < k {
            s[j].1.size * s[j].1.size
        } else {
            0int
        },
    decreases k,
{
    if k > 0 {
        lemma_adds_single(s, i, j, (k - 1) as nat);
    }
}

/// Merge law: when a tick absorbs exactly one player, its winner's new
/// squared radius is the sum of both squared radii (the area-conserving
/// merge), the absorbed player is gone from the world, and the winner
/// remains.
pub proof fn lemma_merge(s: Seq<(usize, Player)>, i: int, j: int)
    requires
        forall|a: int| 0 <= a < s.len() ==> wf_player(#[trigger] s[a].1),
        forall|a: int, b: int| 0 <= a < b < s.len() ==> s[a].0 != s[b].0,
        0 <= i < s.len(),
        0 <= j < s.len(),
        i != j,
        winner_of(s, j) == i,
        forall|x: int| 0 <= x < s.len() && x != j ==> winner_of(s, x) < 0,
        s[i].1.size * s[i].1.size + s[j].1.size * s[j].1.size <= SIZE_MAX * SIZE_MAX,
    ensures
        !contains_id(survivors_upto(s, s.len()), s[j].0),
        contains_id(survivors_upto(s, s.len()), s[i].0),
        forall|m: int|
            0 <= m < survivors_upto(s, s.len()).len() && #[trigger] survivors_upto(
                s,
                s.len(),
            )[m].0 == s[i].0 ==> survivors_upto(s, s.len())[m].1.size as int == sqrt_floor(
                s[i].1.size * s[i].1.size + s[j].1.size * s[j].1.size,
            ),
{
    let out = survivors_upto(s, s.len());
    crate::engine::lemma_survivors(s, s.len());
    assert(winner_of(s, i) < 0);
    lemma_adds_single(s, i, j, s.len());
    let msum = s[i].1.size * s[i].1.size + s[j].1.size * s[j].1.size;
    vstd::arithmetic::mul::lemma_mul_nonnegative(s[i].1.size as int, s[i].1.size as int);
    vstd::arithmetic::mul::lemma_mul_nonnegative(s[j].1.size as int, s[j].1.size as int);
    lemma_sqrt_floor_bounds(msum);
    assert(sqrt_floor(msum) <= SIZE_MAX) by (nonlinear_arith)
        requires
            0 <= sqrt_floor(msum),
            sqrt_floor(msum) * sqrt_floor(msum) <= msum,
            msum <= SIZE_MAX * SIZE_MAX,
            SIZE_MAX >= 0,
    ;
    assert(fed_size(s, i) == sqrt_floor(msum));
    crate::engine::lemma_fed_wf(s, i);
    assert forall|m: int|
        0 <= m < out.len() && #[trigger] out[m].0 == s[i].0 implies out[m].1.size as int
        == sqrt_floor(msum) by {
        let a = choose|a: int|
            #![trigger winner_of(s, a)]
            0 <= a < s.len() && winner_of(s, a) < 0 && out[m] == (
                s[a].0,
                Player { size: fed_size(s, a) as i64, ..s[a].1 },
            );
        if a != i {
            if a < i {
                assert(s[a].0 != s[i].0);
            } else {
                assert(s[i].0 != s[a].0);
            }
        }
        assert(a == i);
    }
    assert(!contains_id(out, s[j].0)) by {
        if contains_id(out, s[j].0) {
            let m = choose|m: int| 0 <= m < out.len() && out[m].0 == s[j].0;
            let a = choose|a: int|
                #![trigger winner_of(s, a)]
                0 <= a < s.len() && winner_of(s, a) < 0 && out[m] == (
                    s[a].0,
                    Player { size: fed_size(s, a) as i64, ..s[a].1 },
                );
            if a != j {
                if a < j {
                    assert(s[a].0 != s[j].0);
                } else {
                    assert(s[j].0 != s[a].0);
                }
            }
            assert(a == j);
            assert(winner_of(s, j) < 0);
        }
    }
}

/// At a zero time delta the spawn phase is disabled: its per-tick
/// probability is exactly zero.
pub proof fn lemma_spawn_threshold_zero()
    ensures
        spawn_threshold(0) == 0,
{
}

/// A fixed-point power of a fraction of at most one never grows with the
/// exponent.
proof fn lemma_pow_nano_antitone(base: int, e1: nat, e2: nat)
    requires
        0 <= base <= NANO,
        e1 <= e2,
    ensures
        pow_nano_spec(base, e2) <= pow_nano_spec(base, e1),
    decreases e2 - e1,
{
    if e2 > e1 {
        lemma_pow_nano_antitone(base, e1, (e2 - 1) as nat);
        let p = pow_nano_spec(base, (e2 - 1) as nat);
        lemma_pow_nano_bounds(base, (e2 - 1) as nat);
        crate::num::lemma_muldiv_bound(p, base, p, NANO as int);
        lemma_div_by_multiple(p, NANO as int);
    }
}

/// The per-tick spawn probability is a probability, vanishes only at a zero
/// time delta, and never shrinks as the tick grows longer.
pub proof fn lemma_spawn_threshold_monotone(d1: u64, d2: u64)
    requires
        d1 <= d2,
    ensures
        0 <= spawn_threshold(d1) <= spawn_threshold(d2) <= NANO,
{
    lemma_pow_nano_bounds(crate::engine::SPAWN_DECAY_NANO as int, d1 as nat);
    lemma_pow_nano_bounds(crate::engine::SPAWN_DECAY_NANO as int, d2 as nat);
    lemma_pow_nano_antitone(crate::engine::SPAWN_DECAY_NANO as int, d1 as nat, d2 as nat);
}

} // verus!
