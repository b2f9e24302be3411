use agar_backend::get_content_type;
use agar_backend::next_player_id;
use agar_backend::num::pow_nano;
use agar_backend::num::NANO;
use agar_backend::State;

#[test]
fn spawn_probability_matches_derivation() {
    // For a spawn probability of 0.3 per second, the per-millisecond
    // survival factor is 0.7^(1/1000); seventeen milliseconds give a
    // per-tick probability of 1 - 0.7^0.017, about 0.6 percent.
    let threshold = NANO - pow_nano(agar_backend::engine::SPAWN_DECAY_NANO, 17);
    assert_eq!(threshold, 6_045_129);
    let threshold16 = NANO - pow_nano(agar_backend::engine::SPAWN_DECAY_NANO, 16);
    assert_eq!(threshold16, 5_690_547);
}

#[test]
fn spawn_step_is_one_bernoulli_trial() {
    // A pickup appears exactly when the draw falls below the per-tick
    // threshold (6_045_129 nano for 17 ms), at the drawn position inset by
    // one unit.
    let mut w = State::new();
    w.spawn_step(6_045_128, 5, 7, (1, 2, 3), 17);
    assert_eq!(w.balls.len(), 1);
    assert_eq!(w.balls[0].pos, (1005, 1007));
    assert_eq!(w.balls[0].color, (1, 2, 3));
    // At or above the threshold nothing spawns.
    w.spawn_step(6_045_129, 5, 7, (1, 2, 3), 17);
    assert_eq!(w.balls.len(), 1);
    w.spawn_step(999_999_999, 5, 7, (1, 2, 3), 17);
    assert_eq!(w.balls.len(), 1);
    // A zero time delta has a zero threshold: even a zero draw stays out.
    w.spawn_step(0, 5, 7, (1, 2, 3), 0);
    assert_eq!(w.balls.len(), 1);
}

#[test]
fn spawn_rate_converges_to_threshold() {
    // Empirically, over many independent ticks the spawn count approaches
    // the per-tick probability of about 0.006 for dt = 17 ms.
    let mut w = State::new();
    let ticks = 200_000;
    for _ in 0..ticks {
        w.do_server_side_stuff(17);
    }
    let spawned = w.balls.len();
    assert!(spawned > 900, "spawned only {} pickups", spawned);
    assert!(spawned < 1500, "spawned {} pickups", spawned);
    for b in &w.balls {
        assert!(1000 <= b.pos.0 && b.pos.0 < 299_000);
        assert!(1000 <= b.pos.1 && b.pos.1 < 299_000);
    }
}

#[test]
fn zero_dt_never_spawns() {
    let mut w = State::new();
    for _ in 0..10_000 {
        w.do_server_side_stuff(0);
    }
    assert!(w.balls.is_empty());
}

#[test]
fn add_player_spawns_inside_world() {
    let mut w = State::new();
    w.add_player(7);
    assert_eq!(w.players.len(), 1);
    let (id, p) = w.players[0];
    assert_eq!(id, 7);
    assert_eq!(p.size, 3000);
    assert_eq!(p.show_size, 0);
    assert_eq!(p.speed, 0);
    assert_eq!(p.direction, 0);
    assert!(0 <= p.pos.0 && p.pos.0 < 300_000);
    assert!(0 <= p.pos.1 && p.pos.1 < 300_000);
}

#[test]
fn add_player_overwrites_existing_id() {
    let mut w = State::new();
    w.add_player(7);
    w.add_player(8);
    w.add_player(7);
    assert_eq!(w.players.len(), 2);
    assert_eq!(w.players.iter().filter(|(id, _)| *id == 7).count(), 1);
}

#[test]
fn add_player_positions_are_not_constant() {
    // A broken randomness source that always returned its bound (or any
    // constant) would make every spawn identical; draws must vary.
    let mut w = State::new();
    for id in 0..64 {
        w.add_player(id);
    }
    let first = w.players[0].1.pos;
    assert!(w.players.iter().any(|(_, p)| p.pos != first));
}

#[test]
fn next_player_id_is_one_above_maximum() {
    assert_eq!(next_player_id(&Vec::new()), 1);
    assert_eq!(next_player_id(&vec![1]), 2);
    assert_eq!(next_player_id(&vec![3, 1, 2]), 4);
    assert_eq!(next_player_id(&vec![5, 9, 2]), 10);
}

#[test]
fn content_types_by_extension() {
    assert_eq!(get_content_type("index.html"), "text/html");
    assert_eq!(get_content_type("pkg/app.js"), "application/javascript");
    assert_eq!(get_content_type("pkg/app_bg.wasm"), "application/wasm");
    assert_eq!(get_content_type("style.css"), "text/plain");
    assert_eq!(get_content_type("README"), "text/plain");
    assert_eq!(get_content_type(""), "text/plain");
}

#[test]
fn content_type_edge_cases() {
    assert_eq!(get_content_type(".html"), "text/plain");
    assert_eq!(get_content_type("dir/.html"), "text/plain");
    assert_eq!(get_content_type("archive.tar.html"), "text/html");
    assert_eq!(get_content_type("trailing."), "text/plain");
    assert_eq!(get_content_type("dir.html/file"), "text/plain");
    assert_eq!(get_content_type("a/b/c.js"), "application/javascript");
}
