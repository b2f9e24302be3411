use agar_backend::{Ball, IdPlayerCommand, Player, PlayerCommand, State};

fn player_at(x: i64, y: i64, size: i64) -> Player {
    Player {
        pos: (x, y),
        direction: 0,
        speed: 0,
        size,
        show_size: size,
        color: (10, 20, 30),
    }
}

fn world(players: Vec<(usize, Player)>, balls: Vec<Ball>) -> State {
    State { players, size: (300_000, 300_000), balls, eaten_by: Vec::new() }
}

#[test]
fn merge_absorbs_smaller_player_area_conserving() {
    // A at size 5, B at size 3, well within eating distance: after the tick
    // B is gone and A's radius is sqrt(5^2 + 3^2) at milli resolution.
    let mut w = world(
        vec![(1, player_at(10_000, 10_000, 5000)), (2, player_at(10_500, 10_000, 3000))],
        Vec::new(),
    );
    w.tick(16);
    assert_eq!(w.players.len(), 1);
    assert_eq!(w.players[0].0, 1);
    assert_eq!(w.players[0].1.size, 5830);
    assert_eq!(w.eaten_by, vec![(2, 1)]);
}

#[test]
fn no_eat_below_ratio() {
    // 5 : 4.5 is below the eat ratio of 1.2: nobody is absorbed however
    // close the two stand.
    let mut w = world(
        vec![(1, player_at(10_000, 10_000, 5000)), (2, player_at(10_100, 10_000, 4500))],
        Vec::new(),
    );
    w.tick(16);
    assert_eq!(w.players.len(), 2);
    assert_eq!(w.players[0].1.size, 5000);
    assert_eq!(w.players[1].1.size, 4500);
    assert!(w.eaten_by.is_empty());
}

#[test]
fn pickup_consumption_grows_player() {
    // A pickup half a unit from a radius-2 player is consumed; the player
    // grows to sqrt((2 + 0.1)^2 + 3).
    let mut w = world(
        vec![(1, player_at(10_000, 10_000, 2000))],
        vec![Ball { pos: (10_500, 10_000), color: (1, 2, 3) }],
    );
    w.tick(16);
    assert!(w.balls.is_empty());
    assert_eq!(w.players[0].1.size, 2722);
}

#[test]
fn pickup_out_of_reach_survives() {
    let mut w = world(
        vec![(1, player_at(10_000, 10_000, 2000))],
        vec![Ball { pos: (11_500, 10_000), color: (1, 2, 3) }],
    );
    w.tick(16);
    assert_eq!(w.balls.len(), 1);
    assert_eq!(w.players[0].1.size, 2000);
}

#[test]
fn conservation_of_squared_radii_without_events() {
    // Two moving players, too far apart to interact, no pickups: the sum of
    // squared radii is untouched by any number of ticks.
    let mut a = player_at(50_000, 50_000, 4000);
    a.speed = 3000;
    a.direction = 700_000_000;
    let mut b = player_at(250_000, 250_000, 6000);
    b.speed = 2000;
    b.direction = -1_300_000_000;
    let mut w = world(vec![(1, a), (2, b)], Vec::new());
    let total = |w: &State| -> i128 {
        w.players.iter().map(|(_, p)| p.size as i128 * p.size as i128).sum()
    };
    let before = total(&w);
    for _ in 0..50 {
        w.tick(17);
    }
    assert_eq!(total(&w), before);
}

#[test]
fn boundary_clamp_holds_at_walls() {
    // Direction zero faces straight along the y axis; a fast player driving
    // into the wall ends exactly at the wall inset by its display radius.
    let mut p = player_at(150_000, 295_000, 3000);
    p.speed = 1_000_000;
    p.direction = 0;
    let mut w = world(vec![(1, p)], Vec::new());
    w.tick(1000);
    assert_eq!(w.players[0].1.pos.0, 150_000);
    assert_eq!(w.players[0].1.pos.1, 297_000);
}

#[test]
fn zero_dt_is_a_no_op() {
    let mut a = player_at(50_000, 50_000, 4000);
    a.speed = 5000;
    a.direction = 900_000_000;
    let b = player_at(250_000, 250_000, 6000);
    let balls = vec![Ball { pos: (100_000, 100_000), color: (9, 9, 9) }];
    let mut w = world(vec![(1, a), (2, b)], balls.clone());
    w.tick(0);
    assert_eq!(w.players, vec![(1, a), (2, b)]);
    assert_eq!(w.balls, balls);
    assert!(w.eaten_by.is_empty());
}

#[test]
fn unknown_id_directive_is_dropped() {
    let a = player_at(50_000, 50_000, 4000);
    let mut w = world(vec![(1, a)], Vec::new());
    w.do_command(IdPlayerCommand {
        id: 9999,
        command: PlayerCommand::SetDirectionAndSpeed(123, 456),
    });
    assert_eq!(w.players, vec![(1, a)]);
    assert!(w.balls.is_empty());
    assert!(w.eaten_by.is_empty());
}

#[test]
fn directive_overwrites_direction_and_clamps_speed() {
    let a = player_at(50_000, 50_000, 4000);
    let mut w = world(vec![(1, a)], Vec::new());
    w.do_command(IdPlayerCommand {
        id: 1,
        command: PlayerCommand::SetDirectionAndSpeed(777, -5),
    });
    assert_eq!(w.players[0].1.direction, 777);
    assert_eq!(w.players[0].1.speed, 1000);
    w.do_command(IdPlayerCommand {
        id: 1,
        command: PlayerCommand::SetDirectionAndSpeed(-9, 2_000_000_000),
    });
    assert_eq!(w.players[0].1.direction, -9);
    assert_eq!(w.players[0].1.speed, 1_000_000_000);
    // last directive wins
    w.do_command(IdPlayerCommand {
        id: 1,
        command: PlayerCommand::SetDirectionAndSpeed(42, 7000),
    });
    assert_eq!(w.players[0].1.direction, 42);
    assert_eq!(w.players[0].1.speed, 7000);
}

#[test]
fn suction_pulls_prey_toward_eater() {
    // B is small enough to eat and the discs overlap, but the centers are
    // too far apart to absorb: B is pulled toward A.
    let mut w = world(
        vec![(1, player_at(10_000, 10_000, 5000)), (2, player_at(17_000, 10_000, 3000))],
        Vec::new(),
    );
    w.tick(16);
    assert_eq!(w.players.len(), 2);
    assert!(w.players[1].1.pos.0 < 17_000);
    assert!(w.players[1].1.pos.0 > 10_000);
}

#[test]
fn eaten_by_chain_resolves_to_live_player() {
    // Tick one: A (id 1) absorbs B (id 2). Tick two: C (id 3) absorbs A.
    // B's entry must then point at C, and following the chain from B lands
    // on C.
    let mut w = world(
        vec![(1, player_at(10_000, 10_000, 5000)), (2, player_at(10_500, 10_000, 3000))],
        Vec::new(),
    );
    w.tick(16);
    assert_eq!(w.eaten_by, vec![(2, 1)]);
    w.players.push((3, player_at(11_000, 10_000, 9000)));
    w.tick(16);
    assert_eq!(w.players.len(), 1);
    assert_eq!(w.players[0].0, 3);
    assert!(w.eaten_by.contains(&(2, 3)));
    assert!(w.eaten_by.contains(&(1, 3)));
    assert_eq!(agar_backend::follow_eaten_by(&w, 2), 3);
    assert_eq!(agar_backend::follow_eaten_by(&w, 1), 3);
    assert_eq!(agar_backend::follow_eaten_by(&w, 3), 3);
}

#[test]
fn display_size_eases_toward_size() {
    let mut p = player_at(50_000, 50_000, 4000);
    p.show_size = 0;
    let mut w = world(vec![(1, p)], Vec::new());
    w.tick(16);
    let s1 = w.players[0].1.show_size;
    assert!(0 < s1 && s1 < 4000);
    w.tick(16);
    let s2 = w.players[0].1.show_size;
    assert!(s1 < s2 && s2 < 4000);
}

#[test]
fn new_world_is_empty() {
    let w = State::new();
    assert!(w.players.is_empty());
    assert!(w.balls.is_empty());
    assert!(w.eaten_by.is_empty());
    assert_eq!(w.size, (300_000, 300_000));
}
