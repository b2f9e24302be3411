//! World state: players, pickups ("balls"), directives, and the
//! well-formedness invariant that every simulation step preserves.

use vstd::prelude::*;

verus! {

/// One world unit expressed in milli-units.
pub const MILLI: i64 = 1000;

/// Largest radius a player may reach, in milli-units.
pub const SIZE_MAX: i64 = 1_000_000_000;

/// Largest desired speed a directive may set, in milli-units per second.
pub const SPEED_MAX: i64 = 1_000_000_000;

/// Smallest desired speed after a directive: a stalled player is clamped
/// back to one unit per second.
pub const SPEED_MIN: i64 = 1000;

/// Largest world extent, in milli-units.
pub const WORLD_MAX: i64 = 1_000_000_000;

/// Smallest world extent, in milli-units: the pickup spawner insets one unit
/// from each border, so the world must be wider than two units.
pub const WORLD_MIN: i64 = 2001;

/// Largest time delta a single tick may advance, in milliseconds.
pub const DT_MAX: u64 = 3_600_000;

/// Every coordinate of a well-formed world lies in `[-POS_BOUND, POS_BOUND]`.
pub const POS_BOUND: i64 = 2_000_000_000;

/// Radius a newly registered player starts with: three units.
pub const START_SIZE: i64 = 3000;

/// A player avatar. Coordinates, radii and speed are in milli-units, the
/// facing direction is in nano-radians.
#[derive(Clone, Copy, PartialEq, Eq, Debug)]
pub struct Player {
    pub pos: (i64, i64),
    pub direction: i64,
    pub speed: i64,
    pub size: i64,
    pub show_size: i64,
    pub color: (u8, u8, u8),
}

/// A stationary pickup.
#[derive(Clone, Copy, PartialEq, Eq, Debug)]
pub struct Ball {
    pub pos: (i64, i64),
    pub color: (u8, u8, u8),
}

/// The payload of a directive; a tagged variant so that further commands can
/// be added without changing the router.
#[derive(Clone, Copy, PartialEq, Eq, Debug)]
pub enum PlayerCommand {
    SetDirectionAndSpeed(i64, i64),
}

/// A directive: a command addressed to one player id.
#[derive(Clone, Copy, PartialEq, Eq, Debug)]
pub struct IdPlayerCommand {
    pub id: usize,
    pub command: PlayerCommand,
}

/// The authoritative world state.
///
/// `players` is a mapping id -> player kept as a vector with unique keys in
/// insertion order; `size` is the world extent in milli-units; `eaten_by`
/// records, for every absorbed player, the live player that now controls the
/// mass that absorbed it.
pub struct State {
    pub players: Vec<(usize, Player)>,
    pub size: (i64, i64),
    pub balls: Vec<Ball>,
    pub eaten_by: Vec<(usize, usize)>,
}

/// One message of the synchronization protocol between server and clients.
pub enum SynchrosizationMessage {
    Command(IdPlayerCommand),
    SyncState(State),
}

/// The mathematical model of a world state.
pub ghost struct StateModel {
    pub players: Seq<(usize, Player)>,
    pub balls: Seq<Ball>,
    pub eaten_by: Seq<(usize, usize)>,
    pub size: (i64, i64),
}

impl View for State {
    type V = StateModel;

    open spec fn view(&self) -> StateModel {
        StateModel {
            players: self.players@,
            balls: self.balls@,
            eaten_by: self.eaten_by@,
            size: self.size,
        }
    }
}

/// Bounds every player of a well-formed world satisfies.
pub open spec fn wf_player(p: Player) -> bool {
    &&& 0 < p.size <= SIZE_MAX
    &&& 0 <= p.show_size <= SIZE_MAX
    &&& 0 <= p.speed <= SPEED_MAX
    &&& -POS_BOUND <= p.pos.0 <= POS_BOUND
    &&& -POS_BOUND <= p.pos.1 <= POS_BOUND
}

/// Bounds every pickup of a well-formed world satisfies.
pub open spec fn wf_ball(b: Ball) -> bool {
    &&& -POS_BOUND <= b.pos.0 <= POS_BOUND
    &&& -POS_BOUND <= b.pos.1 <= POS_BOUND
}

/// Whether the player sequence holds an entry for `id`.
pub open spec fn contains_id(players: Seq<(usize, Player)>, id: usize) -> bool {
    exists|j: int| 0 <= j < players.len() && players[j].0 == id
}

/// The index of `id` in the player sequence, or `-1` if it is absent.
pub open spec fn idx_of(players: Seq<(usize, Player)>, id: usize) -> int
    decreases players.len(),
{
    if players.len() == 0 {
        -1
    } else if players[0].0 == id {
        0
    } else {
        let r = idx_of(players.subrange(1, players.len() as int), id);
        if r < 0 {
            -1
        } else {
            r + 1
        }
    }
}

/// `idx_of` finds an entry exactly when one exists, and it is the first one.
pub proof fn lemma_idx_of(players: Seq<(usize, Player)>, id: usize)
    ensures
        -1 <= idx_of(players, id) < players.len(),
        contains_id(players, id) <==> 0 <= idx_of(players, id),
        0 <= idx_of(players, id) ==> players[idx_of(players, id)].0 == id,
        forall|j: int| 0 <= j < idx_of(players, id) ==> players[j].0 != id,
    decreases players.len(),
{
    if players.len() > 0 && players[0].0 != id {
        lemma_idx_of(players.subrange(1, players.len() as int), id);
        let r = idx_of(players.subrange(1, players.len() as int), id);
        if r >= 0 {
            assert(players.subrange(1, players.len() as int)[r] == players[r + 1]);
        }
        assert forall|j: int| 0 <= j < players.len() && players[j].0 == id implies
            contains_id(players.subrange(1, players.len() as int), id) || j == 0 by {
            if j > 0 {
                assert(players.subrange(1, players.len() as int)[j - 1].0 == id);
            }
        }
        assert forall|j: int| 0 <= j < idx_of(players, id) implies players[j].0 != id by {
            if j > 0 {
                assert(players[j] == players.subrange(1, players.len() as int)[j - 1]);
            }
        }
    }
}

impl StateModel {
    /// All keys of the player mapping are distinct.
    pub open spec fn unique_ids(self) -> bool {
        forall|i: int, j: int|
            0 <= i < j < self.players.len() ==> self.players[i].0 != self.players[j].0
    }

    /// The well-formedness invariant of a world state.
    pub open spec fn wf(self) -> bool {
        &&& WORLD_MIN <= self.size.0 <= WORLD_MAX
        &&& WORLD_MIN <= self.size.1 <= WORLD_MAX
        &&& self.unique_ids()
        &&& forall|i: int| 0 <= i < self.players.len() ==> wf_player(#[trigger] self.players[i].1)
        &&& forall|i: int| 0 <= i < self.balls.len() ==> wf_ball(#[trigger] self.balls[i])
        &&& forall|k: int|
            0 <= k < self.eaten_by.len() ==> contains_id(
                self.players,
                #[trigger] self.eaten_by[k].1,
            )
    }
}

/// The player as a directive leaves it: direction overwritten, desired speed
/// clamped into `[SPEED_MIN, SPEED_MAX]`.
pub open spec fn directed_player(p: Player, dir: i64, speed: i64) -> Player {
    Player {
        direction: dir,
        speed: if speed < SPEED_MIN {
            SPEED_MIN
        } else if speed > SPEED_MAX {
            SPEED_MAX
        } else {
            speed
        },
        ..p
    }
}

impl State {
    /// The well-formedness invariant of a world state.
    pub open spec fn wf(&self) -> bool {
        self@.wf()
    }

    /// An empty 300 x 300 world.
    pub fn new() -> (s: State)
        ensures
            s@.players =~= Seq::<(usize, Player)>::empty(),
            s@.balls =~= Seq::<Ball>::empty(),
            s@.eaten_by =~= Seq::<(usize, usize)>::empty(),
            s@.size == (300_000i64, 300_000i64),
            s.wf(),
    {
        State {
            players: Vec::new(),
            balls: Vec::new(),
            eaten_by: Vec::new(),
            size: (300_000, 300_000),
        }
    }

    /// Applies one directive: the latest directive for a player overwrites
    /// its direction and desired speed; a directive for an unknown id leaves
    /// the world unchanged.
    pub fn do_command(&mut self, command: IdPlayerCommand)
        ensures
            final(self)@.size == old(self)@.size,
            final(self)@.balls == old(self)@.balls,
            final(self)@.eaten_by == old(self)@.eaten_by,
            !contains_id(old(self)@.players, command.id) ==> final(self)@.players
                == old(self)@.players,
            contains_id(old(self)@.players, command.id) ==> {
                let i = idx_of(old(self)@.players, command.id);
                match command.command {
                    PlayerCommand::SetDirectionAndSpeed(dir, speed) => final(self)@.players
                        == old(self)@.players.update(
                        i,
                        (command.id, directed_player(old(self)@.players[i].1, dir, speed)),
                    ),
                }
            },
            old(self).wf() ==> final(self).wf(),
    {
        proof {
            lemma_idx_of(old(self)@.players, command.id);
        }
        let ghost gi = idx_of(old(self)@.players, command.id);
        let n = self.players.len();
        let mut i: usize = 0;
        while i < n
            invariant
                self@ == old(self)@,
                n == self.players@.len(),
                i <= n,
                forall|j: int| 0 <= j < i ==> self.players@[j].0 != command.id,
                gi == idx_of(old(self)@.players, command.id),
                contains_id(old(self)@.players, command.id) ==> 0 <= gi < n
                    && old(self)@.players[gi].0 == command.id,
                forall|j: int| 0 <= j < gi ==> old(self)@.players[j].0 != command.id,
                contains_id(old(self)@.players, command.id) <==> 0 <= gi < n,
            decreases n - i,
        {
            if self.players[i].0 == command.id {
                assert(old(self)@.players[i as int].0 == command.id);
                assert(contains_id(old(self)@.players, command.id));
                assert(i == gi);
                let entry = self.players[i];
                let p = entry.1;
                match command.command {
                    PlayerCommand::SetDirectionAndSpeed(dir, speed) => {
                        let clamped = if speed < SPEED_MIN {
                            SPEED_MIN
                        } else if speed > SPEED_MAX {
                            SPEED_MAX
                        } else {
                            speed
                        };
                        let np = Player { direction: dir, speed: clamped, ..p };
                        self.players.set(i, (command.id, np));
                        assert(np == directed_player(old(self)@.players[gi].1, dir, speed));
                        assert(self@.players =~= old(self)@.players.update(
                            gi,
                            (command.id, directed_player(old(self)@.players[gi].1, dir, speed)),
                        ));
                    },
                }
                proof {
                    if old(self).wf() {
                        lemma_wf_after_update(old(self)@, self@, gi);
                    }
                }
                return ;
            }
            i = i + 1;
        }
        assert(!contains_id(old(self)@.players, command.id));
    }
}

/// A world stays well-formed when one player entry is replaced by another
/// well-formed player under the same id.
pub(crate) proof fn lemma_wf_after_update(pre: StateModel, post: StateModel, i: int)
    requires
        pre.wf(),
        0 <= i < pre.players.len(),
        post.players == pre.players.update(i, (pre.players[i].0, post.players[i].1)),
        wf_player(post.players[i].1),
        post.balls == pre.balls,
        post.eaten_by == pre.eaten_by,
        post.size == pre.size,
    ensures
        post.wf(),
{
    assert forall|k: int| 0 <= k < post.eaten_by.len() implies contains_id(
        post.players,
        #[trigger] post.eaten_by[k].1,
    ) by {
        let j = choose|j: int|
            0 <= j < pre.players.len() && pre.players[j].0 == pre.eaten_by[k].1;
        assert(post.players[j].0 == pre.eaten_by[k].1);
    }
}

} // verus!
