//! Resolving the eaten-by chain: an eliminated player's view follows
//! whichever live player ended up controlling the mass that absorbed it.

use crate::types::contains_id;
use crate::types::State;
use vstd::prelude::*;

verus! {

/// The first eaten-by entry for `id`, if any.
pub open spec fn chain_next(eaten: Seq<(usize, usize)>, id: usize) -> Option<usize>
    decreases eaten.len(),
{
    if eaten.len() == 0 {
        None
    } else if eaten[0].0 == id {
        Some(eaten[0].1)
    } else {
        chain_next(eaten.subrange(1, eaten.len() as int), id)
    }
}

/// Follows eaten-by entries from `id` until an id without one is reached or
/// the fuel runs out.
pub open spec fn chain_spec(eaten: Seq<(usize, usize)>, id: usize, fuel: nat) -> usize
    decreases fuel,
{
    if fuel == 0 {
        id
    } else {
        match chain_next(eaten, id) {
            None => id,
            Some(t) => chain_spec(eaten, t, (fuel - 1) as nat),
        }
    }
}

/// A found entry's target is the target of some entry of the relation.
proof fn lemma_chain_next_member(eaten: Seq<(usize, usize)>, id: usize)
    ensures
        match chain_next(eaten, id) {
            Some(t) => exists|k: int| 0 <= k < eaten.len() && #[trigger] eaten[k] == (id, t),
            None => true,
        },
    decreases eaten.len(),
{
    if eaten.len() > 0 && eaten[0].0 != id {
        let rest = eaten.subrange(1, eaten.len() as int);
        lemma_chain_next_member(rest, id);
        match chain_next(rest, id) {
            Some(t) => {
                let k = choose|k: int| 0 <= k < rest.len() && #[trigger] rest[k] == (id, t);
                assert(eaten[k + 1] == (id, t));
            },
            None => {},
        }
    }
}

/// The first eaten-by entry for `id`, by a scan.
fn lookup(eaten: &Vec<(usize, usize)>, id: usize) -> (r: Option<usize>)
    ensures
        r == chain_next(eaten@, id),
{
    let n = eaten.len();
    let mut f: usize = 0;
    proof {
        assert(eaten@.skip(0) =~= eaten@);
    }
    while f < n
        invariant
            f <= n,
            n == eaten@.len(),
            chain_next(eaten@, id) == chain_next(eaten@.skip(f as int), id),
        decreases n - f,
    {
        let e = eaten[f];
        proof {
            assert(eaten@.skip(f as int)[0] == eaten@[f as int]);
            assert(eaten@.skip(f as int).subrange(
                1,
                eaten@.skip(f as int).len() as int,
            ) =~= eaten@.skip(f as int + 1));
        }
        if e.0 == id {
            return Some(e.1);
        }
        f = f + 1;
    }
    proof {
        assert(eaten@.skip(n as int) =~= Seq::<(usize, usize)>::empty());
    }
    None
}

/// Follows the eaten-by relation from `id` until a live id (one without an
/// entry) is reached, for as many hops as the relation has entries. In a
/// well-formed world the result is `id` itself or a live player's id, so a
/// spectating view always lands on a player that exists.
pub fn follow_eaten_by(state: &State, id: usize) -> (r: usize)
    ensures
        r == chain_spec(state@.eaten_by, id, state@.eaten_by.len() as nat),
        state.wf() ==> (r == id || contains_id(state@.players, r)),
{
    let mut cur = id;
    let mut fuel = state.eaten_by.len();
    let mut done = false;
    while !done && fuel > 0
        invariant
            fuel <= state@.eaten_by.len(),
            chain_spec(state@.eaten_by, id, state@.eaten_by.len() as nat) == if done {
                cur as int
            } else {
                chain_spec(state@.eaten_by, cur, fuel as nat) as int
            },
            state.wf() ==> (cur == id || contains_id(state@.players, cur)),
        decreases 2 * fuel + (if done {
            0int
        } else {
            1int
        }),
    {
        match lookup(&state.eaten_by, cur) {
            None => {
                done = true;
            },
            Some(t) => {
                proof {
                    lemma_chain_next_member(state@.eaten_by, cur);
                    if state.wf() {
                        let k = choose|k: int|
                            0 <= k < state@.eaten_by.len() && #[trigger] state@.eaten_by[k] == (
                                cur,
                                t,
                            );
                        assert(contains_id(state@.players, state@.eaten_by[k].1));
                    }
                }
                cur = t;
                fuel = fuel - 1;
            },
        }
    }
    cur
}

} // verus!
