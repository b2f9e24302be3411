//! Session registry helpers: allocating player ids.

use vstd::prelude::*;

verus! {

/// The largest id of a registry, or zero for an empty one.
pub open spec fn max_id(s: Seq<usize>) -> int
    decreases s.len(),
{
    if s.len() == 0 {
        0
    } else {
        let m = max_id(s.drop_last());
        if s.last() > m {
            s.last() as int
        } else {
            m
        }
    }
}

/// No id exceeds the registry's maximum.
pub proof fn lemma_max_id(s: Seq<usize>)
    ensures
        0 <= max_id(s),
        forall|i: int| 0 <= i < s.len() ==> #[trigger] s[i] <= max_id(s),
    decreases s.len(),
{
    if s.len() > 0 {
        lemma_max_id(s.drop_last());
        assert forall|i: int| 0 <= i < s.len() implies #[trigger] s[i] <= max_id(s) by {
            if i < s.len() - 1 {
                assert(s.drop_last()[i] == s[i]);
            }
        }
    }
}

/// The id the registry assigns to the next connection: one above the largest
/// id ever assigned, so that ids are never reused while the registry lives.
pub fn next_player_id(ids: &Vec<usize>) -> (r: usize)
    requires
        forall|i: int| 0 <= i < ids@.len() ==> #[trigger] ids@[i] < usize::MAX,
    ensures
        r as int == max_id(ids@) + 1,
        forall|i: int| 0 <= i < ids@.len() ==> #[trigger] ids@[i] < r,
{
    proof {
        lemma_max_id(ids@);
    }
    let n = ids.len();
    let mut m: usize = 0;
    let mut i: usize = 0;
    while i < n
        invariant
            i <= n,
            n == ids@.len(),
            m as int == max_id(ids@.take(i as int)),
            m == 0 || (exists|j: int| 0 <= j < i && ids@[j] == m),
            forall|j: int| 0 <= j < ids@.len() ==> #[trigger] ids@[j] < usize::MAX,
        decreases n - i,
    {
        let v = ids[i];
        proof {
            assert(ids@.take(i as int + 1).drop_last() =~= ids@.take(i as int));
            assert(ids@.take(i as int + 1).last() == ids@[i as int]);
        }
        if v > m {
            m = v;
        }
        i = i + 1;
    }
    proof {
        assert(ids@.take(n as int) =~= ids@);
    }
    m + 1
}

} // verus!
