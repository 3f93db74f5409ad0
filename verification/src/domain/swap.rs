use vstd::prelude::*;

use crate::domain::pair::Pair;

verus! {

/// Two pairs that make a round trip across chains: the first swaps `A` into
/// `B`, the second `B` back into `A`, and the two start on chains of
/// different names.
pub open spec fn is_cross_chain_round_trip(p1: Pair, p2: Pair) -> bool {
    &&& p1@ != p2@
    &&& p1.from@.ticker == p2.to@.ticker
    &&& p1.to@.ticker == p2.from@.ticker
    &&& p1.from@.chain.name != p2.from@.chain.name
}

/// Law: a round trip read backwards is a round trip too.
pub proof fn lemma_round_trip_symmetric(p1: Pair, p2: Pair)
    ensures
        is_cross_chain_round_trip(p1, p2) ==> is_cross_chain_round_trip(p2, p1),
{
}

/// The indices `(i, b)`, `b < m`, of round trips that start with pair `i`,
/// in order of `b`.
pub open spec fn round_trip_row(ps: Seq<Pair>, i: int, m: int) -> Seq<(int, int)>
    decreases m,
{
    if m <= 0 {
        Seq::empty()
    } else if is_cross_chain_round_trip(ps[i], ps[m - 1]) {
        round_trip_row(ps, i, m - 1).push((i, m - 1))
    } else {
        round_trip_row(ps, i, m - 1)
    }
}

/// The indices of all round trips whose first pair is among the first `m`,
/// in order of the first pair and then the second.
pub open spec fn round_trip_rows(ps: Seq<Pair>, m: int) -> Seq<(int, int)>
    decreases m,
{
    if m <= 0 {
        Seq::empty()
    } else {
        round_trip_rows(ps, m - 1) + round_trip_row(ps, m - 1, ps.len() as int)
    }
}

/// Every pair of pairs that makes a round trip across chains, in the order in
/// which a scan of the first pair and then the second meets them.
pub fn find_cross_chain_pairs<'a>(pairs: &'a Vec<Pair<'a>>) -> (r: Vec<(&'a Pair<'a>, &'a Pair<'a>)>)
    ensures
        r@.len() == round_trip_rows(pairs@, pairs@.len() as int).len(),
        forall|k: int| 0 <= k < r@.len() ==> {
            let ix = #[trigger] round_trip_rows(pairs@, pairs@.len() as int)[k];
            *r@[k].0 == pairs@[ix.0] && *r@[k].1 == pairs@[ix.1]
        },
        forall|i: int, j: int|
            #![trigger pairs@[i], pairs@[j]]
            0 <= i < pairs@.len() && 0 <= j < pairs@.len() && pairs@[i]@ != pairs@[j]@ && pairs@[i].from@.ticker
                == pairs@[j].to@.ticker && pairs@[i].to@.ticker == pairs@[j].from@.ticker && pairs@[i].from@.chain.name
                != pairs@[j].from@.chain.name ==> exists|k: int|
                0 <= k < r@.len() && *r@[k].0 == pairs@[i] && *r@[k].1 == pairs@[j],
        forall|k: int| #![trigger r@[k]] 0 <= k < r@.len() ==> {
            &&& r@[k].0@ != r@[k].1@
            &&& r@[k].0.from@.ticker == r@[k].1.to@.ticker
            &&& r@[k].0.to@.ticker == r@[k].1.from@.ticker
            &&& r@[k].0.from@.chain.name != r@[k].1.from@.chain.name
        },
{
    let n = pairs.len();
    let mut r: Vec<(&'a Pair<'a>, &'a Pair<'a>)> = Vec::new();
    let mut i: usize = 0;
    while i < n
        invariant
            n == pairs@.len(),
            i <= n,
            r@.len() == round_trip_rows(pairs@, i as int).len(),
            forall|k: int| 0 <= k < r@.len() ==> {
                let ix = #[trigger] round_trip_rows(pairs@, i as int)[k];
                *r@[k].0 == pairs@[ix.0] && *r@[k].1 == pairs@[ix.1]
            },
        decreases n - i,
    {
        let ghost base = round_trip_rows(pairs@, i as int);
        let mut j: usize = 0;
        while j < n
            invariant
                n == pairs@.len(),
                i < n,
                j <= n,
                base == round_trip_rows(pairs@, i as int),
                r@.len() == base.len() + round_trip_row(pairs@, i as int, j as int).len(),
                forall|k: int| 0 <= k < r@.len() ==> {
                    let ix = #[trigger] (base + round_trip_row(pairs@, i as int, j as int))[k];
                    *r@[k].0 == pairs@[ix.0] && *r@[k].1 == pairs@[ix.1]
                },
            decreases n - j,
        {
            let p1 = &pairs[i];
            let p2 = &pairs[j];
            let take = p1.from.ticker == p2.to.ticker && p1.to.ticker == p2.from.ticker
                && !(p1.from.chain.name == p2.from.chain.name);
            proof {
                if take {
                    assert(p1@.from != p2@.from);
                }
            }
            assert(take == is_cross_chain_round_trip(pairs@[i as int], pairs@[j as int]));
            let ghost before = base + round_trip_row(pairs@, i as int, j as int);
            if take {
                r.push((p1, p2));
                assert(base + round_trip_row(pairs@, i as int, j + 1) == before.push((i as int, j as int)));
            } else {
                assert(base + round_trip_row(pairs@, i as int, j + 1) == before);
            }
            j += 1;
        }
        assert(round_trip_rows(pairs@, i + 1) == base + round_trip_row(pairs@, i as int, n as int));
        i += 1;
    }
    proof {
        lemma_round_trips_explicit(pairs@, r@);
    }
    r
}

proof fn lemma_round_trip_row_complete(ps: Seq<Pair>, i: int, m: int, j: int)
    requires
        0 <= j < m <= ps.len(),
        is_cross_chain_round_trip(ps[i], ps[j]),
    ensures
        exists|k: int| 0 <= k < round_trip_row(ps, i, m).len() && #[trigger] round_trip_row(ps, i, m)[k] == (i, j),
    decreases m,
{
    if j < m - 1 {
        lemma_round_trip_row_complete(ps, i, m - 1, j);
        let k = choose|k: int| 0 <= k < round_trip_row(ps, i, m - 1).len() && #[trigger] round_trip_row(ps, i, m - 1)[k] == (i, j);
        assert(round_trip_row(ps, i, m)[k] == (i, j));
    } else {
        let k = round_trip_row(ps, i, m - 1).len() as int;
        assert(round_trip_row(ps, i, m)[k] == (i, j));
    }
}

proof fn lemma_round_trip_row_sound(ps: Seq<Pair>, i: int, m: int)
    requires
        0 <= m <= ps.len(),
    ensures
        forall|k: int| 0 <= k < round_trip_row(ps, i, m).len() ==> {
            let ix = #[trigger] round_trip_row(ps, i, m)[k];
            ix.0 == i && 0 <= ix.1 < m && is_cross_chain_round_trip(ps[i], ps[ix.1])
        },
    decreases m,
{
    if m > 0 {
        lemma_round_trip_row_sound(ps, i, m - 1);
        let prev = round_trip_row(ps, i, m - 1);
        assert forall|k: int| 0 <= k < round_trip_row(ps, i, m).len() implies {
            let ix = #[trigger] round_trip_row(ps, i, m)[k];
            ix.0 == i && 0 <= ix.1 < m && is_cross_chain_round_trip(ps[i], ps[ix.1])
        } by {
            if k < prev.len() {
                assert(round_trip_row(ps, i, m)[k] == prev[k]);
            }
        }
    }
}

proof fn lemma_round_trip_rows_complete(ps: Seq<Pair>, m: int, i: int, j: int)
    requires
        0 <= i < m <= ps.len(),
        0 <= j < ps.len(),
        is_cross_chain_round_trip(ps[i], ps[j]),
    ensures
        exists|k: int| 0 <= k < round_trip_rows(ps, m).len() && #[trigger] round_trip_rows(ps, m)[k] == (i, j),
    decreases m,
{
    let prev = round_trip_rows(ps, m - 1);
    let row = round_trip_row(ps, m - 1, ps.len() as int);
    assert(round_trip_rows(ps, m) == prev + row);
    if i < m - 1 {
        lemma_round_trip_rows_complete(ps, m - 1, i, j);
        let k = choose|k: int| 0 <= k < prev.len() && #[trigger] prev[k] == (i, j);
        assert(round_trip_rows(ps, m)[k] == (i, j));
    } else {
        lemma_round_trip_row_complete(ps, i, ps.len() as int, j);
        let k = choose|k: int| 0 <= k < row.len() && #[trigger] row[k] == (i, j);
        assert(round_trip_rows(ps, m)[prev.len() + k] == (i, j));
    }
}

proof fn lemma_round_trip_rows_sound(ps: Seq<Pair>, m: int)
    requires
        0 <= m <= ps.len(),
    ensures
        forall|k: int| 0 <= k < round_trip_rows(ps, m).len() ==> {
            let ix = #[trigger] round_trip_rows(ps, m)[k];
            0 <= ix.0 < m && 0 <= ix.1 < ps.len() && is_cross_chain_round_trip(ps[ix.0], ps[ix.1])
        },
    decreases m,
{
    if m > 0 {
        lemma_round_trip_rows_sound(ps, m - 1);
        lemma_round_trip_row_sound(ps, m - 1, ps.len() as int);
        let prev = round_trip_rows(ps, m - 1);
        let row = round_trip_row(ps, m - 1, ps.len() as int);
        assert forall|k: int| 0 <= k < round_trip_rows(ps, m).len() implies {
            let ix = #[trigger] round_trip_rows(ps, m)[k];
            0 <= ix.0 < m && 0 <= ix.1 < ps.len() && is_cross_chain_round_trip(ps[ix.0], ps[ix.1])
        } by {
            if k < prev.len() {
                assert(round_trip_rows(ps, m)[k] == prev[k]);
            } else {
                assert(round_trip_rows(ps, m)[k] == row[k - prev.len()]);
            }
        }
    }
}

/// Law: the round trips listed among the pairs are exactly the round trips:
/// every two pairs that make one, the last pair of the list included, are
/// listed, and every listed entry is one.
pub proof fn lemma_round_trips_listed(ps: Seq<Pair>, i: int, j: int)
    requires
        0 <= i < ps.len(),
        0 <= j < ps.len(),
    ensures
        is_cross_chain_round_trip(ps[i], ps[j]) ==> exists|k: int|
            0 <= k < round_trip_rows(ps, ps.len() as int).len() && #[trigger] round_trip_rows(ps, ps.len() as int)[k]
                == (i, j),
        forall|k: int| 0 <= k < round_trip_rows(ps, ps.len() as int).len() ==> {
            let ix = #[trigger] round_trip_rows(ps, ps.len() as int)[k];
            0 <= ix.0 < ps.len() && 0 <= ix.1 < ps.len() && is_cross_chain_round_trip(ps[ix.0], ps[ix.1])
        },
{
    if is_cross_chain_round_trip(ps[i], ps[j]) {
        lemma_round_trip_rows_complete(ps, ps.len() as int, i, j);
    }
    lemma_round_trip_rows_sound(ps, ps.len() as int);
}

proof fn lemma_round_trips_explicit<'a>(ps: Seq<Pair<'a>>, r: Seq<(&'a Pair<'a>, &'a Pair<'a>)>)
    requires
        r.len() == round_trip_rows(ps, ps.len() as int).len(),
        forall|k: int| 0 <= k < r.len() ==> {
            let ix = #[trigger] round_trip_rows(ps, ps.len() as int)[k];
            *r[k].0 == ps[ix.0] && *r[k].1 == ps[ix.1]
        },
    ensures
        forall|i: int, j: int|
            #![trigger ps[i], ps[j]]
            0 <= i < ps.len() && 0 <= j < ps.len() && ps[i]@ != ps[j]@ && ps[i].from@.ticker == ps[j].to@.ticker
                && ps[i].to@.ticker == ps[j].from@.ticker && ps[i].from@.chain.name != ps[j].from@.chain.name
                ==> exists|k: int| 0 <= k < r.len() && *r[k].0 == ps[i] && *r[k].1 == ps[j],
        forall|k: int| #![trigger r[k]] 0 <= k < r.len() ==> {
            &&& r[k].0@ != r[k].1@
            &&& r[k].0.from@.ticker == r[k].1.to@.ticker
            &&& r[k].0.to@.ticker == r[k].1.from@.ticker
            &&& r[k].0.from@.chain.name != r[k].1.from@.chain.name
        },
{
    let rows = round_trip_rows(ps, ps.len() as int);
    lemma_round_trip_rows_sound(ps, ps.len() as int);
    assert forall|i: int, j: int|
        #![trigger ps[i], ps[j]]
        0 <= i < ps.len() && 0 <= j < ps.len() && ps[i]@ != ps[j]@ && ps[i].from@.ticker == ps[j].to@.ticker
            && ps[i].to@.ticker == ps[j].from@.ticker && ps[i].from@.chain.name != ps[j].from@.chain.name
            implies exists|k: int| 0 <= k < r.len() && *r[k].0 == ps[i] && *r[k].1 == ps[j] by {
        assert(is_cross_chain_round_trip(ps[i], ps[j]));
        lemma_round_trip_rows_complete(ps, ps.len() as int, i, j);
        let k = choose|k: int| 0 <= k < rows.len() && #[trigger] rows[k] == (i, j);
        assert(*r[k].0 == ps[i] && *r[k].1 == ps[j]);
    }
    assert forall|k: int| #![trigger r[k]] 0 <= k < r.len() implies {
        &&& r[k].0@ != r[k].1@
        &&& r[k].0.from@.ticker == r[k].1.to@.ticker
        &&& r[k].0.to@.ticker == r[k].1.from@.ticker
        &&& r[k].0.from@.chain.name != r[k].1.from@.chain.name
    } by {
        let ix = rows[k];
        assert(is_cross_chain_round_trip(ps[ix.0], ps[ix.1]));
        assert(ps[ix.0] == *r[k].0);
        assert(ps[ix.1] == *r[k].1);
    }
}

} // verus!
