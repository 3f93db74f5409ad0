use vstd::prelude::*;

use crate::domain::token::{Token, TokenView};
use crate::domain::pair::{Pair, opt_texts};
use crate::config::copy_texts;

verus! {

/// An ordered pair of tokens: swap from the first into the second.
pub type TSimplePair<'a> = (&'a Token<'a>, &'a Token<'a>);

/// No two tokens of the list are equal.
pub open spec fn distinct_tokens(ts: Seq<Token>) -> bool {
    forall|i: int, j: int| 0 <= i < ts.len() && 0 <= j < ts.len() && i != j ==> ts[i]@ != ts[j]@
}

/// Another token of the list has the same ticker as token `i`.
pub open spec fn has_ticker_twin(ts: Seq<Token>, i: int) -> bool {
    exists|k: int| 0 <= k < ts.len() && k != i && #[trigger] ts[k]@.ticker == ts[i]@.ticker
}

/// Whether tokens `i` and `j` form a possible pair: two different tokens on
/// chains of the same name; across chains, also each of them has a ticker
/// that another token of the list shares.
pub open spec fn is_pair_enumeration(ts: Seq<Token>, i: int, j: int, cross_chain: bool) -> bool {
    &&& 0 <= i < ts.len()
    &&& 0 <= j < ts.len()
    &&& i != j
    &&& ts[i]@.chain.name == ts[j]@.chain.name
    &&& cross_chain ==> has_ticker_twin(ts, i) && has_ticker_twin(ts, j)
}

/// The pair is tokens `i` and `j`, in that order.
pub open spec fn is_pair_of<'a>(p: TSimplePair<'a>, ts: Seq<Token<'a>>, i: int, j: int) -> bool {
    *p.0 == ts[i] && *p.1 == ts[j]
}

/// Two pairs of the same tokens, in the same order.
pub open spec fn same_pair(p: TSimplePair, q: TSimplePair) -> bool {
    p.0@ == q.0@ && p.1@ == q.1@
}

/// Law: possible pairs come both ways round, never pair a token with
/// itself, and those across chains are among those on one chain.
pub proof fn lemma_pair_enumeration_shape(ts: Seq<Token>, i: int, j: int, cross_chain: bool)
    ensures
        is_pair_enumeration(ts, i, j, cross_chain) ==> is_pair_enumeration(ts, j, i, cross_chain),
        !is_pair_enumeration(ts, i, i, cross_chain),
        is_pair_enumeration(ts, i, j, true) ==> is_pair_enumeration(ts, i, j, false),
{
}

/// For each token, whether another token shares its ticker.
fn ticker_twins(tokens: &Vec<Token>) -> (r: Vec<bool>)
    ensures
        r@.len() == tokens@.len(),
        forall|i: int| 0 <= i < tokens@.len() ==> #[trigger] r@[i] == has_ticker_twin(tokens@, i),
        forall|i: int| 0 <= i < tokens@.len() ==> #[trigger] r@[i] == (exists|k: int|
            0 <= k < tokens@.len() && k != i && #[trigger] tokens@[k]@.ticker == tokens@[i]@.ticker),
{
    let mut r: Vec<bool> = Vec::new();
    let n = tokens.len();
    let mut i: usize = 0;
    while i < n
        invariant
            n == tokens@.len(),
            i <= n,
            r@.len() == i,
            forall|a: int| 0 <= a < i ==> #[trigger] r@[a] == has_ticker_twin(tokens@, a),
        decreases n - i,
    {
        let mut found = false;
        let mut k: usize = 0;
        while k < n
            invariant
                n == tokens@.len(),
                i < n,
                k <= n,
                found == (exists|b: int| 0 <= b < k && b != i && #[trigger] tokens@[b]@.ticker == tokens@[i as int]@.ticker),
            decreases n - k,
        {
            if k != i && tokens[k].ticker == tokens[i].ticker {
                assert(tokens@[k as int]@.ticker == tokens@[i as int]@.ticker);
                found = true;
            }
            k += 1;
        }
        r.push(found);
        i += 1;
    }
    r
}

/// The pairs `(i, b)` for `b < m` that are possible pairs, in order of `b`.
pub open spec fn pair_row(ts: Seq<Token>, cross_chain: bool, i: int, m: int) -> Seq<(int, int)>
    decreases m,
{
    if m <= 0 {
        Seq::empty()
    } else if is_pair_enumeration(ts, i, m - 1, cross_chain) {
        pair_row(ts, cross_chain, i, m - 1).push((i, m - 1))
    } else {
        pair_row(ts, cross_chain, i, m - 1)
    }
}

/// The possible pairs `(a, b)` for `a < m`, in order of `a` and then `b`.
pub open spec fn pair_rows(ts: Seq<Token>, cross_chain: bool, m: int) -> Seq<(int, int)>
    decreases m,
{
    if m <= 0 {
        Seq::empty()
    } else {
        pair_rows(ts, cross_chain, m - 1) + pair_row(ts, cross_chain, m - 1, ts.len() as int)
    }
}

/// Index pair `k` ranks strictly before index pair `l`.
pub open spec fn index_before(k: (int, int), l: (int, int)) -> bool {
    k.0 < l.0 || (k.0 == l.0 && k.1 < l.1)
}

proof fn lemma_pair_row(ts: Seq<Token>, cross_chain: bool, i: int, m: int)
    requires
        0 <= m,
    ensures
        forall|k: int| 0 <= k < pair_row(ts, cross_chain, i, m).len() ==> {
            let p = #[trigger] pair_row(ts, cross_chain, i, m)[k];
            p.0 == i && 0 <= p.1 < m && is_pair_enumeration(ts, p.0, p.1, cross_chain)
        },
        forall|b: int| 0 <= b < m && #[trigger] is_pair_enumeration(ts, i, b, cross_chain) ==> pair_row(ts, cross_chain, i, m).contains((i, b)),
        forall|k1: int, k2: int| 0 <= k1 < k2 < pair_row(ts, cross_chain, i, m).len() ==>
            #[trigger] pair_row(ts, cross_chain, i, m)[k1].1 < #[trigger] pair_row(ts, cross_chain, i, m)[k2].1,
    decreases m,
{
    if m > 0 {
        lemma_pair_row(ts, cross_chain, i, m - 1);
        let prev = pair_row(ts, cross_chain, i, m - 1);
        if is_pair_enumeration(ts, i, m - 1, cross_chain) {
            assert(pair_row(ts, cross_chain, i, m) == prev.push((i, m - 1)));
            assert forall|b: int| 0 <= b < m && #[trigger] is_pair_enumeration(ts, i, b, cross_chain) implies pair_row(ts, cross_chain, i, m).contains((i, b)) by {
                if b == m - 1 {
                    assert(pair_row(ts, cross_chain, i, m)[prev.len() as int] == (i, b));
                } else {
                    assert(prev.contains((i, b)));
                    let k = choose|k: int| 0 <= k < prev.len() && prev[k] == (i, b);
                    assert(pair_row(ts, cross_chain, i, m)[k] == (i, b));
                }
            }
        }
    }
}

proof fn lemma_pair_rows(ts: Seq<Token>, cross_chain: bool, m: int)
    requires
        0 <= m,
    ensures
        forall|k: int| 0 <= k < pair_rows(ts, cross_chain, m).len() ==> {
            let p = #[trigger] pair_rows(ts, cross_chain, m)[k];
            0 <= p.0 < m && is_pair_enumeration(ts, p.0, p.1, cross_chain)
        },
        forall|a: int, b: int| 0 <= a < m && #[trigger] is_pair_enumeration(ts, a, b, cross_chain) ==> pair_rows(ts, cross_chain, m).contains((a, b)),
        forall|k1: int, k2: int| 0 <= k1 < k2 < pair_rows(ts, cross_chain, m).len() ==>
            index_before(#[trigger] pair_rows(ts, cross_chain, m)[k1], #[trigger] pair_rows(ts, cross_chain, m)[k2]),
    decreases m,
{
    if m > 0 {
        lemma_pair_rows(ts, cross_chain, m - 1);
        lemma_pair_row(ts, cross_chain, m - 1, ts.len() as int);
        let prev = pair_rows(ts, cross_chain, m - 1);
        let row = pair_row(ts, cross_chain, m - 1, ts.len() as int);
        let all = pair_rows(ts, cross_chain, m);
        assert(all == prev + row);
        assert forall|k: int| 0 <= k < all.len() implies {
            let p = #[trigger] all[k];
            0 <= p.0 < m && is_pair_enumeration(ts, p.0, p.1, cross_chain)
        } by {
            if k >= prev.len() {
                assert(all[k] == row[k - prev.len()]);
            }
        }
        assert forall|a: int, b: int| 0 <= a < m && #[trigger] is_pair_enumeration(ts, a, b, cross_chain) implies all.contains((a, b)) by {
            if a == m - 1 {
                let k = choose|k: int| 0 <= k < row.len() && row[k] == (a, b);
                assert(all[prev.len() + k] == (a, b));
            } else {
                let k = choose|k: int| 0 <= k < prev.len() && prev[k] == (a, b);
                assert(all[k] == (a, b));
            }
        }
        assert forall|k1: int, k2: int| 0 <= k1 < k2 < all.len() implies index_before(#[trigger] all[k1], #[trigger] all[k2]) by {
            if k2 < prev.len() {
                assert(index_before(prev[k1], prev[k2]));
            } else if k1 >= prev.len() {
                assert(row[k1 - prev.len()].1 < row[k2 - prev.len()].1);
            } else {
                assert(all[k1] == prev[k1]);
                assert(all[k2] == row[k2 - prev.len()]);
            }
        }
    }
}

/// Appends the pairs of row `i` to `r`.
fn push_pair_row<'a>(
    tokens: &'a Vec<Token<'a>>,
    twins: &Vec<bool>,
    cross_chain: bool,
    i: usize,
    r: &mut Vec<TSimplePair<'a>>,
    Ghost(idx): Ghost<Seq<(int, int)>>,
)
    requires
        i < tokens@.len(),
        twins@.len() == tokens@.len(),
        forall|a: int| 0 <= a < tokens@.len() ==> #[trigger] twins@[a] == has_ticker_twin(tokens@, a),
        old(r)@.len() == idx.len(),
        forall|k: int| 0 <= k < idx.len() ==> #[trigger] is_pair_of(old(r)@[k], tokens@, idx[k].0, idx[k].1),
    ensures
        final(r)@.len() == idx.len() + pair_row(tokens@, cross_chain, i as int, tokens@.len() as int).len(),
        forall|k: int| 0 <= k < final(r)@.len() ==> {
            let ix = #[trigger] (idx + pair_row(tokens@, cross_chain, i as int, tokens@.len() as int))[k];
            is_pair_of(final(r)@[k], tokens@, ix.0, ix.1)
        },
{
    let n = tokens.len();
    let mut j: usize = 0;
    while j < n
        invariant
            n == tokens@.len(),
            i < n,
            j <= n,
            twins@.len() == n,
            forall|a: int| 0 <= a < n ==> #[trigger] twins@[a] == has_ticker_twin(tokens@, a),
            r@.len() == idx.len() + pair_row(tokens@, cross_chain, i as int, j as int).len(),
            forall|k: int| 0 <= k < r@.len() ==> {
                let ix = #[trigger] (idx + pair_row(tokens@, cross_chain, i as int, j as int))[k];
                is_pair_of(r@[k], tokens@, ix.0, ix.1)
            },
        decreases n - j,
    {
        let take = i != j && tokens[i].chain.name == tokens[j].chain.name && (!cross_chain || (twins[i] && twins[j]));
        assert(take == is_pair_enumeration(tokens@, i as int, j as int, cross_chain));
        let ghost before = idx + pair_row(tokens@, cross_chain, i as int, j as int);
        if take {
            r.push((&tokens[i], &tokens[j]));
            assert(idx + pair_row(tokens@, cross_chain, i as int, j + 1) == before.push((i as int, j as int)));
        } else {
            assert(idx + pair_row(tokens@, cross_chain, i as int, j + 1) == before);
        }
        j += 1;
    }
}

/// The pair is some possible pair of the tokens.
pub open spec fn is_possible_pair<'a>(p: TSimplePair<'a>, ts: Seq<Token<'a>>, cross_chain: bool) -> bool {
    exists|i: int, j: int| is_pair_enumeration(ts, i, j, cross_chain) && #[trigger] is_pair_of(p, ts, i, j)
}

/// The list holds the pair of tokens `i` and `j`.
pub open spec fn lists_pair<'a>(r: Seq<TSimplePair<'a>>, ts: Seq<Token<'a>>, i: int, j: int) -> bool {
    exists|k: int| 0 <= k < r.len() && #[trigger] is_pair_of(r[k], ts, i, j)
}

proof fn lemma_enumeration_result<'a>(ts: Seq<Token<'a>>, cross_chain: bool, r: Seq<TSimplePair<'a>>)
    requires
        distinct_tokens(ts),
        r.len() == pair_rows(ts, cross_chain, ts.len() as int).len(),
        forall|k: int| 0 <= k < r.len() ==> {
            let ix = #[trigger] pair_rows(ts, cross_chain, ts.len() as int)[k];
            is_pair_of(r[k], ts, ix.0, ix.1)
        },
    ensures
        forall|k: int| 0 <= k < r.len() ==> is_possible_pair(#[trigger] r[k], ts, cross_chain),
        forall|i: int, j: int| #[trigger] is_pair_enumeration(ts, i, j, cross_chain) ==> lists_pair(r, ts, i, j),
        forall|k1: int, k2: int| 0 <= k1 < r.len() && 0 <= k2 < r.len() && k1 != k2 ==> !same_pair(#[trigger] r[k1], #[trigger] r[k2]),
{
    let all = pair_rows(ts, cross_chain, ts.len() as int);
    lemma_pair_rows(ts, cross_chain, ts.len() as int);
    assert forall|k: int| 0 <= k < r.len() implies is_possible_pair(#[trigger] r[k], ts, cross_chain) by {
        let ix = all[k];
        assert(is_pair_enumeration(ts, ix.0, ix.1, cross_chain));
        assert(is_pair_of(r[k], ts, ix.0, ix.1));
    }
    assert forall|a: int, b: int| #[trigger] is_pair_enumeration(ts, a, b, cross_chain) implies lists_pair(r, ts, a, b) by {
        assert(all.contains((a, b)));
        let k = choose|k: int| 0 <= k < all.len() && all[k] == (a, b);
        assert(is_pair_of(r[k], ts, a, b));
    }
    assert forall|k1: int, k2: int| 0 <= k1 < r.len() && 0 <= k2 < r.len() && k1 != k2 implies !same_pair(#[trigger] r[k1], #[trigger] r[k2]) by {
        if k1 < k2 {
            assert(index_before(all[k1], all[k2]));
        } else {
            assert(index_before(all[k2], all[k1]));
        }
        assert(is_pair_of(r[k1], ts, all[k1].0, all[k1].1));
        assert(is_pair_of(r[k2], ts, all[k2].0, all[k2].1));
    }
}

/// All possible pairs among the tokens, each once: two different tokens on
/// chains of the same name; with `cross_chain`, only tokens whose ticker
/// another token shares. The order of the pairs is left open.
pub fn get_possible_pairs_enumerations<'a>(tokens: &'a Vec<Token<'a>>, cross_chain: bool) -> (r: Vec<TSimplePair<'a>>)
    requires
        distinct_tokens(tokens@),
    ensures
        forall|k: int| 0 <= k < r@.len() ==> is_possible_pair(#[trigger] r@[k], tokens@, cross_chain),
        forall|i: int, j: int| #[trigger] is_pair_enumeration(tokens@, i, j, cross_chain) ==> lists_pair(r@, tokens@, i, j),
        forall|k1: int, k2: int|
            0 <= k1 < r@.len() && 0 <= k2 < r@.len() && k1 != k2 ==> !same_pair(#[trigger] r@[k1], #[trigger] r@[k2]),
        forall|i: int, j: int|
            #![trigger tokens@[i], tokens@[j]]
            0 <= i < tokens@.len() && 0 <= j < tokens@.len() && i != j && tokens@[i]@.chain.name
                == tokens@[j]@.chain.name && (cross_chain ==> (exists|a: int|
                0 <= a < tokens@.len() && a != i && #[trigger] tokens@[a]@.ticker == tokens@[i]@.ticker) && (exists|b: int|
                0 <= b < tokens@.len() && b != j && #[trigger] tokens@[b]@.ticker == tokens@[j]@.ticker))
                ==> exists|k: int| 0 <= k < r@.len() && *r@[k].0 == tokens@[i] && *r@[k].1 == tokens@[j],
        forall|k: int| #![trigger r@[k]] 0 <= k < r@.len() ==> {
            &&& exists|i: int| 0 <= i < tokens@.len() && #[trigger] tokens@[i] == *r@[k].0
            &&& exists|j: int| 0 <= j < tokens@.len() && #[trigger] tokens@[j] == *r@[k].1
            &&& r@[k].0@ != r@[k].1@
            &&& r@[k].0@.chain.name == r@[k].1@.chain.name
            &&& cross_chain ==> exists|a: int|
                0 <= a < tokens@.len() && #[trigger] tokens@[a]@ != r@[k].0@ && tokens@[a]@.ticker == r@[k].0@.ticker
            &&& cross_chain ==> exists|b: int|
                0 <= b < tokens@.len() && #[trigger] tokens@[b]@ != r@[k].1@ && tokens@[b]@.ticker == r@[k].1@.ticker
        },
{
    let twins = ticker_twins(tokens);
    let n = tokens.len();
    let mut r: Vec<TSimplePair<'a>> = Vec::new();
    let mut i: usize = 0;
    while i < n
        invariant
            n == tokens@.len(),
            twins@.len() == n,
            forall|a: int| 0 <= a < n ==> #[trigger] twins@[a] == has_ticker_twin(tokens@, a),
            i <= n,
            r@.len() == pair_rows(tokens@, cross_chain, i as int).len(),
            forall|k: int| 0 <= k < r@.len() ==> {
                let ix = #[trigger] pair_rows(tokens@, cross_chain, i as int)[k];
                is_pair_of(r@[k], tokens@, ix.0, ix.1)
            },
        decreases n - i,
    {
        push_pair_row(tokens, &twins, cross_chain, i, &mut r, Ghost(pair_rows(tokens@, cross_chain, i as int)));
        assert(pair_rows(tokens@, cross_chain, i + 1) == pair_rows(tokens@, cross_chain, i as int) + pair_row(
            tokens@,
            cross_chain,
            i as int,
            n as int,
        ));
        i += 1;
    }
    proof {
        lemma_enumeration_result(tokens@, cross_chain, r@);
        lemma_enumeration_explicit(tokens@, cross_chain, r@);
    }
    r
}

proof fn lemma_enumeration_explicit<'a>(tokens: Seq<Token<'a>>, cross_chain: bool, r: Seq<TSimplePair<'a>>)
    requires
        distinct_tokens(tokens),
        forall|k: int| 0 <= k < r.len() ==> is_possible_pair(#[trigger] r[k], tokens, cross_chain),
        forall|i: int, j: int| #[trigger] is_pair_enumeration(tokens, i, j, cross_chain) ==> lists_pair(r, tokens, i, j),
    ensures
        forall|i: int, j: int|
            #![trigger tokens[i], tokens[j]]
            0 <= i < tokens.len() && 0 <= j < tokens.len() && i != j && tokens[i]@.chain.name
                == tokens[j]@.chain.name && (cross_chain ==> (exists|a: int|
                0 <= a < tokens.len() && a != i && #[trigger] tokens[a]@.ticker == tokens[i]@.ticker) && (exists|b: int|
                0 <= b < tokens.len() && b != j && #[trigger] tokens[b]@.ticker == tokens[j]@.ticker))
                ==> exists|k: int| 0 <= k < r.len() && *r[k].0 == tokens[i] && *r[k].1 == tokens[j],
        forall|k: int| #![trigger r[k]] 0 <= k < r.len() ==> {
            &&& exists|i: int| 0 <= i < tokens.len() && #[trigger] tokens[i] == *r[k].0
            &&& exists|j: int| 0 <= j < tokens.len() && #[trigger] tokens[j] == *r[k].1
            &&& r[k].0@ != r[k].1@
            &&& r[k].0@.chain.name == r[k].1@.chain.name
            &&& cross_chain ==> exists|a: int|
                0 <= a < tokens.len() && #[trigger] tokens[a]@ != r[k].0@ && tokens[a]@.ticker == r[k].0@.ticker
            &&& cross_chain ==> exists|b: int|
                0 <= b < tokens.len() && #[trigger] tokens[b]@ != r[k].1@ && tokens[b]@.ticker == r[k].1@.ticker
        },
{
        assert forall|i: int, j: int|
            #![trigger tokens[i], tokens[j]]
            0 <= i < tokens.len() && 0 <= j < tokens.len() && i != j && tokens[i]@.chain.name
                == tokens[j]@.chain.name && (cross_chain ==> (exists|a: int|
                0 <= a < tokens.len() && a != i && #[trigger] tokens[a]@.ticker == tokens[i]@.ticker) && (exists|b: int|
                0 <= b < tokens.len() && b != j && #[trigger] tokens[b]@.ticker == tokens[j]@.ticker))
                implies exists|k: int| 0 <= k < r.len() && *r[k].0 == tokens[i] && *r[k].1 == tokens[j] by {
            assert(is_pair_enumeration(tokens, i, j, cross_chain));
            assert(lists_pair(r, tokens, i, j));
            let k = choose|k: int| 0 <= k < r.len() && #[trigger] is_pair_of(r[k], tokens, i, j);
            assert(*r[k].0 == tokens[i] && *r[k].1 == tokens[j]);
        }
        assert forall|k: int| #![trigger r[k]] 0 <= k < r.len() implies {
            &&& exists|i: int| 0 <= i < tokens.len() && #[trigger] tokens[i] == *r[k].0
            &&& exists|j: int| 0 <= j < tokens.len() && #[trigger] tokens[j] == *r[k].1
            &&& r[k].0@ != r[k].1@
            &&& r[k].0@.chain.name == r[k].1@.chain.name
            &&& cross_chain ==> exists|a: int|
                0 <= a < tokens.len() && #[trigger] tokens[a]@ != r[k].0@ && tokens[a]@.ticker == r[k].0@.ticker
            &&& cross_chain ==> exists|b: int|
                0 <= b < tokens.len() && #[trigger] tokens[b]@ != r[k].1@ && tokens[b]@.ticker == r[k].1@.ticker
        } by {
            assert(is_possible_pair(r[k], tokens, cross_chain));
            let (i, j) = choose|i: int, j: int| is_pair_enumeration(tokens, i, j, cross_chain) && #[trigger] is_pair_of(r[k], tokens, i, j);
            assert(tokens[i] == *r[k].0);
            assert(tokens[j] == *r[k].1);
            if cross_chain {
                let a = choose|a: int| 0 <= a < tokens.len() && a != i && #[trigger] tokens[a]@.ticker == tokens[i]@.ticker;
                assert(tokens[a]@ != r[k].0@);
                let b = choose|b: int| 0 <= b < tokens.len() && b != j && #[trigger] tokens[b]@.ticker == tokens[j]@.ticker;
                assert(tokens[b]@ != r[k].1@);
            }
        }
}

/// Law: two different tokens with the same ticker each have a ticker twin,
/// wherever in the list they stand.
pub proof fn lemma_twins_shared(ts: Seq<Token>, i: int, j: int)
    requires
        0 <= i < ts.len(),
        0 <= j < ts.len(),
        i != j,
        ts[i]@.ticker == ts[j]@.ticker,
    ensures
        has_ticker_twin(ts, i),
        has_ticker_twin(ts, j),
{
    assert(ts[j]@.ticker == ts[i]@.ticker);
    assert(ts[i]@.ticker == ts[j]@.ticker);
}


/// How many pairs of the list are the same as `p`.
pub open spec fn pair_count(ps: Seq<TSimplePair>, p: TSimplePair) -> nat
    decreases ps.len(),
{
    if ps.len() == 0 {
        0
    } else {
        pair_count(ps.drop_last(), p) + if same_pair(ps.last(), p) {
            1nat
        } else {
            0nat
        }
    }
}

/// The names of the providers that list `p` among the first `n` entries, a
/// name once for each time its provider lists the pair, in the order of the
/// entries.
pub open spec fn provider_names(av: Seq<(String, Vec<TSimplePair>)>, p: TSimplePair, n: int) -> Seq<Seq<char>>
    decreases n,
{
    if n <= 0 || n > av.len() {
        Seq::empty()
    } else {
        provider_names(av, p, n - 1) + Seq::new(pair_count(av[n - 1].1@, p), |k: int| av[n - 1].0@)
    }
}

/// The pair's tokens are those of a pair that some provider lists.
pub open spec fn taken_from_listing<'a>(av: Seq<(String, Vec<TSimplePair<'a>>)>, from: &'a Token<'a>, to: &'a Token<'a>) -> bool {
    exists|i: int, m: int| 0 <= i < av.len() && 0 <= m < av[i].1@.len() && #[trigger] av[i].1@[m] == (from, to)
}

/// The providers' names for `p` after the first `i` entries and the first
/// `m` pairs of entry `i`.
pub open spec fn names_so_far(av: Seq<(String, Vec<TSimplePair>)>, p: TSimplePair, i: int, m: int) -> Seq<Seq<char>> {
    provider_names(av, p, i) + Seq::new(pair_count(av[i].1@.take(m), p), |k: int| av[i].0@)
}

/// Whether two simple pairs hold the same tokens in the same order.
fn same_simple_pair(p: TSimplePair, q: TSimplePair) -> (r: bool)
    ensures
        r == same_pair(p, q),
{
    p.0.same(q.0) && p.1.same(q.1)
}

proof fn lemma_count_take_step(ps: Seq<TSimplePair>, p: TSimplePair, m: int)
    requires
        0 <= m < ps.len(),
    ensures
        pair_count(ps.take(m + 1), p) == pair_count(ps.take(m), p) + if same_pair(ps[m], p) {
            1nat
        } else {
            0nat
        },
{
    assert(ps.take(m + 1).drop_last() =~= ps.take(m));
}

/// Merges what each provider reported as available into one pair per
/// distinct token pair, listing the providers that reported it (a name for
/// each report, in the order of the reports); no pool address or fee.
/// The order of the pairs is left open.
pub fn merge_available_pairs<'a>(availability: &Vec<(String, Vec<TSimplePair<'a>>)>) -> (r: Vec<Pair<'a>>)
    ensures
        forall|k: int| 0 <= k < r@.len() ==> taken_from_listing(availability@, #[trigger] r@[k].from, r@[k].to),
        forall|k: int| 0 <= k < r@.len() ==> (#[trigger] r@[k]).pool_address is None && r@[k].fee_percent is None
            && opt_texts(r@[k].providers) == Some(provider_names(
                availability@,
                (r@[k].from, r@[k].to),
                availability@.len() as int,
            )),
        forall|i: int, m: int| 0 <= i < availability@.len() && 0 <= m < availability@[i].1@.len() ==> has_merged_pair(r@, #[trigger] availability@[i].1@[m]),
        forall|k1: int, k2: int| 0 <= k1 < r@.len() && 0 <= k2 < r@.len() && k1 != k2 ==> !same_pair(
            (#[trigger] r@[k1].from, r@[k1].to),
            (#[trigger] r@[k2].from, r@[k2].to),
        ),
{
    let mut keys: Vec<TSimplePair<'a>> = Vec::new();
    let mut names: Vec<Vec<String>> = Vec::new();
    let mut i: usize = 0;
    while i < availability.len()
        invariant
            i <= availability@.len(),
            keys@.len() == names@.len(),
            forall|k: int| 0 <= k < keys@.len() ==> taken_from_listing(availability@, (#[trigger] keys@[k]).0, keys@[k].1),
            forall|k: int| 0 <= k < keys@.len() ==> (#[trigger] names@[k]).deep_view() == provider_names(availability@, keys@[k], i as int),
            forall|a: int, m: int| 0 <= a < i && 0 <= m < availability@[a].1@.len() ==> has_key(keys@, #[trigger] availability@[a].1@[m]),
            forall|k1: int, k2: int| 0 <= k1 < keys@.len() && 0 <= k2 < keys@.len() && k1 != k2 ==> !same_pair(
                #[trigger] keys@[k1],
                #[trigger] keys@[k2],
            ),
        decreases availability.len() - i,
    {
        let name = &availability[i].0;
        let listed = &availability[i].1;
        let mut m: usize = 0;
        assert forall|k: int| 0 <= k < keys@.len() implies (#[trigger] names@[k]).deep_view() == names_so_far(availability@, keys@[k], i as int, 0) by {
            assert(listed@.take(0) =~= Seq::<TSimplePair>::empty());
            assert(names_so_far(availability@, keys@[k], i as int, 0) =~= provider_names(availability@, keys@[k], i as int));
        }
        while m < listed.len()
            invariant
                i < availability@.len(),
                *name == availability@[i as int].0,
                *listed == availability@[i as int].1,
                m <= listed@.len(),
                keys@.len() == names@.len(),
                forall|k: int| 0 <= k < keys@.len() ==> taken_from_listing(availability@, (#[trigger] keys@[k]).0, keys@[k].1),
                forall|k: int| 0 <= k < keys@.len() ==> (#[trigger] names@[k]).deep_view() == names_so_far(availability@, keys@[k], i as int, m as int),
                forall|a: int, b: int| 0 <= a < i && 0 <= b < availability@[a].1@.len() ==> has_key(keys@, #[trigger] availability@[a].1@[b]),
                forall|b: int| 0 <= b < m ==> has_key(keys@, #[trigger] listed@[b]),
                forall|k1: int, k2: int| 0 <= k1 < keys@.len() && 0 <= k2 < keys@.len() && k1 != k2 ==> !same_pair(
                    #[trigger] keys@[k1],
                    #[trigger] keys@[k2],
                ),
            decreases listed.len() - m,
        {
            let pair = listed[m];
            proof {
                lemma_count_take_step(listed@, pair, m as int);
                assert forall|k: int| 0 <= k < keys@.len() implies pair_count(listed@.take(m + 1), #[trigger] keys@[k])
                    == pair_count(listed@.take(m as int), keys@[k]) + if same_pair(pair, keys@[k]) { 1nat } else { 0nat } by {
                    lemma_count_take_step(listed@, keys@[k], m as int);
                }
                assert(availability@[i as int].1@[m as int] == pair);
            }
            let mut found: usize = keys.len();
            let mut k: usize = 0;
            while k < keys.len()
                invariant
                    k <= keys@.len(),
                    found == keys@.len() || (found < keys@.len() && same_pair(keys@[found as int], pair)),
                    found == keys@.len() ==> forall|c: int| 0 <= c < k ==> !same_pair(#[trigger] keys@[c], pair),
                decreases keys.len() - k,
            {
                if found == keys.len() && same_simple_pair(keys[k], pair) {
                    found = k;
                }
                k += 1;
            }
            let ghost old_keys = keys@;
            let ghost old_names = names@;
            if found < keys.len() {
                let nm = name.clone();
                let ghost nm_g = nm;
                names[found].push(nm);
                proof {
                    assert(has_key(keys@, listed@[m as int]));
                    assert forall|c: int| 0 <= c < keys@.len() implies (#[trigger] names@[c]).deep_view() == names_so_far(availability@, keys@[c], i as int, m + 1) by {
                        let prev = names_so_far(availability@, keys@[c], i as int, m as int);
                        if c == found {
                            assert(same_pair(pair, keys@[c]));
                            assert(names_so_far(availability@, keys@[c], i as int, m + 1) =~= prev.push(name@));
                            assert(names@[c]@ == old_names[c]@.push(nm_g));
                            assert(names@[c].deep_view() =~= old_names[c].deep_view().push(name@));
                        } else {
                            assert(names@[c] == old_names[c]);
                            assert(!same_pair(pair, keys@[c])) by {
                                if same_pair(pair, keys@[c]) {
                                    assert(same_pair(keys@[c], keys@[found as int]));
                                }
                            }
                            assert(names_so_far(availability@, keys@[c], i as int, m + 1) =~= prev);
                        }
                    }
                }
            } else {
                let mut first: Vec<String> = Vec::new();
                first.push(name.clone());
                keys.push(pair);
                names.push(first);
                proof {
                    assert(keys@ == old_keys.push(pair));
                    assert forall|a: int, b: int| 0 <= a < i && 0 <= b < availability@[a].1@.len() implies has_key(keys@, #[trigger] availability@[a].1@[b]) by {
                        lemma_has_key_push(old_keys, pair, availability@[a].1@[b]);
                    }
                    assert forall|b: int| 0 <= b < m implies has_key(keys@, #[trigger] listed@[b]) by {
                        lemma_has_key_push(old_keys, pair, listed@[b]);
                    }
                    assert(same_pair(keys@[old_keys.len() as int], listed@[m as int]));
                    assert(has_key(keys@, listed@[m as int]));
                    assert forall|c: int| 0 <= c < keys@.len() implies (#[trigger] names@[c]).deep_view() == names_so_far(availability@, keys@[c], i as int, m + 1) by {
                        if c == old_keys.len() {
                            assert forall|a: int, b: int| 0 <= a < i && 0 <= b < availability@[a].1@.len() implies !same_pair(#[trigger] availability@[a].1@[b], pair) by {
                                assert(has_key(old_keys, availability@[a].1@[b]));
                                let w = choose|w: int| 0 <= w < old_keys.len() && #[trigger] same_pair(old_keys[w], availability@[a].1@[b]);
                                assert(!same_pair(old_keys[w], pair));
                            }
                            lemma_names_unlisted(availability@, pair, i as int);
                            assert forall|b: int| 0 <= b < listed@.take(m as int).len() implies !same_pair(#[trigger] listed@.take(m as int)[b], pair) by {
                                assert(has_key(old_keys, listed@[b]));
                                let w = choose|w: int| 0 <= w < old_keys.len() && #[trigger] same_pair(old_keys[w], listed@[b]);
                                assert(!same_pair(old_keys[w], pair));
                            }
                            lemma_count_unlisted(listed@.take(m as int), pair);
                            assert(names_so_far(availability@, keys@[c], i as int, m + 1) =~= seq![name@]);
                            assert(names@[c].deep_view() =~= seq![name@]);
                        } else {
                            assert(keys@[c] == old_keys[c]);
                            assert(names@[c] == old_names[c]);
                            assert(!same_pair(pair, keys@[c]));
                            assert(names_so_far(availability@, keys@[c], i as int, m + 1) =~= names_so_far(availability@, keys@[c], i as int, m as int));
                        }
                    }
                }
            }
            m += 1;
        }
        proof {
            assert(listed@.take(listed@.len() as int) =~= listed@);
            assert forall|a: int, b: int| 0 <= a < i + 1 && 0 <= b < availability@[a].1@.len() implies has_key(keys@, #[trigger] availability@[a].1@[b]) by {
                if a == i {
                    assert(availability@[a].1@[b] == listed@[b]);
                }
            }
            assert forall|k: int| 0 <= k < keys@.len() implies (#[trigger] names@[k]).deep_view() == provider_names(availability@, keys@[k], i + 1) by {
                assert(names_so_far(availability@, keys@[k], i as int, listed@.len() as int) =~= provider_names(availability@, keys@[k], i + 1));
            }
        }
        i += 1;
    }
    let mut r: Vec<Pair<'a>> = Vec::new();
    let mut k: usize = 0;
    while k < keys.len()
        invariant
            keys@.len() == names@.len(),
            k <= keys@.len(),
            r@.len() == k,
            forall|c: int| 0 <= c < k ==> (#[trigger] r@[c]).from == keys@[c].0 && r@[c].to == keys@[c].1
                && r@[c].pool_address is None && r@[c].fee_percent is None
                && opt_texts(r@[c].providers) == Some(names@[c].deep_view()),
        decreases keys.len() - k,
    {
        let key = keys[k];
        r.push(Pair { from: key.0, to: key.1, providers: Some(copy_texts(&names[k])), pool_address: None, fee_percent: None });
        k += 1;
    }
    proof {
        assert forall|c: int| 0 <= c < r@.len() implies taken_from_listing(availability@, #[trigger] r@[c].from, r@[c].to) by {
            assert(keys@[c] == (r@[c].from, r@[c].to));
        }
        assert forall|a: int, m: int| 0 <= a < availability@.len() && 0 <= m < availability@[a].1@.len() implies has_merged_pair(r@, #[trigger] availability@[a].1@[m]) by {
            assert(has_key(keys@, availability@[a].1@[m]));
            let c = choose|c: int| 0 <= c < keys@.len() && #[trigger] same_pair(keys@[c], availability@[a].1@[m]);
            assert(keys@[c] == (r@[c].from, r@[c].to));
            assert(same_pair((r@[c].from, r@[c].to), availability@[a].1@[m]));
        }
        assert forall|k1: int, k2: int| 0 <= k1 < r@.len() && 0 <= k2 < r@.len() && k1 != k2 implies !same_pair(
            (#[trigger] r@[k1].from, r@[k1].to),
            (#[trigger] r@[k2].from, r@[k2].to),
        ) by {
            assert(!same_pair(keys@[k1], keys@[k2]));
        }
    }
    r
}

/// Some merged pair holds the same tokens as `p`, in the same order.
pub open spec fn has_merged_pair(r: Seq<Pair>, p: TSimplePair) -> bool {
    exists|k: int| 0 <= k < r.len() && #[trigger] same_pair((r[k].from, r[k].to), p)
}

/// Some key is the same pair as `p`.
pub open spec fn has_key(keys: Seq<TSimplePair>, p: TSimplePair) -> bool {
    exists|k: int| 0 <= k < keys.len() && #[trigger] same_pair(keys[k], p)
}

proof fn lemma_has_key_push(keys: Seq<TSimplePair>, q: TSimplePair, p: TSimplePair)
    requires
        has_key(keys, p),
    ensures
        has_key(keys.push(q), p),
{
    let k = choose|k: int| 0 <= k < keys.len() && #[trigger] same_pair(keys[k], p);
    assert(same_pair(keys.push(q)[k], p));
}

proof fn lemma_count_unlisted(ps: Seq<TSimplePair>, p: TSimplePair)
    requires
        forall|b: int| 0 <= b < ps.len() ==> !same_pair(#[trigger] ps[b], p),
    ensures
        pair_count(ps, p) == 0,
    decreases ps.len(),
{
    if ps.len() > 0 {
        assert forall|b: int| 0 <= b < ps.drop_last().len() implies !same_pair(#[trigger] ps.drop_last()[b], p) by {
            assert(ps.drop_last()[b] == ps[b]);
        }
        lemma_count_unlisted(ps.drop_last(), p);
    }
}

proof fn lemma_names_unlisted(av: Seq<(String, Vec<TSimplePair>)>, p: TSimplePair, n: int)
    requires
        0 <= n <= av.len(),
        forall|a: int, b: int| 0 <= a < n && 0 <= b < av[a].1@.len() ==> !same_pair(#[trigger] av[a].1@[b], p),
    ensures
        provider_names(av, p, n) == Seq::<Seq<char>>::empty(),
    decreases n,
{
    if n > 0 {
        lemma_names_unlisted(av, p, n - 1);
        assert forall|b: int| 0 <= b < av[n - 1].1@.len() implies !same_pair(#[trigger] av[n - 1].1@[b], p) by {}
        lemma_count_unlisted(av[n - 1].1@, p);
        assert(provider_names(av, p, n) =~= Seq::<Seq<char>>::empty());
    }
}

} // verus!
