use vstd::prelude::*;

use crate::domain::chain::Chain;
use crate::domain::pair::{Pair, opt_texts};
use crate::domain::token::{Token, TokenView, opt_text, opt_address, copy_opt_text};
use crate::orm::providers::{comma_free, lemma_providers_round_trip, split_on_comma, split_on_commas};
use crate::orm::records::{TokenModel, PairModel, stores_pair, stores_token};
use crate::utils::process_pairs::distinct_tokens;

verus! {

/// Chain `c` is the first of the list with the given name.
pub open spec fn is_first_chain_named(chains: Seq<Chain>, name: Seq<char>, c: int) -> bool {
    &&& 0 <= c < chains.len()
    &&& chains[c].name@ == name
    &&& forall|d: int| 0 <= d < c ==> #[trigger] chains[d].name@ != name
}

/// Some chain of the list has the given name.
pub open spec fn has_chain_named(chains: Seq<Chain>, name: Seq<char>) -> bool {
    exists|c: int| 0 <= c < chains.len() && #[trigger] chains[c].name@ == name
}

/// The token that a stored row describes, on the given chain.
pub open spec fn token_of_record(rec: TokenModel, chain: Chain) -> TokenView {
    TokenView {
        db_id: rec.id,
        ticker: rec.ticker@,
        chain: chain@,
        decimals: rec.decimals,
        name: opt_text(rec.name),
        address: opt_address(rec.address),
        price_usd: opt_text(rec.price_usd),
        volume_24h_usd: opt_text(rec.volume_24h_usd),
        market_provider_id: opt_text(rec.market_provider_id),
    }
}

/// The token is the one that row `j` describes, on the first chain of its
/// name.
pub open spec fn token_from_row<'a>(t: Token<'a>, records: Seq<TokenModel>, chains: Seq<Chain>, j: int) -> bool {
    0 <= j < records.len() && exists|c: int|
        is_first_chain_named(chains, records[j].chain@, c) && *t.chain == chains[c] && #[trigger] t@
            == token_of_record(records[j], chains[c])
}

/// The token is the one that some row describes.
pub open spec fn from_some_row<'a>(t: Token<'a>, records: Seq<TokenModel>, chains: Seq<Chain>) -> bool {
    exists|j: int| #[trigger] token_from_row(t, records, chains, j)
}

/// Some token of the list is the one that row `j` describes.
pub open spec fn lists_row_token<'a>(r: Seq<Token<'a>>, records: Seq<TokenModel>, chains: Seq<Chain>, j: int) -> bool {
    exists|k: int| 0 <= k < r.len() && #[trigger] token_from_row(r[k], records, chains, j)
}

/// The first chain with the given name.
fn find_chain<'a>(chains: &'a Vec<Chain>, name: &String) -> (r: &'a Chain)
    requires
        has_chain_named(chains@, name@),
    ensures
        exists|c: int| is_first_chain_named(chains@, name@, c) && *r == chains@[c],
{
    let mut c: usize = 0;
    while c < chains.len()
        invariant
            c <= chains@.len(),
            has_chain_named(chains@, name@),
            forall|d: int| 0 <= d < c ==> #[trigger] chains@[d].name@ != name@,
        decreases chains.len() - c,
    {
        if chains[c].name == *name {
            assert(is_first_chain_named(chains@, name@, c as int));
            return &chains[c];
        }
        c += 1;
    }
    proof {
        let w = choose|w: int| 0 <= w < chains@.len() && #[trigger] chains@[w].name@ == name@;
        assert(chains@[w].name@ != name@);
    }
    &chains[0]
}

/// The tokens that stored rows describe, each on the first chain of its
/// name, each distinct token once. The order is left open.
pub fn tokens_from_records<'a>(records: &Vec<TokenModel>, chains: &'a Vec<Chain>) -> (r: Vec<Token<'a>>)
    requires
        forall|j: int| 0 <= j < records@.len() ==> has_chain_named(chains@, #[trigger] records@[j].chain@),
    ensures
        distinct_tokens(r@),
        forall|k: int| 0 <= k < r@.len() ==> from_some_row(#[trigger] r@[k], records@, chains@),
        forall|j: int| 0 <= j < records@.len() ==> #[trigger] lists_row_token(r@, records@, chains@, j),
{
    let mut r: Vec<Token<'a>> = Vec::new();
    let mut j: usize = 0;
    while j < records.len()
        invariant
            j <= records@.len(),
            forall|a: int| 0 <= a < records@.len() ==> has_chain_named(chains@, #[trigger] records@[a].chain@),
            distinct_tokens(r@),
            forall|k: int| 0 <= k < r@.len() ==> from_some_row(#[trigger] r@[k], records@, chains@),
            forall|a: int| 0 <= a < j ==> #[trigger] lists_row_token(r@, records@, chains@, a),
        decreases records.len() - j,
    {
        let rec = &records[j];
        let chain = find_chain(chains, &rec.chain);
        let token = Token {
            db_id: rec.id,
            ticker: rec.ticker.clone(),
            chain,
            decimals: rec.decimals,
            name: copy_opt_text(&rec.name),
            address: rec.address,
            price_usd: copy_opt_text(&rec.price_usd),
            volume_24h_usd: copy_opt_text(&rec.volume_24h_usd),
            market_provider_id: copy_opt_text(&rec.market_provider_id),
        };
        assert(token_from_row(token, records@, chains@, j as int));
        let mut present = false;
        let mut k: usize = 0;
        while k < r.len()
            invariant
                k <= r@.len(),
                present ==> exists|c: int| 0 <= c < r@.len() && #[trigger] r@[c]@ == token@,
                !present ==> forall|c: int| 0 <= c < k ==> #[trigger] r@[c]@ != token@,
            decreases r.len() - k,
        {
            if !present && r[k].same(&token) {
                present = true;
            }
            k += 1;
        }
        let ghost before = r@;
        if present {
            proof {
                let c = choose|c: int| 0 <= c < r@.len() && #[trigger] r@[c]@ == token@;
                let w = choose|w: int| is_first_chain_named(chains@, records@[j as int].chain@, w) && *token.chain == chains@[w]
                    && #[trigger] token@ == token_of_record(records@[j as int], chains@[w]);
                assert(is_first_chain_named(chains@, records@[j as int].chain@, w) && *r@[c].chain == chains@[w]) by {
                    assert(from_some_row(r@[c], records@, chains@));
                    let a = choose|a: int| #[trigger] token_from_row(r@[c], records@, chains@, a);
                    let w2 = choose|w2: int| is_first_chain_named(chains@, records@[a].chain@, w2) && *r@[c].chain == chains@[w2]
                        && #[trigger] r@[c]@ == token_of_record(records@[a], chains@[w2]);
                    assert(chains@[w2].name@ == records@[j as int].chain@);
                    if w2 < w {
                        assert(chains@[w2].name@ != records@[j as int].chain@);
                    }
                    if w < w2 {
                        assert(chains@[w].name@ != records@[a].chain@);
                    }
                }
                assert(token_from_row(r@[c], records@, chains@, j as int));
            }
        } else {
            r.push(token);
            proof {
                assert forall|k2: int| 0 <= k2 < r@.len() implies from_some_row(#[trigger] r@[k2], records@, chains@) by {
                    if k2 < before.len() {
                        assert(r@[k2] == before[k2]);
                    } else {
                        assert(token_from_row(r@[k2], records@, chains@, j as int));
                    }
                }
                assert forall|a: int| 0 <= a < j implies #[trigger] lists_row_token(r@, records@, chains@, a) by {
                    assert(lists_row_token(before, records@, chains@, a));
                    let c = choose|c: int| 0 <= c < before.len() && #[trigger] token_from_row(before[c], records@, chains@, a);
                    assert(r@[c] == before[c]);
                }
                assert(token_from_row(r@[before.len() as int], records@, chains@, j as int));
            }
        }
        assert(lists_row_token(r@, records@, chains@, j as int));
        j += 1;
    }
    r
}

/// The index of the first token with the given database id, from index
/// `from` on; -1 if none has it.
pub open spec fn first_token_with_id(ts: Seq<Token>, id: u64, from: int) -> int
    decreases ts.len() - from,
{
    if from < 0 || from >= ts.len() {
        -1
    } else if ts[from].db_id == Some(id) {
        from
    } else {
        first_token_with_id(ts, id, from + 1)
    }
}

/// For the first `n` stored pairs whose tokens are both among `ts`: the row
/// and the indices of its first and second token.
pub open spec fn stored_pair_rows(records: Seq<PairModel>, ts: Seq<Token>, n: int) -> Seq<(int, int, int)>
    decreases n,
{
    if n <= 0 || n > records.len() {
        Seq::empty()
    } else {
        let fi = first_token_with_id(ts, records[n - 1].from_token_id, 0);
        let ti = first_token_with_id(ts, records[n - 1].to_token_id, 0);
        if fi >= 0 && ti >= 0 {
            stored_pair_rows(records, ts, n - 1).push((n - 1, fi, ti))
        } else {
            stored_pair_rows(records, ts, n - 1)
        }
    }
}

proof fn lemma_first_token_with_id(ts: Seq<Token>, id: u64, from: int)
    requires
        0 <= from,
    ensures
        first_token_with_id(ts, id, from) == -1 || (from <= first_token_with_id(ts, id, from) < ts.len()
            && ts[first_token_with_id(ts, id, from)].db_id == Some(id)),
    decreases ts.len() - from,
{
    if from < ts.len() && ts[from].db_id != Some(id) {
        lemma_first_token_with_id(ts, id, from + 1);
    }
}

/// The first token with the given database id.
fn find_token_with_id<'a>(tokens: &'a Vec<Token<'a>>, id: u64) -> (r: Option<&'a Token<'a>>)
    ensures
        first_token_with_id(tokens@, id, 0) == -1 <==> r is None,
        r matches Some(t) ==> *t == tokens@[first_token_with_id(tokens@, id, 0)],
{
    let mut i: usize = 0;
    while i < tokens.len()
        invariant
            i <= tokens@.len(),
            first_token_with_id(tokens@, id, 0) == first_token_with_id(tokens@, id, i as int),
        decreases tokens.len() - i,
    {
        if tokens[i].db_id == Some(id) {
            return Some(&tokens[i]);
        }
        i += 1;
    }
    None
}

/// The pairs that stored rows describe, for each row whose two tokens are
/// among `tokens` (the first token with each id), in the order of the rows:
/// the providers split at their commas, pool address and fee as stored.
pub fn pairs_from_records<'a>(records: &Vec<PairModel>, tokens: &'a Vec<Token<'a>>) -> (r: Vec<Pair<'a>>)
    requires
        forall|t: int| 0 <= t < tokens@.len() ==> (#[trigger] tokens@[t]).db_id is Some,
    ensures
        r@.len() == stored_pair_rows(records@, tokens@, records@.len() as int).len(),
        forall|k: int| 0 <= k < r@.len() ==> {
            let row = #[trigger] stored_pair_rows(records@, tokens@, records@.len() as int)[k];
            &&& *r@[k].from == tokens@[row.1]
            &&& *r@[k].to == tokens@[row.2]
            &&& opt_texts(r@[k].providers) == Some(split_on_commas(records@[row.0].providers@))
            &&& opt_address(r@[k].pool_address) == opt_address(records@[row.0].pool_address)
            &&& opt_text(r@[k].fee_percent) == opt_text(records@[row.0].fee_percent)
        },
{
    let mut r: Vec<Pair<'a>> = Vec::new();
    let mut j: usize = 0;
    while j < records.len()
        invariant
            j <= records@.len(),
            r@.len() == stored_pair_rows(records@, tokens@, j as int).len(),
            forall|k: int| 0 <= k < r@.len() ==> {
                let row = #[trigger] stored_pair_rows(records@, tokens@, j as int)[k];
                &&& *r@[k].from == tokens@[row.1]
                &&& *r@[k].to == tokens@[row.2]
                &&& opt_texts(r@[k].providers) == Some(split_on_commas(records@[row.0].providers@))
                &&& opt_address(r@[k].pool_address) == opt_address(records@[row.0].pool_address)
                &&& opt_text(r@[k].fee_percent) == opt_text(records@[row.0].fee_percent)
            },
        decreases records.len() - j,
    {
        let rec = &records[j];
        let from_token = find_token_with_id(tokens, rec.from_token_id);
        let to_token = find_token_with_id(tokens, rec.to_token_id);
        let ghost before = stored_pair_rows(records@, tokens@, j as int);
        proof {
            lemma_first_token_with_id(tokens@, rec.from_token_id, 0);
            lemma_first_token_with_id(tokens@, rec.to_token_id, 0);
        }
        match (from_token, to_token) {
            (Some(f), Some(t)) => {
                let providers = split_on_comma(&rec.providers);
                r.push(Pair {
                    from: f,
                    to: t,
                    providers: Some(providers),
                    pool_address: rec.pool_address,
                    fee_percent: copy_opt_text(&rec.fee_percent),
                });
                assert(stored_pair_rows(records@, tokens@, j + 1) == before.push((
                    j as int,
                    first_token_with_id(tokens@, rec.from_token_id, 0),
                    first_token_with_id(tokens@, rec.to_token_id, 0),
                )));
            },
            _ => {
                assert(stored_pair_rows(records@, tokens@, j + 1) == before);
            },
        }
        j += 1;
    }
    r
}

/// Law: a stored token row, read back on the chain the token was on, gives
/// back the token, with the row's id as its database id.
pub proof fn lemma_token_read_back(rec: TokenModel, t: TokenView, chain: Chain)
    requires
        stores_token(rec, t),
        chain@ == t.chain,
    ensures
        token_of_record(rec, chain) == (TokenView { db_id: rec.id, ..t }),
{
}

/// Law: a stored pair row, read back, gives back the pair's providers, pool
/// address and fee, for a pair with at least one provider and no provider
/// name that holds a comma.
pub proof fn lemma_pair_read_back(rec: PairModel, p: Pair)
    requires
        stores_pair(rec, p),
        p.providers->0@.len() >= 1,
        forall|i: int| 0 <= i < p.providers->0@.len() ==> comma_free(#[trigger] p.providers->0@[i]@),
    ensures
        Some(split_on_commas(rec.providers@)) == opt_texts(p.providers),
        opt_address(rec.pool_address) == opt_address(p.pool_address),
        opt_text(rec.fee_percent) == opt_text(p.fee_percent),
{
    let names = p.providers->0.deep_view();
    assert forall|i: int| 0 <= i < names.len() implies comma_free(#[trigger] names[i]) by {
        assert(names[i] == p.providers->0@[i]@);
    }
    lemma_providers_round_trip(names);
}

} // verus!
