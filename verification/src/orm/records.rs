use vstd::prelude::*;

use crate::address::Address;
use crate::domain::chain::Chain;
use crate::domain::pair::Pair;
use crate::domain::token::{Token, TokenView, opt_text, opt_address, copy_opt_text};
use crate::orm::providers::{join_with_comma, join_with_commas};
use crate::utils::text::{to_uppercase, uppercase_text};
use crate::domain::pair::opt_texts;

verus! {

/// A stored token row, as plain values; prices are decimal texts.
#[derive(Debug)]
pub struct TokenModel {
    pub id: Option<u64>,
    pub ticker: String,
    pub chain: String,
    pub decimals: Option<u8>,
    pub name: Option<String>,
    pub address: Option<Address>,
    pub price_usd: Option<String>,
    pub volume_24h_usd: Option<String>,
    pub market_provider_id: Option<String>,
    pub is_active: bool,
}

/// A stored pair row, as plain values; the providers joined with commas.
#[derive(Debug)]
pub struct PairModel {
    pub id: Option<u64>,
    pub from_token_id: u64,
    pub to_token_id: u64,
    pub providers: String,
    pub pool_address: Option<Address>,
    pub fee_percent: Option<String>,
    pub is_active: bool,
}

/// What to do with a row, given the stored rows that have its key.
#[derive(Debug, PartialEq, Eq)]
pub enum UpsertAction {
    /// No row has the key: insert a new one.
    Insert,
    /// One row has the key: update it, under its id.
    Update(Option<u64>),
    /// Several rows have the key: leave them.
    Skip,
}

/// The row holds the token's fields, the chain by its name.
pub open spec fn stores_token(rec: TokenModel, t: TokenView) -> bool {
    &&& rec.ticker@ == t.ticker
    &&& rec.chain@ == t.chain.name
    &&& rec.decimals == t.decimals
    &&& opt_text(rec.name) == t.name
    &&& opt_address(rec.address) == t.address
    &&& opt_text(rec.price_usd) == t.price_usd
    &&& opt_text(rec.volume_24h_usd) == t.volume_24h_usd
    &&& opt_text(rec.market_provider_id) == t.market_provider_id
}

/// The row that stores a token: its fields, the chain by name, no id yet,
/// marked active.
pub fn token_record(token: &Token) -> (r: TokenModel)
    ensures
        r.id is None,
        stores_token(r, token@),
        r.is_active,
{
    TokenModel {
        id: None,
        ticker: token.ticker.clone(),
        chain: token.chain.name.clone(),
        decimals: token.decimals,
        name: copy_opt_text(&token.name),
        address: token.address,
        price_usd: copy_opt_text(&token.price_usd),
        volume_24h_usd: copy_opt_text(&token.volume_24h_usd),
        market_provider_id: copy_opt_text(&token.market_provider_id),
        is_active: true,
    }
}

/// The ticker and chain name under which a pair's token is looked up among
/// the stored tokens: the ticker in upper case.
pub fn pair_token_key(token: &Token) -> (r: (String, String))
    ensures
        r.0@ == uppercase_text(token.ticker@),
        r.1@ == token.chain.name@,
{
    (to_uppercase(&token.ticker), token.chain.name.clone())
}

/// The stored token that a lookup found, when it found exactly one.
pub fn single_stored_token(found: Vec<TokenModel>) -> (r: Option<TokenModel>)
    ensures
        found@.len() == 1 <==> r is Some,
        r matches Some(t) ==> t == found@[0],
{
    if found.len() == 1 {
        let mut found = found;
        Some(found.remove(0))
    } else {
        None
    }
}

/// The row holds the pair's providers joined with commas, its pool address
/// and its fee.
pub open spec fn stores_pair(rec: PairModel, p: Pair) -> bool {
    &&& p.providers is Some
    &&& rec.providers@ == join_with_commas(p.providers->0.deep_view())
    &&& opt_address(rec.pool_address) == opt_address(p.pool_address)
    &&& opt_text(rec.fee_percent) == opt_text(p.fee_percent)
}

/// The row that stores a pair between two stored tokens: their ids, the
/// providers joined with commas, no id yet, marked active.
pub fn pair_record(pair: &Pair, from_token: &TokenModel, to_token: &TokenModel) -> (r: PairModel)
    requires
        from_token.id is Some,
        to_token.id is Some,
        pair.providers is Some,
    ensures
        r.id is None,
        r.from_token_id == from_token.id->0,
        r.to_token_id == to_token.id->0,
        stores_pair(r, *pair),
        r.is_active,
{
    let providers = match &pair.providers {
        Some(p) => join_with_comma(p),
        None => String::new(),
    };
    PairModel {
        id: None,
        from_token_id: from_token.id.unwrap(),
        to_token_id: to_token.id.unwrap(),
        providers,
        pool_address: pair.pool_address,
        fee_percent: copy_opt_text(&pair.fee_percent),
        is_active: true,
    }
}

/// Insert when no stored row has the key, update the one that has it, skip
/// when several have it.
pub fn upsert_action(candidate_ids: &Vec<Option<u64>>) -> (r: UpsertAction)
    ensures
        candidate_ids@.len() == 0 ==> r == UpsertAction::Insert,
        candidate_ids@.len() == 1 ==> r == UpsertAction::Update(candidate_ids@[0]),
        candidate_ids@.len() > 1 ==> r == UpsertAction::Skip,
{
    if candidate_ids.len() == 0 {
        UpsertAction::Insert
    } else if candidate_ids.len() == 1 {
        UpsertAction::Update(candidate_ids[0])
    } else {
        UpsertAction::Skip
    }
}

} // verus!
