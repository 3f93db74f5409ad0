use vstd::prelude::*;

use crate::address::Address;
use crate::config::CProxy;
use crate::domain::chain::Chain;
use crate::domain::token::{Token, TokenView, opt_address, opt_text, token_matches};
use crate::market_data::provider::TokenMarketData;
use crate::utils::filters::Filter;
use crate::utils::text::{to_uppercase, uppercase_text};

verus! {

/// A token as the 1inch token list describes it.
#[derive(Debug, Clone)]
pub struct OIRToken {
    pub symbol: String,
    pub name: String,
    pub address: Address,
    pub decimals: u8,
}

/// The 1inch exchange, reached through the configured proxies.
#[derive(Debug)]
pub struct OneInchProvider {
    proxy_configs: Vec<CProxy>,
}

impl OneInchProvider {
    /// The proxies that requests go through.
    pub closed spec fn proxies(&self) -> Seq<CProxy> {
        self.proxy_configs@
    }

    /// A provider that sends its requests through the given proxies.
    pub fn new(proxy_configs: Vec<CProxy>) -> (r: Self)
        ensures
            r.proxies() == proxy_configs@,
    {
        Self { proxy_configs }
    }

    /// The proxies that requests go through.
    pub fn proxy_configs(&self) -> (r: &Vec<CProxy>)
        ensures
            r@ == self.proxies(),
    {
        &self.proxy_configs
    }
}

/// The token that a listed token makes on a chain, given the ticker it takes
/// and the market data found for its address, if any: price, volume and
/// market id come from the market data; no database id yet.
pub open spec fn listed_token(token: OIRToken, chain: Chain, ticker: Seq<char>, market_data: Option<TokenMarketData>) -> TokenView {
    TokenView {
        db_id: None,
        ticker: ticker,
        chain: chain@,
        decimals: Some(token.decimals),
        name: Some(token.name@),
        address: Some(token.address@),
        price_usd: match market_data {
            Some(d) => Some(d.price_usd@),
            None => None,
        },
        volume_24h_usd: match market_data {
            Some(d) => Some(d.volume_24@),
            None => None,
        },
        market_provider_id: match market_data {
            Some(d) => Some(d.token_id@),
            None => None,
        },
    }
}

/// The ticker a listed token takes: the market's ticker in upper case where
/// there is market data, else the listed symbol.
pub open spec fn listed_ticker(token: OIRToken, market_data: Option<TokenMarketData>) -> Seq<char> {
    match market_data {
        Some(d) => uppercase_text(d.ticker@),
        None => token.symbol@,
    }
}

/// The token that a listed token makes on a chain, with the market data
/// found for its address, if any.
pub open spec fn token_candidate(token: OIRToken, chain: Chain, market_data: Option<TokenMarketData>) -> TokenView {
    listed_token(token, chain, listed_ticker(token, market_data), market_data)
}

/// Whether the filter, if there is one, accepts the token.
pub open spec fn passes_filter(t: TokenView, filter: Option<&Vec<(String, Filter)>>) -> bool {
    match filter {
        Some(f) => token_matches(t, f@),
        None => true,
    }
}

/// The token that a listed token makes on a chain under the given ticker,
/// kept when there is no filter or the filter accepts it.
pub fn token_from_listing<'a>(
    token: OIRToken,
    chain: &'a Chain,
    filter: Option<&Vec<(String, Filter)>>,
    ticker: String,
    market_data: Option<TokenMarketData>,
) -> (r: Option<Token<'a>>)
    ensures
        r is Some <==> passes_filter(listed_token(token, *chain, ticker@, market_data), filter),
        r matches Some(t) ==> t@ == listed_token(token, *chain, ticker@, market_data) && t.chain == chain,
        r matches Some(t) ==> {
            &&& t.db_id is None
            &&& t.decimals == Some(token.decimals)
            &&& opt_text(t.name) == Some(token.name@)
            &&& opt_address(t.address) == Some(token.address@)
            &&& match market_data {
                Some(d) => {
                    &&& t.ticker@ == ticker@
                    &&& opt_text(t.price_usd) == Some(d.price_usd@)
                    &&& opt_text(t.volume_24h_usd) == Some(d.volume_24@)
                    &&& opt_text(t.market_provider_id) == Some(d.token_id@)
                },
                None => {
                    &&& t.ticker@ == ticker@
                    &&& t.price_usd is None
                    &&& t.volume_24h_usd is None
                    &&& t.market_provider_id is None
                },
            }
        },
{
    let token_candidate = Token {
        db_id: None,
        ticker,
        address: Some(token.address),
        name: Some(token.name.clone()),
        chain,
        decimals: Some(token.decimals),
        price_usd: match &market_data {
            Some(data) => Some(data.price_usd.clone()),
            None => None,
        },
        volume_24h_usd: match &market_data {
            Some(data) => Some(data.volume_24.clone()),
            None => None,
        },
        market_provider_id: match &market_data {
            Some(data) => Some(data.token_id.clone()),
            None => None,
        },
    };
    match filter {
        Some(f) => {
            if token_candidate.match_filter(f) {
                return Some(token_candidate);
            }
            None
        },
        None => Some(token_candidate),
    }
}

/// The token that a listed token makes on a chain, with the market data
/// found for its address, if any: the ticker is the market's ticker in upper
/// case, or else the listed symbol. Kept when there is no filter or the
/// filter accepts it.
pub fn process_token<'a>(
    token: OIRToken,
    chain: &'a Chain,
    filter: Option<&Vec<(String, Filter)>>,
    market_data: Option<TokenMarketData>,
) -> (r: Option<Token<'a>>)
    ensures
        r is Some <==> passes_filter(token_candidate(token, *chain, market_data), filter),
        r matches Some(t) ==> t@ == token_candidate(token, *chain, market_data) && t.chain == chain,
        r matches Some(t) ==> {
            &&& t.db_id is None
            &&& t.decimals == Some(token.decimals)
            &&& opt_text(t.name) == Some(token.name@)
            &&& opt_address(t.address) == Some(token.address@)
            &&& match market_data {
                Some(d) => {
                    &&& t.ticker@ == uppercase_text(d.ticker@)
                    &&& opt_text(t.price_usd) == Some(d.price_usd@)
                    &&& opt_text(t.volume_24h_usd) == Some(d.volume_24@)
                    &&& opt_text(t.market_provider_id) == Some(d.token_id@)
                },
                None => {
                    &&& t.ticker@ == token.symbol@
                    &&& t.price_usd is None
                    &&& t.volume_24h_usd is None
                    &&& t.market_provider_id is None
                },
            }
        },
{
    let ticker = match &market_data {
        Some(data) => to_uppercase(&data.ticker),
        None => token.symbol.clone(),
    };
    token_from_listing(token, chain, filter, ticker, market_data)
}

/// Law: with market data, a listed token's ticker is the market's ticker in
/// upper case, whatever symbol the exchange lists it under; without, it is
/// the listed symbol. The same market data gives two listings the same
/// ticker.
pub proof fn lemma_candidate_ticker(t1: OIRToken, t2: OIRToken, chain: Chain, d: TokenMarketData)
    ensures
        token_candidate(t1, chain, Some(d)).ticker == uppercase_text(d.ticker@),
        token_candidate(t1, chain, Some(d)).ticker == token_candidate(t2, chain, Some(d)).ticker,
        token_candidate(t1, chain, None).ticker == t1.symbol@,
{
}

} // verus!
