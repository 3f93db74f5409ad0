use screener::domain::chain::Chain;
use screener::domain::swap::find_cross_chain_pairs;
use screener::utils::process_pairs::{get_possible_pairs_enumerations, merge_available_pairs, TSimplePair};
use screener::{Pair, Token};

fn s(x: &str) -> String {
    x.to_string()
}

fn chain(id: u32, name: &str) -> Chain {
    Chain { id, name: s(name), rpc_url: s("") }
}

fn token<'a>(ticker: &str, chain: &'a Chain) -> Token<'a> {
    Token {
        db_id: None,
        ticker: s(ticker),
        chain,
        decimals: None,
        name: None,
        address: None,
        price_usd: None,
        volume_24h_usd: None,
        market_provider_id: None,
    }
}

fn names(pairs: &[TSimplePair]) -> Vec<(String, String, String)> {
    let mut v: Vec<_> = pairs.iter().map(|p| (p.0.ticker.clone(), p.1.ticker.clone(), p.0.chain.name.clone())).collect();
    v.sort();
    v
}

#[test]
fn pairs_on_one_chain() {
    let eth = chain(1, "ethereum");
    let pol = chain(137, "polygon");
    let tokens = vec![token("ETH", &eth), token("DAI", &eth), token("MATIC", &pol)];
    let pairs = get_possible_pairs_enumerations(&tokens, false);
    assert_eq!(
        names(&pairs),
        vec![(s("DAI"), s("ETH"), s("ethereum")), (s("ETH"), s("DAI"), s("ethereum"))]
    );
}

#[test]
fn pairs_across_chains_need_shared_tickers() {
    let eth = chain(1, "ethereum");
    let pol = chain(137, "polygon");
    let tokens = vec![
        token("USDC", &eth),
        token("DAI", &eth),
        token("WBTC", &eth),
        token("USDC", &pol),
        token("DAI", &pol),
        token("MATIC", &pol),
    ];
    let pairs = get_possible_pairs_enumerations(&tokens, true);
    assert_eq!(
        names(&pairs),
        vec![
            (s("DAI"), s("USDC"), s("ethereum")),
            (s("DAI"), s("USDC"), s("polygon")),
            (s("USDC"), s("DAI"), s("ethereum")),
            (s("USDC"), s("DAI"), s("polygon")),
        ]
    );
    let all = get_possible_pairs_enumerations(&tokens, false);
    assert_eq!(all.len(), 12);
}

#[test]
fn no_pairs_without_tokens() {
    let tokens: Vec<Token> = vec![];
    assert!(get_possible_pairs_enumerations(&tokens, false).is_empty());
    assert!(get_possible_pairs_enumerations(&tokens, true).is_empty());
}

#[test]
fn merged_pairs_list_their_providers() {
    let eth = chain(1, "ethereum");
    let tokens = vec![token("ETH", &eth), token("DAI", &eth), token("USDC", &eth)];
    let a: TSimplePair = (&tokens[0], &tokens[1]);
    let b: TSimplePair = (&tokens[1], &tokens[0]);
    let c: TSimplePair = (&tokens[0], &tokens[2]);
    let availability = vec![(s("1Inch"), vec![a, b]), (s("Paraswap"), vec![b, c, b])];
    let merged = merge_available_pairs(&availability);
    assert_eq!(merged.len(), 3);
    let find = |from: &str, to: &str| merged.iter().find(|p| p.from.ticker == from && p.to.ticker == to).unwrap();
    assert_eq!(find("ETH", "DAI").providers, Some(vec![s("1Inch")]));
    assert_eq!(find("DAI", "ETH").providers, Some(vec![s("1Inch"), s("Paraswap"), s("Paraswap")]));
    assert_eq!(find("ETH", "USDC").providers, Some(vec![s("Paraswap")]));
    assert!(merged.iter().all(|p| p.pool_address.is_none() && p.fee_percent.is_none()));
    assert!(merge_available_pairs(&vec![]).is_empty());
}

fn pair<'a>(from: &'a Token<'a>, to: &'a Token<'a>) -> Pair<'a> {
    Pair { from, to, providers: Some(vec![s("1Inch")]), pool_address: None, fee_percent: None }
}

#[test]
fn cross_chain_round_trips() {
    let eth = chain(1, "ethereum");
    let pol = chain(137, "polygon");
    let usdc_e = token("USDC", &eth);
    let dai_e = token("DAI", &eth);
    let usdc_p = token("USDC", &pol);
    let dai_p = token("DAI", &pol);
    let pairs = vec![pair(&usdc_e, &dai_e), pair(&dai_p, &usdc_p), pair(&dai_e, &usdc_e)];
    let trips = find_cross_chain_pairs(&pairs);
    assert_eq!(trips.len(), 2);
    assert_eq!(trips[0].0.from.chain.name, "ethereum");
    assert_eq!(trips[0].1.from.chain.name, "polygon");
    assert_eq!(trips[1].0.from.chain.name, "polygon");
    assert_eq!(trips[1].1.from.chain.name, "ethereum");
    assert_eq!(trips[1].1.from.ticker, "USDC");
}

#[test]
fn providers_can_be_changed_in_place() {
    let eth = chain(1, "ethereum");
    let a = token("ETH", &eth);
    let b = token("DAI", &eth);
    let mut p = pair(&a, &b);
    p.get_providers_mut().as_mut().unwrap().push(s("Paraswap"));
    assert_eq!(p.providers, Some(vec![s("1Inch"), s("Paraswap")]));
    *p.get_providers_mut() = None;
    assert_eq!(p.providers, None);
}
