use screener::address::Address;
use screener::domain::chain::Chain;
use screener::domain::token::insert_token;
use screener::exchange::oneinch::{process_token, token_from_listing, OIRToken, OneInchProvider};
use screener::config::CProxy;
use screener::market_data::provider::TokenMarketData;
use screener::utils::filters::{FieldFilter, Filter};
use screener::Token;

fn s(x: &str) -> String {
    x.to_string()
}

fn chain(id: u32, name: &str) -> Chain {
    Chain { id, name: s(name), rpc_url: format!("https://{}.example", name) }
}

fn token<'a>(ticker: &str, chain: &'a Chain) -> Token<'a> {
    Token {
        db_id: None,
        ticker: s(ticker),
        chain,
        decimals: Some(18),
        name: None,
        address: None,
        price_usd: None,
        volume_24h_usd: None,
        market_provider_id: None,
    }
}

fn exact(x: &str) -> Filter {
    Filter::Filter(FieldFilter::IsExact(s(x)))
}

#[test]
fn match_filter_reads_each_field() {
    let eth = chain(1, "ethereum");
    let mut t = token("WETH", &eth);
    t.name = Some(s("Wrapped Ether"));
    t.address = Some(Address([0xab; 20]));
    assert!(t.match_filter(&vec![(s("ticker"), exact("WETH"))]));
    assert!(!t.match_filter(&vec![(s("ticker"), exact("ETH"))]));
    assert!(t.match_filter(&vec![(s("chain"), exact("ethereum"))]));
    assert!(t.match_filter(&vec![(s("name"), exact("Wrapped Ether"))]));
    assert!(t.match_filter(&vec![(s("address"), exact(&format!("0x{}", "ab".repeat(20))))]));
    assert!(t.match_filter(&vec![(s("colour"), exact(""))]));
    assert!(!t.match_filter(&vec![(s("colour"), exact("red"))]));
}

#[test]
fn match_filter_missing_values_are_empty() {
    let eth = chain(1, "ethereum");
    let t = token("DAI", &eth);
    assert!(t.match_filter(&vec![(s("name"), exact(""))]));
    assert!(t.match_filter(&vec![(s("address"), exact(""))]));
}

#[test]
fn match_filter_needs_every_entry() {
    let eth = chain(1, "ethereum");
    let t = token("DAI", &eth);
    assert!(t.match_filter(&vec![]));
    assert!(!t.match_filter(&vec![(s("ticker"), exact("DAI")), (s("chain"), exact("polygon"))]));
    assert!(t.match_filter(&vec![(s("ticker"), exact("DAI")), (s("chain"), exact("ethereum"))]));
}

#[test]
fn same_and_duplicate() {
    let eth = chain(1, "ethereum");
    let eth2 = chain(1, "ethereum");
    let a = token("DAI", &eth);
    let b = token("DAI", &eth2);
    assert!(a.same(&b));
    let c = a.duplicate();
    assert_eq!(a, c);
    let mut d = a.duplicate();
    d.price_usd = Some(s("1.0"));
    assert!(!a.same(&d));
}

#[test]
fn insert_token_keeps_tokens_distinct() {
    let eth = chain(1, "ethereum");
    let mut set = vec![];
    assert!(insert_token(&mut set, token("DAI", &eth)));
    assert!(insert_token(&mut set, token("ETH", &eth)));
    assert!(!insert_token(&mut set, token("DAI", &eth)));
    assert_eq!(set.len(), 2);
    assert_eq!(set[0].ticker, "DAI");
    assert_eq!(set[1].ticker, "ETH");
}

fn listed() -> OIRToken {
    OIRToken { symbol: s("weth"), name: s("Wrapped Ether"), address: Address([7; 20]), decimals: 18 }
}

#[test]
fn process_token_takes_market_data() {
    let eth = chain(1, "ethereum");
    let md = TokenMarketData { ticker: s("weth"), token_id: s("weth"), price_usd: s("3000.5"), volume_24: s("123") };
    let t = process_token(listed(), &eth, None, Some(md)).unwrap();
    assert_eq!(t.ticker, "WETH");
    assert_eq!(t.price_usd, Some(s("3000.5")));
    assert_eq!(t.volume_24h_usd, Some(s("123")));
    assert_eq!(t.market_provider_id, Some(s("weth")));
    assert_eq!(t.address, Some(Address([7; 20])));
    assert_eq!(t.decimals, Some(18));
    assert_eq!(t.name, Some(s("Wrapped Ether")));
    assert_eq!(t.db_id, None);
    assert_eq!(t.chain.name, "ethereum");
}

#[test]
fn process_token_without_market_data_keeps_symbol() {
    let eth = chain(1, "ethereum");
    let t = process_token(listed(), &eth, None, None).unwrap();
    assert_eq!(t.ticker, "weth");
    assert_eq!(t.price_usd, None);
    assert_eq!(t.market_provider_id, None);
}

#[test]
fn process_token_applies_filter() {
    let eth = chain(1, "ethereum");
    let keep = vec![(s("ticker"), exact("weth"))];
    let drop = vec![(s("ticker"), exact("WETH"))];
    assert!(process_token(listed(), &eth, Some(&keep), None).is_some());
    assert!(process_token(listed(), &eth, Some(&drop), None).is_none());
}

#[test]
fn one_inch_provider_keeps_proxies() {
    let proxies = vec![CProxy { url: s("https://proxy.example"), user: s("u"), password: s("p") }];
    let p = OneInchProvider::new(proxies);
    assert_eq!(p.proxy_configs().len(), 1);
    assert_eq!(p.proxy_configs()[0].url, "https://proxy.example");
    assert!(OneInchProvider::new(vec![]).proxy_configs().is_empty());
}

#[test]
fn token_from_listing_takes_the_given_ticker() {
    let eth = chain(1, "ethereum");
    let md = TokenMarketData { ticker: s("weth"), token_id: s("weth"), price_usd: s("3000.5"), volume_24: s("123") };
    let t = token_from_listing(listed(), &eth, None, s("Weth"), Some(md)).unwrap();
    assert_eq!(t.ticker, "Weth");
    assert_eq!(t.price_usd, Some(s("3000.5")));
    assert_eq!(t.market_provider_id, Some(s("weth")));
    let keep = vec![(s("ticker"), exact("Weth"))];
    let drop = vec![(s("ticker"), exact("weth"))];
    assert!(token_from_listing(listed(), &eth, Some(&keep), s("Weth"), None).is_some());
    assert!(token_from_listing(listed(), &eth, Some(&drop), s("Weth"), None).is_none());
}

#[test]
fn process_token_filters_on_the_upper_case_ticker() {
    let eth = chain(1, "ethereum");
    let md = TokenMarketData { ticker: s("weth"), token_id: s("weth"), price_usd: s("1"), volume_24: s("2") };
    let keep = vec![(s("ticker"), exact("WETH"))];
    let drop = vec![(s("ticker"), exact("weth"))];
    assert!(process_token(listed(), &eth, Some(&keep), Some(md.clone())).is_some());
    assert!(process_token(listed(), &eth, Some(&drop), Some(md)).is_none());
}
