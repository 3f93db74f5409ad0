use screener::address::Address;
use screener::market_data::coingecko::{build_market_cache, chunk_ids, match_market_tokens, CGRToken};
use screener::market_data::provider::{MarketDataCache, TokenMarketData};

fn s(x: &str) -> String {
    x.to_string()
}

fn hex_text(a: &Address) -> String {
    format!("0x{}", a.0.iter().map(|b| format!("{:02x}", b)).collect::<String>())
}

fn md(ticker: &str, price: &str) -> TokenMarketData {
    TokenMarketData { ticker: s(ticker), token_id: s(ticker), price_usd: s(price), volume_24: s("0") }
}

#[test]
fn cache_gives_back_what_was_kept() {
    let mut cache = MarketDataCache::new();
    assert_eq!(cache.get_by_address(Address([1; 20])), None);
    cache.insert(Address([1; 20]), md("weth", "3000"));
    cache.insert(Address([2; 20]), md("dai", "1"));
    cache.insert(Address([1; 20]), md("weth", "3100"));
    assert_eq!(cache.get_by_address(Address([1; 20])), Some(md("weth", "3100")));
    assert_eq!(cache.get_by_address(Address([2; 20])), Some(md("dai", "1")));
    assert_eq!(cache.get_by_address(Address([3; 20])), None);
}

fn cg(id: &str, symbol: &str, platforms: Option<Vec<Option<String>>>) -> CGRToken {
    CGRToken { id: s(id), symbol: s(symbol), platforms }
}

#[test]
fn market_tokens_match_by_platform_address() {
    let a1 = Address([0x11; 20]);
    let a2 = Address([0x22; 20]);
    let available = vec![
        cg("weth", "weth", Some(vec![Some(hex_text(&a1)), None])),
        cg("dai", "dai", Some(vec![Some(s("not an address")), Some(hex_text(&a2))])),
        cg("none", "none", None),
        cg("other", "oth", Some(vec![Some(hex_text(&Address([0x33; 20])))])),
        cg("wrapped-ethw", "ethw", Some(vec![Some(hex_text(&a1))])),
        cg("weth", "weth2", Some(vec![Some(hex_text(&a2))])),
    ];
    let mut m = match_market_tokens(&available, &vec![a1, a2]);
    m.sort_by(|x, y| x.0.cmp(&y.0));
    assert_eq!(m.len(), 2);
    assert_eq!(m[0], (s("dai"), s("dai"), a2));
    assert_eq!(m[1], (s("weth"), s("weth2"), a2));
}

#[test]
fn zero_address_matches_missing_platforms() {
    let available = vec![cg("native", "eth", Some(vec![None]))];
    let m = match_market_tokens(&available, &vec![Address::zero()]);
    assert_eq!(m, vec![(s("native"), s("eth"), Address::zero())]);
    assert!(match_market_tokens(&available, &vec![]).is_empty());
}

#[test]
fn ids_come_in_chunks() {
    let ids: Vec<String> = (0..450).map(|i| format!("id{}", i)).collect();
    let chunks = chunk_ids(&ids, 200);
    assert_eq!(chunks.len(), 3);
    assert_eq!(chunks[0].len(), 200);
    assert_eq!(chunks[1].len(), 200);
    assert_eq!(chunks[2].len(), 50);
    assert_eq!(chunks.concat(), ids);
    assert!(chunk_ids(&vec![], 200).is_empty());
    assert_eq!(chunk_ids(&vec![s("a")], 1), vec![vec![s("a")]]);
}

#[test]
fn cache_built_from_prices() {
    let a1 = Address([0x11; 20]);
    let a2 = Address([0x22; 20]);
    let matches = vec![(s("weth"), s("weth"), a1), (s("dai"), s("dai"), a2)];
    let responses = vec![
        (s("dai"), Some((s("1.001"), s("900")))),
        (s("weth"), Some((s("3012.5"), s("1000000")))),
    ];
    let cache = build_market_cache(&matches, &responses);
    assert_eq!(
        cache.get_by_address(a1),
        Some(TokenMarketData { ticker: s("weth"), token_id: s("weth"), price_usd: s("3012.5"), volume_24: s("1000000") })
    );
    assert_eq!(cache.get_by_address(a2).unwrap().price_usd, "1.001");
    assert_eq!(cache.get_by_address(Address::zero()), None);
}
