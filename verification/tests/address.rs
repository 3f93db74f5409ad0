use screener::address::Address;
use screener::domain::chain::Chain;
use screener::market_data::coingecko::{match_market_tokens, CGRToken};
use screener::Token;

fn sample() -> Address {
    let mut b = [0u8; 20];
    for (i, x) in b.iter_mut().enumerate() {
        *x = (i as u8) * 13;
    }
    Address(b)
}

fn printed(a: Address) -> String {
    let chain = Chain { id: 1, name: "ethereum".to_string(), rpc_url: String::new() };
    let t = Token {
        db_id: None,
        ticker: "T".to_string(),
        chain: &chain,
        decimals: None,
        name: None,
        address: Some(a),
        price_usd: None,
        volume_24h_usd: None,
        market_provider_id: None,
    };
    t.field_value(&"address".to_string())
}

/// Whether a platform entry with this text is read as address `a`.
fn read_as(text: &str, a: Address) -> bool {
    let listed = vec![CGRToken { id: "t".to_string(), symbol: "t".to_string(), platforms: Some(vec![Some(text.to_string())]) }];
    !match_market_tokens(&listed, &vec![a]).is_empty()
}

#[test]
fn address_prints_as_lowercase_hex_with_prefix() {
    let text = printed(sample());
    assert_eq!(text, "0x000d1a2734414e5b6875828f9ca9b6c3d0ddeaf7");
    assert_eq!(text.len(), 42);
    assert_eq!(printed(Address::zero()), format!("0x{}", "0".repeat(40)));
}

#[test]
fn address_parses_with_or_without_prefix() {
    let a = sample();
    let text = printed(a);
    assert!(read_as(&text, a));
    assert!(read_as(&text[2..], a));
    assert!(read_as(&text.to_uppercase().replace("0X", "0x"), a));
    assert!(!read_as(" 0x000d1a2734414e5b6875828f9ca9b6c3d0ddeaf7", a));
    assert!(read_as("000d1a2734414e5b6875828f 9ca9b6c3d0ddeaf7\n", a));
}

#[test]
fn address_rejects_bad_text() {
    let a = sample();
    assert!(!read_as("", a));
    assert!(!read_as("0x1234", a));
    assert!(!read_as(&format!("0x{}", "g".repeat(40)), Address([0xaa; 20])));
    assert!(!read_as(&format!("0x{}", "1".repeat(42)), Address([0x11; 20])));
    // Text that does not parse stands for the zero address.
    assert!(read_as("0x1234", Address::zero()));
}

#[test]
fn same_compares_bytes() {
    assert!(sample().same(&sample()));
    assert!(!sample().same(&Address::zero()));
}
