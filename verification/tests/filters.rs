use screener::utils::filters::{execute_filter, FieldFilter, Filter, LogicalWrapper};

fn s(x: &str) -> String {
    x.to_string()
}

fn exact(x: &str) -> Filter {
    Filter::Filter(FieldFilter::IsExact(s(x)))
}

#[test]
fn is_exact_matches_only_equal_value() {
    assert!(execute_filter(&s("ETH"), &exact("ETH")));
    assert!(!execute_filter(&s("ETH"), &exact("eth")));
    assert!(!execute_filter(&s("ETH"), &exact("ETHW")));
}

#[test]
fn in_matches_listed_values() {
    let f = Filter::Filter(FieldFilter::In(vec![s("BTC"), s("ETH"), s("USDT")]));
    assert!(execute_filter(&s("ETH"), &f));
    assert!(execute_filter(&s("USDT"), &f));
    assert!(!execute_filter(&s("DAI"), &f));
    let empty = Filter::Filter(FieldFilter::In(vec![]));
    assert!(!execute_filter(&s("ETH"), &empty));
}

#[test]
fn contains_matches_value_inside_text() {
    let f = Filter::Filter(FieldFilter::Contains(s("WETHUSDC")));
    assert!(execute_filter(&s("ETH"), &f));
    assert!(execute_filter(&s("WETHUSDC"), &f));
    assert!(execute_filter(&s("USDC"), &f));
    assert!(execute_filter(&s(""), &f));
    assert!(!execute_filter(&s("BTC"), &f));
    assert!(!execute_filter(&s("WETHUSDCX"), &f));
    let unicode = Filter::Filter(FieldFilter::Contains(s("ÄpfelÖl")));
    assert!(execute_filter(&s("felÖ"), &unicode));
    assert!(!execute_filter(&s("fel0"), &unicode));
}

#[test]
fn and_or_not_combine_children() {
    let and = Filter::Operator(Box::new(LogicalWrapper::And(vec![
        Filter::Filter(FieldFilter::Contains(s("ETHEREUM"))),
        Filter::Operator(Box::new(LogicalWrapper::Not(exact("ETHER")))),
    ])));
    assert!(execute_filter(&s("ETH"), &and));
    assert!(!execute_filter(&s("ETHER"), &and));
    assert!(!execute_filter(&s("BTC"), &and));

    let or = Filter::Operator(Box::new(LogicalWrapper::Or(vec![exact("BTC"), exact("ETH")])));
    assert!(execute_filter(&s("BTC"), &or));
    assert!(execute_filter(&s("ETH"), &or));
    assert!(!execute_filter(&s("DAI"), &or));
}

#[test]
fn empty_and_accepts_and_empty_or_rejects() {
    let and = Filter::Operator(Box::new(LogicalWrapper::And(vec![])));
    let or = Filter::Operator(Box::new(LogicalWrapper::Or(vec![])));
    assert!(execute_filter(&s("anything"), &and));
    assert!(!execute_filter(&s("anything"), &or));
}

#[test]
fn double_not_is_the_filter() {
    for value in ["ETH", "BTC", ""] {
        let f = exact("ETH");
        let nn = Filter::Operator(Box::new(LogicalWrapper::Not(Filter::Operator(Box::new(
            LogicalWrapper::Not(exact("ETH")),
        )))));
        assert_eq!(execute_filter(&s(value), &nn), execute_filter(&s(value), &f));
    }
}
