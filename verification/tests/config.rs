use screener::config::{
    build_filter, filter_node_is_buildable, process_config_filters, CChain, CFilter, CFilterOptions, CFilters, CTokenFilters,
};
use screener::domain::chain::get_available_chains;
use screener::utils::filters::{execute_filter, FieldFilter, Filter, LogicalWrapper};

fn s(x: &str) -> String {
    x.to_string()
}

fn leaf(op: CFilterOptions, values: &[&str]) -> CFilter {
    CFilter { op, filters: None, value: Some(values.iter().map(|v| s(v)).collect()) }
}

fn node(op: CFilterOptions, children: Vec<CFilter>) -> CFilter {
    CFilter { op, filters: Some(children), value: None }
}

#[test]
fn tokens_target_builds_ticker_filter() {
    let config = CFilters {
        tokens: CTokenFilters {
            ticker: node(
                CFilterOptions::Or,
                vec![leaf(CFilterOptions::IsExact, &["ETH"]), leaf(CFilterOptions::In, &["BTC", "DAI"])],
            ),
        },
    };
    let filters = process_config_filters(s("tokens"), config);
    assert_eq!(filters.len(), 1);
    assert_eq!(filters[0].0, "ticker");
    match &filters[0].1 {
        Filter::Operator(op) => match &**op {
            LogicalWrapper::Or(children) => {
                assert_eq!(children.len(), 2);
                assert!(matches!(&children[0], Filter::Filter(FieldFilter::IsExact(v)) if v == "ETH"));
                assert!(matches!(&children[1], Filter::Filter(FieldFilter::In(v)) if v == &vec![s("BTC"), s("DAI")]));
            }
            _ => panic!("expected Or"),
        },
        _ => panic!("expected an operator"),
    }
    assert!(execute_filter(&s("DAI"), &filters[0].1));
    assert!(!execute_filter(&s("USDT"), &filters[0].1));
}

#[test]
fn other_target_builds_nothing() {
    let config = CFilters { tokens: CTokenFilters { ticker: leaf(CFilterOptions::IsExact, &["ETH"]) } };
    assert!(process_config_filters(s("pairs"), config).is_empty());
}

#[test]
fn not_takes_first_child_and_leaves_take_first_value() {
    let f = build_filter(&node(
        CFilterOptions::Not,
        vec![leaf(CFilterOptions::Contains, &["WETH", "ignored"]), leaf(CFilterOptions::IsExact, &["X"])],
    ));
    match &f {
        Filter::Operator(op) => match &**op {
            LogicalWrapper::Not(Filter::Filter(FieldFilter::Contains(v))) => assert_eq!(v, "WETH"),
            _ => panic!("expected Not over Contains"),
        },
        _ => panic!("expected an operator"),
    }
    assert!(!execute_filter(&s("ETH"), &f));
    assert!(execute_filter(&s("BTC"), &f));
}

#[test]
fn and_with_no_children_builds_empty_and() {
    let f = build_filter(&node(CFilterOptions::And, vec![]));
    assert!(matches!(&f, Filter::Operator(op) if matches!(&**op, LogicalWrapper::And(v) if v.is_empty())));
    assert!(execute_filter(&s("whatever"), &f));
}

#[test]
fn chains_follow_configuration() {
    let config = vec![
        CChain { id: 1, name: s("ethereum"), rpc_url: s("https://eth.example") },
        CChain { id: 137, name: s("polygon"), rpc_url: s("https://polygon.example") },
    ];
    let chains = get_available_chains(&config);
    assert_eq!(chains.len(), 2);
    assert_eq!(chains[0].id, 1);
    assert_eq!(chains[0].name, "ethereum");
    assert_eq!(chains[1].id, 137);
    assert_eq!(chains[1].rpc_url, "https://polygon.example");
    assert!(get_available_chains(&vec![]).is_empty());
}

/// The filter written out, operators and texts in order.
fn shape(f: &Filter) -> String {
    match f {
        Filter::Operator(op) => match &**op {
            LogicalWrapper::And(fs) => format!("And[{}]", fs.iter().map(shape).collect::<Vec<_>>().join(",")),
            LogicalWrapper::Or(fs) => format!("Or[{}]", fs.iter().map(shape).collect::<Vec<_>>().join(",")),
            LogicalWrapper::Not(g) => format!("Not[{}]", shape(g)),
        },
        Filter::Filter(FieldFilter::In(v)) => format!("In{:?}", v),
        Filter::Filter(FieldFilter::IsExact(v)) => format!("IsExact({:?})", v),
        Filter::Filter(FieldFilter::Contains(v)) => format!("Contains({:?})", v),
    }
}

#[test]
fn buildable_nodes_are_recognised() {
    assert!(filter_node_is_buildable(&leaf(CFilterOptions::IsExact, &["ETH"])));
    assert!(!filter_node_is_buildable(&leaf(CFilterOptions::IsExact, &[])));
    assert!(!filter_node_is_buildable(&leaf(CFilterOptions::Contains, &[])));
    assert!(filter_node_is_buildable(&leaf(CFilterOptions::In, &[])));
    assert!(!filter_node_is_buildable(&CFilter { op: CFilterOptions::In, filters: None, value: None }));
    assert!(filter_node_is_buildable(&node(CFilterOptions::And, vec![])));
    assert!(!filter_node_is_buildable(&node(CFilterOptions::Not, vec![])));
    assert!(!filter_node_is_buildable(&leaf(CFilterOptions::Or, &["x"])));
    assert!(!filter_node_is_buildable(&node(
        CFilterOptions::Or,
        vec![leaf(CFilterOptions::IsExact, &["ETH"]), node(CFilterOptions::Not, vec![])],
    )));
    assert!(filter_node_is_buildable(&node(
        CFilterOptions::Not,
        vec![node(CFilterOptions::And, vec![leaf(CFilterOptions::In, &["A"])]), leaf(CFilterOptions::IsExact, &["B"])],
    )));
}

#[test]
fn built_filter_means_what_the_tree_says() {
    // not (ticker is one of BTC, WBTC) and (ticker is ETH or occurs in "USDC.e")
    let tree = node(
        CFilterOptions::And,
        vec![
            node(CFilterOptions::Not, vec![leaf(CFilterOptions::In, &["BTC", "WBTC"])]),
            node(CFilterOptions::Or, vec![leaf(CFilterOptions::IsExact, &["ETH"]), leaf(CFilterOptions::Contains, &["USDC.e"])]),
        ],
    );
    let f = build_filter(&tree);
    for (v, expected) in [("ETH", true), ("USDC", true), ("e", true), ("BTC", false), ("DAI", false), ("", true)] {
        assert_eq!(execute_filter(&s(v), &f), expected, "value {:?}", v);
    }
}

#[test]
fn unused_fields_do_not_change_the_filter() {
    let plain = node(
        CFilterOptions::Not,
        vec![node(CFilterOptions::Or, vec![leaf(CFilterOptions::IsExact, &["ETH"]), leaf(CFilterOptions::In, &["A", "B"])])],
    );
    let mut or_node = node(
        CFilterOptions::Or,
        vec![
            CFilter { op: CFilterOptions::IsExact, filters: Some(vec![leaf(CFilterOptions::In, &[])]), value: Some(vec![s("ETH"), s("x")]) },
            CFilter { op: CFilterOptions::In, filters: Some(vec![]), value: Some(vec![s("A"), s("B")]) },
        ],
    );
    or_node.value = Some(vec![s("ignored")]);
    let noisy = CFilter {
        op: CFilterOptions::Not,
        filters: Some(vec![or_node, leaf(CFilterOptions::IsExact, &["second child"])]),
        value: Some(vec![s("ignored too")]),
    };
    assert_eq!(shape(&build_filter(&plain)), shape(&build_filter(&noisy)));
    assert_eq!(shape(&build_filter(&plain)), "Not[Or[IsExact(\"ETH\"),In[\"A\", \"B\"]]]");
}
