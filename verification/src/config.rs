use vstd::prelude::*;

use crate::utils::filters::{
    Filter, FieldFilter, LogicalWrapper, all_match, any_match, filter_matches, is_listed, is_substring, same_filter,
    all_same_filter,
};

verus! {

/// A chain entry of the configuration.
#[derive(Debug)]
pub struct CChain {
    pub id: u32,
    pub name: String,
    pub rpc_url: String,
}

/// An HTTPS proxy with its credentials.
#[derive(Debug, Clone)]
pub struct CProxy {
    pub url: String,
    pub user: String,
    pub password: String,
}

/// The kind of a configured filter node.
#[derive(Debug, Clone, Copy, PartialEq, Eq)]
pub enum CFilterOptions {
    And,
    Or,
    Not,
    In,
    IsExact,
    Contains,
}

/// A configured filter node: an operator over child nodes, or a field test
/// over values.
#[derive(Debug)]
pub struct CFilter {
    pub op: CFilterOptions,
    pub filters: Option<Vec<CFilter>>,
    pub value: Option<Vec<String>>,
}

/// The filters that apply to tokens.
#[derive(Debug)]
pub struct CTokenFilters {
    pub ticker: CFilter,
}

/// All configured filters.
#[derive(Debug)]
pub struct CFilters {
    pub tokens: CTokenFilters,
}

/// Database connection settings.
#[derive(Debug, Clone)]
pub struct CDatabase {
    pub user: String,
    pub password: String,
    pub database: String,
    pub url: String,
    pub port: u16,
}

/// The whole configuration.
#[derive(Debug)]
pub struct Config {
    pub database: CDatabase,
    pub chains: Vec<CChain>,
    pub filters: CFilters,
    pub proxies: Vec<CProxy>,
}


/// Whether a configured filter node can be built: operators carry child
/// nodes (a `Not` at least one), all of them buildable; `In` carries values;
/// `IsExact` and `Contains` carry at least one value.
pub open spec fn filter_node_buildable(node: CFilter) -> bool
    decreases node, 0int,
{
    match node.op {
        CFilterOptions::And | CFilterOptions::Or => match node.filters {
            Some(children) => all_buildable(children@, children@.len() as int),
            None => false,
        },
        CFilterOptions::Not => match node.filters {
            Some(children) => children@.len() > 0 && all_buildable(children@, children@.len() as int),
            None => false,
        },
        CFilterOptions::In => node.value is Some,
        CFilterOptions::IsExact | CFilterOptions::Contains => match node.value {
            Some(values) => values@.len() > 0,
            None => false,
        },
    }
}

/// The first `n` nodes are buildable.
pub open spec fn all_buildable(nodes: Seq<CFilter>, n: int) -> bool
    decreases nodes, n,
{
    if n <= 0 || n > nodes.len() {
        true
    } else {
        all_buildable(nodes, n - 1) && filter_node_buildable(nodes[n - 1])
    }
}

/// Whether `f` is the filter built from `node`: the same operator over the
/// filters built from the children (for `Not`, from its first child), or the
/// same field test over the node's values (for `IsExact` and `Contains`, its
/// first value).
pub open spec fn filter_built_from(node: CFilter, f: Filter) -> bool
    decreases node, 0int,
{
    match node.op {
        CFilterOptions::And => match (node.filters, f) {
            (Some(children), Filter::Operator(op)) => match *op {
                LogicalWrapper::And(fs) => fs@.len() == children@.len() && all_built(
                    children@,
                    fs@,
                    children@.len() as int,
                ),
                _ => false,
            },
            _ => false,
        },
        CFilterOptions::Or => match (node.filters, f) {
            (Some(children), Filter::Operator(op)) => match *op {
                LogicalWrapper::Or(fs) => fs@.len() == children@.len() && all_built(
                    children@,
                    fs@,
                    children@.len() as int,
                ),
                _ => false,
            },
            _ => false,
        },
        CFilterOptions::Not => match (node.filters, f) {
            (Some(children), Filter::Operator(op)) => match *op {
                LogicalWrapper::Not(g) => children@.len() > 0 && filter_built_from(children@[0], g),
                _ => false,
            },
            _ => false,
        },
        CFilterOptions::In => match (node.value, f) {
            (Some(values), Filter::Filter(FieldFilter::In(cases))) => cases.deep_view() == values.deep_view(),
            _ => false,
        },
        CFilterOptions::IsExact => match (node.value, f) {
            (Some(values), Filter::Filter(FieldFilter::IsExact(case))) => values@.len() > 0 && case@
                == values@[0]@,
            _ => false,
        },
        CFilterOptions::Contains => match (node.value, f) {
            (Some(values), Filter::Filter(FieldFilter::Contains(case))) => values@.len() > 0 && case@
                == values@[0]@,
            _ => false,
        },
    }
}

/// The first `n` filters are built from the first `n` nodes, one for one.
pub open spec fn all_built(nodes: Seq<CFilter>, fs: Seq<Filter>, n: int) -> bool
    decreases nodes, n,
{
    if n <= 0 || n > nodes.len() || n > fs.len() {
        true
    } else {
        all_built(nodes, fs, n - 1) && filter_built_from(nodes[n - 1], fs[n - 1])
    }
}

/// A copy of a list of strings.
pub fn copy_texts(v: &Vec<String>) -> (r: Vec<String>)
    ensures
        r.deep_view() == v.deep_view(),
{
    let mut r: Vec<String> = Vec::new();
    let mut i: usize = 0;
    while i < v.len()
        invariant
            i <= v@.len(),
            r@.len() == i,
            forall|k: int| 0 <= k < i ==> #[trigger] r@[k]@ == v@[k]@,
        decreases v.len() - i,
    {
        r.push(v[i].clone());
        i += 1;
    }
    assert(r.deep_view() =~= v.deep_view());
    r
}

/// Builds the filters of a list of child nodes, one for one.
fn build_children(node: &CFilter, children: &Vec<CFilter>) -> (r: Vec<Filter>)
    requires
        node.filters == Some(*children),
        all_buildable(children@, children@.len() as int),
    ensures
        r@.len() == children@.len(),
        all_built(children@, r@, children@.len() as int),
    decreases node, 1int,
{
    let mut r: Vec<Filter> = Vec::new();
    let mut i: usize = 0;
    while i < children.len()
        invariant
            node.filters == Some(*children),
            all_buildable(children@, children@.len() as int),
            i <= children@.len(),
            r@.len() == i,
            all_built(children@, r@, i as int),
        decreases children.len() - i,
    {
        proof {
            lemma_all_buildable_prefix(children@, children@.len() as int, i as int + 1);
            assert(decreases_to!(*node => node.filters));
            assert(decreases_to!(node.filters => node.filters->0));
            assert(decreases_to!(*children => children@[i as int]));
            assert(decreases_to!(*node => children@[i as int]));
        }
        let f = build_filter(&children[i]);
        let ghost before = r@;
        r.push(f);
        proof {
            assert(r@.subrange(0, i as int) =~= before);
            lemma_all_built_extend(children@, before, r@, i as int);
        }
        i += 1;
    }
    r
}

proof fn lemma_all_buildable_prefix(nodes: Seq<CFilter>, n: int, m: int)
    requires
        all_buildable(nodes, n),
        0 < m <= n <= nodes.len(),
    ensures
        all_buildable(nodes, m),
        filter_node_buildable(nodes[m - 1]),
    decreases n - m,
{
    if m < n {
        lemma_all_buildable_prefix(nodes, n - 1, m);
    }
}

proof fn lemma_all_built_extend(nodes: Seq<CFilter>, fs: Seq<Filter>, gs: Seq<Filter>, i: int)
    requires
        all_built(nodes, fs, i),
        0 <= i < nodes.len(),
        fs.len() == i,
        gs.len() == i + 1,
        gs.subrange(0, i) == fs,
        filter_built_from(nodes[i], gs[i]),
    ensures
        all_built(nodes, gs, i + 1),
{
    lemma_all_built_same_prefix(nodes, fs, gs, i);
}

proof fn lemma_all_built_same_prefix(nodes: Seq<CFilter>, fs: Seq<Filter>, gs: Seq<Filter>, n: int)
    requires
        all_built(nodes, fs, n),
        0 <= n <= fs.len(),
        n <= gs.len(),
        forall|k: int| 0 <= k < n ==> fs[k] == gs[k],
    ensures
        all_built(nodes, gs, n),
    decreases n,
{
    if n > 0 && n <= nodes.len() {
        lemma_all_built_same_prefix(nodes, fs, gs, n - 1);
    }
}

/// Builds the filter tree that a configured node describes.
pub fn build_filter(filter_node: &CFilter) -> (r: Filter)
    requires
        filter_node_buildable(*filter_node),
    ensures
        filter_built_from(*filter_node, r),
    decreases filter_node, 2int,
{
    match filter_node.op {
        CFilterOptions::And => match &filter_node.filters {
            Some(children) => Filter::Operator(Box::new(LogicalWrapper::And(build_children(filter_node, children)))),
            None => {
                proof {
                    assert(false);
                }
                Filter::Filter(FieldFilter::In(Vec::new()))
            },
        },
        CFilterOptions::Or => match &filter_node.filters {
            Some(children) => Filter::Operator(Box::new(LogicalWrapper::Or(build_children(filter_node, children)))),
            None => {
                proof {
                    assert(false);
                }
                Filter::Filter(FieldFilter::In(Vec::new()))
            },
        },
        CFilterOptions::Not => match &filter_node.filters {
            Some(children) => {
                let mut built = build_children(filter_node, children);
                proof {
                    reveal_with_fuel(all_built, 2);
                    lemma_all_built_first(children@, built@, children@.len() as int);
                }
                let first = built.remove(0);
                Filter::Operator(Box::new(LogicalWrapper::Not(first)))
            },
            None => {
                proof {
                    assert(false);
                }
                Filter::Filter(FieldFilter::In(Vec::new()))
            },
        },
        CFilterOptions::In => match &filter_node.value {
            Some(values) => Filter::Filter(FieldFilter::In(copy_texts(values))),
            None => {
                proof {
                    assert(false);
                }
                Filter::Filter(FieldFilter::In(Vec::new()))
            },
        },
        CFilterOptions::IsExact => match &filter_node.value {
            Some(values) => Filter::Filter(FieldFilter::IsExact(values[0].clone())),
            None => {
                proof {
                    assert(false);
                }
                Filter::Filter(FieldFilter::In(Vec::new()))
            },
        },
        CFilterOptions::Contains => match &filter_node.value {
            Some(values) => Filter::Filter(FieldFilter::Contains(values[0].clone())),
            None => {
                proof {
                    assert(false);
                }
                Filter::Filter(FieldFilter::In(Vec::new()))
            },
        },
    }
}

proof fn lemma_all_built_first(nodes: Seq<CFilter>, fs: Seq<Filter>, n: int)
    requires
        all_built(nodes, fs, n),
        1 <= n <= nodes.len(),
        n <= fs.len(),
    ensures
        filter_built_from(nodes[0], fs[0]),
    decreases n,
{
    if n > 1 {
        lemma_all_built_first(nodes, fs, n - 1);
    }
}

/// The field filters that the configuration sets for a target: for
/// `"tokens"`, one entry `"ticker"` with the filter built from the configured
/// ticker node; for any other target, none.
pub fn process_config_filters(target: String, filters_config: CFilters) -> (r: Vec<(String, Filter)>)
    requires
        target@ == "tokens"@ ==> filter_node_buildable(filters_config.tokens.ticker),
    ensures
        target@ == "tokens"@ ==> r@.len() == 1 && r@[0].0@ == "ticker"@ && filter_built_from(
            filters_config.tokens.ticker,
            r@[0].1,
        ),
        target@ == "tokens"@ ==> forall|v: Seq<char>|
            #[trigger] filter_matches(v, r@[0].1) == tree_meaning(filters_config.tokens.ticker, v),
        target@ != "tokens"@ ==> r@.len() == 0,
{
    let mut filter: Vec<(String, Filter)> = Vec::new();
    if target == String::from_str("tokens") {
        let tokens = filters_config.tokens;
        filter.push((String::from_str("ticker"), build_filter(&tokens.ticker)));
        proof {
            assert forall|v: Seq<char>| #[trigger] filter_matches(v, filter@[0].1) == tree_meaning(
                filters_config.tokens.ticker,
                v,
            ) by {
                lemma_built_filter_meaning(filters_config.tokens.ticker, filter@[0].1, v);
            }
        }
    }
    filter
}


/// Whether a configured filter node can be built, checked: the same answer as
/// `filter_node_buildable`.
pub fn filter_node_is_buildable(node: &CFilter) -> (b: bool)
    ensures
        b == filter_node_buildable(*node),
    decreases node, 2int,
{
    match node.op {
        CFilterOptions::And | CFilterOptions::Or => match &node.filters {
            Some(children) => children_buildable(node, children),
            None => false,
        },
        CFilterOptions::Not => match &node.filters {
            Some(children) => children.len() > 0 && children_buildable(node, children),
            None => false,
        },
        CFilterOptions::In => node.value.is_some(),
        CFilterOptions::IsExact | CFilterOptions::Contains => match &node.value {
            Some(values) => values.len() > 0,
            None => false,
        },
    }
}

/// Whether every child node can be built.
fn children_buildable(node: &CFilter, children: &Vec<CFilter>) -> (b: bool)
    requires
        node.filters == Some(*children),
    ensures
        b == all_buildable(children@, children@.len() as int),
    decreases node, 1int,
{
    let mut i: usize = 0;
    while i < children.len()
        invariant
            node.filters == Some(*children),
            i <= children@.len(),
            all_buildable(children@, i as int),
        decreases children.len() - i,
    {
        proof {
            assert(decreases_to!(*node => node.filters));
            assert(decreases_to!(node.filters => node.filters->0));
            assert(decreases_to!(*children => children@[i as int]));
            assert(decreases_to!(*node => children@[i as int]));
        }
        if !filter_node_is_buildable(&children[i]) {
            proof {
                if all_buildable(children@, children@.len() as int) {
                    lemma_all_buildable_prefix(children@, children@.len() as int, i as int + 1);
                }
            }
            return false;
        }
        i += 1;
    }
    true
}

/// What a configured filter node accepts: `And` when every child does, `Or`
/// when some child does, `Not` when its first child does not, `In` a value
/// among the listed values, `IsExact` the first value, `Contains` a value
/// that occurs inside the first value.
pub open spec fn tree_meaning(node: CFilter, value: Seq<char>) -> bool
    decreases node, 0int,
{
    match node.op {
        CFilterOptions::And => match node.filters {
            Some(children) => all_trees(children@, value, children@.len() as int),
            None => false,
        },
        CFilterOptions::Or => match node.filters {
            Some(children) => any_tree(children@, value, children@.len() as int),
            None => false,
        },
        CFilterOptions::Not => match node.filters {
            Some(children) => children@.len() > 0 && !tree_meaning(children@[0], value),
            None => false,
        },
        CFilterOptions::In => match node.value {
            Some(values) => is_listed(value, values@),
            None => false,
        },
        CFilterOptions::IsExact => match node.value {
            Some(values) => values@.len() > 0 && values@[0]@ == value,
            None => false,
        },
        CFilterOptions::Contains => match node.value {
            Some(values) => values@.len() > 0 && is_substring(value, values@[0]@),
            None => false,
        },
    }
}

/// Every one of the first `n` nodes accepts `value`.
pub open spec fn all_trees(nodes: Seq<CFilter>, value: Seq<char>, n: int) -> bool
    decreases nodes, n,
{
    if n <= 0 || n > nodes.len() {
        true
    } else {
        all_trees(nodes, value, n - 1) && tree_meaning(nodes[n - 1], value)
    }
}

/// Some one of the first `n` nodes accepts `value`.
pub open spec fn any_tree(nodes: Seq<CFilter>, value: Seq<char>, n: int) -> bool
    decreases nodes, n,
{
    if n <= 0 || n > nodes.len() {
        false
    } else {
        any_tree(nodes, value, n - 1) || tree_meaning(nodes[n - 1], value)
    }
}

/// Law: the filter built from a configured node accepts exactly what the
/// node means.
pub proof fn lemma_built_filter_meaning(node: CFilter, f: Filter, value: Seq<char>)
    requires
        filter_built_from(node, f),
    ensures
        filter_matches(value, f) == tree_meaning(node, value),
    decreases node, 0int,
{
    match node.op {
        CFilterOptions::And | CFilterOptions::Or => {
            let children = node.filters->0;
            match f {
                Filter::Operator(op) => match *op {
                    LogicalWrapper::And(fs) => {
                        assert(decreases_to!(node => children@));
                        lemma_all_built_meaning(children@, fs@, value, children@.len() as int);
                    },
                    LogicalWrapper::Or(fs) => {
                        assert(decreases_to!(node => children@));
                        lemma_all_built_meaning(children@, fs@, value, children@.len() as int);
                    },
                    _ => {},
                },
                _ => {},
            }
        },
        CFilterOptions::Not => {
            let children = node.filters->0;
            match f {
                Filter::Operator(op) => match *op {
                    LogicalWrapper::Not(g) => {
                        assert(decreases_to!(node => children@[0]));
                        lemma_built_filter_meaning(children@[0], g, value);
                    },
                    _ => {},
                },
                _ => {},
            }
        },
        CFilterOptions::In => {
            match f {
                Filter::Filter(FieldFilter::In(cases)) => {
                    let values = node.value->0;
                    assert(values.deep_view().len() == values@.len());
                    assert(cases.deep_view().len() == cases@.len());
                    if is_listed(value, cases@) {
                        let i = choose|i: int| 0 <= i < cases@.len() && #[trigger] cases@[i]@ == value;
                        assert(values.deep_view()[i] == cases.deep_view()[i]);
                        assert(values.deep_view()[i] == values@[i]@);
                        assert(cases.deep_view()[i] == cases@[i]@);
                        assert(values@[i]@ == value);
                    }
                    if is_listed(value, values@) {
                        let i = choose|i: int| 0 <= i < values@.len() && #[trigger] values@[i]@ == value;
                        assert(values.deep_view()[i] == cases.deep_view()[i]);
                        assert(values.deep_view()[i] == values@[i]@);
                        assert(cases.deep_view()[i] == cases@[i]@);
                        assert(cases@[i]@ == value);
                    }
                },
                _ => {},
            }
        },
        _ => {},
    }
}

proof fn lemma_all_built_meaning(nodes: Seq<CFilter>, fs: Seq<Filter>, value: Seq<char>, n: int)
    requires
        all_built(nodes, fs, n),
        0 <= n <= nodes.len(),
        n <= fs.len(),
    ensures
        all_match(value, fs, n) == all_trees(nodes, value, n),
        any_match(value, fs, n) == any_tree(nodes, value, n),
    decreases nodes, n,
{
    if n > 0 {
        lemma_all_built_meaning(nodes, fs, value, n - 1);
        lemma_built_filter_meaning(nodes[n - 1], fs[n - 1], value);
    }
}

/// Two configured nodes that agree on every field their operation reads:
/// the same operation, and the same child nodes (`And`, `Or`), first child
/// (`Not`), values (`In`) or first value (`IsExact`, `Contains`).
pub open spec fn same_used_fields(n1: CFilter, n2: CFilter) -> bool
    decreases n1, 0int,
{
    n1.op == n2.op && match n1.op {
        CFilterOptions::And | CFilterOptions::Or => match n1.filters {
            Some(c1) => match n2.filters {
                Some(c2) => c1@.len() == c2@.len() && all_same_used(c1@, c2@, c1@.len() as int),
                None => false,
            },
            None => false,
        },
        CFilterOptions::Not => match n1.filters {
            Some(c1) => match n2.filters {
                Some(c2) => c1@.len() > 0 && c2@.len() > 0 && same_used_fields(c1@[0], c2@[0]),
                None => false,
            },
            None => false,
        },
        CFilterOptions::In => match (n1.value, n2.value) {
            (Some(a), Some(b)) => a.deep_view() == b.deep_view(),
            _ => false,
        },
        CFilterOptions::IsExact | CFilterOptions::Contains => match (n1.value, n2.value) {
            (Some(a), Some(b)) => a@.len() > 0 && b@.len() > 0 && a@[0]@ == b@[0]@,
            _ => false,
        },
    }
}

/// The first `n` nodes of the two lists agree pairwise on the fields they use.
pub open spec fn all_same_used(c1: Seq<CFilter>, c2: Seq<CFilter>, n: int) -> bool
    decreases c1, n,
{
    if n <= 0 || n > c1.len() || n > c2.len() {
        true
    } else {
        all_same_used(c1, c2, n - 1) && same_used_fields(c1[n - 1], c2[n - 1])
    }
}

/// Law: two configured nodes that differ only in fields their operations do
/// not read build the same filter.
pub proof fn lemma_unused_fields_ignored(n1: CFilter, n2: CFilter, f1: Filter, f2: Filter)
    requires
        filter_built_from(n1, f1),
        filter_built_from(n2, f2),
        same_used_fields(n1, n2),
    ensures
        same_filter(f1, f2),
    decreases n1, 0int,
{
    match n1.op {
        CFilterOptions::And | CFilterOptions::Or => {
            let c1 = n1.filters->0;
            let c2 = n2.filters->0;
            match f1 {
                Filter::Operator(o1) => match f2 {
                    Filter::Operator(o2) => match *o1 {
                        LogicalWrapper::And(fs) => match *o2 {
                            LogicalWrapper::And(gs) => {
                                assert(decreases_to!(n1 => c1@));
                                lemma_all_unused_ignored(c1@, c2@, fs@, gs@, c1@.len() as int);
                            },
                            _ => {},
                        },
                        LogicalWrapper::Or(fs) => match *o2 {
                            LogicalWrapper::Or(gs) => {
                                assert(decreases_to!(n1 => c1@));
                                lemma_all_unused_ignored(c1@, c2@, fs@, gs@, c1@.len() as int);
                            },
                            _ => {},
                        },
                        _ => {},
                    },
                    _ => {},
                },
                _ => {},
            }
        },
        CFilterOptions::Not => {
            let c1 = n1.filters->0;
            let c2 = n2.filters->0;
            match f1 {
                Filter::Operator(o1) => match f2 {
                    Filter::Operator(o2) => match *o1 {
                        LogicalWrapper::Not(g1) => match *o2 {
                            LogicalWrapper::Not(g2) => {
                                assert(decreases_to!(n1 => c1@[0]));
                                lemma_unused_fields_ignored(c1@[0], c2@[0], g1, g2);
                            },
                            _ => {},
                        },
                        _ => {},
                    },
                    _ => {},
                },
                _ => {},
            }
        },
        _ => {},
    }
}

proof fn lemma_all_unused_ignored(c1: Seq<CFilter>, c2: Seq<CFilter>, fs: Seq<Filter>, gs: Seq<Filter>, n: int)
    requires
        all_built(c1, fs, n),
        all_built(c2, gs, n),
        all_same_used(c1, c2, n),
        0 <= n <= c1.len(),
        n <= c2.len(),
        n <= fs.len(),
        n <= gs.len(),
    ensures
        all_same_filter(fs, gs, n),
    decreases c1, n,
{
    if n > 0 {
        lemma_all_unused_ignored(c1, c2, fs, gs, n - 1);
        lemma_unused_fields_ignored(c1[n - 1], c2[n - 1], fs[n - 1], gs[n - 1]);
    }
}

} // verus!
