use vstd::prelude::*;

use crate::address::{Address, address_text, address_to_text};
use crate::domain::chain::{Chain, ChainView};
use crate::utils::filters::{Filter, execute_filter, filter_matches};
use crate::utils::process_pairs::distinct_tokens;

verus! {

/// A token on one chain, with what is known of its market.
#[derive(Debug, Clone, PartialEq, Eq, PartialOrd, Ord, Hash)]
pub struct Token<'a> {
    pub db_id: Option<u64>,
    pub ticker: String,
    pub chain: &'a Chain,
    pub decimals: Option<u8>,
    pub name: Option<String>,
    pub address: Option<Address>,
    pub price_usd: Option<String>,
    pub volume_24h_usd: Option<String>,
    pub market_provider_id: Option<String>,
}

/// A token as plain values.
pub struct TokenView {
    pub db_id: Option<u64>,
    pub ticker: Seq<char>,
    pub chain: ChainView,
    pub decimals: Option<u8>,
    pub name: Option<Seq<char>>,
    pub address: Option<Seq<u8>>,
    pub price_usd: Option<Seq<char>>,
    pub volume_24h_usd: Option<Seq<char>>,
    pub market_provider_id: Option<Seq<char>>,
}

/// The view of an optional string.
pub open spec fn opt_text(o: Option<String>) -> Option<Seq<char>> {
    match o {
        Some(s) => Some(s@),
        None => None,
    }
}

/// The view of an optional address.
pub open spec fn opt_address(o: Option<Address>) -> Option<Seq<u8>> {
    match o {
        Some(a) => Some(a@),
        None => None,
    }
}

impl<'a> View for Token<'a> {
    type V = TokenView;

    open spec fn view(&self) -> TokenView {
        TokenView {
            db_id: self.db_id,
            ticker: self.ticker@,
            chain: self.chain@,
            decimals: self.decimals,
            name: opt_text(self.name),
            address: opt_address(self.address),
            price_usd: opt_text(self.price_usd),
            volume_24h_usd: opt_text(self.volume_24h_usd),
            market_provider_id: opt_text(self.market_provider_id),
        }
    }
}

/// The text that a filter on `field` is run on: the ticker, the chain's
/// name, the name, or the printed address; empty where the token has no such
/// value or the field is unknown.
pub open spec fn token_field_value(t: TokenView, field: Seq<char>) -> Seq<char> {
    if field == "ticker"@ {
        t.ticker
    } else if field == "chain"@ {
        t.chain.name
    } else if field == "name"@ {
        match t.name {
            Some(n) => n,
            None => Seq::empty(),
        }
    } else if field == "address"@ {
        match t.address {
            Some(a) => address_text(a),
            None => Seq::empty(),
        }
    } else {
        Seq::empty()
    }
}

/// Whether one `(field, filter)` entry accepts the token.
pub open spec fn entry_accepts(t: TokenView, entry: (String, Filter)) -> bool {
    filter_matches(token_field_value(t, entry.0@), entry.1)
}

/// Whether every entry of a field filter list accepts the token.
pub open spec fn token_matches(t: TokenView, filters: Seq<(String, Filter)>) -> bool {
    forall|k: int| 0 <= k < filters.len() ==> #[trigger] entry_accepts(t, filters[k])
}

/// A copy of an optional string.
pub fn copy_opt_text(o: &Option<String>) -> (r: Option<String>)
    ensures
        opt_text(r) == opt_text(*o),
{
    match o {
        Some(s) => Some(s.clone()),
        None => None,
    }
}

/// Whether two optional strings are equal.
pub fn same_opt_text(a: &Option<String>, b: &Option<String>) -> (r: bool)
    ensures
        r == (opt_text(*a) == opt_text(*b)),
{
    match (a, b) {
        (Some(x), Some(y)) => *x == *y,
        (None, None) => true,
        _ => false,
    }
}

/// Whether two optional addresses are equal.
pub fn same_opt_address(a: &Option<Address>, b: &Option<Address>) -> (r: bool)
    ensures
        r == (opt_address(*a) == opt_address(*b)),
{
    match (a, b) {
        (Some(x), Some(y)) => x.same(y),
        (None, None) => true,
        _ => false,
    }
}

/// Whether two chains have the same fields.
pub fn same_chain(a: &Chain, b: &Chain) -> (r: bool)
    ensures
        r == (a@ == b@),
{
    a.id == b.id && a.name == b.name && a.rpc_url == b.rpc_url
}

impl<'a> Token<'a> {
    /// Whether two tokens have the same fields, the chain compared by its
    /// fields too.
    pub fn same(&self, other: &Token) -> (r: bool)
        ensures
            r == (self@ == other@),
    {
        self.db_id == other.db_id && self.ticker == other.ticker && same_chain(self.chain, other.chain)
            && self.decimals == other.decimals && same_opt_text(&self.name, &other.name)
            && same_opt_address(&self.address, &other.address) && same_opt_text(
            &self.price_usd,
            &other.price_usd,
        ) && same_opt_text(&self.volume_24h_usd, &other.volume_24h_usd) && same_opt_text(
            &self.market_provider_id,
            &other.market_provider_id,
        )
    }

    /// A copy with the same fields, on the same chain.
    pub fn duplicate(&self) -> (r: Token<'a>)
        ensures
            r@ == self@,
            r.chain == self.chain,
    {
        Token {
            db_id: self.db_id,
            ticker: self.ticker.clone(),
            chain: self.chain,
            decimals: self.decimals,
            name: copy_opt_text(&self.name),
            address: self.address,
            price_usd: copy_opt_text(&self.price_usd),
            volume_24h_usd: copy_opt_text(&self.volume_24h_usd),
            market_provider_id: copy_opt_text(&self.market_provider_id),
        }
    }

    /// The text that a filter on `field` is run on.
    pub fn field_value(&self, field: &String) -> (r: String)
        ensures
            r@ == token_field_value(self@, field@),
    {
        proof {
            reveal_strlit("ticker");
            reveal_strlit("chain");
            reveal_strlit("name");
            reveal_strlit("address");
        }
        if *field == String::from_str("ticker") {
            self.ticker.clone()
        } else if *field == String::from_str("chain") {
            self.chain.name.clone()
        } else if *field == String::from_str("name") {
            match &self.name {
                Some(n) => n.clone(),
                None => String::new(),
            }
        } else if *field == String::from_str("address") {
            match &self.address {
                Some(a) => address_to_text(a),
                None => String::new(),
            }
        } else {
            String::new()
        }
    }

    /// Whether every `(field, filter)` entry accepts the token: each filter is
    /// run on the value of its field.
    pub fn match_filter(&self, token_filters: &Vec<(String, Filter)>) -> (r: bool)
        ensures
            r == token_matches(self@, token_filters@),
    {
        let mut i: usize = 0;
        while i < token_filters.len()
            invariant
                i <= token_filters@.len(),
                forall|k: int| 0 <= k < i ==> #[trigger] entry_accepts(self@, token_filters@[k]),
            decreases token_filters.len() - i,
        {
            let entry = &token_filters[i];
            let value = self.field_value(&entry.0);
            if !execute_filter(&value, &entry.1) {
                assert(!entry_accepts(self@, token_filters@[i as int]));
                return false;
            }
            i += 1;
        }
        true
    }
}


/// Adds a token to a set of distinct tokens, as `HashSet::insert` does:
/// when an equal token is already there the set stays as it was, else the
/// token is added. Tells whether it was added.
pub fn insert_token<'a>(set: &mut Vec<Token<'a>>, token: Token<'a>) -> (added: bool)
    requires
        distinct_tokens(old(set)@),
    ensures
        distinct_tokens(final(set)@),
        added == !holds_token(old(set)@, token),
        added ==> final(set)@ == old(set)@.push(token),
        !added ==> final(set)@ == old(set)@,
{
    let mut k: usize = 0;
    while k < set.len()
        invariant
            k <= set@.len(),
            set@ == old(set)@,
            distinct_tokens(old(set)@),
            forall|c: int| 0 <= c < k ==> #[trigger] set@[c]@ != token@,
        decreases set.len() - k,
    {
        if set[k].same(&token) {
            assert(set@[k as int]@ == token@);
            return false;
        }
        k += 1;
    }
    let ghost before = set@;
    set.push(token);
    proof {
        assert forall|i: int, j: int| 0 <= i < set@.len() && 0 <= j < set@.len() && i != j implies set@[i]@ != set@[j]@ by {
            if i < before.len() && j < before.len() {
                assert(before[i]@ != before[j]@);
            } else if i == before.len() {
                assert(before[j]@ != token@);
            } else {
                assert(before[i]@ != token@);
            }
        }
    }
    true
}

/// The set holds a token equal to `token`.
pub open spec fn holds_token(set: Seq<Token>, token: Token) -> bool {
    exists|k: int| 0 <= k < set.len() && #[trigger] set[k]@ == token@
}

/// Law: after a token is inserted the set holds it and its tokens stay
/// distinct, so a second insert of the same token changes nothing.
pub proof fn lemma_insert_token_twice<'a>(set: Seq<Token<'a>>, token: Token<'a>)
    requires
        distinct_tokens(set),
    ensures
        ({
            let once = if holds_token(set, token) { set } else { set.push(token) };
            distinct_tokens(once) && holds_token(once, token)
        }),
{
    if holds_token(set, token) {
    } else {
        let once = set.push(token);
        assert(once[set.len() as int]@ == token@);
        assert forall|i: int, j: int| 0 <= i < once.len() && 0 <= j < once.len() && i != j implies once[i]@ != once[j]@ by {
            if i < set.len() && j < set.len() {
                assert(set[i]@ != set[j]@);
            } else if i == set.len() {
                assert(once[j] == set[j]);
            } else {
                assert(once[i] == set[i]);
            }
        }
    }
}

} // verus!
