use vstd::prelude::*;

use crate::address::Address;

verus! {

/// What a market data source knows of a token.
#[derive(Debug, Clone, PartialEq, Eq, PartialOrd, Ord, Hash)]
pub struct TokenMarketData {
    pub ticker: String,
    pub token_id: String,
    pub price_usd: String,
    pub volume_24: String,
}

/// Market data as plain values.
pub struct TokenMarketDataView {
    pub ticker: Seq<char>,
    pub token_id: Seq<char>,
    pub price_usd: Seq<char>,
    pub volume_24: Seq<char>,
}

impl View for TokenMarketData {
    type V = TokenMarketDataView;

    open spec fn view(&self) -> TokenMarketDataView {
        TokenMarketDataView {
            ticker: self.ticker@,
            token_id: self.token_id@,
            price_usd: self.price_usd@,
            volume_24: self.volume_24@,
        }
    }
}

impl TokenMarketData {
    /// A copy with the same fields.
    pub fn duplicate(&self) -> (r: TokenMarketData)
        ensures
            r@ == self@,
    {
        TokenMarketData {
            ticker: self.ticker.clone(),
            token_id: self.token_id.clone(),
            price_usd: self.price_usd.clone(),
            volume_24: self.volume_24.clone(),
        }
    }
}

/// The map that a list of entries makes, a later entry for an address
/// replacing an earlier one.
pub open spec fn entries_map(entries: Seq<(Address, TokenMarketData)>) -> Map<Seq<u8>, TokenMarketDataView>
    decreases entries.len(),
{
    if entries.len() == 0 {
        Map::empty()
    } else {
        entries_map(entries.drop_last()).insert(entries.last().0@, entries.last().1@)
    }
}

/// Market data kept by token address.
#[derive(Debug)]
pub struct MarketDataCache {
    entries: Vec<(Address, TokenMarketData)>,
}

impl View for MarketDataCache {
    type V = Map<Seq<u8>, TokenMarketDataView>;

    closed spec fn view(&self) -> Map<Seq<u8>, TokenMarketDataView> {
        entries_map(self.entries@)
    }
}

proof fn lemma_entries_map_lookup(entries: Seq<(Address, TokenMarketData)>, a: Seq<u8>, k: int)
    requires
        0 <= k < entries.len(),
        entries[k].0@ == a,
        forall|j: int| k < j < entries.len() ==> #[trigger] entries[j].0@ != a,
    ensures
        entries_map(entries).contains_key(a),
        entries_map(entries)[a] == entries[k].1@,
    decreases entries.len(),
{
    if k < entries.len() - 1 {
        lemma_entries_map_lookup(entries.drop_last(), a, k);
    }
}

proof fn lemma_entries_map_absent(entries: Seq<(Address, TokenMarketData)>, a: Seq<u8>)
    requires
        forall|j: int| 0 <= j < entries.len() ==> #[trigger] entries[j].0@ != a,
    ensures
        !entries_map(entries).contains_key(a),
    decreases entries.len(),
{
    if entries.len() > 0 {
        lemma_entries_map_absent(entries.drop_last(), a);
    }
}

proof fn lemma_entries_map_update(entries: Seq<(Address, TokenMarketData)>, k: int, e: (Address, TokenMarketData))
    requires
        0 <= k < entries.len(),
        entries[k].0@ == e.0@,
        forall|j: int| 0 <= j < entries.len() && j != k ==> #[trigger] entries[j].0@ != e.0@,
    ensures
        entries_map(entries.update(k, e)) == entries_map(entries).insert(e.0@, e.1@),
    decreases entries.len(),
{
    let upd = entries.update(k, e);
    if k == entries.len() - 1 {
        assert(upd.drop_last() =~= entries.drop_last());
        lemma_entries_map_absent(entries.drop_last(), e.0@);
        assert(entries_map(upd) =~= entries_map(entries).insert(e.0@, e.1@));
    } else {
        lemma_entries_map_update(entries.drop_last(), k, e);
        assert(upd.drop_last() =~= entries.drop_last().update(k, e));
        assert(entries_map(upd) =~= entries_map(entries).insert(e.0@, e.1@));
    }
}

impl MarketDataCache {
    /// No two entries are for the same address.
    pub closed spec fn well_formed(&self) -> bool {
        forall|i: int, j: int|
            0 <= i < self.entries@.len() && 0 <= j < self.entries@.len() && i != j ==> #[trigger] self.entries@[i].0@
                != #[trigger] self.entries@[j].0@
    }

    /// An empty cache.
    pub fn new() -> (r: MarketDataCache)
        ensures
            r.well_formed(),
            r@ == Map::<Seq<u8>, TokenMarketDataView>::empty(),
    {
        MarketDataCache { entries: Vec::new() }
    }

    /// Keeps the market data of an address, replacing what was kept for it.
    pub fn insert(&mut self, address: Address, data: TokenMarketData)
        requires
            old(self).well_formed(),
        ensures
            final(self).well_formed(),
            final(self)@ == old(self)@.insert(address@, data@),
    {
        let mut k: usize = 0;
        while k < self.entries.len()
            invariant
                k <= self.entries@.len(),
                self.well_formed(),
                self.entries@ == old(self).entries@,
                forall|j: int| 0 <= j < k ==> #[trigger] self.entries@[j].0@ != address@,
            decreases self.entries.len() - k,
        {
            if self.entries[k].0.same(&address) {
                let ghost before = self.entries@;
                proof {
                    assert forall|j: int| 0 <= j < before.len() && j != k implies #[trigger] before[j].0@ != address@ by {
                        assert(before[j].0@ != before[k as int].0@);
                    }
                    lemma_entries_map_update(before, k as int, (address, data));
                }
                self.entries.set(k, (address, data));
                proof {
                    assert(self.entries@ == before.update(k as int, (address, data)));
                    assert forall|i: int, j: int|
                        0 <= i < self.entries@.len() && 0 <= j < self.entries@.len() && i != j implies #[trigger] self.entries@[i].0@
                            != #[trigger] self.entries@[j].0@ by {
                        assert(before[i].0@ != before[j].0@);
                    }
                }
                return;
            }
            k += 1;
        }
        let ghost before = self.entries@;
        self.entries.push((address, data));
        proof {
            assert(self.entries@.drop_last() == before);
            assert(entries_map(self.entries@) == entries_map(before).insert(address@, data@));
            assert forall|i: int, j: int|
                0 <= i < self.entries@.len() && 0 <= j < self.entries@.len() && i != j implies #[trigger] self.entries@[i].0@
                    != #[trigger] self.entries@[j].0@ by {
                if i < before.len() && j < before.len() {
                    assert(before[i].0@ != before[j].0@);
                }
            }
        }
    }

    /// The market data kept for an address, if any.
    pub fn get_by_address(&self, address: Address) -> (r: Option<TokenMarketData>)
        requires
            self.well_formed(),
        ensures
            r is Some <==> self@.contains_key(address@),
            r matches Some(d) ==> d@ == self@[address@],
    {
        let mut k: usize = 0;
        while k < self.entries.len()
            invariant
                k <= self.entries@.len(),
                self.well_formed(),
                forall|j: int| 0 <= j < k ==> #[trigger] self.entries@[j].0@ != address@,
            decreases self.entries.len() - k,
        {
            if self.entries[k].0.same(&address) {
                proof {
                    assert forall|j: int| k < j < self.entries@.len() implies #[trigger] self.entries@[j].0@ != address@ by {
                        assert(self.entries@[j].0@ != self.entries@[k as int].0@);
                    }
                    lemma_entries_map_lookup(self.entries@, address@, k as int);
                }
                return Some(self.entries[k].1.duplicate());
            }
            k += 1;
        }
        proof {
            lemma_entries_map_absent(self.entries@, address@);
        }
        None
    }
}

/// Law: after market data is kept for an address, a lookup of that address
/// gives it back, and a lookup of any other address gives what it gave before.
pub proof fn lemma_cache_read_after_write(
    before: Map<Seq<u8>, TokenMarketDataView>,
    a: Seq<u8>,
    d: TokenMarketDataView,
    b: Seq<u8>,
)
    ensures
        before.insert(a, d).contains_key(a) && before.insert(a, d)[a] == d,
        b != a ==> (before.insert(a, d).contains_key(b) == before.contains_key(b) && (before.contains_key(b)
            ==> before.insert(a, d)[b] == before[b])),
{
}

} // verus!
