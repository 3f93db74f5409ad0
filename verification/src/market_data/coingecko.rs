use vstd::prelude::*;

use crate::address::{Address, parse_address, parses_as_address, parsed_address, zero_address};
use crate::market_data::provider::{MarketDataCache, TokenMarketData, TokenMarketDataView};

verus! {

/// A token that the market data source lists: its id, its symbol and its
/// contract address on each platform (if it gave one).
#[derive(Debug)]
pub struct CGRToken {
    pub id: String,
    pub symbol: String,
    pub platforms: Option<Vec<Option<String>>>,
}

/// The address that a platform entry stands for: the parsed address, or the
/// zero address where there is none or it does not parse.
pub open spec fn platform_address(p: Option<String>) -> Seq<u8> {
    match p {
        Some(s) => if parses_as_address(s@) {
            parsed_address(s@)
        } else {
            zero_address()
        },
        None => zero_address(),
    }
}

/// One of the addresses is `a`.
pub open spec fn address_listed(addrs: Seq<Address>, a: Seq<u8>) -> bool {
    exists|i: int| 0 <= i < addrs.len() && #[trigger] addrs[i]@ == a
}

/// `a` is one of the listed addresses and the address of one of the token's
/// platforms.
pub open spec fn is_token_match(t: CGRToken, addrs: Seq<Address>, a: Seq<u8>) -> bool {
    address_listed(addrs, a) && match t.platforms {
        Some(ps) => exists|p: int| 0 <= p < ps@.len() && #[trigger] platform_address(ps@[p]) == a,
        None => false,
    }
}

/// One of the token's platform addresses is among the listed addresses.
pub open spec fn has_token_match(t: CGRToken, addrs: Seq<Address>) -> bool {
    match t.platforms {
        Some(ps) => exists|p: int| 0 <= p < ps@.len() && address_listed(addrs, #[trigger] platform_address(ps@[p])),
        None => false,
    }
}

/// Token `j` has a match and no later one of the first `n` tokens with its id
/// has one.
pub open spec fn is_last_match(av: Seq<CGRToken>, addrs: Seq<Address>, j: int, n: int) -> bool {
    &&& 0 <= j < n <= av.len()
    &&& has_token_match(av[j], addrs)
    &&& forall|j2: int| j < j2 < n && #[trigger] av[j2].id@ == av[j].id@ ==> !has_token_match(av[j2], addrs)
}

/// The entry `(id, symbol, address)` comes from token `j`, the last of the
/// first `n` with its id that has a match.
pub open spec fn is_entry_of(av: Seq<CGRToken>, addrs: Seq<Address>, e: (String, String, Address), j: int, n: int) -> bool {
    &&& is_last_match(av, addrs, j, n)
    &&& e.0@ == av[j].id@
    &&& e.1@ == av[j].symbol@
    &&& is_token_match(av[j], addrs, e.2@)
}

/// The entry comes from one of the first `n` tokens.
pub open spec fn entry_from_token(av: Seq<CGRToken>, addrs: Seq<Address>, e: (String, String, Address), n: int) -> bool {
    exists|j: int| #[trigger] is_entry_of(av, addrs, e, j, n)
}

/// Some entry has the id.
pub open spec fn has_entry_id(r: Seq<(String, String, Address)>, id: Seq<char>) -> bool {
    exists|k: int| 0 <= k < r.len() && #[trigger] r[k].0@ == id
}

/// No two entries have the same id.
pub open spec fn distinct_entry_ids(r: Seq<(String, String, Address)>) -> bool {
    forall|k1: int, k2: int| 0 <= k1 < r.len() && 0 <= k2 < r.len() && k1 != k2 ==> #[trigger] r[k1].0@ != #[trigger] r[k2].0@
}

/// The address of a platform entry.
fn platform_address_exec(p: &Option<String>) -> (r: Address)
    ensures
        r@ == platform_address(*p),
{
    match p {
        Some(s) => match parse_address(s.as_str()) {
            Some(a) => a,
            None => Address::zero(),
        },
        None => Address::zero(),
    }
}

/// Whether the address is one of the listed ones.
fn address_listed_exec(addrs: &Vec<Address>, a: &Address) -> (r: bool)
    ensures
        r == address_listed(addrs@, a@),
{
    let mut i: usize = 0;
    while i < addrs.len()
        invariant
            i <= addrs@.len(),
            forall|k: int| 0 <= k < i ==> #[trigger] addrs@[k]@ != a@,
        decreases addrs.len() - i,
    {
        if addrs[i].same(a) {
            return true;
        }
        i += 1;
    }
    false
}

/// A platform address of the token that is among the listed addresses, if
/// there is one.
fn token_match(t: &CGRToken, addrs: &Vec<Address>) -> (r: Option<Address>)
    ensures
        r is None <==> !has_token_match(*t, addrs@),
        r matches Some(a) ==> is_token_match(*t, addrs@, a@),
{
    match &t.platforms {
        Some(ps) => {
            let mut p: usize = 0;
            while p < ps.len()
                invariant
                    t.platforms == Some(*ps),
                    p <= ps@.len(),
                    forall|q: int| 0 <= q < p ==> !address_listed(addrs@, #[trigger] platform_address(ps@[q])),
                decreases ps.len() - p,
            {
                let a = platform_address_exec(&ps[p]);
                if address_listed_exec(addrs, &a) {
                    assert(address_listed(addrs@, platform_address(ps@[p as int])));
                    assert(platform_address(ps@[p as int]) == a@);
                    assert(exists|q: int| 0 <= q < ps@.len() && #[trigger] platform_address(ps@[q]) == a@);
                    assert(exists|q: int| 0 <= q < ps@.len() && address_listed(addrs@, #[trigger] platform_address(ps@[q])));
                    assert(has_token_match(*t, addrs@));
                    assert(address_listed(addrs@, a@));
                    assert(match t.platforms {
                        Some(ps) => exists|p: int| 0 <= p < ps@.len() && #[trigger] platform_address(ps@[p]) == a@,
                        None => false,
                    });
                    assert(is_token_match(*t, addrs@, a@));
                    return Some(a);
                }
                p += 1;
            }
            None
        },
        None => None,
    }
}

/// For each listed token id whose platforms hold one of the given addresses:
/// the id, the symbol and such an address, from the last token with that id
/// that has one; each id once, `wrapped-ethw` left out. Which address is
/// taken, when several match, and the order of the entries are left open.
pub fn match_market_tokens(available: &Vec<CGRToken>, addresses: &Vec<Address>) -> (r: Vec<(String, String, Address)>)
    ensures
        distinct_entry_ids(r@),
        forall|k: int| 0 <= k < r@.len() ==> (#[trigger] r@[k]).0@ != "wrapped-ethw"@ && entry_from_token(
            available@,
            addresses@,
            r@[k],
            available@.len() as int,
        ),
        forall|j: int| 0 <= j < available@.len() && has_token_match(#[trigger] available@[j], addresses@)
            && available@[j].id@ != "wrapped-ethw"@ ==> has_entry_id(r@, available@[j].id@),
{
    let mut r: Vec<(String, String, Address)> = Vec::new();
    let n = available.len();
    let mut j: usize = 0;
    while j < n
        invariant
            n == available@.len(),
            j <= n,
            distinct_entry_ids(r@),
            forall|k: int| 0 <= k < r@.len() ==> entry_from_token(available@, addresses@, #[trigger] r@[k], j as int),
            forall|a: int| 0 <= a < j && has_token_match(#[trigger] available@[a], addresses@) ==> has_entry_id(
                r@,
                available@[a].id@,
            ),
        decreases n - j,
    {
        let t = &available[j];
        let m = token_match(t, addresses);
        let ghost before = r@;
        proof {
            assert forall|k: int| 0 <= k < before.len() && before[k].0@ != t.id@ implies entry_from_token(
                available@,
                addresses@,
                #[trigger] before[k],
                j + 1,
            ) by {
                assert(entry_from_token(available@, addresses@, before[k], j as int));
                let w = choose|w: int| #[trigger] is_entry_of(available@, addresses@, before[k], w, j as int);
                assert(is_entry_of(available@, addresses@, before[k], w, j + 1));
            }
        }
        match m {
            Some(a) => {
                let entry = (t.id.clone(), t.symbol.clone(), a);
                proof {
                    assert(is_entry_of(available@, addresses@, entry, j as int, j + 1));
                }
                let mut k: usize = r.len();
                let mut c: usize = 0;
                while c < r.len()
                    invariant
                        c <= r@.len(),
                        r@ == before,
                        k == r@.len() || (k < r@.len() && r@[k as int].0@ == t.id@),
                        k == r@.len() ==> forall|d: int| 0 <= d < c ==> #[trigger] r@[d].0@ != t.id@,
                    decreases r.len() - c,
                {
                    if k == r.len() && r[c].0 == t.id {
                        k = c;
                    }
                    c += 1;
                }
                if k < r.len() {
                    assert(r@[k as int].0@ == t.id@);
                    r.set(k, entry);
                    proof {
                        assert forall|c1: int, c2: int| 0 <= c1 < r@.len() && 0 <= c2 < r@.len() && c1 != c2 implies #[trigger] r@[c1].0@
                            != #[trigger] r@[c2].0@ by {
                            assert(before[c1].0@ != before[c2].0@);
                        }
                        assert forall|c: int| 0 <= c < r@.len() implies entry_from_token(available@, addresses@, #[trigger] r@[c], j + 1) by {
                            if c == k {
                                assert(is_entry_of(available@, addresses@, r@[c], j as int, j + 1));
                            } else {
                                assert(before[c].0@ != before[k as int].0@);
                                assert(r@[c] == before[c]);
                            }
                        }
                        assert forall|a2: int| 0 <= a2 < j + 1 && has_token_match(#[trigger] available@[a2], addresses@) implies has_entry_id(
                            r@,
                            available@[a2].id@,
                        ) by {
                            if a2 < j {
                                let c = choose|c: int| 0 <= c < before.len() && #[trigger] before[c].0@ == available@[a2].id@;
                                if c == k {
                                    assert(r@[c].0@ == available@[a2].id@);
                                } else {
                                    assert(r@[c] == before[c]);
                                }
                            } else {
                                assert(r@[k as int].0@ == available@[a2].id@);
                            }
                        }
                    }
                } else {
                    r.push(entry);
                    proof {
                        assert forall|c1: int, c2: int| 0 <= c1 < r@.len() && 0 <= c2 < r@.len() && c1 != c2 implies #[trigger] r@[c1].0@
                            != #[trigger] r@[c2].0@ by {
                            if c1 < before.len() && c2 < before.len() {
                                assert(before[c1].0@ != before[c2].0@);
                            }
                        }
                        assert forall|c: int| 0 <= c < r@.len() implies entry_from_token(available@, addresses@, #[trigger] r@[c], j + 1) by {
                            if c == before.len() {
                                assert(is_entry_of(available@, addresses@, r@[c], j as int, j + 1));
                            } else {
                                assert(r@[c] == before[c]);
                            }
                        }
                        assert forall|a2: int| 0 <= a2 < j + 1 && has_token_match(#[trigger] available@[a2], addresses@) implies has_entry_id(
                            r@,
                            available@[a2].id@,
                        ) by {
                            if a2 < j {
                                let c = choose|c: int| 0 <= c < before.len() && #[trigger] before[c].0@ == available@[a2].id@;
                                assert(r@[c] == before[c]);
                            } else {
                                assert(r@[before.len() as int].0@ == available@[a2].id@);
                            }
                        }
                    }
                }
            },
            None => {
                proof {
                    assert forall|c: int| 0 <= c < r@.len() implies entry_from_token(available@, addresses@, #[trigger] r@[c], j + 1) by {
                        assert(entry_from_token(available@, addresses@, r@[c], j as int));
                        let w = choose|w: int| #[trigger] is_entry_of(available@, addresses@, r@[c], w, j as int);
                        assert(is_entry_of(available@, addresses@, r@[c], w, j + 1));
                    }
                }
            },
        }
        j += 1;
    }
    proof {
        reveal_strlit("wrapped-ethw");
    }
    let skip = String::from_str("wrapped-ethw");
    let mut k: usize = r.len();
    let mut c: usize = 0;
    while c < r.len()
        invariant
            c <= r@.len(),
            skip@ == "wrapped-ethw"@,
            k == r@.len() || (k < r@.len() && r@[k as int].0@ == skip@),
            k == r@.len() ==> forall|d: int| 0 <= d < c ==> #[trigger] r@[d].0@ != skip@,
        decreases r.len() - c,
    {
        if k == r.len() && r[c].0 == skip {
            k = c;
        }
        c += 1;
    }
    if k < r.len() {
        let ghost before = r@;
        r.remove(k);
        proof {
            assert(r@ == before.remove(k as int));
            assert forall|c1: int, c2: int| 0 <= c1 < r@.len() && 0 <= c2 < r@.len() && c1 != c2 implies #[trigger] r@[c1].0@
                != #[trigger] r@[c2].0@ by {
                let d1 = if c1 < k { c1 } else { c1 + 1 };
                let d2 = if c2 < k { c2 } else { c2 + 1 };
                assert(before[d1].0@ != before[d2].0@);
            }
            assert forall|c: int| 0 <= c < r@.len() implies #[trigger] r@[c].0@ != "wrapped-ethw"@ by {
                let d = if c < k { c } else { c + 1 };
                assert(before[d].0@ != before[k as int].0@);
            }
            assert forall|a2: int| 0 <= a2 < available@.len() && has_token_match(#[trigger] available@[a2], addresses@)
                && available@[a2].id@ != "wrapped-ethw"@ implies has_entry_id(r@, available@[a2].id@) by {
                let c = choose|c: int| 0 <= c < before.len() && #[trigger] before[c].0@ == available@[a2].id@;
                if c < k {
                    assert(r@[c] == before[c]);
                } else if c > k {
                    assert(r@[c - 1] == before[c]);
                }
            }
        }
    }
    r
}


/// The list cut into consecutive chunks of `size` items, the last one
/// shorter if the items do not divide evenly; no chunk for an empty list.
pub open spec fn chunks_of<A>(s: Seq<A>, size: int) -> Seq<Seq<A>>
    decreases s.len(),
{
    if size <= 0 || s.len() == 0 {
        Seq::empty()
    } else if s.len() <= size {
        seq![s]
    } else {
        seq![s.take(size)] + chunks_of(s.skip(size), size)
    }
}

/// The items one after another, chunk by chunk.
pub open spec fn flatten_chunks<A>(cs: Seq<Seq<A>>) -> Seq<A>
    decreases cs.len(),
{
    if cs.len() == 0 {
        Seq::empty()
    } else {
        cs[0] + flatten_chunks(cs.drop_first())
    }
}

/// A copy of items `from..to` of a list of strings.
fn copy_range(v: &Vec<String>, from: usize, to: usize) -> (r: Vec<String>)
    requires
        from <= to <= v@.len(),
    ensures
        r.deep_view() == v.deep_view().subrange(from as int, to as int),
{
    let mut r: Vec<String> = Vec::new();
    let mut i: usize = from;
    while i < to
        invariant
            from <= i <= to <= v@.len(),
            r@.len() == i - from,
            forall|k: int| 0 <= k < r@.len() ==> #[trigger] r@[k]@ == v@[from + k]@,
        decreases to - i,
    {
        r.push(v[i].clone());
        i += 1;
    }
    assert(r.deep_view() =~= v.deep_view().subrange(from as int, to as int));
    r
}

/// The ids cut into chunks of `size`, in order, as `slice::chunks` cuts them.
pub fn chunk_ids(ids: &Vec<String>, size: usize) -> (r: Vec<Vec<String>>)
    requires
        size > 0,
    ensures
        r.deep_view() == chunks_of(ids.deep_view(), size as int),
{
    let ghost all = ids.deep_view();
    let n = ids.len();
    let mut r: Vec<Vec<String>> = Vec::new();
    let mut i: usize = 0;
    assert(all.skip(0) =~= all);
    assert(r.deep_view() =~= Seq::<Seq<Seq<char>>>::empty());
    while i < n
        invariant
            all == ids.deep_view(),
            n == all.len(),
            i <= n,
            size > 0,
            r.deep_view() + chunks_of(all.skip(i as int), size as int) == chunks_of(all, size as int),
        decreases n - i,
    {
        let end = if n - i <= size { n } else { i + size };
        let chunk = copy_range(ids, i, end);
        let ghost before = r.deep_view();
        r.push(chunk);
        proof {
            assert(r.deep_view() =~= before.push(all.subrange(i as int, end as int)));
            let rest = all.skip(i as int);
            if n - i <= size {
                assert(rest =~= all.subrange(i as int, end as int));
                assert(all.skip(end as int) =~= Seq::<Seq<char>>::empty());
                assert(chunks_of(rest, size as int) == seq![rest]);
                assert(r.deep_view() + chunks_of(all.skip(end as int), size as int) =~= before + chunks_of(rest, size as int));
            } else {
                assert(rest.take(size as int) =~= all.subrange(i as int, end as int));
                assert(rest.skip(size as int) =~= all.skip(end as int));
                assert(chunks_of(rest, size as int) == seq![rest.take(size as int)] + chunks_of(rest.skip(size as int), size as int));
                assert(r.deep_view() + chunks_of(all.skip(end as int), size as int) =~= before + chunks_of(rest, size as int));
            }
        }
        i = end;
    }
    assert(all.skip(n as int) =~= Seq::<Seq<char>>::empty());
    assert(r.deep_view() + chunks_of(all.skip(n as int), size as int) =~= r.deep_view());
    r
}

/// Law: the chunks, one after another, give back the ids, and no chunk is
/// empty or longer than `size`. Every id is asked for, once.
pub proof fn lemma_chunks_cover<A>(s: Seq<A>, size: int)
    requires
        size > 0,
    ensures
        flatten_chunks(chunks_of(s, size)) == s,
        forall|k: int| 0 <= k < chunks_of(s, size).len() ==> 0 < (#[trigger] chunks_of(s, size)[k]).len() <= size,
    decreases s.len(),
{
    if s.len() == 0 {
    } else if s.len() <= size {
        assert(chunks_of(s, size) == seq![s]);
        assert(seq![s].drop_first() =~= Seq::<Seq<A>>::empty());
        assert(flatten_chunks(Seq::<Seq<A>>::empty()) == Seq::<A>::empty());
        assert(flatten_chunks(seq![s]) == seq![s][0] + flatten_chunks(seq![s].drop_first()));
        assert(s + Seq::<A>::empty() =~= s);
    } else {
        lemma_chunks_cover(s.skip(size), size);
        let cs = chunks_of(s, size);
        assert(cs == seq![s.take(size)] + chunks_of(s.skip(size), size));
        assert(cs.drop_first() =~= chunks_of(s.skip(size), size));
        assert(s.take(size) + s.skip(size) =~= s);
        assert forall|k: int| 0 <= k < cs.len() implies 0 < (#[trigger] cs[k]).len() <= size by {
            if k > 0 {
                assert(cs[k] == chunks_of(s.skip(size), size)[k - 1]);
            }
        }
    }
}

/// The entry with the given id.
pub open spec fn entry_with_id(matches: Seq<(String, String, Address)>, id: Seq<char>) -> (String, String, Address) {
    matches[choose|k: int| 0 <= k < matches.len() && #[trigger] matches[k].0@ == id]
}

/// The market data that a price response records for its entry: the
/// entry's symbol as ticker, its id, the price and the volume.
pub open spec fn response_data(e: (String, String, Address), resp: (String, Option<(String, String)>)) -> TokenMarketDataView {
    TokenMarketDataView {
        ticker: e.1@,
        token_id: resp.0@,
        price_usd: match resp.1 {
            Some((price, _)) => price@,
            None => Seq::empty(),
        },
        volume_24: match resp.1 {
            Some((_, volume)) => volume@,
            None => Seq::empty(),
        },
    }
}

/// The cache after the first `n` price responses, each kept under the
/// address of the entry with its id, a later one replacing an earlier one.
pub open spec fn cache_after(
    matches: Seq<(String, String, Address)>,
    responses: Seq<(String, Option<(String, String)>)>,
    n: int,
) -> Map<Seq<u8>, TokenMarketDataView>
    decreases n,
{
    if n <= 0 || n > responses.len() {
        Map::empty()
    } else {
        let e = entry_with_id(matches, responses[n - 1].0@);
        cache_after(matches, responses, n - 1).insert(e.2@, response_data(e, responses[n - 1]))
    }
}

/// Keeps the price responses, each under the address of the matched token
/// with its id.
pub fn build_market_cache(
    matches: &Vec<(String, String, Address)>,
    responses: &Vec<(String, Option<(String, String)>)>,
) -> (r: MarketDataCache)
    requires
        distinct_entry_ids(matches@),
        forall|k: int| 0 <= k < responses@.len() ==> (#[trigger] responses@[k]).1 is Some && has_entry_id(
            matches@,
            responses@[k].0@,
        ),
    ensures
        r.well_formed(),
        r@ == cache_after(matches@, responses@, responses@.len() as int),
        forall|k: int, c: int|
            #![trigger matches@[c], responses@[k]]
            0 <= k < responses@.len() && 0 <= c < matches@.len() && matches@[c].0@ == responses@[k].0@ ==> r@.dom().contains(matches@[c].2@),
        forall|a: Seq<u8>| #[trigger] r@.dom().contains(a) ==> exists|k: int, c: int|
            #![trigger matches@[c], responses@[k]]
            0 <= k < responses@.len() && 0 <= c < matches@.len() && matches@[c].0@ == responses@[k].0@ && matches@[c].2@ == a && r@[a] == (TokenMarketDataView {
                ticker: matches@[c].1@,
                token_id: responses@[k].0@,
                price_usd: (responses@[k].1->0).0@,
                volume_24: (responses@[k].1->0).1@,
            }) && forall|k2: int, c2: int|
                #![trigger matches@[c2], responses@[k2]]
                k < k2 < responses@.len() && 0 <= c2 < matches@.len() && matches@[c2].0@ == responses@[k2].0@ ==> matches@[c2].2@ != a,
{
    let mut cache = MarketDataCache::new();
    let mut i: usize = 0;
    while i < responses.len()
        invariant
            i <= responses@.len(),
            distinct_entry_ids(matches@),
            forall|k: int| 0 <= k < responses@.len() ==> (#[trigger] responses@[k]).1 is Some && has_entry_id(
                matches@,
                responses@[k].0@,
            ),
            cache.well_formed(),
            cache@ == cache_after(matches@, responses@, i as int),
        decreases responses.len() - i,
    {
        let resp = &responses[i];
        assert(has_entry_id(matches@, responses@[i as int].0@));
        let mut k: usize = matches.len();
        let mut c: usize = 0;
        while c < matches.len()
            invariant
                c <= matches@.len(),
                k == matches@.len() || (k < matches@.len() && matches@[k as int].0@ == resp.0@),
                k == matches@.len() ==> forall|d: int| 0 <= d < c ==> #[trigger] matches@[d].0@ != resp.0@,
            decreases matches.len() - c,
        {
            if k == matches.len() && matches[c].0 == resp.0 {
                k = c;
            }
            c += 1;
        }
        if k == matches.len() {
            proof {
                let w = choose|w: int| 0 <= w < matches@.len() && #[trigger] matches@[w].0@ == resp.0@;
                assert(matches@[w].0@ != resp.0@);
            }
            return cache;
        }
        let e = &matches[k];
        proof {
            let w = choose|w: int| 0 <= w < matches@.len() && #[trigger] matches@[w].0@ == resp.0@;
            assert(w == k) by {
                if w != k {
                    assert(matches@[w].0@ != matches@[k as int].0@);
                }
            }
        }
        match &resp.1 {
            Some((price, volume)) => {
                let data = TokenMarketData {
                    ticker: e.1.clone(),
                    token_id: resp.0.clone(),
                    price_usd: price.clone(),
                    volume_24: volume.clone(),
                };
                cache.insert(e.2, data);
            },
            None => {
                return cache;
            },
        }
        i += 1;
    }
    proof {
        lemma_cache_holds_responses(matches@, responses@, responses@.len() as int);
    }
    cache
}

/// Law: after the first `n` price responses, the cache holds an entry under
/// the address of each matched token that a response names, and each entry
/// is the matched token's symbol as ticker with the id, price and volume of
/// the last response for that address.
pub proof fn lemma_cache_holds_responses(m: Seq<(String, String, Address)>, resps: Seq<(String, Option<(String, String)>)>, n: int)
    requires
        0 <= n <= resps.len(),
        distinct_entry_ids(m),
        forall|k: int| 0 <= k < resps.len() ==> (#[trigger] resps[k]).1 is Some && has_entry_id(m, resps[k].0@),
    ensures
        forall|k: int, c: int|
            #![trigger m[c], resps[k]]
            0 <= k < n && 0 <= c < m.len() && m[c].0@ == resps[k].0@ ==> cache_after(m, resps, n).dom().contains(m[c].2@),
        forall|a: Seq<u8>| #[trigger] cache_after(m, resps, n).dom().contains(a) ==> exists|k: int, c: int|
            #![trigger m[c], resps[k]]
            0 <= k < n && 0 <= c < m.len() && m[c].0@ == resps[k].0@ && m[c].2@ == a && cache_after(m, resps, n)[a] == (TokenMarketDataView {
                ticker: m[c].1@,
                token_id: resps[k].0@,
                price_usd: (resps[k].1->0).0@,
                volume_24: (resps[k].1->0).1@,
            }) && forall|k2: int, c2: int|
                #![trigger m[c2], resps[k2]]
                k < k2 < n && 0 <= c2 < m.len() && m[c2].0@ == resps[k2].0@ ==> m[c2].2@ != a,
    decreases n,
{
    if n > 0 {
        lemma_cache_holds_responses(m, resps, n - 1);
        let prev = cache_after(m, resps, n - 1);
        let id = resps[n - 1].0@;
        assert(has_entry_id(m, id));
        let ce = choose|c: int| 0 <= c < m.len() && #[trigger] m[c].0@ == id;
        let e = entry_with_id(m, id);
        assert(e == m[ce]);
        assert(cache_after(m, resps, n) == prev.insert(e.2@, response_data(e, resps[n - 1])));
        assert forall|k: int, c: int|
            #![trigger m[c], resps[k]]
            0 <= k < n && 0 <= c < m.len() && m[c].0@ == resps[k].0@ implies cache_after(m, resps, n).dom().contains(m[c].2@) by {
            if k == n - 1 {
                if c != ce {
                    assert(m[c].0@ != m[ce].0@);
                }
            } else {
                assert(prev.dom().contains(m[c].2@));
            }
        }
        assert forall|a: Seq<u8>| #[trigger] cache_after(m, resps, n).dom().contains(a) implies exists|k: int, c: int|
            #![trigger m[c], resps[k]]
            0 <= k < n && 0 <= c < m.len() && m[c].0@ == resps[k].0@ && m[c].2@ == a && cache_after(m, resps, n)[a] == (TokenMarketDataView {
                ticker: m[c].1@,
                token_id: resps[k].0@,
                price_usd: (resps[k].1->0).0@,
                volume_24: (resps[k].1->0).1@,
            }) && forall|k2: int, c2: int|
                #![trigger m[c2], resps[k2]]
                k < k2 < n && 0 <= c2 < m.len() && m[c2].0@ == resps[k2].0@ ==> m[c2].2@ != a by {
            if a == e.2@ {
                assert(resps[n - 1].1 is Some);
                assert(m[ce] == m[ce] && resps[n - 1] == resps[n - 1]);
            } else {
                assert(prev.dom().contains(a));
                let (k, c) = choose|k: int, c: int|
                    #![trigger m[c], resps[k]]
                    0 <= k < n - 1 && 0 <= c < m.len() && m[c].0@ == resps[k].0@ && m[c].2@ == a && prev[a] == (TokenMarketDataView {
                        ticker: m[c].1@,
                        token_id: resps[k].0@,
                        price_usd: (resps[k].1->0).0@,
                        volume_24: (resps[k].1->0).1@,
                    }) && forall|k2: int, c2: int|
                        #![trigger m[c2], resps[k2]]
                        k < k2 < n - 1 && 0 <= c2 < m.len() && m[c2].0@ == resps[k2].0@ ==> m[c2].2@ != a;
                assert forall|k2: int, c2: int|
                    #![trigger m[c2], resps[k2]]
                    k < k2 < n && 0 <= c2 < m.len() && m[c2].0@ == resps[k2].0@ implies m[c2].2@ != a by {
                    if k2 == n - 1 && c2 != ce {
                        assert(m[c2].0@ != m[ce].0@);
                    }
                }
                assert(m[c] == m[c] && resps[k] == resps[k]);
            }
        }
    }
}

} // verus!
