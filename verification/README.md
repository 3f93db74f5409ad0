# screener

A cross-chain token and pair screener. It lists the tokens that exchanges
offer on the configured chains, enriches them with market data, enumerates the
pairs that can be swapped, asks the exchanges which pairs they quote, keeps
tokens and pairs in a Postgres database, and looks for round trips across
chains.

## Layout

- `src/` is the library, verified with Verus:
  - `config` — configuration types and the filter trees built from them;
  - `utils::filters` — the token filter language and its evaluation;
  - `utils::fetch` — when a failed or unreadable listing request is retried;
  - `utils::process_pairs` — possible pairs of tokens and the merge of what
    each exchange reports as available;
  - `domain` — chains, tokens, pairs and cross-chain round trips;
  - `exchange` — the 1inch provider and how a listed token becomes a token;
  - `market_data` — matching listed tokens to market data and the cache of
    market data by address;
  - `orm` — the rows that store tokens and pairs, reading them back, the
    connection address;
  - `address` — 20-byte account addresses, their text form and parsing.
- `app/` holds the programs (`token_collector`, `pair_processor`,
  `swap_fetcher`, `database_migrator`) and everything that does I/O: the
  configuration file, HTTP requests, the database, and the price arithmetic,
  which is done in floating point.
- `tests/` holds the tests of the library.
