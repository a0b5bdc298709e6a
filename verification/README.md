# backend_rust

The back end of a small shop: partners (customers and suppliers) with their
opening balances, debt cycles and ledgers, per-partner prices, schema upkeep
for its SQLite database, and a text-to-speech endpoint with a file cache.

- `src/` is the library, written in Verus. The service's rules are functions
  there with contracts that Verus proves: which partners a listing shows and
  in what order, page windows, the opening-balance rules, the booking date of
  a quick debt entry, the debt timeline and its cycles, ledger lines and the
  dates they show, the column migrations, and the text-to-speech plan (accent
  folding, file-name slugs, cache names, URL encoding). Calls into the
  standard library (Unicode tables, `String::push`), into `md-5` and into
  `chrono` sit behind small trusted wrappers in `src/unicode.rs`,
  `src/text.rs`, `src/digest.rs` and `src/calendar.rs`.
- `app/` is the HTTP and database layer (axum, sqlx, tokio, reqwest). It reads
  rows and requests, hands plain values to the library, and carries out what
  the library decides. Amounts are `f64`, so what is done with them stays
  there: balances and their sums, whether a balance is settled (below one in
  size), the order of debt balances, and the signs of opening balances.
- `tests/` runs the library on concrete values.
