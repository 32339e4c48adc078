# prex_challenge

A mini payment processor: client accounts with exact decimal balances, credit
and debit transactions, and cuts of all balances into a plain-text file
(`ID BALANCE` per line, named `DDMMYYYY_N.DAT`).

- `src/` is the verified library. `service.rs` holds the service and its
  model (`ServiceView`), whose operations are spec functions that the
  executable methods are proved against; `laws.rs` proves properties that
  span operations; `amount.rs` holds exact amounts, whose arithmetic, value
  comparison and text come from `rust_decimal`; `storage.rs` and `text.rs`
  build the balance file; `error.rs` and `api/error.rs` the errors and their
  HTTP statuses.
- `app/` is the HTTP server (actix-web): JSON parsing, the lock, the clock
  and the file write.
- `tests/` runs the library on concrete values.
