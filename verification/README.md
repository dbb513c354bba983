# endpoint_accounts

The accounts of a proxy endpoint: who may use it, and how much each user has used. The library is
written in Rust and verified with [Verus](https://github.com/verus-lang/verus).

- `src/authentication/`: credentials as they arrive in a `Proxy-Authorization` header, and an
  authenticator whose client list can be replaced while the endpoint is running.
- `src/user_traffic/`: traffic counters per user, the table that a panel drains, and its rendering
  as JSON.
- `src/authentication/laws.rs`, `src/user_traffic/laws.rs` and `src/user_traffic/json_reading.rs`
  state and prove what holds across calls: which credentials are let in, that no byte is lost or
  reported twice, and that a JSON reader gets back what was rendered.
- `app/`: the same behind locks, for the threads of an endpoint.

The verified types are changed through `&mut`; sharing them between threads is left to `app/`.
