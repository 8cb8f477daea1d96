# nbbs_coupon_engine

Coupon engine for carbon-credit-backed bonds. An administrator registers
bonds against projects; each coupon period, the credits of a verified oracle report are
distributed pro rata over the bond's holders, and what rounding leaves is kept per bond
until the administrator sweeps it; holders claim what has accrued. Every
state-changing request carries the caller's nonce.

- `src/` — the verified library.
  - `address.rs`: addresses held by their strkey text.
  - `table.rs`: keyed tables, the shape of the contract's storage.
  - `types.rs`: reports, period records, coupon results, errors.
  - `model.rs`: the abstract state and, per request, the outcome it must have.
  - `distribution.rs`: the per-token rate and each holder's share.
  - `engine.rs`: `CouponEngine`, whose methods are proved to follow `model.rs`.
  - `laws.rs`: properties across requests (nonce replay, single distribution per period,
    rounding never over-distributes, claims empty the account, credits stay non-negative).
  - `history.rs`: any sequence of requests; conservation of credits and the invariants of
    every reachable state (period records, period counts, non-negative credits).
- `tests/` — scenarios run against the compiled library.
- `app/` — the Soroban contract around the library: storage, authorisation, calls to the
  oracle consumer and the bond issuer, events.
