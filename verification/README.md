# stellar_swipe

The rules of the StellarSwipe Soroban contracts, written in Verus and proved
against their contracts.

- `src/` is the verified library:
  - `contests.rs`: trading-signal contests (creation, automatic entry of new
    signals, scoring, finalization with the 50/30/20 prize split);
  - `versioning.rs`: revisions of a signal (at most five, an hour apart),
    their history, and which revisions a copier has not been told of yet;
  - `registry.rs`: the signal registry (publishing, provider statistics,
    the filtered feed, top providers) and its use of the two modules above;
  - `governance.rs`: multi-signature governance of a bridge (proposals,
    signatures, execution, the emergency fast track);
  - `errors.rs`, `types.rs`: error codes and the plain values shared by all;
  - `keyed.rs`, `ranking.rs`: the mathematics of keyed records and of
    rankings that the contracts are stated in.
- `app/` is the Soroban side: ledger storage, authorization, the ledger
  clock and events, handing plain values to the library.
- `tests/` runs the library on concrete cases.
