# savings_vault

A savings vault for a token on Soroban, as a Verus-verified library plus the
contract shell around it.

- `src/` — the vault's rules, verified with Verus:
  - `lock.rs`: lock entries (`Lock` as stored, `LockEntry` as reported),
    the matured/active/total sums (checked against
    `i128` overflow) and oldest-first consumption of matured locks;
  - `account.rs`: one user's records (`UserAccount`), its invariant, and the
    deposit, withdraw, lock, lock-withdrawal and read operations on it;
  - `vault.rs`: the instance configuration (`SavingsVault`): one-time
    initialisation, storage-version check, admin handover, emergency pause,
    and the public operations that gate the account operations;
  - `error.rs`: the refusals and their diagnostic texts;
  - `laws.rs`: proved properties — balance conservation over any history,
    global token custody, user isolation, pause behaviour, monotone maturity,
    and that a withdrawn lock is never paid out again.
- `app/` — the Soroban contract: storage, signatures, token transfers, events.
  A user's lock list is held in the library as a std `Vec<Lock>` under
  the account invariant (the read operations report each entry as a
  `LockEntry` record with its owner and `withdrawn` flag); the contract
  converts it to and from the on-chain `soroban_sdk::Vec` when it loads and
  stores the account, since that collection's elements must carry the SDK's
  derived value conversions and every operation on it runs through the host
  environment of an invocation.
- `tests/` — scenario tests against the library, with a stand-in chain.
