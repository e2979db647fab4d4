# defindex_vault

Verified share accounting of a multi-asset vault on Soroban.

- `src/utils.rs`: validation of the vault's assets and strategies, the
  proportional amounts a deposit takes and the shares it mints, and the
  amounts a number of shares is worth. Each function's contract states its
  result exactly, over the spec functions beside it.
- `src/vault.rs`: the vault's stored configuration (initialization, roles,
  assets) and the decisions of its entry points that depend on it.
- `src/laws.rs`: properties that span functions, such as that depositing
  and then withdrawing the minted shares never gives back more than was
  deposited.
- `src/arith.rs`: Rust's `i128` division over mathematical integers.
- `src/host.rs`: the soroban-sdk host vectors and maps the logic uses, with
  the trusted contracts of the calls made into them.
- `app/`: the contract types with soroban-sdk's derives, and the conversions
  between them and the library's types.
