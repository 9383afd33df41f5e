# namada_wallet

A small command-line wallet for a Namada chain, built around a library
verified with Verus.

- `src/` is the verified library:
  - `text`: whitespace trimming, removal of the `ED25519_PK_PREFIX` key marker,
    and decimal parsing of menu choices, each proved against a specification of
    what it computes;
  - `wallet_file`: the key lists read out of `wallet.toml`, whose text is
    parsed with the `toml` crate behind a trusted wrapper;
  - `menu`: which operation a menu choice selects;
  - `account`: payment-address and reveal-status decisions;
  - `transfer`: the step-by-step decisions of sending tokens, with a proof that
    the flow always moves forward and ends.
- `app/` is the program: terminal prompts, file reading and all
  calls to the Namada SDK and the node, driven by the library's decisions.
- `tests/` exercises the library on concrete values, including comparisons
  with the standard library's `trim`, `replace` and `parse`.
