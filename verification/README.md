# mint

Macaroon-authenticated, scoped credential vending. A client enrolls with an
invite, an operator approves it, the client exchanges its ticket for a
credential per role, and takes a role with that credential: it gets a keypair
under a policy that was rendered from a sealed template.

## Layout

- `src/` is the library, verified by Verus: what a function returns, for every
  input, is stated in its `ensures` and proved. The exceptions are small items
  that stand for a call into another crate or into std. Their contracts are
  relied on, not proved, and the comment above each says what it claims.
  - `macaroon`, `caveat`, `keyring`, `tpc`, `pop`: tokens, their caveats, the
    generations that they are minted under, third-party caveats, and proof of
    possession.
  - `http`: what a presented bundle clears, and what each endpoint decides.
  - `auth`, `attest`, `admin`, `operator`, `issuance`: the planes that issue
    tokens and discharges.
  - `config`, `template`, `render`, `seal`, `sealed_cache`, `role`: what a
    deployment authors, seals and serves.
  - `iam`, `mint_rw`: keypairs and the policies that they are minted under.
  - `client`, `session`, `transport`, `cli`, `inventory`, `serve`: what the
    commands compute.
  - `crypto`, `json`, `time` are the faces of other crates; `text`, `bytes`,
    `map`, `reply` are the ground that the rest stands on.
  - The items that are relied on stand in `bytes`, `crypto`, `json`,
    `sealed_cache`, `template`, `text`, `time` and `tpc`.
- `tests/` runs the library.
- `app/` is the `mint` command: arguments, files, sockets, the object store and
  the HTTP server around the library.
