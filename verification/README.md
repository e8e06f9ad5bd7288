# credo

The verified core of Credo, a small private PKI: **Vigil**, the certificate
authority (certificate issuance, revocation, OCSP and CRL, an ACME server), and
**Shepherd**, the coordinator that keeps certificates issued and installed on
its fleet of Corgi nodes (issuance ledger and rate limits, renewal jobs,
accounts and tokens, assignments).

The library's own functions under `src/` are proved by Verus against their
`requires` / `ensures` contracts. Calls into outside crates (hashing, Base64,
PEM, X.509 parsing, ECDSA/RSA signing and verification, the public suffix list,
the clock and random numbers) go through small wrappers marked
`#[verifier::external_body]`: their contracts are trusted, not proved, and say
what the crate's source and documentation show; everything decided around
them is proved.

Layout:

- `src/der.rs`, `src/ocsp.rs`, `src/responder.rs` — DER encoding, OCSP request
  parsing, signed OCSP responses and CRLs.
- `src/cert.rs`, `src/signing.rs`, `src/x509.rs`, `src/policy.rs`,
  `src/issuance.rs` — CSR signing, signing keys, the issuance policy and the
  signing API.
- `src/storage.rs`, `src/revocation.rs`, `src/openssl_db.rs` — the certificate
  records, revocation, OCSP status and the JSON CRL, the OpenSSL CA database.
- `src/acme.rs`, `src/acme_flow.rs`, `src/dns_checks.rs` — the ACME server:
  JWS validation, nonces, accounts, orders, challenges, finalization,
  revocation, and the dns-01 decisions.
- `src/bootstrap.rs` — Vigil's one-shot bootstrap enrollment.
- `src/settings.rs`, `src/node_config.rs` — what the configuration files
  decide once read (CA and policy defaults, TLS files, nodes, ACME CAs).
- `src/ledger.rs`, `src/fleet.rs`, `src/renewal.rs`, `src/shepherd_auth.rs`,
  `src/pop.rs` — Shepherd's ledger and quotas, assignments, renewal jobs and
  issuance steps, accounts, refresh tokens and the proof-of-possession checks
  (certificate chain and signature).
- `src/flock.rs`, `src/agent_api.rs`, `src/cert_store.rs` — the state of the
  Corgi nodes, what Shepherd answers them, and the certificate store's
  numbering and fingerprints.
- `src/acme_account.rs`, `src/dns_provider.rs` — Shepherd's ACME account
  details and DNS-01 record publication through Hurricane Electric.
- `src/codec.rs`, `src/text.rs`, `src/clock.rs`, `src/types.rs` — shared
  helpers and records.
- `app/` — a command line around the library (file I/O, JSON, network checks).
- `tests/` — tests run against the compiled library.
