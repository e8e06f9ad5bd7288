//! Verified core of the credo certificate-management system: DER encoding and
//! decoding, OCSP/CRL construction, revocation bookkeeping, issuance policy,
//! the ACME server, Vigil's bootstrap, and Shepherd's ledger, renewals,
//! accounts, tokens and view of its Corgi nodes.
pub mod der;
pub mod text;
pub mod codec;
pub mod ocsp;
pub mod types;
pub mod storage;
pub mod clock;
pub mod revocation;
pub mod x509;
pub mod policy;
pub mod signing;
pub mod cert;
pub mod responder;
pub mod openssl_db;
pub mod acme;
pub mod ledger;
pub mod fleet;
pub mod renewal;
pub mod acme_flow;
pub mod shepherd_auth;
pub mod issuance;
pub mod dns_checks;
pub mod settings;
pub mod flock;
pub mod dns_provider;
pub mod bootstrap;
pub mod cert_store;
pub mod node_config;
pub mod acme_account;
pub mod agent_api;
pub mod pop;
