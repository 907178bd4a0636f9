//! The cluster crypto graph: certificates, keys and tokens found across a
//! cluster, de-duplicated by content, joined into cert-key pairs, linked to
//! their signers, and re-issued signer first with fresh keys.

pub mod allowlist;
pub mod cluster_crypto;
pub mod commit;
pub mod jwt_signers;
pub mod laws;
pub mod locations;
pub mod objects;
pub mod pairing;
pub mod regenerate;
pub mod registry;
pub mod signees;
pub mod signers;
pub mod x509;
