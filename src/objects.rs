use vstd::prelude::*;
use crate::locations::Locations;

verus! {

/// An X.509 certificate as the graph sees it. `content` identifies the DER
/// encoding; two observations with the same `content` are the same artifact.
pub struct Certificate {
    pub content: u64,
    pub subject: String,
    pub issuer: String,
    pub public_key: u64,
    pub der: Vec<u8>,
}

/// A signed token, identified by its canonical form.
pub struct Jwt {
    pub content: u64,
    pub token: String,
}

/// A key drawn from the pool of pre-generated keys: the private half and the
/// public half derived from it.
#[derive(Clone, Copy, PartialEq, Eq, Structural, Debug)]
pub struct RsaKey {
    pub private: u64,
    pub public: u64,
}

/// What discovery reports. A private key comes with the public key derived from it.
pub enum CryptoObject {
    PrivateKey(u64, u64),
    PublicKey(u64),
    Certificate(Certificate),
    Jwt(Jwt),
}

pub struct DiscoveredCryptoObject {
    pub crypto_object: CryptoObject,
    pub location: String,
}

/// The content identity of an artifact, per registry.
#[derive(Clone, Copy, PartialEq, Eq, Structural, Debug)]
pub enum ArtifactId {
    PrivateKey(u64),
    PublicKey(u64),
    Certificate(u64),
    Jwt(u64),
}

impl CryptoObject {
    pub open spec fn id(&self) -> ArtifactId {
        match self {
            CryptoObject::PrivateKey(k, _) => ArtifactId::PrivateKey(*k),
            CryptoObject::PublicKey(k) => ArtifactId::PublicKey(*k),
            CryptoObject::Certificate(c) => ArtifactId::Certificate(c.content),
            CryptoObject::Jwt(j) => ArtifactId::Jwt(j.content),
        }
    }
}

/// Something that a signer signs: a cert-key pair or a token, by index.
#[derive(Clone, Copy, PartialEq, Eq, Structural, Debug)]
pub enum Signee {
    CertKeyPair(usize),
    Jwt(usize),
}

/// Who signed a token: not yet known, a standalone private key, or the
/// private half of a cert-key pair (by index).
#[derive(Clone, Copy, PartialEq, Eq, Structural, Debug)]
pub enum JwtSigner {
    Unknown,
    PrivateKey(usize),
    CertKeyPair(usize),
}

pub struct DistributedPrivateKey {
    pub key: u64,
    pub public: u64,
    pub locations: Locations,
    pub signees: Vec<Signee>,
    pub associated_public_key: Option<usize>,
    pub regenerated: bool,
}

pub struct DistributedPublicKey {
    pub key: u64,
    pub locations: Locations,
    pub regenerated: bool,
}

/// A certificate with the places where it was seen. `signed_by` is the
/// private key that signed the certificate as re-issued, once it has been.
pub struct DistributedCert {
    pub certificate: Certificate,
    pub locations: Locations,
    pub signed_by: Option<u64>,
}

/// A token with the places where it was seen. `signed_by` is the private key
/// that signed the token as re-issued, once it has been.
pub struct DistributedJwt {
    pub jwt: Jwt,
    pub locations: Locations,
    pub signer: JwtSigner,
    pub regenerated: bool,
    pub signed_by: Option<u64>,
}

/// A certificate joined with its private key, if one was found. `signer` is
/// the index of the pair whose certificate issued this one; `key` is the key
/// drawn for it at regeneration.
pub struct CertKeyPair {
    pub distributed_cert: DistributedCert,
    pub distributed_private_key: Option<DistributedPrivateKey>,
    pub associated_public_key: Option<usize>,
    pub signer: Option<usize>,
    pub signees: Vec<Signee>,
    pub regenerated: bool,
    pub key: Option<RsaKey>,
}

} // verus!
