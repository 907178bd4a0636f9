use cluster_crypto::allowlist::is_known_missing;
use cluster_crypto::cluster_crypto::ClusterCryptoObjectsInternal;
use cluster_crypto::commit::Artifact;
use cluster_crypto::jwt_signers::JwtSignerError;
use cluster_crypto::locations::Locations;
use cluster_crypto::objects::{
    Certificate, CryptoObject, DiscoveredCryptoObject, Jwt, JwtSigner, RsaKey, Signee,
};
use cluster_crypto::pairing::PairingError;
use cluster_crypto::regenerate::{RegenerationError, RsaKeyPool};
use cluster_crypto::signers::SignerError;
use cluster_crypto::x509::SignatureCheck;

fn cert(content: u64, subject: &str, issuer: &str, public_key: u64) -> CryptoObject {
    CryptoObject::Certificate(Certificate {
        content,
        subject: subject.to_string(),
        issuer: issuer.to_string(),
        public_key,
        der: vec![0x30, 0x03, 0x02, 0x01, content as u8],
    })
}

fn jwt(content: u64) -> CryptoObject {
    CryptoObject::Jwt(Jwt { content, token: format!("header.claims{}.signature", content) })
}

fn at(crypto_object: CryptoObject, location: &str) -> DiscoveredCryptoObject {
    DiscoveredCryptoObject { crypto_object, location: location.to_string() }
}

fn sites(l: &Locations) -> Vec<String> {
    l.sites.clone()
}

fn checks(n: usize, signed: &[(usize, usize, SignatureCheck)]) -> Vec<Vec<SignatureCheck>> {
    let mut m = vec![vec![SignatureCheck::Mismatch; n]; n];
    for &(i, j, c) in signed {
        m[i][j] = c;
    }
    m
}

fn no_confirmations(n: usize) -> Vec<Vec<bool>> {
    vec![vec![false; n]; n]
}

/// Root and child cert-key pairs, and a token signed by the child's key.
fn root_and_child() -> ClusterCryptoObjectsInternal {
    let mut g = ClusterCryptoObjectsInternal::new();
    g.register_discovered_crypto_objects(vec![
        at(cert(1, "CN=root", "CN=root", 11), "etcd:/secrets/root#tls.crt"),
        at(CryptoObject::PrivateKey(101, 11), "etcd:/secrets/root#tls.key"),
        at(cert(2, "CN=child", "CN=root", 12), "file:/etc/child.crt"),
        at(CryptoObject::PrivateKey(102, 12), "file:/etc/child.key"),
        at(jwt(7), "etcd:/secrets/token#token"),
    ]);
    assert_eq!(g.pair_certs_and_keys(&vec![]), Ok(()));
    g.associate_public_keys();
    let root = g.cert_key_pairs.iter().position(|p| p.distributed_cert.certificate.content == 1).unwrap();
    let child = 1 - root;
    let c = checks(2, &[(child, root, SignatureCheck::Signed)]);
    assert_eq!(g.fill_cert_key_signers(&c, &no_confirmations(2)), Ok(()));
    let mut by_pair = vec![vec![false; 2]];
    by_pair[0][child] = true;
    assert_eq!(g.fill_jwt_signers(&vec![vec![]], &by_pair), Ok(()));
    g.fill_signees();
    g
}

#[test]
fn self_signed_root_with_one_child() {
    let mut g = root_and_child();
    let root = g.cert_key_pairs.iter().position(|p| p.distributed_cert.certificate.content == 1).unwrap();
    let child = 1 - root;
    assert_eq!(g.cert_key_pairs[root].signer, None);
    assert_eq!(g.cert_key_pairs[child].signer, Some(root));
    assert_eq!(g.cert_key_pairs[root].signees, vec![Signee::CertKeyPair(child)]);
    assert_eq!(g.cert_key_pairs[child].signees, vec![Signee::Jwt(0)]);
    assert_eq!(g.jwts[0].signer, JwtSigner::CertKeyPair(child));
    assert!(g.private_keys.is_empty());

    let mut pool = RsaKeyPool::new(vec![RsaKey { private: 201, public: 21 }, RsaKey { private: 202, public: 22 }]);
    assert_eq!(g.regenerate_crypto(&mut pool), Ok(()));
    assert_eq!(pool.remaining(), 0);
    let root_key = g.cert_key_pairs[root].key.unwrap();
    let child_key = g.cert_key_pairs[child].key.unwrap();
    assert_ne!(root_key, child_key);
    assert_eq!(g.cert_key_pairs[root].distributed_cert.certificate.public_key, root_key.public);
    assert_eq!(g.cert_key_pairs[root].distributed_cert.signed_by, Some(root_key.private));
    assert_eq!(g.cert_key_pairs[child].distributed_cert.signed_by, Some(root_key.private));
    assert_eq!(g.cert_key_pairs[child].distributed_cert.certificate.public_key, child_key.public);
    assert_eq!(g.cert_key_pairs[child].distributed_private_key.as_ref().unwrap().key, child_key.private);
    assert_eq!(g.jwts[0].signed_by, Some(child_key.private));
    assert!(g.jwts[0].regenerated);
    assert!(g.cert_key_pairs.iter().all(|p| p.regenerated));
}

#[test]
fn known_missing_private_key() {
    let mut g = ClusterCryptoObjectsInternal::new();
    g.register_discovered_crypto_objects(vec![at(cert(5, "CN=kubelet-signer, OU=openshift", "CN=kubelet-signer, OU=openshift", 55), "etcd:/cm/ca#ca.crt")]);
    let allow = vec!["CN=admin-kubeconfig-signer, OU=openshift".to_string(), "CN=kubelet-.*".to_string()];
    assert_eq!(g.pair_certs_and_keys(&allow), Ok(()));
    assert_eq!(g.cert_key_pairs.len(), 1);
    assert!(g.cert_key_pairs[0].distributed_private_key.is_none());
    assert!(g.certs.is_empty());
    g.associate_public_keys();
    assert_eq!(g.fill_cert_key_signers(&checks(1, &[]), &no_confirmations(1)), Ok(()));
    assert_eq!(g.fill_jwt_signers(&vec![], &vec![]), Ok(()));
    g.fill_signees();
    assert!(g.cert_key_pairs[0].signees.is_empty());
    let mut pool = RsaKeyPool::new(vec![RsaKey { private: 301, public: 31 }]);
    assert_eq!(g.regenerate_crypto(&mut pool), Ok(()));
    assert!(g.cert_key_pairs[0].distributed_private_key.is_none());
    assert_eq!(g.cert_key_pairs[0].distributed_cert.certificate.public_key, 31);
}

#[test]
fn missing_private_key_not_allowed() {
    let mut g = ClusterCryptoObjectsInternal::new();
    g.register_discovered_crypto_objects(vec![at(cert(5, "CN=unknown", "CN=unknown", 55), "etcd:/cm/ca#ca.crt")]);
    let allow = vec!["CN=kubelet-.*".to_string()];
    assert_eq!(g.pair_certs_and_keys(&allow), Err(PairingError::MissingPrivateKey(5)));
}

#[test]
fn private_key_claimed_twice() {
    let mut g = ClusterCryptoObjectsInternal::new();
    g.register_discovered_crypto_objects(vec![
        at(cert(1, "CN=a", "CN=a", 11), "l1"),
        at(cert(2, "CN=b", "CN=b", 11), "l2"),
        at(CryptoObject::PrivateKey(101, 11), "l3"),
    ]);
    assert_eq!(g.pair_certs_and_keys(&vec![]), Err(PairingError::PrivateKeyNotFound(101)));
}

#[test]
fn duplicate_location_dedup() {
    let mut g = ClusterCryptoObjectsInternal::new();
    g.register_discovered_crypto_objects(vec![
        at(cert(9, "CN=ca", "CN=ca", 99), "etcd:/a#ca.crt"),
        at(cert(9, "CN=ca", "CN=ca", 99), "etcd:/b#ca.crt"),
        at(cert(9, "CN=ca", "CN=ca", 99), "file:/etc/ca.crt"),
    ]);
    assert_eq!(g.certs.len(), 1);
    assert_eq!(g.certs[0].locations.len(), 3);
    assert_eq!(sites(&g.certs[0].locations), vec!["etcd:/a#ca.crt", "etcd:/b#ca.crt", "file:/etc/ca.crt"]);
    assert_eq!(g.pair_certs_and_keys(&vec!["CN=ca".to_string()]), Ok(()));
    let writes = g.commit_to_etcd_and_disk();
    assert_eq!(writes.len(), 3);
    assert!(writes.iter().all(|w| w.artifact == Artifact::Certificate(0)));
    let order: Vec<&str> = writes.iter().map(|w| w.location.as_str()).collect();
    assert_eq!(order, vec!["etcd:/a#ca.crt", "etcd:/b#ca.crt", "file:/etc/ca.crt"]);
}

#[test]
fn same_event_twice_is_idempotent() {
    let mut g = ClusterCryptoObjectsInternal::new();
    let ev = || at(CryptoObject::PublicKey(44), "etcd:/x#pub");
    g.register_discovered_crypto_objects(vec![ev()]);
    g.register_discovered_crypto_objects(vec![ev(), ev()]);
    assert_eq!(g.public_keys.len(), 1);
    assert_eq!(sites(&g.public_keys[0].locations), vec!["etcd:/x#pub"]);
    g.register_discovered_crypto_objects(vec![]);
    assert_eq!(g.public_keys.len(), 1);
    assert_eq!(g.public_keys[0].locations.len(), 1);
}

#[test]
fn ingestion_keeps_every_site_per_content() {
    let mut g = ClusterCryptoObjectsInternal::new();
    g.register_discovered_crypto_objects(vec![
        at(CryptoObject::PrivateKey(1, 10), "a"),
        at(CryptoObject::PrivateKey(2, 20), "b"),
        at(CryptoObject::PrivateKey(1, 10), "c"),
        at(jwt(3), "d"),
    ]);
    assert_eq!(g.private_keys.len(), 2);
    assert_eq!(sites(&g.private_keys[0].locations), vec!["a", "c"]);
    assert_eq!(sites(&g.private_keys[1].locations), vec!["b"]);
    assert_eq!(g.jwts.len(), 1);
    assert_eq!(g.jwts[0].signer, JwtSigner::Unknown);
    assert_eq!(g.public_to_private.get(&10), Some(&1));
    assert_eq!(g.public_to_private.get(&20), Some(&2));
}

fn parent_and_child_certs() -> ClusterCryptoObjectsInternal {
    let mut g = ClusterCryptoObjectsInternal::new();
    g.register_discovered_crypto_objects(vec![
        at(cert(1, "CN=parent", "CN=parent", 11), "p.crt"),
        at(CryptoObject::PrivateKey(101, 11), "p.key"),
        at(cert(2, "CN=child", "CN=parent", 12), "c.crt"),
        at(CryptoObject::PrivateKey(102, 12), "c.key"),
    ]);
    assert_eq!(g.pair_certs_and_keys(&vec![]), Ok(()));
    g
}

#[test]
fn unsupported_algorithm_fallback() {
    let mut g = parent_and_child_certs();
    let c = checks(2, &[(1, 0, SignatureCheck::Unsupported)]);
    let mut confirmed = no_confirmations(2);
    confirmed[1][0] = true;
    assert_eq!(g.fill_cert_key_signers(&c, &confirmed), Ok(()));
    assert_eq!(g.cert_key_pairs[1].signer, Some(0));
    assert_eq!(g.cert_key_pairs[0].signer, None);
}

#[test]
fn unsupported_algorithm_not_confirmed() {
    let mut g = parent_and_child_certs();
    let c = checks(2, &[(1, 0, SignatureCheck::Unsupported)]);
    assert_eq!(g.fill_cert_key_signers(&c, &no_confirmations(2)), Err(SignerError::NoSigner(1)));
}

#[test]
fn failed_verification_aborts() {
    let mut g = parent_and_child_certs();
    let c = checks(2, &[(1, 0, SignatureCheck::Signed), (1, 1, SignatureCheck::Failed)]);
    assert_eq!(g.fill_cert_key_signers(&c, &no_confirmations(2)), Err(SignerError::VerificationFailed(1)));
}

#[test]
fn last_accepted_signer_wins() {
    let mut g = ClusterCryptoObjectsInternal::new();
    g.register_discovered_crypto_objects(vec![
        at(cert(1, "CN=a", "CN=a", 11), "1"),
        at(cert(2, "CN=b", "CN=b", 12), "2"),
        at(cert(3, "CN=c", "CN=a", 13), "3"),
    ]);
    assert_eq!(g.pair_certs_and_keys(&vec!["CN=.*".to_string()]), Ok(()));
    let c = checks(3, &[(2, 0, SignatureCheck::Signed), (2, 1, SignatureCheck::Signed)]);
    assert_eq!(g.fill_cert_key_signers(&c, &no_confirmations(3)), Ok(()));
    assert_eq!(g.cert_key_pairs[2].signer, Some(1));
}

#[test]
fn multiple_tokens_one_signing_key() {
    let mut g = ClusterCryptoObjectsInternal::new();
    let mut evs = vec![
        at(CryptoObject::PrivateKey(1, 10), "k1"),
        at(CryptoObject::PrivateKey(2, 20), "k2"),
        at(CryptoObject::PrivateKey(3, 30), "k3"),
    ];
    for t in 0..100u64 {
        evs.push(at(jwt(1000 + t), &format!("etcd:/sa/{}#token", t)));
    }
    g.register_discovered_crypto_objects(evs);
    assert_eq!(g.jwts.len(), 100);
    assert_eq!(g.pair_certs_and_keys(&vec![]), Ok(()));
    g.associate_public_keys();
    assert_eq!(g.fill_cert_key_signers(&vec![], &vec![]), Ok(()));
    let by_key = vec![vec![false, true, false]; 100];
    let by_pair = vec![vec![]; 100];
    assert_eq!(g.fill_jwt_signers(&by_key, &by_pair), Ok(()));
    assert!(g.jwts.iter().all(|j| j.signer == JwtSigner::PrivateKey(1)));
    g.fill_signees();
    assert_eq!(g.private_keys[1].signees.len(), 100);
    assert!(g.private_keys[0].signees.is_empty());
    let mut pool = RsaKeyPool::new(vec![
        RsaKey { private: 501, public: 51 },
        RsaKey { private: 502, public: 52 },
        RsaKey { private: 503, public: 53 },
    ]);
    assert_eq!(g.regenerate_crypto(&mut pool), Ok(()));
    let new_key = g.private_keys[1].key;
    assert_ne!(new_key, 2);
    assert!(g.jwts.iter().all(|j| j.signed_by == Some(new_key) && j.regenerated));
}

#[test]
fn token_signed_by_cert_pair_key() {
    let mut g = parent_and_child_certs();
    g.register_discovered_crypto_objects(vec![at(jwt(77), "etcd:/t#token")]);
    let c = checks(2, &[(1, 0, SignatureCheck::Signed)]);
    assert_eq!(g.fill_cert_key_signers(&c, &no_confirmations(2)), Ok(()));
    assert_eq!(g.fill_jwt_signers(&vec![vec![]], &vec![vec![true, false]]), Ok(()));
    assert_eq!(g.jwts[0].signer, JwtSigner::CertKeyPair(0));
    g.fill_signees();
    assert!(g.cert_key_pairs[0].signees.contains(&Signee::Jwt(0)));
    assert!(g.cert_key_pairs[0].signees.contains(&Signee::CertKeyPair(1)));
    let mut pool = RsaKeyPool::new(vec![RsaKey { private: 601, public: 61 }, RsaKey { private: 602, public: 62 }]);
    assert_eq!(g.regenerate_crypto(&mut pool), Ok(()));
    assert_eq!(g.jwts[0].signed_by, Some(g.cert_key_pairs[0].key.unwrap().private));
}

#[test]
fn token_without_signer() {
    let mut g = ClusterCryptoObjectsInternal::new();
    g.register_discovered_crypto_objects(vec![at(CryptoObject::PrivateKey(1, 10), "k"), at(jwt(5), "t")]);
    assert_eq!(g.pair_certs_and_keys(&vec![]), Ok(()));
    assert_eq!(g.fill_jwt_signers(&vec![vec![false]], &vec![vec![]]), Err(JwtSignerError::UnknownSigner(0)));
}

#[test]
fn public_keys_are_associated_and_regenerated() {
    let mut g = ClusterCryptoObjectsInternal::new();
    g.register_discovered_crypto_objects(vec![
        at(CryptoObject::PrivateKey(1, 10), "k"),
        at(CryptoObject::PublicKey(10), "pub"),
        at(CryptoObject::PublicKey(99), "anchor"),
    ]);
    assert_eq!(g.pair_certs_and_keys(&vec![]), Ok(()));
    g.associate_public_keys();
    assert_eq!(g.private_keys[0].associated_public_key, Some(0));
    assert_eq!(g.fill_jwt_signers(&vec![], &vec![]), Ok(()));
    g.fill_signees();
    let mut pool = RsaKeyPool::new(vec![RsaKey { private: 701, public: 71 }]);
    assert_eq!(g.regenerate_crypto(&mut pool), Err(RegenerationError::PublicKeyNotRegenerated(1)));
    assert_eq!(g.public_keys[0].key, 71);
    assert!(g.public_keys[0].regenerated);
}

#[test]
fn signer_cycle_is_unreachable() {
    let mut g = ClusterCryptoObjectsInternal::new();
    g.register_discovered_crypto_objects(vec![
        at(cert(1, "CN=a", "CN=b", 11), "a"),
        at(cert(2, "CN=b", "CN=a", 12), "b"),
    ]);
    assert_eq!(g.pair_certs_and_keys(&vec!["CN=.*".to_string()]), Ok(()));
    let c = checks(2, &[(0, 1, SignatureCheck::Signed), (1, 0, SignatureCheck::Signed)]);
    assert_eq!(g.fill_cert_key_signers(&c, &no_confirmations(2)), Ok(()));
    g.fill_signees();
    let mut pool = RsaKeyPool::new(vec![RsaKey { private: 1, public: 2 }, RsaKey { private: 3, public: 4 }]);
    assert_eq!(g.regenerate_crypto(&mut pool), Err(RegenerationError::Unreachable(0)));
}

#[test]
fn commit_covers_every_artifact_site() {
    let mut g = root_and_child();
    let mut pool = RsaKeyPool::new(vec![RsaKey { private: 201, public: 21 }, RsaKey { private: 202, public: 22 }]);
    assert_eq!(g.regenerate_crypto(&mut pool), Ok(()));
    let writes = g.commit_to_etcd_and_disk();
    assert_eq!(writes.len(), 5);
    assert!(writes.iter().any(|w| w.artifact == Artifact::Jwt(0) && w.location == "etcd:/secrets/token#token"));
    assert_eq!(writes.iter().filter(|w| matches!(w.artifact, Artifact::PairPrivateKey(_))).count(), 2);
}

#[test]
fn roots_lists_pairs_without_signer() {
    let g = root_and_child();
    let root = g.cert_key_pairs.iter().position(|p| p.distributed_cert.certificate.content == 1).unwrap();
    assert_eq!(g.roots(), vec![root]);
}

#[test]
fn allowlist_literal_and_regex() {
    let allow = vec!["CN=admin, OU=openshift".to_string(), "CN=ingress-operator@\\d+".to_string(), "(".to_string()];
    assert!(is_known_missing(&allow, &"CN=admin, OU=openshift".to_string()));
    assert!(is_known_missing(&allow, &"CN=ingress-operator@1712345678".to_string()));
    assert!(!is_known_missing(&allow, &"CN=ingress-operator@".to_string()));
    assert!(!is_known_missing(&allow, &"CN=other".to_string()));
}

#[test]
fn x509_rejects_malformed_der() {
    let mut g = ClusterCryptoObjectsInternal::new();
    g.register_discovered_crypto_objects(vec![at(cert(1, "CN=a", "CN=a", 11), "a")]);
    assert_eq!(g.pair_certs_and_keys(&vec!["CN=a".to_string()]), Ok(()));
    assert_eq!(g.signature_checks(), vec![vec![SignatureCheck::Failed]]);
}

#[test]
fn locations_ignore_repeats() {
    let mut l = Locations::new("a".to_string());
    l.insert("b".to_string());
    l.insert("a".to_string());
    assert_eq!(l.len(), 2);
    assert!(l.contains(&"b".to_string()));
    assert!(!l.contains(&"c".to_string()));
}

#[test]
fn phases_run_twice_with_empty_stream() {
    let mut g = root_and_child();
    let root = g.cert_key_pairs.iter().position(|p| p.distributed_cert.certificate.content == 1).unwrap();
    let child = 1 - root;
    g.register_discovered_crypto_objects(vec![]);
    assert_eq!(g.pair_certs_and_keys(&vec![]), Ok(()));
    assert_eq!(g.cert_key_pairs.len(), 2);
    g.associate_public_keys();
    let c = checks(2, &[(child, root, SignatureCheck::Signed)]);
    assert_eq!(g.fill_cert_key_signers(&c, &no_confirmations(2)), Ok(()));
    let mut by_pair = vec![vec![false; 2]];
    by_pair[0][child] = true;
    assert_eq!(g.fill_jwt_signers(&vec![vec![]], &by_pair), Ok(()));
    g.fill_signees();
    assert_eq!(g.cert_key_pairs[root].signees, vec![Signee::CertKeyPair(child)]);
    assert_eq!(g.cert_key_pairs[child].signees, vec![Signee::Jwt(0)]);
    assert_eq!(g.cert_key_pairs[child].signer, Some(root));
    assert_eq!(g.jwts[0].signer, JwtSigner::CertKeyPair(child));
    assert_eq!(g.certs.len(), 0);
}
