use vstd::prelude::*;
use std::collections::HashMap;
use crate::objects::{
    ArtifactId, CertKeyPair, CryptoObject, DiscoveredCryptoObject, DistributedCert, DistributedJwt,
    DistributedPrivateKey, DistributedPublicKey,
};
use crate::registry::{
    fresh_cert, fresh_jwt, fresh_private_key, fresh_public_key, cert_sites, certs_wf, jwt_sites, jwts_wf, private_key_sites, private_keys_wf, public_key_sites,
    public_keys_wf, upsert_cert, upsert_jwt, upsert_private_key, upsert_public_key,
};

verus! {

broadcast use vstd::std_specs::hash::group_hash_axioms;

/// Every crypto object found in the cluster, the places where it was found,
/// and how the objects relate to each other. Cross-references are indices:
/// into `cert_key_pairs`, `private_keys`, `public_keys` and `jwts`.
pub struct ClusterCryptoObjectsInternal {
    pub private_keys: Vec<DistributedPrivateKey>,
    pub public_keys: Vec<DistributedPublicKey>,
    pub certs: Vec<DistributedCert>,
    pub jwts: Vec<DistributedJwt>,
    /// The public half of every private key seen, mapped back to that private key.
    pub public_to_private: HashMap<u64, u64>,
    pub cert_key_pairs: Vec<CertKeyPair>,
}

/// The sites at which the stream reports the artifact `id`.
pub open spec fn stream_sites(evs: Seq<DiscoveredCryptoObject>, id: ArtifactId) -> Set<Seq<char>>
    decreases evs.len(),
{
    if evs.len() == 0 {
        Set::empty()
    } else {
        let rest = stream_sites(evs.drop_last(), id);
        if evs.last().crypto_object.id() == id {
            rest.insert(evs.last().location@)
        } else {
            rest
        }
    }
}

/// The stream reports a private key `key` whose public half is `public`.
pub open spec fn reports_private_key(evs: Seq<DiscoveredCryptoObject>, key: u64, public: u64) -> bool {
    exists|j: int| 0 <= j < evs.len() && evs[j].crypto_object == CryptoObject::PrivateKey(key, public)
}

/// The public-to-private index after the stream, later entries replacing earlier ones.
pub open spec fn index_after(m: Map<u64, u64>, evs: Seq<DiscoveredCryptoObject>) -> Map<u64, u64>
    decreases evs.len(),
{
    if evs.len() == 0 {
        m
    } else {
        let rest = index_after(m, evs.drop_last());
        match evs.last().crypto_object {
            CryptoObject::PrivateKey(private, public) => rest.insert(public, private),
            _ => rest,
        }
    }
}

impl ClusterCryptoObjectsInternal {
    /// The sites recorded for an artifact in its registry.
    pub open spec fn sites(&self, id: ArtifactId) -> Set<Seq<char>> {
        match id {
            ArtifactId::PrivateKey(k) => private_key_sites(self.private_keys@, k),
            ArtifactId::PublicKey(k) => public_key_sites(self.public_keys@, k),
            ArtifactId::Certificate(k) => cert_sites(self.certs@, k),
            ArtifactId::Jwt(k) => jwt_sites(self.jwts@, k),
        }
    }

    /// Each registry holds one record per content, with a well-formed set of sites.
    pub open spec fn registries_wf(&self) -> bool {
        &&& private_keys_wf(self.private_keys@)
        &&& public_keys_wf(self.public_keys@)
        &&& certs_wf(self.certs@)
        &&& jwts_wf(self.jwts@)
    }

    pub open spec fn is_empty(&self) -> bool {
        &&& self.private_keys@.len() == 0
        &&& self.public_keys@.len() == 0
        &&& self.certs@.len() == 0
        &&& self.jwts@.len() == 0
        &&& self.public_to_private@ == Map::<u64, u64>::empty()
        &&& self.cert_key_pairs@.len() == 0
    }

    pub fn new() -> (r: Self)
        ensures
            r.is_empty(),
            r.registries_wf(),
    {
        ClusterCryptoObjectsInternal {
            private_keys: Vec::new(),
            public_keys: Vec::new(),
            certs: Vec::new(),
            jwts: Vec::new(),
            public_to_private: HashMap::new(),
            cert_key_pairs: Vec::new(),
        }
    }

    /// Folds a stream of discovered objects into the four registries: each
    /// artifact gets one record, whose sites grow by the sites of the stream.
    pub fn register_discovered_crypto_objects(&mut self, discovered_crypto_objects: Vec<DiscoveredCryptoObject>)
        requires
            old(self).registries_wf(),
        ensures
            final(self).registries_wf(),
            forall|id: ArtifactId|
                #[trigger] final(self).sites(id) == old(self).sites(id).union(
                    stream_sites(discovered_crypto_objects@, id),
                ),
            final(self).public_to_private@ == index_after(
                old(self).public_to_private@,
                discovered_crypto_objects@,
            ),
            final(self).cert_key_pairs@ == old(self).cert_key_pairs@,
            discovered_crypto_objects@.len() == 0 ==> *final(self) == *old(self),
            forall|i: int|
                old(self).private_keys@.len() <= i < final(self).private_keys@.len() ==> reports_private_key(
                    discovered_crypto_objects@,
                    (#[trigger] final(self).private_keys@[i]).key,
                    final(self).private_keys@[i].public,
                ),
            final(self).private_keys@.len() >= old(self).private_keys@.len(),
            forall|i: int|
                0 <= i < old(self).private_keys@.len() ==> (#[trigger] final(self).private_keys@[i]) == (DistributedPrivateKey {
                    locations: final(self).private_keys@[i].locations,
                    ..old(self).private_keys@[i]
                }),
            forall|i: int|
                old(self).private_keys@.len() <= i < final(self).private_keys@.len() ==> fresh_private_key(#[trigger] final(self).private_keys@[i]),
            final(self).public_keys@.len() >= old(self).public_keys@.len(),
            forall|i: int|
                0 <= i < old(self).public_keys@.len() ==> (#[trigger] final(self).public_keys@[i]) == (DistributedPublicKey {
                    locations: final(self).public_keys@[i].locations,
                    ..old(self).public_keys@[i]
                }),
            forall|i: int|
                old(self).public_keys@.len() <= i < final(self).public_keys@.len() ==> fresh_public_key(#[trigger] final(self).public_keys@[i]),
            final(self).certs@.len() >= old(self).certs@.len(),
            forall|i: int|
                0 <= i < old(self).certs@.len() ==> (#[trigger] final(self).certs@[i]) == (DistributedCert {
                    locations: final(self).certs@[i].locations,
                    ..old(self).certs@[i]
                }),
            forall|i: int|
                old(self).certs@.len() <= i < final(self).certs@.len() ==> fresh_cert(#[trigger] final(self).certs@[i]),
            final(self).jwts@.len() >= old(self).jwts@.len(),
            forall|i: int|
                0 <= i < old(self).jwts@.len() ==> (#[trigger] final(self).jwts@[i]) == (DistributedJwt {
                    locations: final(self).jwts@[i].locations,
                    ..old(self).jwts@[i]
                }),
            forall|i: int|
                old(self).jwts@.len() <= i < final(self).jwts@.len() ==> fresh_jwt(#[trigger] final(self).jwts@[i]),
    {
        let ghost orig = discovered_crypto_objects@;
        let mut evs = discovered_crypto_objects;
        let ghost mut done: int = 0;
        while evs.len() > 0
            invariant
                0 <= done <= orig.len(),
                evs@ == orig.subrange(done, orig.len() as int),
                self.registries_wf(),
                forall|id: ArtifactId|
                    #[trigger] self.sites(id) == old(self).sites(id).union(
                        stream_sites(orig.subrange(0, done), id),
                    ),
                self.public_to_private@ == index_after(
                    old(self).public_to_private@,
                    orig.subrange(0, done),
                ),
                self.cert_key_pairs@ == old(self).cert_key_pairs@,
                done == 0 ==> *self == *old(self),
                forall|i: int|
                    old(self).private_keys@.len() <= i < self.private_keys@.len() ==> reports_private_key(
                        orig.subrange(0, done),
                        (#[trigger] self.private_keys@[i]).key,
                        self.private_keys@[i].public,
                    ),
                self.private_keys@.len() >= old(self).private_keys@.len(),
                forall|i: int|
                    0 <= i < old(self).private_keys@.len() ==> (#[trigger] self.private_keys@[i]) == (DistributedPrivateKey {
                        locations: self.private_keys@[i].locations,
                        ..old(self).private_keys@[i]
                    }),
                forall|i: int|
                    old(self).private_keys@.len() <= i < self.private_keys@.len() ==> fresh_private_key(#[trigger] self.private_keys@[i]),
                self.public_keys@.len() >= old(self).public_keys@.len(),
                forall|i: int|
                    0 <= i < old(self).public_keys@.len() ==> (#[trigger] self.public_keys@[i]) == (DistributedPublicKey {
                        locations: self.public_keys@[i].locations,
                        ..old(self).public_keys@[i]
                    }),
                forall|i: int|
                    old(self).public_keys@.len() <= i < self.public_keys@.len() ==> fresh_public_key(#[trigger] self.public_keys@[i]),
                self.certs@.len() >= old(self).certs@.len(),
                forall|i: int|
                    0 <= i < old(self).certs@.len() ==> (#[trigger] self.certs@[i]) == (DistributedCert {
                        locations: self.certs@[i].locations,
                        ..old(self).certs@[i]
                    }),
                forall|i: int|
                    old(self).certs@.len() <= i < self.certs@.len() ==> fresh_cert(#[trigger] self.certs@[i]),
                self.jwts@.len() >= old(self).jwts@.len(),
                forall|i: int|
                    0 <= i < old(self).jwts@.len() ==> (#[trigger] self.jwts@[i]) == (DistributedJwt {
                        locations: self.jwts@[i].locations,
                        ..old(self).jwts@[i]
                    }),
                forall|i: int|
                    old(self).jwts@.len() <= i < self.jwts@.len() ==> fresh_jwt(#[trigger] self.jwts@[i]),
            decreases evs@.len(),
        {
            let ghost prev = *self;
            let ghost pre = orig.subrange(0, done);
            let ghost post = orig.subrange(0, done + 1);
            let e = evs.remove(0);
            proof {
                assert(e == orig[done]);
                assert(post.drop_last() =~= pre);
                assert(post.last() == e);
            }
            let ghost eid = e.crypto_object.id();
            let ghost lv = e.location@;
            let DiscoveredCryptoObject { crypto_object, location } = e;
            match crypto_object {
                CryptoObject::PrivateKey(private, public) => {
                    self.public_to_private.insert(public, private);
                    upsert_private_key(&mut self.private_keys, private, public, location);
                },
                CryptoObject::PublicKey(key) => {
                    upsert_public_key(&mut self.public_keys, key, location);
                },
                CryptoObject::Certificate(certificate) => {
                    upsert_cert(&mut self.certs, certificate, location);
                },
                CryptoObject::Jwt(jwt) => {
                    upsert_jwt(&mut self.jwts, jwt, location);
                },
            }
            proof {
                assert forall|i: int|
                    old(self).private_keys@.len() <= i < self.private_keys@.len() implies reports_private_key(
                        post,
                        (#[trigger] self.private_keys@[i]).key,
                        self.private_keys@[i].public,
                    ) by {
                    if i < prev.private_keys@.len() {
                        assert(self.private_keys@[i].key == prev.private_keys@[i].key);
                        assert(reports_private_key(pre, prev.private_keys@[i].key, prev.private_keys@[i].public));
                        let j = choose|j: int| 0 <= j < pre.len() && pre[j].crypto_object == CryptoObject::PrivateKey(prev.private_keys@[i].key, prev.private_keys@[i].public);
                        assert(post[j] == pre[j]);
                    } else {
                        assert(post[done] == orig[done]);
                    }
                }
                assert forall|id: ArtifactId|
                    #[trigger] self.sites(id) == (if id == eid {
                        prev.sites(id).insert(lv)
                    } else {
                        prev.sites(id)
                    }) by {}
                assert forall|id: ArtifactId|
                    #[trigger] self.sites(id) == old(self).sites(id).union(
                        stream_sites(post, id),
                    ) by {
                    assert(prev.sites(id) == old(self).sites(id).union(stream_sites(pre, id)));
                    if id == eid {
                        assert(self.sites(id) =~= old(self).sites(id).union(stream_sites(post, id)));
                    }
                }
                done = done + 1;
            }
        }
        proof {
            assert(orig.subrange(0, done) =~= orig);
        }
    }
}

} // verus!
